//! A lexical scanner for a small scripting language.
//!
//! The scanner turns source text into a sequence of line-tagged tokens and
//! collects every lexical error that it meets on the way, going on behind
//! each of them.
//!
//! - [`grammar`] states what scanning a source yields, over sequences of
//!   characters.
//! - [`scanner`] holds the scanner itself, proved to yield exactly that.
//! - [`laws`] proves what holds of the tokens and errors of every source.
//! - [`token`], [`token_type`] and [`error`] hold the values that a scan
//!   produces, and [`text`] the conversions between strings and characters.

pub mod error;
pub mod grammar;
pub mod laws;
pub mod scanner;
pub mod text;
pub mod token;
pub mod token_type;
