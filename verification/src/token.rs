//! Tokens and the literal values they carry.

use vstd::prelude::*;
use crate::token_type::TokenType;

verus! {

/// The value of a literal token.
///
/// A number is held as the decimal text that was matched, digit for digit:
/// one or more digits, optionally followed by a point and one or more digits.
/// A string is held as the characters between its quotes, taken as they are.
#[derive(Debug)]
pub enum Object {
    Num(String),
    Str(String),
}

/// What an [`Object`] stands for.
pub enum ObjectView {
    Num(Seq<char>),
    Str(Seq<char>),
}

impl View for Object {
    type V = ObjectView;

    open spec fn view(&self) -> ObjectView {
        match self {
            Object::Num(text) => ObjectView::Num(text@),
            Object::Str(text) => ObjectView::Str(text@),
        }
    }
}

/// One classified, line-tagged unit of the scanner's output.
#[derive(Debug)]
pub struct Token {
    ttype: TokenType,
    lexeme: String,
    literal: Option<Object>,
    line: usize,
}

/// What a [`Token`] stands for.
pub struct TokenView {
    pub ttype: TokenType,
    pub lexeme: Seq<char>,
    pub literal: Option<ObjectView>,
    pub line: nat,
}

/// The view of an optional literal.
pub open spec fn literal_view(literal: Option<Object>) -> Option<ObjectView> {
    match literal {
        Some(object) => Some(object@),
        None => None,
    }
}

impl View for Token {
    type V = TokenView;

    closed spec fn view(&self) -> TokenView {
        TokenView {
            ttype: self.ttype,
            lexeme: self.lexeme@,
            literal: literal_view(self.literal),
            line: self.line as nat,
        }
    }
}

impl Token {
    /// The token with the given kind, lexeme, literal value and line.
    pub fn new(ttype: TokenType, lexeme: String, literal: Option<Object>, line: usize) -> (token:
        Token)
        ensures
            token@ == (TokenView {
                ttype,
                lexeme: lexeme@,
                literal: literal_view(literal),
                line: line as nat,
            }),
    {
        Token { ttype, lexeme, literal, line }
    }

    /// The kind of this token.
    pub fn ttype(&self) -> (ttype: TokenType)
        ensures
            ttype == self@.ttype,
    {
        self.ttype
    }

    /// The exact source text that was matched.
    pub fn lexeme(&self) -> (lexeme: &String)
        ensures
            lexeme@ == self@.lexeme,
    {
        &self.lexeme
    }

    /// The literal value, present for number and string tokens only.
    pub fn literal(&self) -> (literal: &Option<Object>)
        ensures
            literal_view(*literal) == self@.literal,
    {
        &self.literal
    }

    /// The line on which the token starts, counted from 1.
    pub fn line(&self) -> (line: usize)
        ensures
            line == self@.line,
    {
        self.line
    }
}

/// The views of a sequence of tokens, in order.
pub open spec fn token_views(tokens: Seq<Token>) -> Seq<TokenView> {
    Seq::new(tokens.len(), |i: int| tokens[i]@)
}

} // verus!
