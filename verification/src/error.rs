//! Lexical errors and the diagnostic line that describes one.

use vstd::prelude::*;
use vstd::string::*;

verus! {

/// A lexical error: the line on which it was detected and what went wrong.
#[derive(Debug)]
pub struct BenzeneError {
    line: usize,
    message: String,
}

/// What a [`BenzeneError`] stands for.
pub struct ErrorView {
    pub line: nat,
    pub message: Seq<char>,
}

impl View for BenzeneError {
    type V = ErrorView;

    closed spec fn view(&self) -> ErrorView {
        ErrorView { line: self.line as nat, message: self.message@ }
    }
}

/// The character that writes the decimal digit `d`.
pub open spec fn digit_char(d: nat) -> char
    recommends
        d < 10,
{
    if d == 0 {
        '0'
    } else if d == 1 {
        '1'
    } else if d == 2 {
        '2'
    } else if d == 3 {
        '3'
    } else if d == 4 {
        '4'
    } else if d == 5 {
        '5'
    } else if d == 6 {
        '6'
    } else if d == 7 {
        '7'
    } else if d == 8 {
        '8'
    } else {
        '9'
    }
}

/// The decimal numeral of `n`, without sign, padding or leading zeros.
pub open spec fn decimal(n: nat) -> Seq<char>
    decreases n,
{
    if n < 10 {
        seq![digit_char(n)]
    } else {
        decimal(n / 10).push(digit_char(n % 10))
    }
}

/// The diagnostic line for an error: `[line N] Error LOCATION: MESSAGE`.
pub open spec fn report_line(error: ErrorView, location: Seq<char>) -> Seq<char> {
    "[line "@ + decimal(error.line) + "] Error "@ + location + ": "@ + error.message
}

fn digit_to_char(d: usize) -> (c: char)
    requires
        d < 10,
    ensures
        c == digit_char(d as nat),
{
    if d == 0 {
        '0'
    } else if d == 1 {
        '1'
    } else if d == 2 {
        '2'
    } else if d == 3 {
        '3'
    } else if d == 4 {
        '4'
    } else if d == 5 {
        '5'
    } else if d == 6 {
        '6'
    } else if d == 7 {
        '7'
    } else if d == 8 {
        '8'
    } else {
        '9'
    }
}

/// Appends the decimal numeral of `n` to `out`.
fn push_decimal(out: &mut String, n: usize)
    ensures
        final(out)@ == old(out)@ + decimal(n as nat),
    decreases n,
{
    if n >= 10 {
        push_decimal(out, n / 10);
    }
    out.push(digit_to_char(n % 10));
}

impl Clone for BenzeneError {
    /// A copy with the same line and the same message.
    fn clone(&self) -> (copy: BenzeneError)
        ensures
            copy@ == self@,
    {
        BenzeneError { line: self.line, message: self.message.clone() }
    }
}

impl BenzeneError {
    /// The error with the given message, detected on the given line.
    pub fn error(line: usize, message: String) -> (error: BenzeneError)
        ensures
            error@ == (ErrorView { line: line as nat, message: message@ }),
    {
        BenzeneError { line, message }
    }

    /// The line on which the error was detected, counted from 1.
    pub fn line(&self) -> (line: usize)
        ensures
            line == self@.line,
    {
        self.line
    }

    /// The description of what went wrong.
    pub fn message(&self) -> (message: &String)
        ensures
            message@ == self@.message,
    {
        &self.message
    }

    /// The diagnostic line for this error, ready to be written to the error
    /// stream. `location` says where on the line the error lies and may be
    /// empty.
    pub fn report(&self, location: String) -> (line: String)
        ensures
            line@ == report_line(self@, location@),
    {
        let mut out = String::new();
        out.append("[line ");
        push_decimal(&mut out, self.line);
        out.append("] Error ");
        out.append(location.as_str());
        out.append(": ");
        out.append(self.message.as_str());
        out
    }
}

/// The views of a sequence of errors, in order.
pub open spec fn error_views(errors: Seq<BenzeneError>) -> Seq<ErrorView> {
    Seq::new(errors.len(), |i: int| errors[i]@)
}

} // verus!
