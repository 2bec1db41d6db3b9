//! What scanning a source text yields, stated over sequences of characters.
//!
//! A source is read in steps. Each step starts where the one before it ended,
//! looks at the character there and either emits one token, skips a piece of
//! text that carries no token (blanks and comments), or fails with a lexical
//! error and goes on behind the offending text. The tokens of a source are
//! those its steps emit, in order, followed by an end-of-input token; its
//! errors are those its steps fail with, in order.
//!
//! Lines are not threaded through the steps: the line of a position is one
//! more than the number of newlines before it.

use vstd::prelude::*;
use crate::error::ErrorView;
use crate::token::{ObjectView, TokenView};
use crate::token_type::TokenType;

verus! {

/// The ASCII decimal digits.
pub open spec fn is_digit(c: char) -> bool {
    '0' <= c <= '9'
}

/// The ASCII letters.
pub open spec fn is_alpha(c: char) -> bool {
    ('a' <= c <= 'z') || ('A' <= c <= 'Z')
}

/// The characters that may start an identifier or keyword.
pub open spec fn is_word_start(c: char) -> bool {
    is_alpha(c) || c == '_'
}

/// The characters that may continue an identifier or keyword.
pub open spec fn is_word_part(c: char) -> bool {
    is_alpha(c) || is_digit(c) || c == '_'
}

/// The characters that separate tokens and carry none: space, carriage
/// return, tab and newline.
pub open spec fn is_blank(c: char) -> bool {
    c == ' ' || c == '\r' || c == '\t' || c == '\n'
}

/// The kinds of character run that the scanner consumes greedily.
pub enum CharClass {
    /// Decimal digits.
    Digit,
    /// Letters, digits and underscores.
    Word,
    /// Everything up to the end of the line.
    LineRest,
    /// Everything up to the next double quote.
    StringBody,
}

/// Whether `c` belongs to a run of the given class.
pub open spec fn in_class(class: CharClass, c: char) -> bool {
    match class {
        CharClass::Digit => is_digit(c),
        CharClass::Word => is_word_part(c),
        CharClass::LineRest => c != '\n',
        CharClass::StringBody => c != '"',
    }
}

/// Where the longest run of `class` characters that starts at `pos` ends:
/// the first position at or behind `pos` that holds no such character, or
/// the end of the source.
pub open spec fn run_end(src: Seq<char>, pos: int, class: CharClass) -> int
    decreases src.len() - pos,
{
    if 0 <= pos < src.len() && in_class(class, src[pos]) {
        run_end(src, pos + 1, class)
    } else {
        pos
    }
}

/// Whether the character at `pos` exists and is `c`.
pub open spec fn peek_is(src: Seq<char>, pos: int, c: char) -> bool {
    0 <= pos < src.len() && src[pos] == c
}

/// Where the block comment that is open `depth` levels deep at `pos` ends:
/// the position behind the `*/` that closes its outermost level, or `None`
/// if the source ends first. Inside a comment `/*` opens one more level and
/// `*/` closes one.
pub open spec fn comment_end(src: Seq<char>, pos: int, depth: nat) -> Option<int>
    decreases src.len() - pos,
{
    if depth == 0 {
        Some(pos)
    } else if pos < 0 || pos >= src.len() {
        None
    } else if src[pos] == '*' && peek_is(src, pos + 1, '/') {
        comment_end(src, pos + 2, (depth - 1) as nat)
    } else if src[pos] == '/' && peek_is(src, pos + 1, '*') {
        comment_end(src, pos + 2, depth + 1)
    } else {
        comment_end(src, pos + 1, depth)
    }
}

/// The number of newline characters in `s`.
pub open spec fn count_newlines(s: Seq<char>) -> nat
    decreases s.len(),
{
    if s.len() == 0 {
        0
    } else {
        count_newlines(s.drop_last()) + if s.last() == '\n' {
            1nat
        } else {
            0nat
        }
    }
}

/// The line of position `pos`, counted from 1: one more than the number of
/// newlines before it.
pub open spec fn line_at(src: Seq<char>, pos: int) -> nat {
    1 + count_newlines(src.take(pos))
}

/// The keyword that `text` spells, if it spells one. The match is exact and
/// case-sensitive. The reserved word `for` has no kind of its own in the
/// closed set of token kinds: it is classified as [`TokenType::False`].
pub open spec fn keyword_of(text: Seq<char>) -> Option<TokenType> {
    if text == "and"@ {
        Some(TokenType::And)
    } else if text == "class"@ {
        Some(TokenType::Class)
    } else if text == "else"@ {
        Some(TokenType::Else)
    } else if text == "false"@ {
        Some(TokenType::False)
    } else if text == "for"@ {
        Some(TokenType::False)
    } else if text == "fun"@ {
        Some(TokenType::Fun)
    } else if text == "if"@ {
        Some(TokenType::If)
    } else if text == "nil"@ {
        Some(TokenType::Nil)
    } else if text == "or"@ {
        Some(TokenType::Or)
    } else if text == "print"@ {
        Some(TokenType::Print)
    } else if text == "return"@ {
        Some(TokenType::Return)
    } else if text == "super"@ {
        Some(TokenType::Super)
    } else if text == "this"@ {
        Some(TokenType::This)
    } else if text == "true"@ {
        Some(TokenType::True)
    } else if text == "var"@ {
        Some(TokenType::Var)
    } else if text == "while"@ {
        Some(TokenType::While)
    } else {
        None
    }
}

/// The kind of the word `text`: its keyword, or an identifier.
pub open spec fn word_kind(text: Seq<char>) -> TokenType {
    match keyword_of(text) {
        Some(kind) => kind,
        None => TokenType::Identifier,
    }
}

/// The lexical errors.
pub enum ErrorKind {
    /// A character that starts no token.
    UnexpectedCharacter,
    /// A string literal whose closing quote is missing.
    UnterminatedString,
    /// A block comment of which some level is never closed.
    UnterminatedComment,
}

/// The message that describes an error of the given kind.
pub open spec fn message_of(kind: ErrorKind) -> Seq<char> {
    match kind {
        ErrorKind::UnexpectedCharacter => "Unexpected character"@,
        ErrorKind::UnterminatedString => "Unterminated string"@,
        ErrorKind::UnterminatedComment => "Unterminated comment"@,
    }
}

/// What one step does.
pub enum Outcome {
    /// A token of the given kind is emitted.
    Emit(TokenType),
    /// Text is consumed and nothing is emitted.
    Skip,
    /// An error of the given kind is found.
    Fail(ErrorKind),
}

/// One step of the scanner: what it does, and where the next step starts.
pub struct Step {
    pub outcome: Outcome,
    pub end: int,
}

/// The step that emits a token of kind `kind` and ends at `end`.
pub open spec fn emit(kind: TokenType, end: int) -> Step {
    Step { outcome: Outcome::Emit(kind), end }
}

/// The step that consumes text up to `end` without emitting anything.
pub open spec fn skip(end: int) -> Step {
    Step { outcome: Outcome::Skip, end }
}

/// The step that finds an error of kind `kind` at `end`.
pub open spec fn fail(kind: ErrorKind, end: int) -> Step {
    Step { outcome: Outcome::Fail(kind), end }
}

/// The step for an operator of one character that, followed by `=`, is an
/// operator of two.
pub open spec fn operator_step(src: Seq<char>, pos: int, alone: TokenType, with_equal: TokenType)
    -> Step {
    if peek_is(src, pos + 1, '=') {
        emit(with_equal, pos + 2)
    } else {
        emit(alone, pos + 1)
    }
}

/// The step that starts with the `/` at `pos`: a line comment, a block
/// comment, or the division operator.
pub open spec fn slash_step(src: Seq<char>, pos: int) -> Step {
    if peek_is(src, pos + 1, '/') {
        skip(run_end(src, pos + 2, CharClass::LineRest))
    } else if peek_is(src, pos + 1, '*') {
        match comment_end(src, pos + 2, 1) {
            Some(end) => skip(end),
            None => fail(ErrorKind::UnterminatedComment, src.len() as int),
        }
    } else {
        emit(TokenType::Slash, pos + 1)
    }
}

/// The step that starts with the `"` at `pos`: a string literal up to and
/// including the next `"`, or an error at the end of the source if there is
/// none.
pub open spec fn string_step(src: Seq<char>, pos: int) -> Step {
    let close = run_end(src, pos + 1, CharClass::StringBody);
    if close < src.len() {
        emit(TokenType::String, close + 1)
    } else {
        fail(ErrorKind::UnterminatedString, src.len() as int)
    }
}

/// The step that starts with the digit at `pos`: the longest run of digits,
/// and behind it a point and the longest run of digits if at least one digit
/// follows the point.
pub open spec fn number_step(src: Seq<char>, pos: int) -> Step {
    let whole = run_end(src, pos, CharClass::Digit);
    if peek_is(src, whole, '.') && whole + 1 < src.len() && is_digit(src[whole + 1]) {
        emit(TokenType::Number, run_end(src, whole + 1, CharClass::Digit))
    } else {
        emit(TokenType::Number, whole)
    }
}

/// The step that starts with the letter or underscore at `pos`: the longest
/// run of word characters, classified as a keyword or an identifier.
pub open spec fn word_step(src: Seq<char>, pos: int) -> Step {
    let end = run_end(src, pos, CharClass::Word);
    emit(word_kind(src.subrange(pos, end)), end)
}

/// The step that starts at `pos`, a position inside the source.
pub open spec fn step(src: Seq<char>, pos: int) -> Step
    recommends
        0 <= pos < src.len(),
{
    let c = src[pos];
    if c == '(' {
        emit(TokenType::LeftParen, pos + 1)
    } else if c == ')' {
        emit(TokenType::RightParen, pos + 1)
    } else if c == '{' {
        emit(TokenType::LeftBrace, pos + 1)
    } else if c == '}' {
        emit(TokenType::RightBrace, pos + 1)
    } else if c == ',' {
        emit(TokenType::Comma, pos + 1)
    } else if c == '.' {
        emit(TokenType::Dot, pos + 1)
    } else if c == '-' {
        emit(TokenType::Minus, pos + 1)
    } else if c == '+' {
        emit(TokenType::Plus, pos + 1)
    } else if c == ';' {
        emit(TokenType::SemiColon, pos + 1)
    } else if c == '*' {
        emit(TokenType::Star, pos + 1)
    } else if c == '!' {
        operator_step(src, pos, TokenType::Bang, TokenType::BangEqual)
    } else if c == '=' {
        operator_step(src, pos, TokenType::Assign, TokenType::Equal)
    } else if c == '<' {
        operator_step(src, pos, TokenType::Lesser, TokenType::LesserEqual)
    } else if c == '>' {
        operator_step(src, pos, TokenType::Greater, TokenType::GreaterEqual)
    } else if c == '/' {
        slash_step(src, pos)
    } else if is_blank(c) {
        skip(pos + 1)
    } else if c == '"' {
        string_step(src, pos)
    } else if is_digit(c) {
        number_step(src, pos)
    } else if is_word_start(c) {
        word_step(src, pos)
    } else {
        fail(ErrorKind::UnexpectedCharacter, pos + 1)
    }
}

/// A run never ends before it starts nor behind the source, every character
/// in it is of its class, and the character behind it, if there is one, is
/// not.
pub proof fn lemma_run_end(src: Seq<char>, pos: int, class: CharClass)
    requires
        0 <= pos <= src.len(),
    ensures
        pos <= run_end(src, pos, class) <= src.len(),
        forall|i: int| pos <= i < run_end(src, pos, class) ==> in_class(class, #[trigger] src[i]),
        run_end(src, pos, class) < src.len() ==> !in_class(class, src[run_end(src, pos, class)]),
    decreases src.len() - pos,
{
    if pos < src.len() && in_class(class, src[pos]) {
        lemma_run_end(src, pos + 1, class);
    }
}

/// A comment that ends does so inside the source, and `depth` closing marks
/// of two characters each lie between its start and its end.
pub proof fn lemma_comment_end(src: Seq<char>, pos: int, depth: nat)
    requires
        0 <= pos <= src.len(),
    ensures
        comment_end(src, pos, depth) matches Some(end) ==> pos + 2 * depth <= end <= src.len(),
    decreases src.len() - pos,
{
    if depth == 0 || pos >= src.len() {
    } else if src[pos] == '*' && peek_is(src, pos + 1, '/') {
        lemma_comment_end(src, pos + 2, (depth - 1) as nat);
    } else if src[pos] == '/' && peek_is(src, pos + 1, '*') {
        lemma_comment_end(src, pos + 2, depth + 1);
    } else {
        lemma_comment_end(src, pos + 1, depth);
    }
}

/// Every step consumes at least one character and ends inside the source.
pub proof fn lemma_step_advances(src: Seq<char>, pos: int)
    requires
        0 <= pos < src.len(),
    ensures
        pos < step(src, pos).end <= src.len(),
{
    let c = src[pos];
    if c == '/' {
        if peek_is(src, pos + 1, '/') {
            lemma_run_end(src, pos + 2, CharClass::LineRest);
        } else if peek_is(src, pos + 1, '*') {
            lemma_comment_end(src, pos + 2, 1);
        }
    } else if c == '"' {
        lemma_run_end(src, pos + 1, CharClass::StringBody);
    } else if is_digit(c) {
        lemma_run_end(src, pos, CharClass::Digit);
        let whole = run_end(src, pos, CharClass::Digit);
        if whole + 1 < src.len() {
            lemma_run_end(src, whole + 1, CharClass::Digit);
        }
    } else if is_word_start(c) {
        lemma_run_end(src, pos, CharClass::Word);
    }
}

/// The place of a token in the source: its kind and the positions where its
/// lexeme starts and ends.
pub struct Span {
    pub kind: TokenType,
    pub start: int,
    pub end: int,
}

/// The places of the tokens that scanning yields from `pos` on: those that
/// the steps from `pos` emit, then the end-of-input marker behind the last
/// character.
pub open spec fn spans_from(src: Seq<char>, pos: int) -> Seq<Span>
    decreases src.len() - pos,
{
    if 0 <= pos < src.len() {
        proof {
            lemma_step_advances(src, pos);
        }
        let s = step(src, pos);
        match s.outcome {
            Outcome::Emit(kind) => seq![Span { kind, start: pos, end: s.end }] + spans_from(
                src,
                s.end,
            ),
            _ => spans_from(src, s.end),
        }
    } else {
        seq![Span { kind: TokenType::Eof, start: src.len() as int, end: src.len() as int }]
    }
}

/// A lexical error in the source: its kind and the position at which it was
/// detected.
pub struct Fault {
    pub kind: ErrorKind,
    pub at: int,
}

/// The errors that scanning finds from `pos` on, in order.
pub open spec fn faults_from(src: Seq<char>, pos: int) -> Seq<Fault>
    decreases src.len() - pos,
{
    if 0 <= pos < src.len() {
        proof {
            lemma_step_advances(src, pos);
        }
        let s = step(src, pos);
        match s.outcome {
            Outcome::Fail(kind) => seq![Fault { kind, at: s.end }] + faults_from(src, s.end),
            _ => faults_from(src, s.end),
        }
    } else {
        Seq::empty()
    }
}

/// The literal value of the token at `span`: the matched text for a number,
/// the text between the quotes for a string, none for any other kind.
pub open spec fn literal_at(src: Seq<char>, span: Span) -> Option<ObjectView> {
    match span.kind {
        TokenType::Number => Some(ObjectView::Num(src.subrange(span.start, span.end))),
        TokenType::String => Some(ObjectView::Str(src.subrange(span.start + 1, span.end - 1))),
        _ => None,
    }
}

/// The token at `span`: its lexeme is the text of the span, its line is the
/// line on which the span starts.
pub open spec fn token_at(src: Seq<char>, span: Span) -> TokenView {
    TokenView {
        ttype: span.kind,
        lexeme: src.subrange(span.start, span.end),
        literal: literal_at(src, span),
        line: line_at(src, span.start),
    }
}

/// The error for `fault`: its line is the line of the position at which it
/// was detected.
pub open spec fn error_at(src: Seq<char>, fault: Fault) -> ErrorView {
    ErrorView { line: line_at(src, fault.at), message: message_of(fault.kind) }
}

/// The tokens at the given places.
pub open spec fn tokens_at(src: Seq<char>, spans: Seq<Span>) -> Seq<TokenView> {
    Seq::new(spans.len(), |i: int| token_at(src, spans[i]))
}

/// The errors for the given faults.
pub open spec fn errors_at(src: Seq<char>, faults: Seq<Fault>) -> Seq<ErrorView> {
    Seq::new(faults.len(), |i: int| error_at(src, faults[i]))
}

/// The tokens that scanning yields from `pos` on.
pub open spec fn tokens_from(src: Seq<char>, pos: int) -> Seq<TokenView> {
    tokens_at(src, spans_from(src, pos))
}

/// The errors that scanning finds from `pos` on.
pub open spec fn errors_from(src: Seq<char>, pos: int) -> Seq<ErrorView> {
    errors_at(src, faults_from(src, pos))
}

/// The tokens of a source.
pub open spec fn tokens_of(src: Seq<char>) -> Seq<TokenView> {
    tokens_from(src, 0)
}

/// The errors of a source.
pub open spec fn errors_of(src: Seq<char>) -> Seq<ErrorView> {
    errors_from(src, 0)
}

/// The tokens at the places `a + b` are those at `a` followed by those at
/// `b`.
pub proof fn lemma_tokens_at_concat(src: Seq<char>, a: Seq<Span>, b: Seq<Span>)
    ensures
        tokens_at(src, a + b) == tokens_at(src, a) + tokens_at(src, b),
{
    assert(tokens_at(src, a + b) =~= tokens_at(src, a) + tokens_at(src, b));
}

/// The errors for the faults `a + b` are those for `a` followed by those for
/// `b`.
pub proof fn lemma_errors_at_concat(src: Seq<char>, a: Seq<Fault>, b: Seq<Fault>)
    ensures
        errors_at(src, a + b) == errors_at(src, a) + errors_at(src, b),
{
    assert(errors_at(src, a + b) =~= errors_at(src, a) + errors_at(src, b));
}

/// Scanning from a position inside the source takes one step and goes on
/// where that step ends: a token that the step emits comes first among the
/// tokens, an error that it finds comes first among the errors, and neither
/// keeps the scan from going on.
pub proof fn lemma_scan_unfolds(src: Seq<char>, pos: int)
    requires
        0 <= pos < src.len(),
    ensures
        pos < step(src, pos).end <= src.len(),
        tokens_from(src, pos) == match step(src, pos).outcome {
            Outcome::Emit(kind) => seq![
                token_at(src, Span { kind, start: pos, end: step(src, pos).end }),
            ] + tokens_from(src, step(src, pos).end),
            _ => tokens_from(src, step(src, pos).end),
        },
        errors_from(src, pos) == match step(src, pos).outcome {
            Outcome::Fail(kind) => seq![error_at(src, Fault { kind, at: step(src, pos).end })]
                + errors_from(src, step(src, pos).end),
            _ => errors_from(src, step(src, pos).end),
        },
{
    lemma_step_advances(src, pos);
    let s = step(src, pos);
    match s.outcome {
        Outcome::Emit(kind) => {
            let span = Span { kind, start: pos, end: s.end };
            lemma_tokens_at_concat(src, seq![span], spans_from(src, s.end));
            assert(tokens_at(src, seq![span]) =~= seq![token_at(src, span)]);
        },
        Outcome::Fail(kind) => {
            let fault = Fault { kind, at: s.end };
            lemma_errors_at_concat(src, seq![fault], faults_from(src, s.end));
            assert(errors_at(src, seq![fault]) =~= seq![error_at(src, fault)]);
        },
        Outcome::Skip => {},
    }
}

/// The end-of-input token of a source: its lexeme is empty and its line is
/// the last line of the source.
pub open spec fn eof_token(src: Seq<char>) -> TokenView {
    TokenView {
        ttype: TokenType::Eof,
        lexeme: Seq::<char>::empty(),
        literal: None,
        line: 1 + count_newlines(src),
    }
}

/// Scanning from the end of the source yields the end-of-input token and no
/// error.
pub proof fn lemma_scan_at_end(src: Seq<char>)
    ensures
        tokens_from(src, src.len() as int) == seq![eof_token(src)],
        errors_from(src, src.len() as int) == Seq::<ErrorView>::empty(),
        line_at(src, src.len() as int) == 1 + count_newlines(src),
{
    let end = src.len() as int;
    assert(src.subrange(end, end) =~= Seq::<char>::empty());
    assert(src.take(end) =~= src);
    assert(tokens_from(src, end) =~= seq![eof_token(src)]);
    assert(errors_from(src, end) =~= Seq::<ErrorView>::empty());
}

} // verus!
