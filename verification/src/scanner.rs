//! The scanner: a cursor over the characters of a source that emits tokens
//! and collects lexical errors.

use vstd::prelude::*;
use vstd::string::*;
use crate::error::{error_views, BenzeneError, ErrorView};
use crate::grammar::{
    comment_end, count_newlines, error_at, errors_from, errors_of, is_alpha, is_digit,
    is_word_part, is_word_start, keyword_of, lemma_run_end, lemma_scan_at_end,
    lemma_scan_unfolds, line_at, number_step, peek_is, run_end, slash_step, step, string_step,
    token_at, tokens_from, tokens_of, word_step, CharClass, Fault, Outcome, Span, Step,
};
use crate::laws::lemma_line_counts_newlines;
use crate::text::{chars_of, spells, text_of};
use crate::token::{literal_view, token_views, Object, Token, TokenView};
use crate::token_type::TokenType;

verus! {

/// A cursor over the characters of one source text.
///
/// `start` is where the lexeme being matched begins, `current` is the next
/// character to consume and `line` is the line of `current`. Tokens and
/// errors pile up in the order in which they are met.
pub struct Scanner {
    source: Vec<char>,
    tokens: Vec<Token>,
    errors: Vec<BenzeneError>,
    start: usize,
    current: usize,
    line: usize,
}

/// Consuming the character at `pos` moves to the next line exactly if that
/// character is a newline.
proof fn lemma_line_next(src: Seq<char>, pos: int)
    requires
        0 <= pos < src.len(),
    ensures
        line_at(src, pos + 1) == line_at(src, pos) + if src[pos] == '\n' {
            1nat
        } else {
            0nat
        },
{
    assert(src.take(pos + 1).drop_last() =~= src.take(pos));
}

/// What a recognition step leaves behind: the scanner `post` and the result
/// `res` are those of taking step `s` from the scanner `pre`, whose lexeme
/// starts at `pre.start`.
spec fn stepped(pre: Scanner, post: Scanner, res: Result<(), BenzeneError>, s: Step) -> bool {
    let src = pre.source@;
    &&& post.source == pre.source
    &&& post.errors == pre.errors
    &&& post.start == pre.start
    &&& post.current == s.end
    &&& post.line == line_at(src, s.end)
    &&& match s.outcome {
        Outcome::Emit(kind) => {
            &&& res is Ok
            &&& token_views(post.tokens@) == token_views(pre.tokens@).push(
                token_at(src, Span { kind, start: pre.start as int, end: s.end }),
            )
        },
        Outcome::Skip => res is Ok && post.tokens == pre.tokens,
        Outcome::Fail(kind) => {
            &&& post.tokens == pre.tokens
            &&& res matches Err(e)
            &&& e@ == error_at(src, Fault { kind, at: s.end })
        },
    }
}

impl Scanner {
    /// The characters of the source.
    pub closed spec fn source_view(&self) -> Seq<char> {
        self.source@
    }

    /// The tokens emitted so far.
    pub closed spec fn token_views(&self) -> Seq<TokenView> {
        token_views(self.tokens@)
    }

    /// The errors found so far.
    pub closed spec fn error_views(&self) -> Seq<ErrorView> {
        error_views(self.errors@)
    }

    /// The position of the next character to consume.
    pub closed spec fn position(&self) -> int {
        self.current as int
    }

    /// The cursor lies inside the source, the line counter is the line of the
    /// cursor, and the number of the last line fits the counter.
    pub closed spec fn wf(&self) -> bool {
        &&& self.start <= self.current <= self.source.len()
        &&& self.line == line_at(self.source@, self.current as int)
        &&& line_at(self.source@, self.source.len() as int) <= usize::MAX
    }

    /// Whether nothing has been scanned yet: the cursor stands at the start
    /// of the source and no token or error is held.
    pub open spec fn is_fresh(&self) -> bool {
        &&& self.position() == 0
        &&& self.token_views() == Seq::<TokenView>::empty()
        &&& self.error_views() == Seq::<ErrorView>::empty()
    }

    /// Whether `self` is what a scan to the end of the source leaves of
    /// `pre`: the same source with the cursor at its end, and behind the
    /// tokens and errors that `pre` held those that scanning yields from the
    /// cursor of `pre` on.
    pub open spec fn scanned_from(&self, pre: Scanner) -> bool {
        &&& self.source_view() == pre.source_view()
        &&& self.position() == pre.source_view().len()
        &&& self.token_views() == pre.token_views() + tokens_from(
            pre.source_view(),
            pre.position(),
        )
        &&& self.error_views() == pre.error_views() + errors_from(
            pre.source_view(),
            pre.position(),
        )
    }

    /// A scanner at the start of `source`, with nothing emitted yet.
    ///
    /// Lines are counted from 1 in a `usize`, so the source may hold at most
    /// `usize::MAX - 1` newlines. Every source shorter than `usize::MAX`
    /// characters does (see `lemma_count_newlines_bound`).
    pub fn new(source: String) -> (scanner: Scanner)
        requires
            1 + count_newlines(source@) <= usize::MAX,
        ensures
            scanner.wf(),
            scanner.source_view() == source@,
            scanner.is_fresh(),
    {
        let scanner = Scanner {
            source: chars_of(source.as_str()),
            tokens: Vec::new(),
            errors: Vec::new(),
            start: 0,
            current: 0,
            line: 1,
        };
        proof {
            assert(scanner.source@.take(scanner.source@.len() as int) =~= scanner.source@);
            assert(scanner.source@.take(0) =~= Seq::<char>::empty());
            assert(scanner.token_views() =~= Seq::<TokenView>::empty());
            assert(scanner.error_views() =~= Seq::<ErrorView>::empty());
        }
        scanner
    }

    /// The tokens emitted so far.
    pub fn tokens(&self) -> (tokens: &Vec<Token>)
        ensures
            token_views(tokens@) == self.token_views(),
    {
        &self.tokens
    }

    /// The errors found so far, in the order in which they were detected.
    pub fn errors(&self) -> (errors: &Vec<BenzeneError>)
        ensures
            error_views(errors@) == self.error_views(),
    {
        &self.errors
    }

    fn is_at_end(&self) -> (b: bool)
        ensures
            b == (self.current >= self.source.len()),
    {
        self.current >= self.source.len()
    }

    fn advance(&mut self) -> (c: char)
        requires
            old(self).current < old(self).source.len(),
        ensures
            c == old(self).source@[old(self).current as int],
            *final(self) == (Scanner { current: (old(self).current + 1) as usize, ..*old(self) }),
    {
        let next = self.source[self.current];
        self.current += 1;
        next
    }

    fn is_match(&mut self, expected: char) -> (b: bool)
        ensures
            b == peek_is(old(self).source@, old(self).current as int, expected),
            b ==> *final(self) == (Scanner {
                current: (old(self).current + 1) as usize,
                ..*old(self)
            }),
            !b ==> *final(self) == *old(self),
    {
        if self.is_at_end() {
            return false;
        }
        if self.source[self.current] == expected {
            self.current += 1;
            true
        } else {
            false
        }
    }

    fn peek(&self) -> (c: Option<char>)
        ensures
            c == if self.current < self.source.len() {
                Some(self.source@[self.current as int])
            } else {
                None
            },
    {
        if self.current < self.source.len() {
            Some(self.source[self.current])
        } else {
            None
        }
    }

    fn peek_next(&self) -> (c: Option<char>)
        ensures
            c == if self.current + 1 < self.source.len() {
                Some(self.source@[self.current + 1])
            } else {
                None
            },
    {
        if self.current < self.source.len() && self.current + 1 < self.source.len() {
            Some(self.source[self.current + 1])
        } else {
            None
        }
    }

    fn is_alpha(c: char) -> (b: bool)
        ensures
            b == is_alpha(c),
    {
        ('a' <= c && c <= 'z') || ('A' <= c && c <= 'Z')
    }

    fn is_alphanumeric(ch: Option<char>) -> (b: bool)
        ensures
            b == (ch matches Some(c) && is_word_part(c)),
    {
        match ch {
            Some(c) => Scanner::is_alpha(c) || ('0' <= c && c <= '9') || c == '_',
            None => false,
        }
    }

    fn is_digit(ch: Option<char>) -> (b: bool)
        ensures
            b == (ch matches Some(c) && is_digit(c)),
    {
        match ch {
            Some(c) => '0' <= c && c <= '9',
            None => false,
        }
    }

    /// The keyword that the current lexeme spells, if it spells one.
    fn keyword(&self) -> (kind: Option<TokenType>)
        requires
            self.start <= self.current <= self.source.len(),
        ensures
            kind == keyword_of(self.source@.subrange(self.start as int, self.current as int)),
    {
        let source = &self.source;
        let (from, to) = (self.start, self.current);
        if spells(source, from, to, "and") {
            Some(TokenType::And)
        } else if spells(source, from, to, "class") {
            Some(TokenType::Class)
        } else if spells(source, from, to, "else") {
            Some(TokenType::Else)
        } else if spells(source, from, to, "false") {
            Some(TokenType::False)
        } else if spells(source, from, to, "for") {
            Some(TokenType::False)
        } else if spells(source, from, to, "fun") {
            Some(TokenType::Fun)
        } else if spells(source, from, to, "if") {
            Some(TokenType::If)
        } else if spells(source, from, to, "nil") {
            Some(TokenType::Nil)
        } else if spells(source, from, to, "or") {
            Some(TokenType::Or)
        } else if spells(source, from, to, "print") {
            Some(TokenType::Print)
        } else if spells(source, from, to, "return") {
            Some(TokenType::Return)
        } else if spells(source, from, to, "super") {
            Some(TokenType::Super)
        } else if spells(source, from, to, "this") {
            Some(TokenType::This)
        } else if spells(source, from, to, "true") {
            Some(TokenType::True)
        } else if spells(source, from, to, "var") {
            Some(TokenType::Var)
        } else if spells(source, from, to, "while") {
            Some(TokenType::While)
        } else {
            None
        }
    }

    /// Emits a token of kind `ttype` for the current lexeme, on the line on
    /// which the cursor stands.
    fn add_token(&mut self, ttype: TokenType)
        requires
            old(self).start <= old(self).current <= old(self).source.len(),
        ensures
            *final(self) == (Scanner { tokens: final(self).tokens, ..*old(self) }),
            token_views(final(self).tokens@) == token_views(old(self).tokens@).push(
                TokenView {
                    ttype,
                    lexeme: old(self).source@.subrange(
                        old(self).start as int,
                        old(self).current as int,
                    ),
                    literal: None,
                    line: old(self).line as nat,
                },
            ),
    {
        let line = self.line;
        self.add_token_object(ttype, None, line);
    }

    /// Emits a token of kind `ttype` for the current lexeme, with the given
    /// literal value and on the given line.
    fn add_token_object(&mut self, ttype: TokenType, literal: Option<Object>, line: usize)
        requires
            old(self).start <= old(self).current <= old(self).source.len(),
        ensures
            *final(self) == (Scanner { tokens: final(self).tokens, ..*old(self) }),
            token_views(final(self).tokens@) == token_views(old(self).tokens@).push(
                TokenView {
                    ttype,
                    lexeme: old(self).source@.subrange(
                        old(self).start as int,
                        old(self).current as int,
                    ),
                    literal: literal_view(literal),
                    line: line as nat,
                },
            ),
    {
        let lexeme = text_of(&self.source, self.start, self.current);
        let token = Token::new(ttype, lexeme, literal, line);
        self.tokens.push(token);
        assert(token_views(self.tokens@) =~= token_views(old(self).tokens@).push(token@));
    }
}

impl Scanner {
    /// Consumes the rest of the word whose first character was just taken
    /// and emits its keyword or identifier token.
    fn identifier(&mut self)
        requires
            old(self).wf(),
            old(self).current == old(self).start + 1,
            is_word_start(old(self).source@[old(self).start as int]),
        ensures
            final(self).wf(),
            stepped(
                *old(self),
                *final(self),
                Ok(()),
                word_step(old(self).source@, old(self).start as int),
            ),
    {
        let ghost src = self.source@;
        let ghost pos = self.start as int;
        proof {
            lemma_line_next(src, pos);
        }
        while Scanner::is_alphanumeric(self.peek())
            invariant
                self.wf(),
                src == self.source@,
                pos == self.start,
                *self == (Scanner { current: self.current, ..*old(self) }),
                pos < self.current,
                run_end(src, self.current as int, CharClass::Word) == run_end(
                    src,
                    pos,
                    CharClass::Word,
                ),
                self.line == line_at(src, pos),
            decreases self.source.len() - self.current,
        {
            proof {
                lemma_line_next(src, self.current as int);
            }
            self.advance();
        }
        let kind = match self.keyword() {
            Some(kind) => kind,
            None => TokenType::Identifier,
        };
        self.add_token(kind);
    }

    /// Consumes the rest of the number whose first digit was just taken and
    /// emits its token.
    fn number(&mut self)
        requires
            old(self).wf(),
            old(self).current == old(self).start + 1,
            is_digit(old(self).source@[old(self).start as int]),
        ensures
            final(self).wf(),
            stepped(
                *old(self),
                *final(self),
                Ok(()),
                number_step(old(self).source@, old(self).start as int),
            ),
    {
        let ghost src = self.source@;
        let ghost pos = self.start as int;
        proof {
            lemma_line_next(src, pos);
        }
        while Scanner::is_digit(self.peek())
            invariant
                self.wf(),
                src == self.source@,
                pos == self.start,
                *self == (Scanner { current: self.current, ..*old(self) }),
                pos < self.current,
                run_end(src, self.current as int, CharClass::Digit) == run_end(
                    src,
                    pos,
                    CharClass::Digit,
                ),
                self.line == line_at(src, pos),
            decreases self.source.len() - self.current,
        {
            proof {
                lemma_line_next(src, self.current as int);
            }
            self.advance();
        }
        let ghost whole = self.current as int;
        if self.peek() == Some('.') && Scanner::is_digit(self.peek_next()) {
            proof {
                lemma_line_next(src, self.current as int);
            }
            self.advance();
            while Scanner::is_digit(self.peek())
                invariant
                    self.wf(),
                    src == self.source@,
                    pos == self.start,
                    *self == (Scanner { current: self.current, ..*old(self) }),
                    whole < self.current,
                    run_end(src, self.current as int, CharClass::Digit) == run_end(
                        src,
                        whole + 1,
                        CharClass::Digit,
                    ),
                    self.line == line_at(src, pos),
                decreases self.source.len() - self.current,
            {
                proof {
                    lemma_line_next(src, self.current as int);
                }
                self.advance();
            }
        }
        let value = text_of(&self.source, self.start, self.current);
        let line = self.line;
        self.add_token_object(TokenType::Number, Some(Object::Num(value)), line);
    }

    /// Consumes the rest of the string literal whose opening quote was just
    /// taken. Emits its token, on the line of the opening quote, or fails at
    /// the end of the source if no closing quote follows.
    fn string(&mut self) -> (res: Result<(), BenzeneError>)
        requires
            old(self).wf(),
            old(self).current == old(self).start + 1,
            old(self).source@[old(self).start as int] == '"',
        ensures
            final(self).wf(),
            stepped(
                *old(self),
                *final(self),
                res,
                string_step(old(self).source@, old(self).start as int),
            ),
    {
        let ghost src = self.source@;
        let ghost pos = self.start as int;
        let first_line = self.line;
        proof {
            lemma_line_next(src, pos);
        }
        loop
            invariant
                self.wf(),
                src == self.source@,
                pos == self.start,
                *self == (Scanner { current: self.current, line: self.line, ..*old(self) }),
                pos < self.current,
                run_end(src, self.current as int, CharClass::StringBody) == run_end(
                    src,
                    pos + 1,
                    CharClass::StringBody,
                ),
                first_line == line_at(src, pos),
            ensures
                self.current == run_end(src, pos + 1, CharClass::StringBody),
            decreases self.source.len() - self.current,
        {
            match self.peek() {
                None => {
                    break ;
                },
                Some(ch) => {
                    if ch == '"' {
                        break ;
                    }
                    proof {
                        lemma_line_next(src, self.current as int);
                        lemma_line_counts_newlines(src, self.current as int + 1, src.len() as int);
                    }
                    if ch == '\n' {
                        self.line += 1;
                    }
                    self.advance();
                },
            }
        }
        if self.is_at_end() {
            return Err(BenzeneError::error(self.line, "Unterminated string".to_owned()));
        }
        proof {
            lemma_run_end(src, pos + 1, CharClass::StringBody);
            lemma_line_next(src, self.current as int);
        }
        self.advance();
        let value = text_of(&self.source, self.start + 1, self.current - 1);
        self.add_token_object(TokenType::String, Some(Object::Str(value)), first_line);
        Ok(())
    }

    /// Consumes the rest of the block comment whose opening `/*` was just
    /// taken, nested comments included. Fails at the end of the source if
    /// some level is never closed.
    fn scan_comment(&mut self) -> (res: Result<(), BenzeneError>)
        requires
            old(self).wf(),
            old(self).current == old(self).start + 2,
            old(self).source@[old(self).start as int] == '/',
            old(self).source@[old(self).start + 1] == '*',
        ensures
            final(self).wf(),
            stepped(
                *old(self),
                *final(self),
                res,
                slash_step(old(self).source@, old(self).start as int),
            ),
    {
        let ghost src = self.source@;
        let ghost pos = self.start as int;
        let mut depth: usize = 1;
        while depth > 0
            invariant
                self.wf(),
                src == self.source@,
                pos == self.start,
                *self == (Scanner { current: self.current, line: self.line, ..*old(self) }),
                pos + 2 <= self.current,
                src[pos + 1] == '*',
                depth <= self.current - pos - 1,
                comment_end(src, self.current as int, depth as nat) == comment_end(
                    src,
                    pos + 2,
                    1,
                ),
            decreases self.source.len() - self.current,
        {
            match self.peek() {
                None => {
                    return Err(BenzeneError::error(self.line, "Unterminated comment".to_owned()));
                },
                Some(c) => {
                    proof {
                        lemma_line_next(src, self.current as int);
                        lemma_line_counts_newlines(src, self.current as int + 1, src.len() as int);
                        if self.current + 1 < src.len() {
                            lemma_line_next(src, self.current as int + 1);
                        }
                    }
                    self.advance();
                    if c == '*' {
                        if self.is_match('/') {
                            depth -= 1;
                        }
                    } else if c == '/' {
                        if self.is_match('*') {
                            depth += 1;
                        }
                    } else if c == '\n' {
                        self.line += 1;
                    }
                },
            }
        }
        Ok(())
    }
}

impl Scanner {
    /// Takes one recognition step from the cursor: emits a token, skips
    /// blanks or a comment, or fails with the error it found. Either way the
    /// cursor ends behind the text that the step consumed.
    fn scan_token(&mut self) -> (res: Result<(), BenzeneError>)
        requires
            old(self).wf(),
            old(self).start == old(self).current,
            old(self).current < old(self).source.len(),
        ensures
            final(self).wf(),
            stepped(*old(self), *final(self), res, step(old(self).source@, old(self).start as int)),
    {
        let ghost src = self.source@;
        let ghost pos = self.start as int;
        proof {
            lemma_line_next(src, pos);
            lemma_line_counts_newlines(src, pos + 1, src.len() as int);
            if pos + 1 < src.len() {
                lemma_line_next(src, pos + 1);
            }
        }
        let c = self.advance();
        match c {
            '(' => self.add_token(TokenType::LeftParen),
            ')' => self.add_token(TokenType::RightParen),
            '{' => self.add_token(TokenType::LeftBrace),
            '}' => self.add_token(TokenType::RightBrace),
            ',' => self.add_token(TokenType::Comma),
            '.' => self.add_token(TokenType::Dot),
            '-' => self.add_token(TokenType::Minus),
            '+' => self.add_token(TokenType::Plus),
            ';' => self.add_token(TokenType::SemiColon),
            '*' => self.add_token(TokenType::Star),
            '!' => {
                let tok = if self.is_match('=') {
                    TokenType::BangEqual
                } else {
                    TokenType::Bang
                };
                self.add_token(tok)
            },
            '=' => {
                let tok = if self.is_match('=') {
                    TokenType::Equal
                } else {
                    TokenType::Assign
                };
                self.add_token(tok)
            },
            '<' => {
                let tok = if self.is_match('=') {
                    TokenType::LesserEqual
                } else {
                    TokenType::Lesser
                };
                self.add_token(tok)
            },
            '>' => {
                let tok = if self.is_match('=') {
                    TokenType::GreaterEqual
                } else {
                    TokenType::Greater
                };
                self.add_token(tok)
            },
            '/' => {
                if self.is_match('/') {
                    // A comment runs to the end of the line.
                    while Scanner::is_line_rest(self.peek())
                        invariant
                            self.wf(),
                            src == self.source@,
                            pos == self.start,
                            *self == (Scanner { current: self.current, ..*old(self) }),
                            pos + 2 <= self.current,
                            run_end(src, self.current as int, CharClass::LineRest) == run_end(
                                src,
                                pos + 2,
                                CharClass::LineRest,
                            ),
                        decreases self.source.len() - self.current,
                    {
                        proof {
                            lemma_line_next(src, self.current as int);
                        }
                        self.advance();
                    }
                } else if self.is_match('*') {
                    self.scan_comment()?;
                } else {
                    self.add_token(TokenType::Slash)
                };
            },
            ' ' | '\r' | '\t' => {},
            '\n' => self.line += 1,
            '"' => self.string()?,
            '0'..='9' => self.number(),
            _ if Scanner::is_alpha(c) || c == '_' => {
                self.identifier();
            },
            _ => {
                return Err(BenzeneError::error(self.line, "Unexpected character".to_owned()))
            },
        }
        Ok(())
    }

    fn is_line_rest(ch: Option<char>) -> (b: bool)
        ensures
            b == (ch matches Some(c) && c != '\n'),
    {
        match ch {
            Some(c) => c != '\n',
            None => false,
        }
    }

    /// Scans the source from the cursor to its end.
    ///
    /// Every token that is recognised is appended to the tokens, every error
    /// that is found to the errors, each in the order in which it is met, and
    /// the end-of-input token closes the tokens whether or not an error was
    /// found. An error does not stop the scan. The scan succeeds with the
    /// tokens if it found no error and fails with the last error it found
    /// otherwise; either way [`Scanner::tokens`] and [`Scanner::errors`] hold
    /// all of them afterwards.
    pub fn scan_tokens(&mut self) -> (res: Result<&Vec<Token>, BenzeneError>)
        requires
            old(self).wf(),
        ensures
            final(self).wf(),
            final(self).scanned_from(*old(self)),
            match res {
                Ok(tokens) => {
                    &&& errors_from(old(self).source_view(), old(self).position()).len() == 0
                    &&& token_views(tokens@) == final(self).token_views()
                },
                Err(e) => {
                    &&& errors_from(old(self).source_view(), old(self).position()).len() > 0
                    &&& e@ == errors_from(old(self).source_view(), old(self).position()).last()
                },
            },
    {
        let ghost src = self.source@;
        let ghost all_tokens = self.token_views() + tokens_from(src, self.current as int);
        let ghost all_errors = self.error_views() + errors_from(src, self.current as int);
        let ghost new_errors = errors_from(src, self.current as int);
        let mut had_error: Option<BenzeneError> = None;
        proof {
            assert(Seq::<ErrorView>::empty() + new_errors =~= new_errors);
        }
        let ghost mut seen: Seq<ErrorView> = Seq::empty();
        while !self.is_at_end()
            invariant
                self.wf(),
                self.source@ == src,
                self.token_views() + tokens_from(src, self.current as int) == all_tokens,
                self.error_views() + errors_from(src, self.current as int) == all_errors,
                seen + errors_from(src, self.current as int) == new_errors,
                match had_error {
                    Some(e) => seen.len() > 0 && e@ == seen.last(),
                    None => seen.len() == 0,
                },
            decreases self.source.len() - self.current,
        {
            self.start = self.current;
            let ghost pos = self.current as int;
            let ghost before = *self;
            proof {
                lemma_scan_unfolds(src, pos);
            }
            match self.scan_token() {
                Ok(_) => {
                    proof {
                        let rest = tokens_from(src, self.current as int);
                        match step(src, pos).outcome {
                            Outcome::Emit(kind) => {
                                let t = token_at(src, Span { kind, start: pos, end: self.current as int });
                                assert(before.token_views().push(t) + rest =~= before.token_views()
                                    + (seq![t] + rest));
                            },
                            _ => {},
                        }
                    }
                },
                Err(e) => {
                    proof {
                        let rest = errors_from(src, self.current as int);
                        assert(before.error_views().push(e@) + rest =~= before.error_views() + (
                        seq![e@] + rest));
                        assert(seen.push(e@) + rest =~= seen + (seq![e@] + rest));
                        assert(error_views(self.errors@.push(e)) =~= before.error_views().push(e@));
                        seen = seen.push(e@);
                    }
                    had_error = Some(e.clone());
                    self.errors.push(e);
                },
            };
        }
        proof {
            lemma_scan_at_end(src);
            assert(seen + Seq::<ErrorView>::empty() =~= seen);
            assert(self.error_views() + Seq::<ErrorView>::empty() =~= self.error_views());
        }
        let ghost before = *self;
        let eof = Token::new(TokenType::Eof, String::new(), None, self.line);
        self.tokens.push(eof);
        proof {
            assert(self.token_views() =~= before.token_views() + seq![eof@]);
        }
        if let Some(e) = had_error {
            Err(e)
        } else {
            Ok(&self.tokens)
        }
    }
}

/// The first scan of a source yields the tokens and the errors of that
/// source, and nothing else.
pub proof fn lemma_first_scan(pre: Scanner, post: Scanner)
    requires
        pre.is_fresh(),
        post.scanned_from(pre),
    ensures
        post.token_views() == tokens_of(pre.source_view()),
        post.error_views() == errors_of(pre.source_view()),
{
    let src = pre.source_view();
    assert(Seq::<TokenView>::empty() + tokens_from(src, 0) =~= tokens_of(src));
    assert(Seq::<ErrorView>::empty() + errors_from(src, 0) =~= errors_of(src));
}

/// Scanning is a function of what the scanner shows: two scans that start
/// from the same source, at the same position and with the same tokens and
/// errors already held, end with the same tokens and the same errors.
/// Nothing else that a scanner may hold bears on the outcome, and nothing is
/// carried from one scan to another.
pub proof fn lemma_scan_is_deterministic(pre1: Scanner, post1: Scanner, pre2: Scanner, post2: Scanner)
    requires
        pre1.source_view() == pre2.source_view(),
        pre1.position() == pre2.position(),
        pre1.token_views() == pre2.token_views(),
        pre1.error_views() == pre2.error_views(),
        post1.scanned_from(pre1),
        post2.scanned_from(pre2),
    ensures
        post1.token_views() == post2.token_views(),
        post1.error_views() == post2.error_views(),
        post1.position() == post2.position(),
{
}

} // verus!
