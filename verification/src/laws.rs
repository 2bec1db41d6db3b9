//! Laws of the scanner: what holds of the tokens and errors of every source.

use vstd::prelude::*;
use crate::error::ErrorView;
use crate::grammar::{
    comment_end, count_newlines, emit, eof_token, error_at, errors_from, errors_of, faults_from,
    in_class, is_blank, is_digit, is_word_part, is_word_start, keyword_of, lemma_comment_end,
    lemma_run_end, lemma_scan_at_end, lemma_scan_unfolds, lemma_step_advances, line_at,
    literal_at, message_of, peek_is, run_end, skip, spans_from, step, token_at, tokens_from,
    tokens_of, CharClass, ErrorKind, Fault, Outcome, Span,
};
use crate::token::ObjectView;
use crate::token_type::TokenType;

verus! {

/// The newlines of a text are those of its first `k` characters and those of
/// the rest.
pub proof fn lemma_count_newlines_splits(s: Seq<char>, k: int)
    requires
        0 <= k <= s.len(),
    ensures
        count_newlines(s) == count_newlines(s.take(k)) + count_newlines(s.skip(k)),
    decreases s.len(),
{
    if k == s.len() {
        assert(s.take(k) =~= s);
        assert(s.skip(k) =~= Seq::<char>::empty());
    } else {
        lemma_count_newlines_splits(s.drop_last(), k);
        assert(s.drop_last().take(k) =~= s.take(k));
        assert(s.drop_last().skip(k) =~= s.skip(k).drop_last());
    }
}

/// The line counter goes up by one for every newline and for nothing else:
/// between two positions the line rises by the number of newlines that lie
/// between them. So it never falls, and it stays where it is over text
/// without a newline.
pub proof fn lemma_line_counts_newlines(src: Seq<char>, from: int, to: int)
    requires
        0 <= from <= to <= src.len(),
    ensures
        line_at(src, to) == line_at(src, from) + count_newlines(src.subrange(from, to)),
        line_at(src, from) <= line_at(src, to),
        line_at(src, 0) == 1,
        (forall|i: int| from <= i < to ==> src[i] != '\n') ==> line_at(src, to) == line_at(
            src,
            from,
        ),
{
    let s = src.take(to);
    lemma_count_newlines_splits(s, from);
    assert(s.take(from) =~= src.take(from));
    assert(s.skip(from) =~= src.subrange(from, to));
    assert(src.take(0) =~= Seq::<char>::empty());
    if forall|i: int| from <= i < to ==> src[i] != '\n' {
        lemma_no_newlines(src.subrange(from, to));
    }
}

/// A text holds at most as many newlines as characters.
pub proof fn lemma_count_newlines_bound(s: Seq<char>)
    ensures
        count_newlines(s) <= s.len(),
    decreases s.len(),
{
    if s.len() > 0 {
        lemma_count_newlines_bound(s.drop_last());
    }
}

/// A text without a newline character counts none.
proof fn lemma_no_newlines(s: Seq<char>)
    requires
        forall|i: int| 0 <= i < s.len() ==> s[i] != '\n',
    ensures
        count_newlines(s) == 0,
    decreases s.len(),
{
    if s.len() > 0 {
        lemma_no_newlines(s.drop_last());
    }
}

/// The places of the tokens from `pos` on lie in the source, one behind the
/// other, each where a step emitted it; the end-of-input marker comes last
/// and nowhere else.
proof fn lemma_spans_from(src: Seq<char>, pos: int)
    requires
        0 <= pos <= src.len(),
    ensures
        spans_from(src, pos).len() >= 1,
        spans_from(src, pos).last() == (Span {
            kind: TokenType::Eof,
            start: src.len() as int,
            end: src.len() as int,
        }),
        forall|i: int|
            0 <= i < spans_from(src, pos).len() - 1 ==> {
                let span = #[trigger] spans_from(src, pos)[i];
                &&& pos <= span.start < span.end <= src.len()
                &&& step(src, span.start) == emit(span.kind, span.end)
            },
        forall|i: int, j: int|
            0 <= i < j < spans_from(src, pos).len() ==> (#[trigger] spans_from(src, pos)[i]).end
                <= (#[trigger] spans_from(src, pos)[j]).start,
    decreases src.len() - pos,
{
    if pos < src.len() {
        lemma_step_advances(src, pos);
        let s = step(src, pos);
        lemma_spans_from(src, s.end);
        let rest = spans_from(src, s.end);
        match s.outcome {
            Outcome::Emit(kind) => {
                let all = spans_from(src, pos);
                assert(all == seq![Span { kind, start: pos, end: s.end }] + rest);
                assert forall|i: int| 0 <= i < all.len() - 1 implies {
                    let span = #[trigger] all[i];
                    &&& pos <= span.start < span.end <= src.len()
                    &&& step(src, span.start) == emit(span.kind, span.end)
                } by {
                    if i > 0 {
                        assert(all[i] == rest[i - 1]);
                    }
                }
                assert forall|i: int, j: int| 0 <= i < j < all.len() implies (#[trigger] all[i]).end
                    <= (#[trigger] all[j]).start by {
                    assert(all[j] == rest[j - 1]);
                    if i > 0 {
                        assert(all[i] == rest[i - 1]);
                    }
                }
            },
            _ => {},
        }
    }
}

/// No step emits the end-of-input kind: that token comes from the end of
/// the source alone.
proof fn lemma_step_emits_no_eof(src: Seq<char>, pos: int)
    requires
        0 <= pos < src.len(),
    ensures
        step(src, pos).outcome != Outcome::Emit(TokenType::Eof),
{
}

/// The tokens of a source follow the source. Token `i` stands at
/// `spans_from(src, 0)[i]`: its lexeme is the text between the start and the
/// end of that place, and its line is one more than the number of newlines
/// before its start. The places lie one behind the other without overlap, so
/// the tokens come in the order of their lexemes and their lines never fall.
pub proof fn lemma_tokens_follow_the_source(src: Seq<char>)
    ensures
        tokens_of(src).len() == spans_from(src, 0).len(),
        forall|i: int|
            0 <= i < tokens_of(src).len() ==> {
                let span = spans_from(src, 0)[i];
                let token = #[trigger] tokens_of(src)[i];
                &&& 0 <= span.start <= span.end <= src.len()
                &&& token.ttype == span.kind
                &&& token.lexeme == src.subrange(span.start, span.end)
                &&& token.line == 1 + count_newlines(src.take(span.start))
            },
        forall|i: int, j: int|
            0 <= i < j < tokens_of(src).len() ==> {
                &&& (#[trigger] spans_from(src, 0)[i]).end <= (#[trigger] spans_from(
                    src,
                    0,
                )[j]).start
                &&& tokens_of(src)[i].line <= tokens_of(src)[j].line
            },
{
    let spans = spans_from(src, 0);
    lemma_spans_from(src, 0);
    assert forall|i: int, j: int| 0 <= i < j < spans.len() implies {
        &&& (#[trigger] spans[i]).end <= (#[trigger] spans[j]).start
        &&& tokens_of(src)[i].line <= tokens_of(src)[j].line
    } by {
        lemma_line_counts_newlines(src, spans[i].start, spans[j].start);
    }
}

/// Every scan ends with the end-of-input token, whatever the source holds
/// and whether or not errors were found: the last token is of the
/// end-of-input kind, has an empty lexeme and no literal, and stands on the
/// last line of the source. No token before it is of that kind, and each of
/// them has a lexeme that is not empty.
pub proof fn lemma_tokens_end_with_eof(src: Seq<char>)
    ensures
        tokens_of(src).len() >= 1,
        tokens_of(src).last() == eof_token(src),
        forall|i: int|
            0 <= i < tokens_of(src).len() - 1 ==> {
                &&& (#[trigger] tokens_of(src)[i]).ttype != TokenType::Eof
                &&& tokens_of(src)[i].lexeme.len() > 0
            },
{
    let spans = spans_from(src, 0);
    lemma_spans_from(src, 0);
    lemma_scan_at_end(src);
    let end = src.len() as int;
    assert(src.subrange(end, end) =~= Seq::<char>::empty());
    assert forall|i: int| 0 <= i < tokens_of(src).len() - 1 implies {
        &&& (#[trigger] tokens_of(src)[i]).ttype != TokenType::Eof
        &&& tokens_of(src)[i].lexeme.len() > 0
    } by {
        let span = spans[i];
        lemma_step_emits_no_eof(src, span.start);
    }
}

/// The errors from `pos` on were detected inside the source, each behind
/// the one before it, and an error that is detected at the end of the source
/// is the last.
proof fn lemma_faults_from(src: Seq<char>, pos: int)
    requires
        0 <= pos <= src.len(),
    ensures
        forall|i: int|
            0 <= i < faults_from(src, pos).len() ==> {
                let fault = #[trigger] faults_from(src, pos)[i];
                &&& pos < fault.at <= src.len()
                &&& fault.kind != ErrorKind::UnexpectedCharacter ==> fault.at == src.len()
            },
        forall|i: int, j: int|
            0 <= i < j < faults_from(src, pos).len() ==> (#[trigger] faults_from(src, pos)[i]).at
                < (#[trigger] faults_from(src, pos)[j]).at,
    decreases src.len() - pos,
{
    if pos < src.len() {
        lemma_step_advances(src, pos);
        let s = step(src, pos);
        lemma_faults_from(src, s.end);
        let rest = faults_from(src, s.end);
        match s.outcome {
            Outcome::Fail(kind) => {
                let all = faults_from(src, pos);
                assert(all == seq![Fault { kind, at: s.end }] + rest);
                assert forall|i: int| 0 <= i < all.len() implies {
                    let fault = #[trigger] all[i];
                    &&& pos < fault.at <= src.len()
                    &&& fault.kind != ErrorKind::UnexpectedCharacter ==> fault.at == src.len()
                } by {
                    if i > 0 {
                        assert(all[i] == rest[i - 1]);
                    }
                }
                assert forall|i: int, j: int| 0 <= i < j < all.len() implies (#[trigger] all[i]).at
                    < (#[trigger] all[j]).at by {
                    assert(all[j] == rest[j - 1]);
                    if i > 0 {
                        assert(all[i] == rest[i - 1]);
                    }
                }
            },
            _ => {},
        }
    }
}

/// The errors of a source follow the source. Error `i` was detected at
/// `faults_from(src, 0)[i].at` and is on the line of that position; each
/// error was detected behind the one before it, so the lines of the errors
/// never fall; and an error that was detected at the end of the source, as
/// every unterminated string or comment is, is the last.
pub proof fn lemma_errors_follow_the_source(src: Seq<char>)
    ensures
        errors_of(src).len() == faults_from(src, 0).len(),
        forall|i: int|
            0 <= i < errors_of(src).len() ==> {
                let fault = faults_from(src, 0)[i];
                let error = #[trigger] errors_of(src)[i];
                &&& 0 < fault.at <= src.len()
                &&& fault.kind != ErrorKind::UnexpectedCharacter ==> fault.at == src.len()
                &&& error.message == message_of(fault.kind)
                &&& error.line == 1 + count_newlines(src.take(fault.at))
            },
        forall|i: int, j: int|
            0 <= i < j < errors_of(src).len() ==> {
                &&& (#[trigger] faults_from(src, 0)[i]).at < (#[trigger] faults_from(src, 0)[j]).at
                &&& errors_of(src)[i].line <= errors_of(src)[j].line
            },
{
    let faults = faults_from(src, 0);
    lemma_faults_from(src, 0);
    assert forall|i: int, j: int| 0 <= i < j < faults.len() implies {
        &&& (#[trigger] faults[i]).at < (#[trigger] faults[j]).at
        &&& errors_of(src)[i].line <= errors_of(src)[j].line
    } by {
        lemma_line_counts_newlines(src, faults[i].at, faults[j].at);
    }
}

/// Whether the source from `pos` on holds nothing but blanks and comments,
/// each block comment closed.
pub open spec fn is_blank_from(src: Seq<char>, pos: int) -> bool
    decreases src.len() - pos,
{
    if pos < 0 || pos >= src.len() {
        true
    } else if is_blank(src[pos]) {
        is_blank_from(src, pos + 1)
    } else if src[pos] == '/' && peek_is(src, pos + 1, '/') {
        proof {
            lemma_run_end(src, pos + 2, CharClass::LineRest);
        }
        is_blank_from(src, run_end(src, pos + 2, CharClass::LineRest))
    } else if src[pos] == '/' && peek_is(src, pos + 1, '*') {
        match comment_end(src, pos + 2, 1) {
            Some(end) => {
                proof {
                    lemma_comment_end(src, pos + 2, 1);
                }
                is_blank_from(src, end)
            },
            None => false,
        }
    } else {
        false
    }
}

/// A source that holds nothing but blanks and closed comments from `pos` on
/// yields the end-of-input token alone and no error, and no other source
/// does.
pub proof fn lemma_blank_from(src: Seq<char>, pos: int)
    requires
        0 <= pos <= src.len(),
    ensures
        is_blank_from(src, pos) <==> (tokens_from(src, pos) == seq![eof_token(src)]
            && errors_from(src, pos) == Seq::<ErrorView>::empty()),
    decreases src.len() - pos,
{
    lemma_scan_at_end(src);
    if pos < src.len() {
        lemma_scan_unfolds(src, pos);
        let s = step(src, pos);
        lemma_blank_from(src, s.end);
        lemma_spans_from(src, s.end);
        match s.outcome {
            Outcome::Emit(kind) => {
                let first = seq![token_at(src, Span { kind, start: pos, end: s.end })];
                assert((first + tokens_from(src, s.end)).len() >= 2);
            },
            Outcome::Fail(kind) => {
                let first = seq![error_at(src, Fault { kind, at: s.end })];
                assert((first + errors_from(src, s.end)).len() >= 1);
            },
            Outcome::Skip => {},
        }
    }
}

/// A source of blanks and closed comments yields exactly one token, the
/// end-of-input token on the last line of the source, and no error; a source
/// that holds anything else yields more.
pub proof fn lemma_blank_source_yields_only_eof(src: Seq<char>)
    ensures
        is_blank_from(src, 0) <==> (tokens_of(src) == seq![eof_token(src)] && errors_of(src)
            == Seq::<ErrorView>::empty()),
{
    lemma_blank_from(src, 0);
}

/// A closed block comment is passed over whole, however deep it nests: the
/// scan goes on behind the `*/` that closes its outermost level, no token
/// and no error comes from its contents, and the line counter rises by the
/// number of newlines that the comment holds.
pub proof fn lemma_block_comment_is_skipped(src: Seq<char>, pos: int, end: int)
    requires
        0 <= pos,
        peek_is(src, pos, '/'),
        peek_is(src, pos + 1, '*'),
        comment_end(src, pos + 2, 1) == Some(end),
    ensures
        pos + 4 <= end <= src.len(),
        step(src, pos) == skip(end),
        tokens_from(src, pos) == tokens_from(src, end),
        errors_from(src, pos) == errors_from(src, end),
        line_at(src, end) == line_at(src, pos) + count_newlines(src.subrange(pos, end)),
{
    lemma_comment_end(src, pos + 2, 1);
    lemma_scan_unfolds(src, pos);
    lemma_line_counts_newlines(src, pos, end);
}

/// Nesting levels close in turn: a comment that is open `depth + 1` levels
/// deep ends where the comment that is left ends once its innermost level
/// has closed. Counting levels and descending into each nested comment are
/// the same.
pub proof fn lemma_comment_levels_close_in_turn(src: Seq<char>, pos: int, depth: nat)
    requires
        0 <= pos <= src.len(),
    ensures
        comment_end(src, pos, depth + 1) == match comment_end(src, pos, 1) {
            Some(inner) => comment_end(src, inner, depth),
            None => None,
        },
    decreases src.len() - pos, depth,
{
    if depth == 0 {
        match comment_end(src, pos, 1) {
            Some(inner) => {
                assert(comment_end(src, inner, 0) == Some(inner));
            },
            None => {},
        }
    } else if pos >= src.len() {
    } else if src[pos] == '*' && peek_is(src, pos + 1, '/') {
        assert(comment_end(src, pos, 1) == comment_end(src, pos + 2, 0));
    } else if src[pos] == '/' && peek_is(src, pos + 1, '*') {
        lemma_comment_levels_close_in_turn(src, pos + 2, depth + 1);
        lemma_comment_levels_close_in_turn(src, pos + 2, 1);
        match comment_end(src, pos + 2, 1) {
            Some(nested) => {
                lemma_comment_end(src, pos + 2, 1);
                lemma_comment_levels_close_in_turn(src, nested, depth);
            },
            None => {},
        }
    } else {
        lemma_comment_levels_close_in_turn(src, pos + 1, depth);
    }
}

/// A block comment of which some level is never closed ends the scan: one
/// error says so, on the last line of the source, and the end-of-input token
/// is the only token that follows.
pub proof fn lemma_unterminated_comment(src: Seq<char>, pos: int)
    requires
        0 <= pos,
        peek_is(src, pos, '/'),
        peek_is(src, pos + 1, '*'),
        comment_end(src, pos + 2, 1) is None,
    ensures
        tokens_from(src, pos) == seq![eof_token(src)],
        errors_from(src, pos) == seq![
            ErrorView { line: 1 + count_newlines(src), message: "Unterminated comment"@ },
        ],
{
    lemma_scan_unfolds(src, pos);
    lemma_scan_at_end(src);
}

/// A string literal whose closing quote is missing ends the scan: one error
/// says so, on the last line of the source, no token is emitted for the
/// literal, and the end-of-input token is the only token that follows.
pub proof fn lemma_unterminated_string(src: Seq<char>, pos: int)
    requires
        0 <= pos,
        peek_is(src, pos, '"'),
        forall|i: int| pos < i < src.len() ==> src[i] != '"',
    ensures
        tokens_from(src, pos) == seq![eof_token(src)],
        errors_from(src, pos) == seq![
            ErrorView { line: 1 + count_newlines(src), message: "Unterminated string"@ },
        ],
{
    lemma_run_end(src, pos + 1, CharClass::StringBody);
    lemma_scan_unfolds(src, pos);
    lemma_scan_at_end(src);
}

/// The characters with which a token, a comment or a blank may start.
pub open spec fn is_expected(c: char) -> bool {
    ||| c == '(' || c == ')' || c == '{' || c == '}' || c == ',' || c == '.' || c == '-' || c
        == '+' || c == ';' || c == '*'
    ||| c == '!' || c == '=' || c == '<' || c == '>' || c == '/'
    ||| is_blank(c)
    ||| c == '"'
    ||| is_digit(c)
    ||| is_word_start(c)
}

/// A character with which nothing may start costs one error, on its own
/// line, and nothing else: the scan goes on with the next character as if
/// the offending one were not there.
pub proof fn lemma_unexpected_character_is_passed_over(src: Seq<char>, pos: int)
    requires
        0 <= pos < src.len(),
        !is_expected(src[pos]),
    ensures
        tokens_from(src, pos) == tokens_from(src, pos + 1),
        errors_from(src, pos) == seq![
            ErrorView { line: line_at(src, pos), message: "Unexpected character"@ },
        ] + errors_from(src, pos + 1),
{
    lemma_scan_unfolds(src, pos);
    lemma_line_counts_newlines(src, pos, pos + 1);
}

/// Whether every character of `s` is of the given class.
pub open spec fn all_in(s: Seq<char>, class: CharClass) -> bool {
    forall|i: int| 0 <= i < s.len() ==> in_class(class, #[trigger] s[i])
}

/// Decimal text: one or more digits, optionally followed by a point and one
/// or more digits.
pub open spec fn is_decimal_text(s: Seq<char>) -> bool {
    ||| s.len() > 0 && all_in(s, CharClass::Digit)
    ||| exists|k: int|
        0 < k < s.len() - 1 && #[trigger] s[k] == '.' && all_in(s.take(k), CharClass::Digit)
            && all_in(s.skip(k + 1), CharClass::Digit)
}

/// A word: a letter or underscore, followed by letters, digits and
/// underscores.
pub open spec fn is_word_text(s: Seq<char>) -> bool {
    s.len() > 0 && is_word_start(s[0]) && all_in(s, CharClass::Word)
}

/// A quoted string: a double quote, any characters but a double quote, and
/// a double quote.
pub open spec fn is_string_text(s: Seq<char>) -> bool {
    s.len() >= 2 && s.first() == '"' && s.last() == '"' && all_in(
        s.subrange(1, s.len() - 1),
        CharClass::StringBody,
    )
}

/// Whether `text` is a lexeme of the kind `kind`. Punctuation and operators
/// have one spelling each, a keyword kind has the words that the keyword
/// table maps to it, an identifier is a word that is no keyword, and the
/// end-of-input token has the empty lexeme.
pub open spec fn lexeme_fits(kind: TokenType, text: Seq<char>) -> bool {
    match kind {
        TokenType::LeftParen => text == seq!['('],
        TokenType::RightParen => text == seq![')'],
        TokenType::LeftBrace => text == seq!['{'],
        TokenType::RightBrace => text == seq!['}'],
        TokenType::Comma => text == seq![','],
        TokenType::Dot => text == seq!['.'],
        TokenType::Minus => text == seq!['-'],
        TokenType::Plus => text == seq!['+'],
        TokenType::SemiColon => text == seq![';'],
        TokenType::Star => text == seq!['*'],
        TokenType::Slash => text == seq!['/'],
        TokenType::Bang => text == seq!['!'],
        TokenType::BangEqual => text == seq!['!', '='],
        TokenType::Assign => text == seq!['='],
        TokenType::Equal => text == seq!['=', '='],
        TokenType::Lesser => text == seq!['<'],
        TokenType::LesserEqual => text == seq!['<', '='],
        TokenType::Greater => text == seq!['>'],
        TokenType::GreaterEqual => text == seq!['>', '='],
        TokenType::Identifier => is_word_text(text) && keyword_of(text) is None,
        TokenType::String => is_string_text(text),
        TokenType::Number => is_decimal_text(text),
        TokenType::Eof => text.len() == 0,
        _ => is_word_text(text) && keyword_of(text) == Some(kind),
    }
}

/// Whether the token of kind `kind` that ends at `end` is the longest that
/// could be matched: no digit follows a number, no word character follows a
/// word, no `=` follows an operator that it would extend, and a `/` is
/// followed by nothing that would open a comment.
pub open spec fn is_longest_match(src: Seq<char>, kind: TokenType, end: int) -> bool {
    match kind {
        TokenType::Number => !(end < src.len() && is_digit(src[end])),
        TokenType::Bang | TokenType::Assign | TokenType::Lesser | TokenType::Greater => !peek_is(
            src,
            end,
            '=',
        ),
        TokenType::Slash => !peek_is(src, end, '/') && !peek_is(src, end, '*'),
        TokenType::LeftParen
        | TokenType::RightParen
        | TokenType::LeftBrace
        | TokenType::RightBrace
        | TokenType::Comma
        | TokenType::Dot
        | TokenType::Minus
        | TokenType::Plus
        | TokenType::SemiColon
        | TokenType::Star
        | TokenType::BangEqual
        | TokenType::Equal
        | TokenType::LesserEqual
        | TokenType::GreaterEqual
        | TokenType::String
        | TokenType::Eof => true,
        _ => !(end < src.len() && is_word_part(src[end])),
    }
}

/// The literal that a token of kind `kind` with lexeme `text` carries: the
/// text itself for a number, the text between the quotes for a string, none
/// for any other kind.
pub open spec fn literal_of(kind: TokenType, text: Seq<char>) -> Option<ObjectView> {
    match kind {
        TokenType::Number => Some(ObjectView::Num(text)),
        TokenType::String => Some(ObjectView::Str(text.subrange(1, text.len() - 1))),
        _ => None,
    }
}

/// The token that a step emits is well-formed and the longest there is.
proof fn lemma_emitted_token_fits(src: Seq<char>, pos: int, kind: TokenType, end: int)
    requires
        0 <= pos < src.len(),
        step(src, pos) == emit(kind, end),
    ensures
        pos < end <= src.len(),
        lexeme_fits(kind, src.subrange(pos, end)),
        is_longest_match(src, kind, end),
        literal_at(src, Span { kind, start: pos, end }) == literal_of(
            kind,
            src.subrange(pos, end),
        ),
{
    lemma_step_advances(src, pos);
    let c = src[pos];
    let text = src.subrange(pos, end);
    if c == '"' {
        lemma_run_end(src, pos + 1, CharClass::StringBody);
        assert(text.subrange(1, text.len() - 1) =~= src.subrange(pos + 1, end - 1));
    } else if is_digit(c) {
        lemma_run_end(src, pos, CharClass::Digit);
        let whole = run_end(src, pos, CharClass::Digit);
        if peek_is(src, whole, '.') && whole + 1 < src.len() && is_digit(src[whole + 1]) {
            lemma_run_end(src, whole + 1, CharClass::Digit);
            let k = whole - pos;
            assert(text[k] == '.');
            assert(all_in(text.take(k), CharClass::Digit)) by {
                assert forall|i: int| 0 <= i < text.take(k).len() implies in_class(
                    CharClass::Digit,
                    #[trigger] text.take(k)[i],
                ) by {
                    assert(text.take(k)[i] == src[pos + i]);
                }
            }
            assert(all_in(text.skip(k + 1), CharClass::Digit)) by {
                assert forall|i: int| 0 <= i < text.skip(k + 1).len() implies in_class(
                    CharClass::Digit,
                    #[trigger] text.skip(k + 1)[i],
                ) by {
                    assert(text.skip(k + 1)[i] == src[whole + 1 + i]);
                }
            }
        } else {
            assert(all_in(text, CharClass::Digit)) by {
                assert forall|i: int| 0 <= i < text.len() implies in_class(
                    CharClass::Digit,
                    #[trigger] text[i],
                ) by {
                    assert(text[i] == src[pos + i]);
                }
            }
        }
    } else if is_word_start(c) {
        lemma_run_end(src, pos, CharClass::Word);
        assert(all_in(text, CharClass::Word)) by {
            assert forall|i: int| 0 <= i < text.len() implies in_class(
                CharClass::Word,
                #[trigger] text[i],
            ) by {
                assert(text[i] == src[pos + i]);
            }
        }
        assert(text[0] == c);
    } else if c == '!' || c == '=' || c == '<' || c == '>' {
        if peek_is(src, pos + 1, '=') {
            assert(text =~= seq![c, '=']);
        } else {
            assert(text =~= seq![c]);
        }
    } else {
        assert(text =~= seq![c]);
    }
}

/// Every token is well-formed and the longest that could be matched where
/// it stands.
///
/// The lexeme of token `i` is a lexeme of its kind: the one spelling of a
/// punctuation mark or operator, a word that the keyword table maps to its
/// keyword kind, a word that is no keyword for an identifier, a quoted
/// string, or decimal text for a number. Its literal is the decimal text of
/// a number, the text between the quotes of a string, and absent for every
/// other kind. And the token could not have been longer: a word or a number
/// ends where the next character would no longer continue it, and an
/// operator of one character is not followed by the `=` that would make it
/// an operator of two.
pub proof fn lemma_tokens_are_well_formed(src: Seq<char>, i: int)
    requires
        0 <= i < tokens_of(src).len(),
    ensures
        lexeme_fits(tokens_of(src)[i].ttype, tokens_of(src)[i].lexeme),
        tokens_of(src)[i].literal == literal_of(tokens_of(src)[i].ttype, tokens_of(src)[i].lexeme),
        is_longest_match(src, tokens_of(src)[i].ttype, spans_from(src, 0)[i].end),
{
    let spans = spans_from(src, 0);
    lemma_spans_from(src, 0);
    let span = spans[i];
    if i < spans.len() - 1 {
        lemma_emitted_token_fits(src, span.start, span.kind, span.end);
    } else {
        let end = src.len() as int;
        assert(src.subrange(end, end) =~= Seq::<char>::empty());
    }
}

} // verus!
