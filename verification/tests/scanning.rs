use benzene::error::BenzeneError;
use benzene::scanner::Scanner;
use benzene::token::{Object, Token};
use benzene::token_type::TokenType;

struct Scan {
    kinds: Vec<TokenType>,
    lexemes: Vec<String>,
    lines: Vec<usize>,
    errors: Vec<(usize, String)>,
    failed: Option<(usize, String)>,
}

fn pair(e: &BenzeneError) -> (usize, String) {
    (e.line(), e.message().clone())
}

fn scan(source: &str) -> Scan {
    let mut scanner = Scanner::new(source.to_string());
    let failed = match scanner.scan_tokens() {
        Ok(_) => None,
        Err(e) => Some(pair(&e)),
    };
    let tokens: &Vec<Token> = scanner.tokens();
    Scan {
        kinds: tokens.iter().map(|t| t.ttype()).collect(),
        lexemes: tokens.iter().map(|t| t.lexeme().clone()).collect(),
        lines: tokens.iter().map(|t| t.line()).collect(),
        errors: scanner.errors().iter().map(pair).collect(),
        failed,
    }
}

fn number_text(source: &str, index: usize) -> String {
    let mut scanner = Scanner::new(source.to_string());
    let _ = scanner.scan_tokens();
    match scanner.tokens()[index].literal() {
        Some(Object::Num(text)) => text.clone(),
        other => panic!("no number literal: {:?}", other),
    }
}

fn string_text(source: &str, index: usize) -> String {
    let mut scanner = Scanner::new(source.to_string());
    let _ = scanner.scan_tokens();
    match scanner.tokens()[index].literal() {
        Some(Object::Str(text)) => text.clone(),
        other => panic!("no string literal: {:?}", other),
    }
}

fn strings(items: &[&str]) -> Vec<String> {
    items.iter().map(|s| s.to_string()).collect()
}

#[test]
fn empty_source_is_one_eof() {
    let s = scan("");
    assert_eq!(s.kinds, vec![TokenType::Eof]);
    assert_eq!(s.lexemes, strings(&[""]));
    assert_eq!(s.lines, vec![1]);
    assert!(s.errors.is_empty());
    assert_eq!(s.failed, None);
}

#[test]
fn blanks_and_comments_yield_only_eof() {
    let s = scan("  \t\r\n// a line comment ( + \"\n/* a block\n comment */\n   // last, without newline");
    assert_eq!(s.kinds, vec![TokenType::Eof]);
    assert_eq!(s.lexemes, strings(&[""]));
    assert_eq!(s.lines, vec![5]);
    assert!(s.errors.is_empty());
    assert_eq!(s.failed, None);
}

#[test]
fn scan_succeeds_with_the_tokens() {
    let mut scanner = Scanner::new("a + b".to_string());
    let kinds: Vec<TokenType> = match scanner.scan_tokens() {
        Ok(tokens) => tokens.iter().map(|t| t.ttype()).collect(),
        Err(e) => panic!("unexpected failure: {:?}", e),
    };
    assert_eq!(
        kinds,
        vec![TokenType::Identifier, TokenType::Plus, TokenType::Identifier, TokenType::Eof]
    );
}

#[test]
fn nested_block_comment_is_consumed() {
    let s = scan("/* a /* b */ c */");
    assert_eq!(s.kinds, vec![TokenType::Eof]);
    assert!(s.errors.is_empty());
    assert_eq!(s.failed, None);
}

#[test]
fn nested_block_comment_counts_its_newlines() {
    let s = scan("1 /* a\n /* b\n\n */ c\n */ 2\n3");
    assert_eq!(s.kinds, vec![TokenType::Number, TokenType::Number, TokenType::Number, TokenType::Eof]);
    assert_eq!(s.lexemes, strings(&["1", "2", "3", ""]));
    assert_eq!(s.lines, vec![1, 5, 6, 6]);
    assert!(s.errors.is_empty());
}

#[test]
fn block_comment_edge_shapes() {
    assert_eq!(scan("/**/+").kinds, vec![TokenType::Plus, TokenType::Eof]);
    assert_eq!(scan("/***/+").kinds, vec![TokenType::Plus, TokenType::Eof]);
    assert_eq!(scan("/* * / */+").kinds, vec![TokenType::Plus, TokenType::Eof]);
    assert_eq!(scan("/*/**/*/+").kinds, vec![TokenType::Plus, TokenType::Eof]);
    // The slash of the opener does not serve as the slash of a closer.
    let s = scan("/*/");
    assert_eq!(s.kinds, vec![TokenType::Eof]);
    assert_eq!(s.errors, vec![(1, "Unterminated comment".to_string())]);
}

#[test]
fn text_after_a_block_comment_is_scanned() {
    let s = scan("a /* x */ b */");
    assert_eq!(
        s.kinds,
        vec![
            TokenType::Identifier,
            TokenType::Identifier,
            TokenType::Star,
            TokenType::Slash,
            TokenType::Eof
        ]
    );
}

#[test]
fn unterminated_string_fails_and_ends_with_eof() {
    let s = scan("\"abc");
    assert_eq!(s.kinds, vec![TokenType::Eof]);
    assert_eq!(s.errors, vec![(1, "Unterminated string".to_string())]);
    assert_eq!(s.failed, Some((1, "Unterminated string".to_string())));
}

#[test]
fn unterminated_string_reports_the_line_where_the_source_ends() {
    let s = scan("x\n\"abc\n\ndef\n");
    assert_eq!(s.kinds, vec![TokenType::Identifier, TokenType::Eof]);
    assert_eq!(s.lines, vec![1, 5]);
    assert_eq!(s.errors, vec![(5, "Unterminated string".to_string())]);
}

#[test]
fn unterminated_nested_comment_fails() {
    let s = scan("/* /* x");
    assert_eq!(s.kinds, vec![TokenType::Eof]);
    assert_eq!(s.errors, vec![(1, "Unterminated comment".to_string())]);
    assert_eq!(s.failed, Some((1, "Unterminated comment".to_string())));
}

#[test]
fn comment_with_one_level_left_open_fails_at_the_last_line() {
    let s = scan("a\n/* /* x */\n\n");
    assert_eq!(s.kinds, vec![TokenType::Identifier, TokenType::Eof]);
    assert_eq!(s.lines, vec![1, 4]);
    assert_eq!(s.errors, vec![(4, "Unterminated comment".to_string())]);
}

#[test]
fn number_with_fraction_is_one_token() {
    let s = scan("123.45");
    assert_eq!(s.kinds, vec![TokenType::Number, TokenType::Eof]);
    assert_eq!(s.lexemes, strings(&["123.45", ""]));
    let text = number_text("123.45", 0);
    assert_eq!(text, "123.45");
    assert_eq!(text.parse::<f64>().unwrap(), 123.45);
}

#[test]
fn number_without_fraction_digits_leaves_the_point() {
    let s = scan("123.");
    assert_eq!(s.kinds, vec![TokenType::Number, TokenType::Dot, TokenType::Eof]);
    assert_eq!(s.lexemes, strings(&["123", ".", ""]));
    let text = number_text("123.", 0);
    assert_eq!(text, "123");
    assert_eq!(text.parse::<f64>().unwrap(), 123.0);
}

#[test]
fn number_takes_one_point_only() {
    let s = scan("1.2.3");
    assert_eq!(
        s.kinds,
        vec![TokenType::Number, TokenType::Dot, TokenType::Number, TokenType::Eof]
    );
    assert_eq!(s.lexemes, strings(&["1.2", ".", "3", ""]));
    assert_eq!(number_text("1.2.3", 2), "3");
}

#[test]
fn point_before_digits_is_a_dot() {
    let s = scan(".5");
    assert_eq!(s.kinds, vec![TokenType::Dot, TokenType::Number, TokenType::Eof]);
}

#[test]
fn member_access_on_a_number() {
    let s = scan("12.abs");
    assert_eq!(
        s.kinds,
        vec![TokenType::Number, TokenType::Dot, TokenType::Identifier, TokenType::Eof]
    );
    assert_eq!(s.lexemes, strings(&["12", ".", "abs", ""]));
}

#[test]
fn number_keeps_its_text_digit_for_digit() {
    assert_eq!(number_text("007.500", 0), "007.500");
    assert_eq!(number_text("007.500", 0).parse::<f64>().unwrap(), 7.5);
}

#[test]
fn bang_equal_is_one_token() {
    let s = scan("!=");
    assert_eq!(s.kinds, vec![TokenType::BangEqual, TokenType::Eof]);
    assert_eq!(s.lexemes, strings(&["!=", ""]));
}

#[test]
fn bang_then_identifier() {
    let s = scan("! x");
    assert_eq!(s.kinds, vec![TokenType::Bang, TokenType::Identifier, TokenType::Eof]);
    assert_eq!(s.lexemes, strings(&["!", "x", ""]));
}

#[test]
fn one_and_two_character_operators() {
    let s = scan("! != = == < <= > >=");
    assert_eq!(
        s.kinds,
        vec![
            TokenType::Bang,
            TokenType::BangEqual,
            TokenType::Assign,
            TokenType::Equal,
            TokenType::Lesser,
            TokenType::LesserEqual,
            TokenType::Greater,
            TokenType::GreaterEqual,
            TokenType::Eof
        ]
    );
    assert_eq!(s.lexemes, strings(&["!", "!=", "=", "==", "<", "<=", ">", ">=", ""]));
}

#[test]
fn operators_pair_up_from_the_left() {
    let s = scan("===!==<==");
    assert_eq!(
        s.kinds,
        vec![
            TokenType::Equal,
            TokenType::Assign,
            TokenType::BangEqual,
            TokenType::Assign,
            TokenType::LesserEqual,
            TokenType::Assign,
            TokenType::Eof
        ]
    );
}

#[test]
fn single_character_punctuation() {
    let s = scan("(){},.-+;*/");
    assert_eq!(
        s.kinds,
        vec![
            TokenType::LeftParen,
            TokenType::RightParen,
            TokenType::LeftBrace,
            TokenType::RightBrace,
            TokenType::Comma,
            TokenType::Dot,
            TokenType::Minus,
            TokenType::Plus,
            TokenType::SemiColon,
            TokenType::Star,
            TokenType::Slash,
            TokenType::Eof
        ]
    );
    assert_eq!(
        s.lexemes,
        strings(&["(", ")", "{", "}", ",", ".", "-", "+", ";", "*", "/", ""])
    );
}

#[test]
fn keyword_then_identifier() {
    let s = scan("class Foo");
    assert_eq!(s.kinds, vec![TokenType::Class, TokenType::Identifier, TokenType::Eof]);
    assert_eq!(s.lexemes, strings(&["class", "Foo", ""]));
}

#[test]
fn keyword_prefix_is_an_identifier() {
    let s = scan("classify");
    assert_eq!(s.kinds, vec![TokenType::Identifier, TokenType::Eof]);
    assert_eq!(s.lexemes, strings(&["classify", ""]));
}

#[test]
fn every_keyword_has_its_kind() {
    let s = scan("and class else false fun if nil or print return super this true var while");
    assert_eq!(
        s.kinds,
        vec![
            TokenType::And,
            TokenType::Class,
            TokenType::Else,
            TokenType::False,
            TokenType::Fun,
            TokenType::If,
            TokenType::Nil,
            TokenType::Or,
            TokenType::Print,
            TokenType::Return,
            TokenType::Super,
            TokenType::This,
            TokenType::True,
            TokenType::Var,
            TokenType::While,
            TokenType::Eof
        ]
    );
}

#[test]
fn reserved_word_for_is_classified_as_false() {
    let s = scan("for");
    assert_eq!(s.kinds, vec![TokenType::False, TokenType::Eof]);
    assert_eq!(s.lexemes, strings(&["for", ""]));
}

#[test]
fn keywords_are_case_sensitive() {
    let s = scan("Class WHILE If");
    assert_eq!(
        s.kinds,
        vec![TokenType::Identifier, TokenType::Identifier, TokenType::Identifier, TokenType::Eof]
    );
}

#[test]
fn keywords_carry_no_literal() {
    let mut scanner = Scanner::new("while x".to_string());
    let _ = scanner.scan_tokens();
    assert!(scanner.tokens()[0].literal().is_none());
    assert!(scanner.tokens()[1].literal().is_none());
    assert!(scanner.tokens()[2].literal().is_none());
}

#[test]
fn underscores_and_digits_continue_an_identifier() {
    let s = scan("_a1_b2 foo_bar x9");
    assert_eq!(
        s.kinds,
        vec![TokenType::Identifier, TokenType::Identifier, TokenType::Identifier, TokenType::Eof]
    );
    assert_eq!(s.lexemes, strings(&["_a1_b2", "foo_bar", "x9", ""]));
}

#[test]
fn word_after_digits_is_its_own_token() {
    let s = scan("12ab");
    assert_eq!(s.kinds, vec![TokenType::Number, TokenType::Identifier, TokenType::Eof]);
    assert_eq!(s.lexemes, strings(&["12", "ab", ""]));
}

#[test]
fn string_literal_is_the_text_between_the_quotes() {
    let s = scan("\"hello world\"");
    assert_eq!(s.kinds, vec![TokenType::String, TokenType::Eof]);
    assert_eq!(s.lexemes, strings(&["\"hello world\"", ""]));
    assert_eq!(string_text("\"hello world\"", 0), "hello world");
}

#[test]
fn empty_string_literal() {
    let s = scan("\"\"");
    assert_eq!(s.kinds, vec![TokenType::String, TokenType::Eof]);
    assert_eq!(string_text("\"\"", 0), "");
}

#[test]
fn string_escapes_are_taken_as_they_are() {
    let source = "\"a\\nb\"";
    let s = scan(source);
    assert_eq!(s.kinds, vec![TokenType::String, TokenType::Eof]);
    assert_eq!(string_text(source, 0), "a\\nb");
    // A backslash does not protect a quote.
    let s = scan("\"a\\\"b");
    assert_eq!(s.kinds, vec![TokenType::String, TokenType::Identifier, TokenType::Eof]);
    assert_eq!(string_text("\"a\\\"b", 0), "a\\");
}

#[test]
fn string_literal_keeps_characters_outside_ascii() {
    let s = scan("\"h\u{e9}llo \u{1f600}\" x");
    assert_eq!(s.kinds, vec![TokenType::String, TokenType::Identifier, TokenType::Eof]);
    assert_eq!(string_text("\"h\u{e9}llo \u{1f600}\" x", 0), "h\u{e9}llo \u{1f600}");
}

#[test]
fn string_over_several_lines_is_on_the_line_where_it_starts() {
    let s = scan("a\n\"x\ny\nz\" b");
    assert_eq!(
        s.kinds,
        vec![TokenType::Identifier, TokenType::String, TokenType::Identifier, TokenType::Eof]
    );
    assert_eq!(s.lines, vec![1, 2, 4, 4]);
    assert_eq!(string_text("a\n\"x\ny\nz\" b", 1), "x\ny\nz");
}

#[test]
fn token_line_is_one_more_than_the_newlines_before_it() {
    let s = scan("a\n\n  b\n// c\n\n\nd e\n");
    assert_eq!(s.lexemes, strings(&["a", "b", "d", "e", ""]));
    assert_eq!(s.lines, vec![1, 3, 7, 7, 8]);
}

#[test]
fn carriage_return_is_no_newline() {
    let s = scan("a\r\nb\rc");
    assert_eq!(s.lexemes, strings(&["a", "b", "c", ""]));
    assert_eq!(s.lines, vec![1, 2, 2, 2]);
}

#[test]
fn line_comment_ends_before_the_newline() {
    let s = scan("a // b c\nd");
    assert_eq!(s.lexemes, strings(&["a", "d", ""]));
    assert_eq!(s.lines, vec![1, 2, 2]);
}

#[test]
fn two_unexpected_characters_give_two_errors() {
    let s = scan("@ 1 # 2");
    assert_eq!(s.kinds, vec![TokenType::Number, TokenType::Number, TokenType::Eof]);
    assert_eq!(s.lexemes, strings(&["1", "2", ""]));
    assert_eq!(number_text("@ 1 # 2", 0), "1");
    assert_eq!(number_text("@ 1 # 2", 1), "2");
    assert_eq!(
        s.errors,
        vec![
            (1, "Unexpected character".to_string()),
            (1, "Unexpected character".to_string())
        ]
    );
    assert_eq!(s.failed, Some((1, "Unexpected character".to_string())));
}

#[test]
fn errors_on_different_lines_are_all_kept_and_the_last_is_returned() {
    let s = scan("a @\nb\n# c\n\"open");
    assert_eq!(
        s.kinds,
        vec![TokenType::Identifier, TokenType::Identifier, TokenType::Identifier, TokenType::Eof]
    );
    assert_eq!(
        s.errors,
        vec![
            (1, "Unexpected character".to_string()),
            (3, "Unexpected character".to_string()),
            (4, "Unterminated string".to_string())
        ]
    );
    assert_eq!(s.failed, Some((4, "Unterminated string".to_string())));
}

#[test]
fn character_outside_ascii_is_unexpected() {
    let s = scan("\u{e9}t\u{e9}");
    assert_eq!(s.kinds, vec![TokenType::Identifier, TokenType::Eof]);
    assert_eq!(s.lexemes, strings(&["t", ""]));
    assert_eq!(s.errors.len(), 2);
}

#[test]
fn scanning_twice_gives_the_same_result() {
    let source = "var x = \"s\";\n@ /* c */ 1.5 != y // z\n\"open";
    let a = scan(source);
    let b = scan(source);
    assert_eq!(a.kinds, b.kinds);
    assert_eq!(a.lexemes, b.lexemes);
    assert_eq!(a.lines, b.lines);
    assert_eq!(a.errors, b.errors);
    assert_eq!(a.failed, b.failed);
    assert_eq!(a.errors.len(), 2);
}

#[test]
fn tokens_come_in_source_order_and_end_with_eof() {
    let s = scan("var answer = 42;\nprint answer;");
    assert_eq!(
        s.kinds,
        vec![
            TokenType::Var,
            TokenType::Identifier,
            TokenType::Assign,
            TokenType::Number,
            TokenType::SemiColon,
            TokenType::Print,
            TokenType::Identifier,
            TokenType::SemiColon,
            TokenType::Eof
        ]
    );
    assert_eq!(
        s.lexemes,
        strings(&["var", "answer", "=", "42", ";", "print", "answer", ";", ""])
    );
    assert_eq!(s.lines, vec![1, 1, 1, 1, 1, 2, 2, 2, 2]);
}

#[test]
fn scanning_again_at_the_end_adds_one_more_eof() {
    let mut scanner = Scanner::new("a @".to_string());
    assert!(scanner.scan_tokens().is_err());
    assert_eq!(scanner.tokens().len(), 2);
    // Nothing is left to scan: no new error, so the second scan succeeds.
    assert!(scanner.scan_tokens().is_ok());
    assert_eq!(scanner.tokens().len(), 3);
    assert_eq!(scanner.tokens()[2].ttype(), TokenType::Eof);
    assert_eq!(scanner.errors().len(), 1);
}
