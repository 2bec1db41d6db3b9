use benzene::error::BenzeneError;
use benzene::text::{chars_of, spells, text_of};
use benzene::token::{Object, Token};
use benzene::token_type::TokenType;

#[test]
fn error_keeps_line_and_message() {
    let e = BenzeneError::error(7, "Unexpected character".to_string());
    assert_eq!(e.line(), 7);
    assert_eq!(e.message(), "Unexpected character");
}

#[test]
fn error_clone_is_equal_in_both_fields() {
    let e = BenzeneError::error(12, "Unterminated string".to_string());
    let c = e.clone();
    assert_eq!(c.line(), 12);
    assert_eq!(c.message(), "Unterminated string");
}

#[test]
fn report_line_with_empty_location() {
    let e = BenzeneError::error(3, "Unexpected character".to_string());
    assert_eq!(e.report("".to_string()), "[line 3] Error : Unexpected character");
}

#[test]
fn report_line_with_location() {
    let e = BenzeneError::error(120, "Unterminated string".to_string());
    assert_eq!(e.report("at end".to_string()), "[line 120] Error at end: Unterminated string");
}

#[test]
fn report_line_numbers_in_decimal() {
    let line_of = |n: usize| BenzeneError::error(n, "m".to_string()).report("".to_string());
    assert_eq!(line_of(0), "[line 0] Error : m");
    assert_eq!(line_of(9), "[line 9] Error : m");
    assert_eq!(line_of(10), "[line 10] Error : m");
    assert_eq!(line_of(1005), "[line 1005] Error : m");
    assert_eq!(line_of(usize::MAX), format!("[line {}] Error : m", usize::MAX));
}

#[test]
fn token_new_keeps_its_fields() {
    let t = Token::new(
        TokenType::Number,
        "1.5".to_string(),
        Some(Object::Num("1.5".to_string())),
        4,
    );
    assert_eq!(t.ttype(), TokenType::Number);
    assert_eq!(t.lexeme(), "1.5");
    assert_eq!(t.line(), 4);
    assert!(matches!(t.literal(), Some(Object::Num(text)) if text == "1.5"));

    let t = Token::new(TokenType::Eof, "".to_string(), None, 1);
    assert_eq!(t.ttype(), TokenType::Eof);
    assert_eq!(t.lexeme(), "");
    assert!(t.literal().is_none());
}

#[test]
fn chars_of_lists_the_characters() {
    assert_eq!(chars_of("a\u{e9}\n"), vec!['a', '\u{e9}', '\n']);
    assert_eq!(chars_of(""), Vec::<char>::new());
}

#[test]
fn text_of_takes_the_range() {
    let v = vec!['a', 'b', 'c', 'd'];
    assert_eq!(text_of(&v, 1, 3), "bc");
    assert_eq!(text_of(&v, 0, 4), "abcd");
    assert_eq!(text_of(&v, 2, 2), "");
}

#[test]
fn spells_compares_the_range_with_the_word() {
    let v = vec!['x', 'i', 'f', 'y'];
    assert!(spells(&v, 1, 3, "if"));
    assert!(!spells(&v, 0, 3, "if"));
    assert!(!spells(&v, 1, 3, "of"));
    assert!(!spells(&v, 1, 3, "iff"));
    assert!(spells(&v, 2, 2, ""));
}
