use scm_engine::lexer::{lex, Token};
use scm_engine::value::ScmValue;

#[test]
fn lexer_test() {
    // 'a' is not a digit: it starts an identifier, not a number
    let toks = lex("a").unwrap();
    assert_eq!(toks.len(), 2);
    assert!(matches!(&toks[0], Token::Identifier(s) if s == "a"));
    assert!(matches!(&toks[1], Token::EndOfInput));
}

#[test]
fn lex_test() {
    let toks = lex("( 123 500 #t #f () \" Hi \" ())").unwrap();
    assert_eq!(toks.len(), 12);
    assert!(matches!(&toks[0], Token::OpenParen));
    assert!(matches!(&toks[1], Token::Value(ScmValue::Integer(123))));
    assert!(matches!(&toks[2], Token::Value(ScmValue::Integer(500))));
    assert!(matches!(&toks[3], Token::Value(ScmValue::Bool(true))));
    assert!(matches!(&toks[4], Token::Value(ScmValue::Bool(false))));
    assert!(matches!(&toks[5], Token::OpenParen));
    assert!(matches!(&toks[6], Token::ClosingParen));
    assert!(matches!(&toks[7], Token::Value(ScmValue::String(s)) if s == " Hi "));
    assert!(matches!(&toks[8], Token::OpenParen));
    assert!(matches!(&toks[9], Token::ClosingParen));
    assert!(matches!(&toks[10], Token::ClosingParen));
    assert!(matches!(&toks[11], Token::EndOfInput));
}

#[test]
fn lex_identifiers_chars_and_minus() {
    let toks = lex("(- x1 #'q)\n(foo)").unwrap();
    assert!(matches!(&toks[1], Token::Identifier(s) if s == "-"));
    assert!(matches!(&toks[2], Token::Identifier(s) if s == "x1"));
    assert!(matches!(&toks[3], Token::Value(ScmValue::Char('q'))));
    assert!(matches!(&toks[4], Token::ClosingParen));
    assert!(matches!(&toks[6], Token::Identifier(s) if s == "foo"));
    assert_eq!(toks.len(), 9);
}

#[test]
fn lex_empty_input() {
    let toks = lex("").unwrap();
    assert_eq!(toks.len(), 1);
    assert!(matches!(&toks[0], Token::EndOfInput));
}

#[test]
fn lex_unterminated_string_runs_to_end() {
    let toks = lex("\"abc").unwrap();
    assert!(matches!(&toks[0], Token::Value(ScmValue::String(s)) if s == "abc"));
}

#[test]
fn lex_forbidden_character_position() {
    let err = lex("(a)\n ([").unwrap_err();
    assert_eq!(err.line, 2);
    assert_eq!(err.row, 3);
}

#[test]
fn lex_bad_follower_of_literal() {
    let err = lex("12a").unwrap_err();
    assert_eq!(err.line, 1);
    assert_eq!(err.row, 3);
}

#[test]
fn lex_bad_boolean() {
    let err = lex("#x").unwrap_err();
    assert_eq!((err.line, err.row), (1, 1));
}

#[test]
fn lex_char_must_be_lowercase() {
    assert!(lex("#'A").is_err());
}

#[test]
fn lex_number_too_large() {
    assert!(lex("99999999999999999999").is_err());
    let toks = lex("9223372036854775807").unwrap();
    assert!(matches!(&toks[0], Token::Value(ScmValue::Integer(i64::MAX))));
}

#[test]
fn lex_forbidden_inside_identifier() {
    let err = lex("a[").unwrap_err();
    assert_eq!((err.line, err.row), (1, 2));
    let err = lex("(foo|bar)").unwrap_err();
    assert_eq!((err.line, err.row), (1, 5));
}

#[test]
fn lex_forbidden_inside_string() {
    let err = lex("\"a\\b\"").unwrap_err();
    assert_eq!((err.line, err.row), (1, 3));
    assert!(lex("\"a}").is_err());
}
