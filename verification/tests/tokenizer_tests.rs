use calculator::error::Error;
use calculator::token::{tokenize, Token, Value};

fn num(text: &str) -> Token {
    Token::Num(Value::Lit(text.to_string()))
}

#[test]
fn single_integer_literal() {
    assert_eq!(tokenize("7"), Ok(vec![num("7"), Token::Eof]));
}

#[test]
fn single_decimal_literal() {
    assert_eq!(tokenize("3.5"), Ok(vec![num("3.5"), Token::Eof]));
}

#[test]
fn literal_with_leading_dot() {
    assert_eq!(tokenize(".5"), Ok(vec![num(".5"), Token::Eof]));
}

#[test]
fn literal_with_trailing_dot() {
    assert_eq!(tokenize("12."), Ok(vec![num("12."), Token::Eof]));
}

#[test]
fn literal_with_leading_zeros() {
    assert_eq!(tokenize("007"), Ok(vec![num("007"), Token::Eof]));
}

#[test]
fn inf_keyword() {
    assert_eq!(tokenize("inf"), Ok(vec![Token::Num(Value::Inf), Token::Eof]));
}

#[test]
fn truncated_inf_is_invalid() {
    assert_eq!(tokenize("in"), Err(Error::InvalidIdent()));
}

#[test]
fn misspelled_inf_is_invalid() {
    assert_eq!(tokenize("ix"), Err(Error::InvalidIdent()));
}

#[test]
fn longer_identifier_is_invalid() {
    assert_eq!(tokenize("infinity"), Err(Error::InvalidIdent()));
}

#[test]
fn two_dots_make_an_invalid_number() {
    assert_eq!(tokenize("1.2.3"), Err(Error::InvalidNumber("1.2.3".to_string())));
}

#[test]
fn lone_dot_makes_an_invalid_number() {
    assert_eq!(tokenize("."), Err(Error::InvalidNumber(".".to_string())));
}

#[test]
fn unexpected_character_is_reported() {
    assert_eq!(tokenize("1 + @"), Err(Error::UnexpectedChar('@')));
}

#[test]
fn operators_parens_and_whitespace() {
    assert_eq!(
        tokenize(" ( 1 )\t+ 2.5 * 3 - 4 / inf "),
        Ok(vec![
            Token::LeftParen,
            num("1"),
            Token::RightParen,
            Token::Plus,
            num("2.5"),
            Token::Star,
            num("3"),
            Token::Minus,
            num("4"),
            Token::Slash,
            Token::Num(Value::Inf),
            Token::Eof,
        ])
    );
}

#[test]
fn empty_input_yields_only_the_sentinel() {
    assert_eq!(tokenize(""), Ok(vec![Token::Eof]));
    assert_eq!(tokenize("   "), Ok(vec![Token::Eof]));
}

#[test]
fn number_run_stops_at_operator() {
    assert_eq!(
        tokenize("12+34"),
        Ok(vec![num("12"), Token::Plus, num("34"), Token::Eof])
    );
}

#[test]
fn inf_followed_by_number() {
    assert_eq!(
        tokenize("inf5"),
        Ok(vec![Token::Num(Value::Inf), num("5"), Token::Eof])
    );
}

#[test]
fn token_classification() {
    assert!(Token::Plus.is_unary_op());
    assert!(Token::Minus.is_unary_op());
    assert!(!Token::Star.is_unary_op());
    assert!(Token::Plus.is_binary_op());
    assert!(Token::Minus.is_binary_op());
    assert!(Token::Star.is_binary_op());
    assert!(Token::Slash.is_binary_op());
    assert!(!Token::LeftParen.is_binary_op());
    assert!(!Token::Eof.is_binary_op());
}

#[test]
fn star_binds_tighter_than_plus() {
    assert!(Token::Plus.precedence() < Token::Star.precedence());
    assert_eq!(Token::Plus.precedence(), Token::Minus.precedence());
    assert_eq!(Token::Star.precedence(), Token::Slash.precedence());
}

#[test]
fn lone_i_at_end_of_input_is_invalid() {
    // End of input inside the keyword is an invalid identifier, not a crash.
    assert_eq!(tokenize("i"), Err(Error::InvalidIdent()));
    assert_eq!(tokenize("1 + i"), Err(Error::InvalidIdent()));
    assert_eq!(tokenize("in+"), Err(Error::InvalidIdent()));
}

#[test]
fn unicode_whitespace_is_skipped() {
    assert_eq!(
        tokenize("1\u{00A0}+\u{2003}2"),
        Ok(vec![num("1"), Token::Plus, num("2"), Token::Eof])
    );
}

#[test]
fn only_dots_make_an_invalid_number() {
    assert_eq!(tokenize("..."), Err(Error::InvalidNumber("...".to_string())));
}
