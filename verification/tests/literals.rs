use syntax::ast::{Expr, ExprKind, Lit};
use syntax::error::ParseError;
use syntax::literal::{parse_int_text, parse_literal};
use syntax::token::Token;

fn int_token(text: &str) -> Token {
    Token::Int(text.to_string())
}

#[test]
fn plain_digits_are_read_in_base_ten() {
    assert_eq!(parse_int_text("0"), Some(0));
    assert_eq!(parse_int_text("7"), Some(7));
    assert_eq!(parse_int_text("42"), Some(42));
    assert_eq!(parse_int_text("1234567890"), Some(1234567890));
}

#[test]
fn separators_are_skipped() {
    assert_eq!(parse_int_text("1_000"), Some(1000));
    assert_eq!(parse_int_text("1_000_000"), Some(1_000_000));
    assert_eq!(parse_int_text("_1_"), Some(1));
    assert_eq!(parse_int_text("1__2"), Some(12));
}

#[test]
fn leading_zeros_do_not_overflow() {
    assert_eq!(parse_int_text("0000000000000000000012"), Some(12));
    assert_eq!(parse_int_text("0_0"), Some(0));
}

#[test]
fn largest_value_is_accepted_and_the_next_is_not() {
    assert_eq!(parse_int_text("2147483647"), Some(i32::MAX));
    assert_eq!(parse_int_text("2_147_483_647"), Some(i32::MAX));
    assert_eq!(parse_int_text("2147483648"), None);
    assert_eq!(parse_int_text("99999999999999999999999999"), None);
}

#[test]
fn text_without_digits_has_no_value() {
    assert_eq!(parse_int_text(""), None);
    assert_eq!(parse_int_text("_"), None);
    assert_eq!(parse_int_text("___"), None);
}

#[test]
fn other_characters_have_no_value() {
    assert_eq!(parse_int_text("12a"), None);
    assert_eq!(parse_int_text("a12"), None);
    assert_eq!(parse_int_text("1 2"), None);
    assert_eq!(parse_int_text("0x10"), None);
    assert_eq!(parse_int_text("-5"), None);
    assert_eq!(parse_int_text("+5"), None);
    assert_eq!(parse_int_text("١٢"), None);
    assert_eq!(parse_int_text("1/"), None);
    assert_eq!(parse_int_text("1:"), None);
}

#[test]
fn int_token_becomes_int_literal() {
    let tokens = vec![int_token("1_024")];
    assert_eq!(
        parse_literal(&tokens, 0),
        Ok((Expr { kind: ExprKind::Lit(Lit::Int(1024)) }, 1))
    );
}

#[test]
fn str_token_becomes_str_literal_verbatim() {
    let tokens = vec![Token::Comma, Token::Str("a_b 12".to_string())];
    assert_eq!(
        parse_literal(&tokens, 1),
        Ok((Expr { kind: ExprKind::Lit(Lit::Str("a_b 12".to_string())) }, 2))
    );
}

#[test]
fn overflowing_literal_is_malformed() {
    let tokens = vec![Token::Comma, int_token("2147483648")];
    assert_eq!(parse_literal(&tokens, 1), Err(ParseError::MalformedLiteral { at: 1 }));
}

#[test]
fn non_digit_literal_is_malformed() {
    let tokens = vec![int_token("12x")];
    assert_eq!(parse_literal(&tokens, 0), Err(ParseError::MalformedLiteral { at: 0 }));
}

#[test]
fn literal_rule_rejects_other_tokens() {
    let tokens = vec![Token::Ident("x".to_string())];
    assert_eq!(parse_literal(&tokens, 0), Err(ParseError::UnexpectedToken { at: 0 }));
}

#[test]
fn literal_rule_at_end_of_input() {
    let tokens = vec![int_token("1")];
    assert_eq!(parse_literal(&tokens, 1), Err(ParseError::UnexpectedEnd));
    assert_eq!(parse_literal(&[], 0), Err(ParseError::UnexpectedEnd));
}
