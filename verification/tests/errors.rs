use syntax::error::{ParseError, Span};
use syntax::grammar::parse_program;
use syntax::token::{Delimiter, Token};

fn spans_of(widths: &[usize]) -> Vec<Span> {
    let mut at = 0;
    let mut spans = Vec::new();
    for w in widths {
        spans.push(Span { start: at, end: at + w });
        at += w + 1;
    }
    spans
}

#[test]
fn error_positions() {
    assert_eq!(ParseError::UnexpectedToken { at: 3 }.position(), Some(3));
    assert_eq!(ParseError::MalformedLiteral { at: 4 }.position(), Some(4));
    assert_eq!(ParseError::TrailingInput { at: 5 }.position(), Some(5));
    assert_eq!(ParseError::UnexpectedEnd.position(), None);
}

#[test]
fn error_span_is_that_of_the_offending_token() {
    let spans = spans_of(&[6, 3, 1]);
    assert_eq!(ParseError::UnexpectedToken { at: 0 }.span(&spans), Some(Span { start: 0, end: 6 }));
    assert_eq!(ParseError::MalformedLiteral { at: 1 }.span(&spans), Some(Span { start: 7, end: 10 }));
    assert_eq!(ParseError::TrailingInput { at: 2 }.span(&spans), Some(Span { start: 11, end: 12 }));
}

#[test]
fn error_span_is_absent_at_end_of_input() {
    let spans = spans_of(&[6, 3, 1]);
    assert_eq!(ParseError::UnexpectedEnd.span(&spans), None);
    assert_eq!(ParseError::UnexpectedToken { at: 3 }.span(&spans), None);
    assert_eq!(ParseError::UnexpectedToken { at: 0 }.span(&[]), None);
}

#[test]
fn error_messages() {
    assert_eq!(ParseError::UnexpectedToken { at: 0 }.message(), "unexpected token");
    assert_eq!(ParseError::UnexpectedEnd.message(), "unexpected end of input");
    assert_eq!(ParseError::MalformedLiteral { at: 0 }.message(), "invalid integer literal");
    assert_eq!(
        ParseError::TrailingInput { at: 0 }.message(),
        "unexpected input after the last item"
    );
}

#[test]
fn failed_parse_points_into_the_source() {
    // struct Foo { ; }
    let tokens = vec![
        Token::Struct,
        Token::Ident("Foo".to_string()),
        Token::Open(Delimiter::Brace),
        Token::Semicolon,
        Token::Close(Delimiter::Brace),
    ];
    let spans = vec![
        Span { start: 0, end: 6 },
        Span { start: 7, end: 10 },
        Span { start: 11, end: 12 },
        Span { start: 13, end: 14 },
        Span { start: 15, end: 16 },
    ];
    let err = parse_program(&tokens).unwrap_err();
    assert_eq!(err, ParseError::UnexpectedToken { at: 3 });
    assert_eq!(err.span(&spans), Some(Span { start: 13, end: 14 }));
}
