use syntax::ast::{Item, ItemKind};
use syntax::error::ParseError;
use syntax::grammar::{
    expect_token, parse_func, parse_generics, parse_ident, parse_pair, parse_pair_list,
    parse_program, parse_struct,
};
use syntax::token::{Delimiter, Token};

fn id(name: &str) -> Token {
    Token::Ident(name.to_string())
}

fn pair(name: &str, ty: &str) -> (String, String) {
    (name.to_string(), ty.to_string())
}

fn open_brace() -> Token {
    Token::Open(Delimiter::Brace)
}

fn close_brace() -> Token {
    Token::Close(Delimiter::Brace)
}

fn open_paren() -> Token {
    Token::Open(Delimiter::Paren)
}

fn close_paren() -> Token {
    Token::Close(Delimiter::Paren)
}

fn unit_struct(name: &str) -> Vec<Token> {
    vec![Token::Struct, id(name), Token::Semicolon]
}

fn add_func() -> Vec<Token> {
    vec![
        Token::Func,
        id("add"),
        open_paren(),
        id("a"),
        Token::Colon,
        id("i32"),
        Token::Comma,
        id("b"),
        Token::Colon,
        id("i32"),
        close_paren(),
        open_brace(),
        close_brace(),
    ]
}

fn pair_struct(trailing: bool) -> Vec<Token> {
    let mut tokens = vec![
        Token::Struct,
        id("Pair"),
        Token::Lt,
        id("T"),
        Token::Gt,
        open_brace(),
        id("a"),
        Token::Colon,
        id("T"),
        Token::Comma,
        id("b"),
        Token::Colon,
        id("T"),
    ];
    if trailing {
        tokens.push(Token::Comma);
    }
    tokens.push(close_brace());
    tokens
}

#[test]
fn unit_struct_has_no_fields() {
    assert_eq!(
        parse_program(&unit_struct("Foo")),
        Ok(vec![Item {
            ident: "Foo".to_string(),
            kind: ItemKind::Struct { generics: None, fields: None },
        }])
    );
}

#[test]
fn empty_braces_are_an_empty_field_list() {
    let tokens = vec![Token::Struct, id("Foo"), open_brace(), close_brace()];
    let parsed = parse_program(&tokens);
    assert_eq!(
        parsed,
        Ok(vec![Item {
            ident: "Foo".to_string(),
            kind: ItemKind::Struct { generics: None, fields: Some(vec![]) },
        }])
    );
    assert_ne!(parsed, parse_program(&unit_struct("Foo")));
}

#[test]
fn generic_struct_with_trailing_comma() {
    assert_eq!(
        parse_program(&pair_struct(true)),
        Ok(vec![Item {
            ident: "Pair".to_string(),
            kind: ItemKind::Struct {
                generics: Some(vec!["T".to_string()]),
                fields: Some(vec![pair("a", "T"), pair("b", "T")]),
            },
        }])
    );
}

#[test]
fn trailing_comma_in_fields_changes_nothing() {
    assert!(parse_program(&pair_struct(false)).is_ok());
    assert_eq!(parse_program(&pair_struct(true)), parse_program(&pair_struct(false)));
    let one = vec![Token::Struct, id("S"), open_brace(), id("x"), Token::Colon, id("u8")];
    let mut with = one.clone();
    with.push(Token::Comma);
    with.push(close_brace());
    let mut without = one;
    without.push(close_brace());
    assert_eq!(
        parse_program(&with),
        Ok(vec![Item {
            ident: "S".to_string(),
            kind: ItemKind::Struct { generics: None, fields: Some(vec![pair("x", "u8")]) },
        }])
    );
    assert_eq!(parse_program(&with), parse_program(&without));
}

#[test]
fn function_with_two_arguments() {
    assert_eq!(
        parse_program(&add_func()),
        Ok(vec![Item {
            ident: "add".to_string(),
            kind: ItemKind::Func { inputs: vec![pair("a", "i32"), pair("b", "i32")] },
        }])
    );
}

#[test]
fn function_without_arguments() {
    let tokens = vec![Token::Func, id("f"), open_paren(), close_paren(), open_brace(), close_brace()];
    assert_eq!(
        parse_program(&tokens),
        Ok(vec![Item { ident: "f".to_string(), kind: ItemKind::Func { inputs: vec![] } }])
    );
}

#[test]
fn trailing_comma_in_arguments_is_rejected() {
    let mut tokens = add_func();
    tokens.insert(10, Token::Comma);
    assert_eq!(parse_program(&tokens), Err(ParseError::UnexpectedToken { at: 11 }));
    let lone = vec![
        Token::Func,
        id("f"),
        open_paren(),
        Token::Comma,
        close_paren(),
        open_brace(),
        close_brace(),
    ];
    assert_eq!(parse_program(&lone), Err(ParseError::UnexpectedToken { at: 3 }));
}

#[test]
fn non_empty_body_is_rejected() {
    let tokens = vec![
        Token::Func,
        id("f"),
        open_paren(),
        close_paren(),
        open_brace(),
        Token::Int("1".to_string()),
        close_brace(),
    ];
    assert_eq!(parse_program(&tokens), Err(ParseError::UnexpectedToken { at: 5 }));
}

#[test]
fn empty_input_is_an_empty_program() {
    assert_eq!(parse_program(&[]), Ok(vec![]));
}

#[test]
fn stray_token_after_program_is_trailing_input() {
    let mut tokens = unit_struct("Foo");
    tokens.extend(add_func());
    let items = tokens.len();
    tokens.push(Token::Semicolon);
    assert_eq!(parse_program(&tokens), Err(ParseError::TrailingInput { at: items }));
    assert_eq!(parse_program(&[Token::Semicolon]), Err(ParseError::TrailingInput { at: 0 }));
}

#[test]
fn items_come_out_in_source_order() {
    let mut tokens = unit_struct("A");
    tokens.extend(add_func());
    tokens.extend(unit_struct("B"));
    let items = parse_program(&tokens).unwrap();
    let names: Vec<&str> = items.iter().map(|it| it.ident.as_str()).collect();
    assert_eq!(names, vec!["A", "add", "B"]);
}

#[test]
fn lone_comma_in_fields_is_rejected() {
    let tokens = vec![Token::Struct, id("S"), open_brace(), Token::Comma, close_brace()];
    assert_eq!(parse_program(&tokens), Err(ParseError::UnexpectedToken { at: 3 }));
}

#[test]
fn doubled_comma_in_fields_is_rejected() {
    let mut tokens = pair_struct(true);
    let close = tokens.len() - 1;
    tokens.insert(close, Token::Comma);
    assert_eq!(parse_program(&tokens), Err(ParseError::UnexpectedToken { at: close }));
}

#[test]
fn struct_needs_body_or_semicolon() {
    let tokens = vec![Token::Struct, id("S"), Token::Colon];
    assert_eq!(parse_program(&tokens), Err(ParseError::UnexpectedToken { at: 2 }));
    let tokens = vec![Token::Struct, id("S")];
    assert_eq!(parse_program(&tokens), Err(ParseError::UnexpectedEnd));
    let tokens = vec![Token::Struct, id("S"), open_paren(), close_paren()];
    assert_eq!(parse_program(&tokens), Err(ParseError::UnexpectedToken { at: 2 }));
}

#[test]
fn generics_need_a_name() {
    let tokens = vec![Token::Struct, id("S"), Token::Lt, Token::Gt, Token::Semicolon];
    assert_eq!(parse_program(&tokens), Err(ParseError::UnexpectedToken { at: 3 }));
}

#[test]
fn generics_take_no_trailing_comma() {
    let tokens =
        vec![Token::Struct, id("S"), Token::Lt, id("T"), Token::Comma, Token::Gt, Token::Semicolon];
    assert_eq!(parse_program(&tokens), Err(ParseError::UnexpectedToken { at: 5 }));
}

#[test]
fn several_generics_keep_their_order() {
    let tokens = vec![
        Token::Struct,
        id("S"),
        Token::Lt,
        id("K"),
        Token::Comma,
        id("V"),
        Token::Gt,
        Token::Semicolon,
    ];
    assert_eq!(
        parse_program(&tokens),
        Ok(vec![Item {
            ident: "S".to_string(),
            kind: ItemKind::Struct {
                generics: Some(vec!["K".to_string(), "V".to_string()]),
                fields: None,
            },
        }])
    );
}

#[test]
fn field_needs_colon_and_type() {
    let tokens = vec![Token::Struct, id("S"), open_brace(), id("a"), id("T"), close_brace()];
    assert_eq!(parse_program(&tokens), Err(ParseError::UnexpectedToken { at: 4 }));
    let tokens = vec![Token::Struct, id("S"), open_brace(), id("a"), Token::Colon, close_brace()];
    assert_eq!(parse_program(&tokens), Err(ParseError::UnexpectedToken { at: 5 }));
}

#[test]
fn unclosed_lists_end_the_input() {
    let tokens = vec![Token::Struct, id("S"), open_brace(), id("a"), Token::Colon, id("T")];
    assert_eq!(parse_program(&tokens), Err(ParseError::UnexpectedEnd));
    let tokens = vec![Token::Func, id("f"), open_paren()];
    assert_eq!(parse_program(&tokens), Err(ParseError::UnexpectedEnd));
    let tokens = vec![Token::Struct, id("S"), Token::Lt, id("T")];
    assert_eq!(parse_program(&tokens), Err(ParseError::UnexpectedEnd));
}

#[test]
fn lists_close_with_their_own_delimiter() {
    let tokens = vec![Token::Struct, id("S"), open_brace(), close_paren()];
    assert_eq!(parse_program(&tokens), Err(ParseError::UnexpectedToken { at: 3 }));
    let tokens = vec![Token::Func, id("f"), open_paren(), close_brace(), open_brace(), close_brace()];
    assert_eq!(parse_program(&tokens), Err(ParseError::UnexpectedToken { at: 3 }));
}

#[test]
fn function_needs_name_and_parentheses() {
    let tokens = vec![Token::Func, open_paren(), close_paren(), open_brace(), close_brace()];
    assert_eq!(parse_program(&tokens), Err(ParseError::UnexpectedToken { at: 1 }));
    let tokens = vec![Token::Func, id("f"), open_brace(), close_brace()];
    assert_eq!(parse_program(&tokens), Err(ParseError::UnexpectedToken { at: 2 }));
    let tokens = vec![Token::Func, id("f"), open_paren(), close_paren(), Token::Semicolon];
    assert_eq!(parse_program(&tokens), Err(ParseError::UnexpectedToken { at: 4 }));
}

#[test]
fn single_rules_report_positions() {
    let tokens = vec![id("a"), Token::Colon, id("T"), Token::Comma];
    assert_eq!(parse_ident(&tokens, 0), Ok("a".to_string()));
    assert_eq!(parse_ident(&tokens, 1), Err(ParseError::UnexpectedToken { at: 1 }));
    assert_eq!(parse_ident(&tokens, 4), Err(ParseError::UnexpectedEnd));
    assert_eq!(expect_token(&tokens, 3, &Token::Comma), Ok(()));
    assert_eq!(expect_token(&tokens, 2, &Token::Comma), Err(ParseError::UnexpectedToken { at: 2 }));
    assert_eq!(expect_token(&tokens, 9, &Token::Comma), Err(ParseError::UnexpectedEnd));
    assert_eq!(parse_pair(&tokens, 0), Ok(pair("a", "T")));
    assert_eq!(parse_pair(&tokens, 2), Err(ParseError::UnexpectedToken { at: 3 }));
}

#[test]
fn pair_list_gives_pairs_and_next_position() {
    let tokens = pair_struct(true);
    assert_eq!(
        parse_pair_list(&tokens, 6, Delimiter::Brace, true),
        Ok((vec![pair("a", "T"), pair("b", "T")], 15))
    );
    assert_eq!(
        parse_pair_list(&tokens, 6, Delimiter::Brace, false),
        Err(ParseError::UnexpectedToken { at: 14 })
    );
    assert_eq!(parse_generics(&tokens, 2), Ok((Some(vec!["T".to_string()]), 5)));
    assert_eq!(parse_generics(&tokens, 5), Ok((None, 5)));
}

#[test]
fn item_rules_check_their_keyword() {
    let tokens = unit_struct("Foo");
    assert_eq!(parse_func(&tokens, 0), Err(ParseError::UnexpectedToken { at: 0 }));
    assert!(parse_struct(&tokens, 0).is_ok());
    assert_eq!(parse_struct(&tokens, 3), Err(ParseError::UnexpectedEnd));
    assert_eq!(parse_struct(&add_func(), 0), Err(ParseError::UnexpectedToken { at: 0 }));
}

#[test]
fn tokens_compare_by_category_and_text() {
    assert!(id("a").same_as(&id("a")));
    assert!(!id("a").same_as(&id("b")));
    assert!(!id("a").same_as(&Token::Str("a".to_string())));
    assert!(open_brace().same_as(&open_brace()));
    assert!(!open_brace().same_as(&open_paren()));
    assert!(!open_brace().same_as(&close_brace()));
    assert!(Delimiter::Paren.same_as(&Delimiter::Paren));
    assert!(!Delimiter::Paren.same_as(&Delimiter::Brace));
}
