use vstd::prelude::*;

verus! {

/// The bracket kinds that bound a list.
#[derive(Clone, Copy, Debug, PartialEq, Eq, Hash, Structural)]
pub enum Delimiter {
    Paren,
    Brace,
}

/// A classified lexical unit.
#[derive(Clone, Debug, PartialEq, Eq, Hash)]
pub enum Token {
    /// An identifier and its name.
    Ident(String),
    /// An integer literal and its raw text, which may hold `_` separators.
    Int(String),
    /// A string literal and its decoded text.
    Str(String),
    Struct,
    Func,
    Colon,
    Comma,
    Semicolon,
    Lt,
    Gt,
    Open(Delimiter),
    Close(Delimiter),
}

/// The mathematical value of a [`Token`]: texts are character sequences.
pub enum Tok {
    Ident(Seq<char>),
    Int(Seq<char>),
    Str(Seq<char>),
    Struct,
    Func,
    Colon,
    Comma,
    Semicolon,
    Lt,
    Gt,
    Open(Delimiter),
    Close(Delimiter),
}

impl View for Token {
    type V = Tok;

    open spec fn view(&self) -> Tok {
        match self {
            Token::Ident(s) => Tok::Ident(s@),
            Token::Int(s) => Tok::Int(s@),
            Token::Str(s) => Tok::Str(s@),
            Token::Struct => Tok::Struct,
            Token::Func => Tok::Func,
            Token::Colon => Tok::Colon,
            Token::Comma => Tok::Comma,
            Token::Semicolon => Tok::Semicolon,
            Token::Lt => Tok::Lt,
            Token::Gt => Tok::Gt,
            Token::Open(d) => Tok::Open(*d),
            Token::Close(d) => Tok::Close(*d),
        }
    }
}

/// The values of a token sequence, in order.
pub open spec fn tokens_view(tokens: Seq<Token>) -> Seq<Tok> {
    tokens.map_values(|t: Token| t@)
}

impl Delimiter {
    /// Whether two delimiters are of the same kind.
    pub fn same_as(&self, other: &Delimiter) -> (r: bool)
        ensures
            r == (*self == *other),
    {
        match (self, other) {
            (Delimiter::Paren, Delimiter::Paren) => true,
            (Delimiter::Brace, Delimiter::Brace) => true,
            _ => false,
        }
    }
}

impl Token {
    /// Whether two tokens have the same value: the same category and, where
    /// the category carries a text, the same text.
    pub fn same_as(&self, other: &Token) -> (r: bool)
        ensures
            r == (self@ == other@),
    {
        match (self, other) {
            (Token::Ident(a), Token::Ident(b)) => *a == *b,
            (Token::Int(a), Token::Int(b)) => *a == *b,
            (Token::Str(a), Token::Str(b)) => *a == *b,
            (Token::Struct, Token::Struct) => true,
            (Token::Func, Token::Func) => true,
            (Token::Colon, Token::Colon) => true,
            (Token::Comma, Token::Comma) => true,
            (Token::Semicolon, Token::Semicolon) => true,
            (Token::Lt, Token::Lt) => true,
            (Token::Gt, Token::Gt) => true,
            (Token::Open(a), Token::Open(b)) => a.same_as(b),
            (Token::Close(a), Token::Close(b)) => a.same_as(b),
            _ => false,
        }
    }
}

} // verus!
