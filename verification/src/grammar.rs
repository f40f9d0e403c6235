use crate::ast::{Item, ItemKind, ItemKindModel, ItemModel, Pair, items_view, names_view, pairs_view};
use crate::error::ParseError;
use crate::token::{tokens_view, Delimiter, Tok, Token};
use vstd::prelude::*;

verus! {

/// The identifier rule at `pos`: the name that the token there carries.
pub open spec fn spec_ident(ts: Seq<Tok>, pos: int) -> Result<Seq<char>, ParseError> {
    if pos >= ts.len() {
        Err(ParseError::UnexpectedEnd)
    } else {
        match ts[pos] {
            Tok::Ident(name) => Ok(name),
            _ => Err(ParseError::UnexpectedToken { at: pos as usize }),
        }
    }
}

/// The rule for one given token at `pos`.
pub open spec fn spec_expect(ts: Seq<Tok>, pos: int, want: Tok) -> Result<(), ParseError> {
    if pos >= ts.len() {
        Err(ParseError::UnexpectedEnd)
    } else if ts[pos] == want {
        Ok(())
    } else {
        Err(ParseError::UnexpectedToken { at: pos as usize })
    }
}

/// The rule shared by struct fields and function arguments: a name, a
/// colon and the name of a type. It spans three tokens.
pub open spec fn spec_pair(ts: Seq<Tok>, pos: int) -> Result<Pair, ParseError> {
    match spec_ident(ts, pos) {
        Err(e) => Err(e),
        Ok(name) => match spec_expect(ts, pos + 1, Tok::Colon) {
            Err(e) => Err(e),
            Ok(_) => match spec_ident(ts, pos + 2) {
                Err(e) => Err(e),
                Ok(ty) => Ok((name, ty)),
            },
        },
    }
}

/// The rest of a list of pairs, from just after a pair: the closing
/// delimiter, or a comma and a further pair. Where `trailing` holds, a comma
/// may also stand right before the closing delimiter. The result is the
/// whole list, which starts with `acc`, and the position after the closing
/// delimiter.
pub open spec fn spec_pairs_rest(
    ts: Seq<Tok>,
    pos: int,
    close: Delimiter,
    trailing: bool,
    acc: Seq<Pair>,
) -> Result<(Seq<Pair>, int), ParseError>
    decreases ts.len() - pos,
{
    if pos >= ts.len() {
        Err(ParseError::UnexpectedEnd)
    } else if ts[pos] == Tok::Close(close) {
        Ok((acc, pos + 1))
    } else if ts[pos] == Tok::Comma {
        if trailing && pos + 1 < ts.len() && ts[pos + 1] == Tok::Close(close) {
            Ok((acc, pos + 2))
        } else {
            match spec_pair(ts, pos + 1) {
                Err(e) => Err(e),
                Ok(p) => spec_pairs_rest(ts, pos + 4, close, trailing, acc.push(p)),
            }
        }
    } else {
        Err(ParseError::UnexpectedToken { at: pos as usize })
    }
}

/// A delimited list of pairs, from just after the opening delimiter: the
/// closing delimiter at once, or pairs separated by commas and then the
/// closing delimiter.
pub open spec fn spec_pairs(ts: Seq<Tok>, pos: int, close: Delimiter, trailing: bool) -> Result<
    (Seq<Pair>, int),
    ParseError,
> {
    if pos >= ts.len() {
        Err(ParseError::UnexpectedEnd)
    } else if ts[pos] == Tok::Close(close) {
        Ok((Seq::empty(), pos + 1))
    } else {
        match spec_pair(ts, pos) {
            Err(e) => Err(e),
            Ok(p) => spec_pairs_rest(ts, pos + 3, close, trailing, seq![p]),
        }
    }
}

/// The rest of a list of type parameters, from just after a name: `>`, or a
/// comma and a further name.
pub open spec fn spec_names_rest(ts: Seq<Tok>, pos: int, acc: Seq<Seq<char>>) -> Result<
    (Seq<Seq<char>>, int),
    ParseError,
>
    decreases ts.len() - pos,
{
    if pos >= ts.len() {
        Err(ParseError::UnexpectedEnd)
    } else if ts[pos] == Tok::Gt {
        Ok((acc, pos + 1))
    } else if ts[pos] == Tok::Comma {
        match spec_ident(ts, pos + 1) {
            Err(e) => Err(e),
            Ok(name) => spec_names_rest(ts, pos + 2, acc.push(name)),
        }
    } else {
        Err(ParseError::UnexpectedToken { at: pos as usize })
    }
}

/// The optional generics clause at `pos`. Without a `<` there it is absent
/// and spans no token; with one, at least one name follows.
pub open spec fn spec_generics(ts: Seq<Tok>, pos: int) -> Result<
    (Option<Seq<Seq<char>>>, int),
    ParseError,
> {
    if pos < ts.len() && ts[pos] == Tok::Lt {
        match spec_ident(ts, pos + 1) {
            Err(e) => Err(e),
            Ok(name) => match spec_names_rest(ts, pos + 2, seq![name]) {
                Err(e) => Err(e),
                Ok((names, next)) => Ok((Some(names), next)),
            },
        }
    } else {
        Ok((None, pos))
    }
}

/// What follows a struct's name and generics: `;` for a unit struct, or a
/// braced list of fields, in which a trailing comma may stand.
pub open spec fn spec_struct_body(ts: Seq<Tok>, pos: int) -> Result<
    (Option<Seq<Pair>>, int),
    ParseError,
> {
    if pos >= ts.len() {
        Err(ParseError::UnexpectedEnd)
    } else if ts[pos] == Tok::Semicolon {
        Ok((None, pos + 1))
    } else if ts[pos] == Tok::Open(Delimiter::Brace) {
        match spec_pairs(ts, pos + 1, Delimiter::Brace, true) {
            Err(e) => Err(e),
            Ok((fields, next)) => Ok((Some(fields), next)),
        }
    } else {
        Err(ParseError::UnexpectedToken { at: pos as usize })
    }
}

/// A struct item at `pos`: the keyword, a name, the optional generics and
/// the body.
pub open spec fn spec_struct(ts: Seq<Tok>, pos: int) -> Result<(ItemModel, int), ParseError> {
    match spec_expect(ts, pos, Tok::Struct) {
        Err(e) => Err(e),
        Ok(_) => match spec_ident(ts, pos + 1) {
            Err(e) => Err(e),
            Ok(name) => match spec_generics(ts, pos + 2) {
                Err(e) => Err(e),
                Ok((generics, body)) => match spec_struct_body(ts, body) {
                    Err(e) => Err(e),
                    Ok((fields, next)) => Ok(
                        (
                            ItemModel {
                                ident: name,
                                kind: ItemKindModel::Struct { generics, fields },
                            },
                            next,
                        ),
                    ),
                },
            },
        },
    }
}

/// The body of a function at `pos`: `{` and `}` with nothing between.
pub open spec fn spec_empty_block(ts: Seq<Tok>, pos: int) -> Result<(), ParseError> {
    match spec_expect(ts, pos, Tok::Open(Delimiter::Brace)) {
        Err(e) => Err(e),
        Ok(_) => spec_expect(ts, pos + 1, Tok::Close(Delimiter::Brace)),
    }
}

/// A function item at `pos`: the keyword, a name, a parenthesised list of
/// arguments without a trailing comma, and an empty body.
pub open spec fn spec_func(ts: Seq<Tok>, pos: int) -> Result<(ItemModel, int), ParseError> {
    match spec_expect(ts, pos, Tok::Func) {
        Err(e) => Err(e),
        Ok(_) => match spec_ident(ts, pos + 1) {
            Err(e) => Err(e),
            Ok(name) => match spec_expect(ts, pos + 2, Tok::Open(Delimiter::Paren)) {
                Err(e) => Err(e),
                Ok(_) => match spec_pairs(ts, pos + 3, Delimiter::Paren, false) {
                    Err(e) => Err(e),
                    Ok((inputs, body)) => match spec_empty_block(ts, body) {
                        Err(e) => Err(e),
                        Ok(_) => Ok(
                            (
                                ItemModel { ident: name, kind: ItemKindModel::Func { inputs } },
                                body + 2,
                            ),
                        ),
                    },
                },
            },
        },
    }
}

/// The items from `pos` to the end of the input, after those of `acc`. A
/// token that starts no item is trailing input.
pub open spec fn spec_items(ts: Seq<Tok>, pos: int, acc: Seq<ItemModel>) -> Result<
    Seq<ItemModel>,
    ParseError,
>
    decreases ts.len() - pos,
{
    if pos < 0 || pos >= ts.len() {
        Ok(acc)
    } else if ts[pos] == Tok::Struct {
        match spec_struct(ts, pos) {
            Err(e) => Err(e),
            Ok((item, next)) => {
                proof {
                    lemma_struct_advances(ts, pos);
                }
                spec_items(ts, next, acc.push(item))
            },
        }
    } else if ts[pos] == Tok::Func {
        match spec_func(ts, pos) {
            Err(e) => Err(e),
            Ok((item, next)) => {
                proof {
                    lemma_func_advances(ts, pos);
                }
                spec_items(ts, next, acc.push(item))
            },
        }
    } else {
        Err(ParseError::TrailingInput { at: pos as usize })
    }
}

/// The program rule: items, one after another, up to the end of the input.
pub open spec fn spec_program(ts: Seq<Tok>) -> Result<Seq<ItemModel>, ParseError> {
    spec_items(ts, 0, Seq::empty())
}

/// A list of pairs ends after the position where its rest began, and
/// within the input.
pub proof fn lemma_pairs_rest_advances(
    ts: Seq<Tok>,
    pos: int,
    close: Delimiter,
    trailing: bool,
    acc: Seq<Pair>,
)
    requires
        0 <= pos,
    ensures
        spec_pairs_rest(ts, pos, close, trailing, acc) matches Ok((_, next)) ==> pos < next
            <= ts.len(),
    decreases ts.len() - pos,
{
    if pos < ts.len() && ts[pos] == Tok::Comma && spec_pair(ts, pos + 1) is Ok {
        lemma_pairs_rest_advances(
            ts,
            pos + 4,
            close,
            trailing,
            acc.push(spec_pair(ts, pos + 1)->Ok_0),
        );
    }
}

/// A list of type parameters ends after the position where its rest began,
/// and within the input.
pub proof fn lemma_names_rest_advances(ts: Seq<Tok>, pos: int, acc: Seq<Seq<char>>)
    requires
        0 <= pos,
    ensures
        spec_names_rest(ts, pos, acc) matches Ok((_, next)) ==> pos < next <= ts.len(),
    decreases ts.len() - pos,
{
    if pos < ts.len() && ts[pos] == Tok::Comma && spec_ident(ts, pos + 1) is Ok {
        lemma_names_rest_advances(ts, pos + 2, acc.push(spec_ident(ts, pos + 1)->Ok_0));
    }
}

/// A struct item spans at least one token and ends within the input.
pub proof fn lemma_struct_advances(ts: Seq<Tok>, pos: int)
    requires
        0 <= pos,
    ensures
        spec_struct(ts, pos) matches Ok((_, next)) ==> pos < next <= ts.len(),
{
    if spec_ident(ts, pos + 1) is Ok {
        lemma_names_rest_advances(ts, pos + 4, seq![spec_ident(ts, pos + 3)->Ok_0]);
        if spec_generics(ts, pos + 2) is Ok {
            let body = spec_generics(ts, pos + 2)->Ok_0.1;
            if spec_pair(ts, body + 1) is Ok {
                lemma_pairs_rest_advances(
                    ts,
                    body + 4,
                    Delimiter::Brace,
                    true,
                    seq![spec_pair(ts, body + 1)->Ok_0],
                );
            }
        }
    }
}

/// A function item spans at least one token and ends within the input.
pub proof fn lemma_func_advances(ts: Seq<Tok>, pos: int)
    requires
        0 <= pos,
    ensures
        spec_func(ts, pos) matches Ok((_, next)) ==> pos < next <= ts.len(),
{
    if spec_pair(ts, pos + 3) is Ok {
        lemma_pairs_rest_advances(
            ts,
            pos + 6,
            Delimiter::Paren,
            false,
            seq![spec_pair(ts, pos + 3)->Ok_0],
        );
    }
}

/// Reads the identifier at `pos` and gives its name.
pub fn parse_ident(tokens: &[Token], pos: usize) -> (r: Result<String, ParseError>)
    ensures
        match spec_ident(tokens_view(tokens@), pos as int) {
            Ok(name) => r is Ok && r->Ok_0@ == name,
            Err(e) => r == Err::<String, ParseError>(e),
        },
        r is Ok ==> pos < tokens@.len() <= usize::MAX,
{
    if pos >= tokens.len() {
        return Err(ParseError::UnexpectedEnd);
    }
    match &tokens[pos] {
        Token::Ident(name) => Ok(name.clone()),
        _ => Err(ParseError::UnexpectedToken { at: pos }),
    }
}

/// Checks that the token at `pos` is `want`.
pub fn expect_token(tokens: &[Token], pos: usize, want: &Token) -> (r: Result<(), ParseError>)
    ensures
        r == spec_expect(tokens_view(tokens@), pos as int, want@),
        r is Ok ==> pos < tokens@.len() <= usize::MAX,
{
    if pos >= tokens.len() {
        Err(ParseError::UnexpectedEnd)
    } else if tokens[pos].same_as(want) {
        Ok(())
    } else {
        Err(ParseError::UnexpectedToken { at: pos })
    }
}

/// Reads a name, a colon and a type name from `pos` on: a struct field or a
/// function argument, which have one shape.
pub fn parse_pair(tokens: &[Token], pos: usize) -> (r: Result<(String, String), ParseError>)
    ensures
        match spec_pair(tokens_view(tokens@), pos as int) {
            Ok(pair) => r is Ok && (r->Ok_0.0@, r->Ok_0.1@) == pair,
            Err(e) => r == Err::<(String, String), ParseError>(e),
        },
        r is Ok ==> pos + 2 < tokens@.len() <= usize::MAX,
{
    let name = match parse_ident(tokens, pos) {
        Ok(name) => name,
        Err(e) => {
            return Err(e);
        },
    };
    match expect_token(tokens, pos + 1, &Token::Colon) {
        Ok(_) => {},
        Err(e) => {
            return Err(e);
        },
    }
    match parse_ident(tokens, pos + 2) {
        Ok(ty) => Ok((name, ty)),
        Err(e) => Err(e),
    }
}

/// Reads a delimited list of pairs from just after its opening delimiter:
/// pairs separated by commas, up to the closing delimiter `close`. A comma
/// right before the closing delimiter is accepted where `trailing` holds,
/// and only there. Gives the pairs in source order and the position after
/// the closing delimiter.
pub fn parse_pair_list(tokens: &[Token], pos: usize, close: Delimiter, trailing: bool) -> (r:
    Result<(Vec<(String, String)>, usize), ParseError>)
    ensures
        match spec_pairs(tokens_view(tokens@), pos as int, close, trailing) {
            Ok((pairs, next)) => r is Ok && pairs_view(r->Ok_0.0@) == pairs && r->Ok_0.1 == next,
            Err(e) => r == Err::<(Vec<(String, String)>, usize), ParseError>(e),
        },
        r is Ok ==> pos < r->Ok_0.1 <= tokens@.len() <= usize::MAX,
{
    let ghost ts = tokens_view(tokens@);
    let closer = Token::Close(close);
    let mut out: Vec<(String, String)> = Vec::new();
    if pos >= tokens.len() {
        return Err(ParseError::UnexpectedEnd);
    }
    if tokens[pos].same_as(&closer) {
        assert(pairs_view(out@) =~= Seq::empty());
        return Ok((out, pos + 1));
    }
    match parse_pair(tokens, pos) {
        Ok(pair) => {
            assert(pairs_view(out@.push(pair)) =~= seq![(pair.0@, pair.1@)]);
            out.push(pair);
        },
        Err(e) => {
            return Err(e);
        },
    }
    let mut cur: usize = pos + 3;
    loop
        invariant
            ts == tokens_view(tokens@),
            closer@ == Tok::Close(close),
            pos < cur <= tokens@.len(),
            spec_pairs(ts, pos as int, close, trailing) == spec_pairs_rest(
                ts,
                cur as int,
                close,
                trailing,
                pairs_view(out@),
            ),
        decreases tokens@.len() - cur,
    {
        if cur >= tokens.len() {
            return Err(ParseError::UnexpectedEnd);
        }
        if tokens[cur].same_as(&closer) {
            return Ok((out, cur + 1));
        }
        if !tokens[cur].same_as(&Token::Comma) {
            return Err(ParseError::UnexpectedToken { at: cur });
        }
        if trailing && cur + 1 < tokens.len() && tokens[cur + 1].same_as(&closer) {
            return Ok((out, cur + 2));
        }
        match parse_pair(tokens, cur + 1) {
            Ok(pair) => {
                assert(pairs_view(out@.push(pair)) =~= pairs_view(out@).push((pair.0@, pair.1@)));
                out.push(pair);
                cur = cur + 4;
            },
            Err(e) => {
                return Err(e);
            },
        }
    }
}

/// Reads the optional generics clause at `pos`: nothing where no `<` stands
/// there, else one or more names separated by commas, up to `>`. Gives the
/// names, if the clause is there, and the position after it.
pub fn parse_generics(tokens: &[Token], pos: usize) -> (r: Result<
    (Option<Vec<String>>, usize),
    ParseError,
>)
    ensures
        match spec_generics(tokens_view(tokens@), pos as int) {
            Ok((generics, next)) => r is Ok && r->Ok_0.1 == next && match generics {
                Some(names) => r->Ok_0.0 is Some && names_view(r->Ok_0.0->Some_0@) == names,
                None => r->Ok_0.0 is None,
            },
            Err(e) => r == Err::<(Option<Vec<String>>, usize), ParseError>(e),
        },
        r is Ok ==> pos <= r->Ok_0.1 && (r->Ok_0.1 <= tokens@.len() || r->Ok_0.1 == pos),
{
    let ghost ts = tokens_view(tokens@);
    if pos >= tokens.len() || !tokens[pos].same_as(&Token::Lt) {
        return Ok((None, pos));
    }
    let mut out: Vec<String> = Vec::new();
    match parse_ident(tokens, pos + 1) {
        Ok(name) => {
            assert(names_view(out@.push(name)) =~= seq![name@]);
            out.push(name);
        },
        Err(e) => {
            return Err(e);
        },
    }
    let mut cur: usize = pos + 2;
    loop
        invariant
            ts == tokens_view(tokens@),
            pos < cur <= tokens@.len(),
            ts[pos as int] == Tok::Lt,
            spec_ident(ts, pos + 1) is Ok,
            spec_names_rest(ts, pos + 2, seq![spec_ident(ts, pos + 1)->Ok_0]) == spec_names_rest(
                ts,
                cur as int,
                names_view(out@),
            ),
        decreases tokens@.len() - cur,
    {
        if cur >= tokens.len() {
            return Err(ParseError::UnexpectedEnd);
        }
        if tokens[cur].same_as(&Token::Gt) {
            return Ok((Some(out), cur + 1));
        }
        if !tokens[cur].same_as(&Token::Comma) {
            return Err(ParseError::UnexpectedToken { at: cur });
        }
        match parse_ident(tokens, cur + 1) {
            Ok(name) => {
                assert(names_view(out@.push(name)) =~= names_view(out@).push(name@));
                out.push(name);
                cur = cur + 2;
            },
            Err(e) => {
                return Err(e);
            },
        }
    }
}

/// Reads a struct item at `pos`: the keyword, its name, the optional
/// generics, and then either `;` or a braced list of fields. Gives the item
/// and the position after it.
pub fn parse_struct(tokens: &[Token], pos: usize) -> (r: Result<(Item, usize), ParseError>)
    ensures
        match spec_struct(tokens_view(tokens@), pos as int) {
            Ok((item, next)) => r is Ok && r->Ok_0.0@ == item && r->Ok_0.1 == next,
            Err(e) => r == Err::<(Item, usize), ParseError>(e),
        },
        r is Ok ==> pos < r->Ok_0.1 <= tokens@.len() <= usize::MAX,
{
    match expect_token(tokens, pos, &Token::Struct) {
        Ok(_) => {},
        Err(e) => {
            return Err(e);
        },
    }
    let name = match parse_ident(tokens, pos + 1) {
        Ok(name) => name,
        Err(e) => {
            return Err(e);
        },
    };
    let (generics, body) = match parse_generics(tokens, pos + 2) {
        Ok(found) => found,
        Err(e) => {
            return Err(e);
        },
    };
    if body >= tokens.len() {
        return Err(ParseError::UnexpectedEnd);
    }
    if tokens[body].same_as(&Token::Semicolon) {
        return Ok((Item { ident: name, kind: ItemKind::Struct { generics, fields: None } }, body + 1));
    }
    if !tokens[body].same_as(&Token::Open(Delimiter::Brace)) {
        return Err(ParseError::UnexpectedToken { at: body });
    }
    match parse_pair_list(tokens, body + 1, Delimiter::Brace, true) {
        Ok((fields, next)) => Ok(
            (Item { ident: name, kind: ItemKind::Struct { generics, fields: Some(fields) } }, next),
        ),
        Err(e) => Err(e),
    }
}

/// Reads a function item at `pos`: the keyword, its name, the
/// parenthesised arguments, and a body that must be `{` and `}` with
/// nothing between. Gives the item and the position after it.
pub fn parse_func(tokens: &[Token], pos: usize) -> (r: Result<(Item, usize), ParseError>)
    ensures
        match spec_func(tokens_view(tokens@), pos as int) {
            Ok((item, next)) => r is Ok && r->Ok_0.0@ == item && r->Ok_0.1 == next,
            Err(e) => r == Err::<(Item, usize), ParseError>(e),
        },
        r is Ok ==> pos < r->Ok_0.1 <= tokens@.len() <= usize::MAX,
{
    match expect_token(tokens, pos, &Token::Func) {
        Ok(_) => {},
        Err(e) => {
            return Err(e);
        },
    }
    let name = match parse_ident(tokens, pos + 1) {
        Ok(name) => name,
        Err(e) => {
            return Err(e);
        },
    };
    match expect_token(tokens, pos + 2, &Token::Open(Delimiter::Paren)) {
        Ok(_) => {},
        Err(e) => {
            return Err(e);
        },
    }
    let (inputs, body) = match parse_pair_list(tokens, pos + 3, Delimiter::Paren, false) {
        Ok(found) => found,
        Err(e) => {
            return Err(e);
        },
    };
    match expect_token(tokens, body, &Token::Open(Delimiter::Brace)) {
        Ok(_) => {},
        Err(e) => {
            return Err(e);
        },
    }
    match expect_token(tokens, body + 1, &Token::Close(Delimiter::Brace)) {
        Ok(_) => Ok((Item { ident: name, kind: ItemKind::Func { inputs } }, body + 2)),
        Err(e) => Err(e),
    }
}

/// Parses a whole token sequence as a program: struct and function items,
/// one after another, up to the end of the input. Gives the items in source
/// order, or the first error met; an input without tokens is a program
/// without items, and a token that starts no item is trailing input.
pub fn parse_program(tokens: &[Token]) -> (r: Result<Vec<Item>, ParseError>)
    ensures
        match spec_program(tokens_view(tokens@)) {
            Ok(items) => r is Ok && items_view(r->Ok_0@) == items,
            Err(e) => r == Err::<Vec<Item>, ParseError>(e),
        },
{
    let ghost ts = tokens_view(tokens@);
    let mut items: Vec<Item> = Vec::new();
    let mut pos: usize = 0;
    assert(items_view(items@) =~= Seq::empty());
    while pos < tokens.len()
        invariant
            ts == tokens_view(tokens@),
            pos <= tokens@.len(),
            spec_program(ts) == spec_items(ts, pos as int, items_view(items@)),
        decreases tokens@.len() - pos,
    {
        let found = if tokens[pos].same_as(&Token::Struct) {
            parse_struct(tokens, pos)
        } else if tokens[pos].same_as(&Token::Func) {
            parse_func(tokens, pos)
        } else {
            return Err(ParseError::TrailingInput { at: pos });
        };
        match found {
            Ok((item, next)) => {
                assert(items_view(items@.push(item)) =~= items_view(items@).push(item@));
                items.push(item);
                pos = next;
            },
            Err(e) => {
                return Err(e);
            },
        }
    }
    Ok(items)
}

} // verus!
