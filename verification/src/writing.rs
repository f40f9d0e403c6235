use crate::ast::{ItemKindModel, ItemModel, Pair};
use crate::error::ParseError;
use crate::grammar::{
    spec_expect, spec_func, spec_generics, spec_ident, spec_items, spec_names_rest, spec_pair,
    spec_pairs, spec_pairs_rest, spec_program, spec_struct,
};
use crate::token::{Delimiter, Tok};
use vstd::prelude::*;

verus! {

/// The tokens of the pairs that follow the first of a list: each with a
/// comma before it.
pub open spec fn more_pairs_tokens(pairs: Seq<Pair>) -> Seq<Tok>
    decreases pairs.len(),
{
    if pairs.len() == 0 {
        Seq::empty()
    } else {
        seq![Tok::Comma, Tok::Ident(pairs[0].0), Tok::Colon, Tok::Ident(pairs[0].1)]
            + more_pairs_tokens(pairs.skip(1))
    }
}

/// The tokens of a list of pairs, separated by commas.
pub open spec fn pairs_tokens(pairs: Seq<Pair>) -> Seq<Tok> {
    if pairs.len() == 0 {
        Seq::empty()
    } else {
        seq![Tok::Ident(pairs[0].0), Tok::Colon, Tok::Ident(pairs[0].1)] + more_pairs_tokens(
            pairs.skip(1),
        )
    }
}

/// The tokens of the type parameters that follow the first: each with a
/// comma before it.
pub open spec fn more_names_tokens(names: Seq<Seq<char>>) -> Seq<Tok>
    decreases names.len(),
{
    if names.len() == 0 {
        Seq::empty()
    } else {
        seq![Tok::Comma, Tok::Ident(names[0])] + more_names_tokens(names.skip(1))
    }
}

/// The tokens of a generics clause: none where it is absent, else the names
/// between `<` and `>`, separated by commas.
pub open spec fn generics_tokens(generics: Option<Seq<Seq<char>>>) -> Seq<Tok> {
    match generics {
        None => Seq::empty(),
        Some(names) => seq![Tok::Lt, Tok::Ident(names[0])] + more_names_tokens(names.skip(1))
            + seq![Tok::Gt],
    }
}

/// What closes a list: the closing delimiter, with a comma before it where
/// `trailing` holds.
pub open spec fn list_end_tokens(close: Delimiter, trailing: bool) -> Seq<Tok> {
    if trailing {
        seq![Tok::Comma, Tok::Close(close)]
    } else {
        seq![Tok::Close(close)]
    }
}

/// The tokens of a struct declaration with a braced body, written with or
/// without a comma after the last field.
pub open spec fn struct_tokens(
    name: Seq<char>,
    generics: Option<Seq<Seq<char>>>,
    fields: Seq<Pair>,
    trailing: bool,
) -> Seq<Tok> {
    seq![Tok::Struct, Tok::Ident(name)] + generics_tokens(generics) + seq![
        Tok::Open(Delimiter::Brace),
    ] + pairs_tokens(fields) + list_end_tokens(Delimiter::Brace, trailing)
}

/// The tokens of a function declaration up to its body: the keyword, the
/// name and the arguments in parentheses, written with or without a comma
/// after the last argument.
pub open spec fn func_head_tokens(name: Seq<char>, inputs: Seq<Pair>, trailing: bool) -> Seq<Tok> {
    seq![Tok::Func, Tok::Ident(name), Tok::Open(Delimiter::Paren)] + pairs_tokens(inputs)
        + list_end_tokens(Delimiter::Paren, trailing)
}

/// The tokens of a function declaration: its head and an empty body.
pub open spec fn func_tokens(name: Seq<char>, inputs: Seq<Pair>, trailing: bool) -> Seq<Tok> {
    func_head_tokens(name, inputs, trailing) + seq![
        Tok::Open(Delimiter::Brace),
        Tok::Close(Delimiter::Brace),
    ]
}

/// The tokens of a unit struct declaration.
pub open spec fn unit_struct_tokens(name: Seq<char>, generics: Option<Seq<Seq<char>>>) -> Seq<Tok> {
    seq![Tok::Struct, Tok::Ident(name)] + generics_tokens(generics) + seq![Tok::Semicolon]
}

/// The tokens of an item. Where `trailing` holds, a field list that is not
/// empty is written with a comma after its last field.
pub open spec fn item_tokens(item: ItemModel, trailing: bool) -> Seq<Tok> {
    match item.kind {
        ItemKindModel::Struct { generics, fields: None } => unit_struct_tokens(
            item.ident,
            generics,
        ),
        ItemKindModel::Struct { generics, fields: Some(fields) } => struct_tokens(
            item.ident,
            generics,
            fields,
            trailing && fields.len() > 0,
        ),
        ItemKindModel::Func { inputs } => func_tokens(item.ident, inputs, false),
    }
}

/// Whether the grammar has a way to write the item: a generics clause
/// cannot be written without a name in it.
pub open spec fn writable(item: ItemModel) -> bool {
    match item.kind {
        ItemKindModel::Struct { generics: Some(names), .. } => names.len() > 0,
        _ => true,
    }
}

/// The tokens of a program: those of its items, one after another. Item
/// `i` is written with a trailing comma where `trailing[i]` holds.
pub open spec fn program_tokens(items: Seq<ItemModel>, trailing: Seq<bool>) -> Seq<Tok>
    decreases items.len(),
{
    if items.len() == 0 {
        Seq::empty()
    } else {
        item_tokens(items[0], trailing[0]) + program_tokens(items.skip(1), trailing.skip(1))
    }
}

/// Whether the tokens `part` stand in `ts` from `pos` on.
pub open spec fn occurs_at(ts: Seq<Tok>, pos: int, part: Seq<Tok>) -> bool {
    &&& 0 <= pos
    &&& pos + part.len() <= ts.len()
    &&& forall|i: int| 0 <= i < part.len() ==> ts[pos + i] == #[trigger] part[i]
}

proof fn lemma_occurs_split(ts: Seq<Tok>, pos: int, a: Seq<Tok>, b: Seq<Tok>)
    requires
        occurs_at(ts, pos, a + b),
    ensures
        occurs_at(ts, pos, a),
        occurs_at(ts, pos + a.len(), b),
{
    assert forall|i: int| 0 <= i < a.len() implies ts[pos + i] == #[trigger] a[i] by {
        assert((a + b)[i] == a[i]);
    }
    assert forall|i: int| 0 <= i < b.len() implies ts[pos + a.len() + i] == #[trigger] b[i] by {
        assert((a + b)[a.len() + i] == b[i]);
    }
}

proof fn lemma_more_pairs_accepted(
    ts: Seq<Tok>,
    pos: int,
    close: Delimiter,
    allowed: bool,
    trailing: bool,
    acc: Seq<Pair>,
    pairs: Seq<Pair>,
)
    requires
        occurs_at(ts, pos, more_pairs_tokens(pairs) + list_end_tokens(close, trailing)),
        trailing ==> allowed,
    ensures
        spec_pairs_rest(ts, pos, close, allowed, acc) == Ok::<(Seq<Pair>, int), ParseError>(
            (
                acc + pairs,
                pos + more_pairs_tokens(pairs).len() + list_end_tokens(close, trailing).len(),
            ),
        ),
    decreases pairs.len(),
{
    let end = list_end_tokens(close, trailing);
    if pairs.len() == 0 {
        assert(more_pairs_tokens(pairs) + end =~= end);
        assert(ts[pos + 0] == end[0]);
        if trailing {
            assert(ts[pos + 1] == end[1]);
        }
        assert(acc + pairs =~= acc);
    } else {
        let head = seq![Tok::Comma, Tok::Ident(pairs[0].0), Tok::Colon, Tok::Ident(pairs[0].1)];
        let rest = more_pairs_tokens(pairs.skip(1));
        assert(more_pairs_tokens(pairs) + end =~= head + (rest + end));
        lemma_occurs_split(ts, pos, head, rest + end);
        assert(ts[pos + 0] == head[0]);
        assert(ts[pos + 1] == head[1]);
        assert(ts[pos + 2] == head[2]);
        assert(ts[pos + 3] == head[3]);
        assert(spec_pair(ts, pos + 1) == Ok::<Pair, ParseError>(pairs[0]));
        lemma_more_pairs_accepted(
            ts,
            pos + 4,
            close,
            allowed,
            trailing,
            acc.push(pairs[0]),
            pairs.skip(1),
        );
        assert(acc.push(pairs[0]) + pairs.skip(1) =~= acc + pairs);
    }
}

proof fn lemma_more_pairs_rejected(
    ts: Seq<Tok>,
    pos: int,
    close: Delimiter,
    acc: Seq<Pair>,
    pairs: Seq<Pair>,
)
    requires
        occurs_at(ts, pos, more_pairs_tokens(pairs) + list_end_tokens(close, true)),
    ensures
        spec_pairs_rest(ts, pos, close, false, acc) == Err::<(Seq<Pair>, int), ParseError>(
            ParseError::UnexpectedToken { at: (pos + more_pairs_tokens(pairs).len() + 1) as usize },
        ),
    decreases pairs.len(),
{
    let end = list_end_tokens(close, true);
    if pairs.len() == 0 {
        assert(more_pairs_tokens(pairs) + end =~= end);
        assert(ts[pos + 0] == end[0]);
        assert(ts[pos + 1] == end[1]);
        assert(spec_ident(ts, pos + 1) is Err);
    } else {
        let head = seq![Tok::Comma, Tok::Ident(pairs[0].0), Tok::Colon, Tok::Ident(pairs[0].1)];
        let rest = more_pairs_tokens(pairs.skip(1));
        assert(more_pairs_tokens(pairs) + end =~= head + (rest + end));
        lemma_occurs_split(ts, pos, head, rest + end);
        assert(ts[pos + 0] == head[0]);
        assert(ts[pos + 1] == head[1]);
        assert(ts[pos + 2] == head[2]);
        assert(ts[pos + 3] == head[3]);
        assert(spec_pair(ts, pos + 1) == Ok::<Pair, ParseError>(pairs[0]));
        lemma_more_pairs_rejected(ts, pos + 4, close, acc.push(pairs[0]), pairs.skip(1));
    }
}

proof fn lemma_more_names_accepted(
    ts: Seq<Tok>,
    pos: int,
    acc: Seq<Seq<char>>,
    names: Seq<Seq<char>>,
)
    requires
        occurs_at(ts, pos, more_names_tokens(names) + seq![Tok::Gt]),
    ensures
        spec_names_rest(ts, pos, acc) == Ok::<(Seq<Seq<char>>, int), ParseError>(
            (acc + names, pos + more_names_tokens(names).len() + 1),
        ),
    decreases names.len(),
{
    let end = seq![Tok::Gt];
    if names.len() == 0 {
        assert(more_names_tokens(names) + end =~= end);
        assert(ts[pos + 0] == end[0]);
        assert(acc + names =~= acc);
    } else {
        let head = seq![Tok::Comma, Tok::Ident(names[0])];
        let rest = more_names_tokens(names.skip(1));
        assert(more_names_tokens(names) + end =~= head + (rest + end));
        lemma_occurs_split(ts, pos, head, rest + end);
        assert(ts[pos + 0] == head[0]);
        assert(ts[pos + 1] == head[1]);
        lemma_more_names_accepted(ts, pos + 2, acc.push(names[0]), names.skip(1));
        assert(acc.push(names[0]) + names.skip(1) =~= acc + names);
    }
}

proof fn lemma_generics_accepted(ts: Seq<Tok>, pos: int, generics: Option<Seq<Seq<char>>>, next: Tok)
    requires
        occurs_at(ts, pos, generics_tokens(generics) + seq![next]),
        generics matches Some(names) ==> names.len() > 0,
        next != Tok::Lt,
    ensures
        spec_generics(ts, pos) == Ok::<(Option<Seq<Seq<char>>>, int), ParseError>(
            (generics, pos + generics_tokens(generics).len()),
        ),
{
    let after = seq![next];
    match generics {
        None => {
            assert(generics_tokens(generics) + after =~= after);
            assert(ts[pos + 0] == after[0]);
        },
        Some(names) => {
            let head = seq![Tok::Lt, Tok::Ident(names[0])];
            let rest = more_names_tokens(names.skip(1)) + seq![Tok::Gt];
            assert(generics_tokens(generics) + after =~= head + (rest + after));
            lemma_occurs_split(ts, pos, head, rest + after);
            lemma_occurs_split(ts, pos + 2, rest, after);
            assert(ts[pos + 0] == head[0]);
            assert(ts[pos + 1] == head[1]);
            lemma_more_names_accepted(ts, pos + 2, seq![names[0]], names.skip(1));
            assert(seq![names[0]] + names.skip(1) =~= names);
        },
    }
}

/// A struct declaration with a braced body, wherever it stands in the
/// input, is read as the struct it spells, whether or not a comma follows
/// its last field.
pub proof fn lemma_struct_accepted(
    ts: Seq<Tok>,
    pos: int,
    name: Seq<char>,
    generics: Option<Seq<Seq<char>>>,
    fields: Seq<Pair>,
    trailing: bool,
)
    requires
        occurs_at(ts, pos, struct_tokens(name, generics, fields, trailing)),
        generics matches Some(names) ==> names.len() > 0,
        trailing ==> fields.len() > 0,
    ensures
        spec_struct(ts, pos) == Ok::<(ItemModel, int), ParseError>(
            (
                ItemModel {
                    ident: name,
                    kind: ItemKindModel::Struct { generics, fields: Some(fields) },
                },
                pos + struct_tokens(name, generics, fields, trailing).len(),
            ),
        ),
{
    let head = seq![Tok::Struct, Tok::Ident(name)];
    let gen = generics_tokens(generics);
    let open = seq![Tok::Open(Delimiter::Brace)];
    let end = list_end_tokens(Delimiter::Brace, trailing);
    let body = pos + 2 + gen.len();
    if fields.len() == 0 {
        assert(struct_tokens(name, generics, fields, trailing) =~= head + ((gen + open) + end));
        lemma_occurs_split(ts, pos, head, (gen + open) + end);
        lemma_occurs_split(ts, pos + 2, gen + open, end);
        lemma_occurs_split(ts, pos + 2, gen, open);
        assert(ts[pos + 0] == head[0]);
        assert(ts[pos + 1] == head[1]);
        lemma_generics_accepted(ts, pos + 2, generics, Tok::Open(Delimiter::Brace));
        assert(ts[body + 0] == open[0]);
        assert(ts[body + 1 + 0] == end[0]);
        assert(fields =~= Seq::empty());
    } else {
        let first = seq![Tok::Ident(fields[0].0), Tok::Colon, Tok::Ident(fields[0].1)];
        let more = more_pairs_tokens(fields.skip(1));
        assert(struct_tokens(name, generics, fields, trailing) =~= head + ((gen + open) + (first
            + (more + end))));
        lemma_occurs_split(ts, pos, head, (gen + open) + (first + (more + end)));
        lemma_occurs_split(ts, pos + 2, gen + open, first + (more + end));
        lemma_occurs_split(ts, pos + 2, gen, open);
        lemma_occurs_split(ts, body + 1, first, more + end);
        assert(ts[pos + 0] == head[0]);
        assert(ts[pos + 1] == head[1]);
        lemma_generics_accepted(ts, pos + 2, generics, Tok::Open(Delimiter::Brace));
        assert(ts[body + 0] == open[0]);
        assert(ts[body + 1 + 0] == first[0]);
        assert(ts[body + 1 + 1] == first[1]);
        assert(ts[body + 1 + 2] == first[2]);
        assert(spec_pair(ts, body + 1) == Ok::<Pair, ParseError>(fields[0]));
        lemma_more_pairs_accepted(
            ts,
            body + 4,
            Delimiter::Brace,
            true,
            trailing,
            seq![fields[0]],
            fields.skip(1),
        );
        assert(seq![fields[0]] + fields.skip(1) =~= fields);
    }
}

/// A unit struct declaration, wherever it stands in the input, is read as
/// the struct it spells, without a field list.
pub proof fn lemma_unit_struct_accepted(
    ts: Seq<Tok>,
    pos: int,
    name: Seq<char>,
    generics: Option<Seq<Seq<char>>>,
)
    requires
        occurs_at(ts, pos, unit_struct_tokens(name, generics)),
        generics matches Some(names) ==> names.len() > 0,
    ensures
        spec_struct(ts, pos) == Ok::<(ItemModel, int), ParseError>(
            (
                ItemModel { ident: name, kind: ItemKindModel::Struct { generics, fields: None } },
                pos + unit_struct_tokens(name, generics).len(),
            ),
        ),
{
    let head = seq![Tok::Struct, Tok::Ident(name)];
    let gen = generics_tokens(generics);
    let end = seq![Tok::Semicolon];
    assert(unit_struct_tokens(name, generics) =~= head + (gen + end));
    lemma_occurs_split(ts, pos, head, gen + end);
    lemma_occurs_split(ts, pos + 2, gen, end);
    assert(ts[pos + 0] == head[0]);
    assert(ts[pos + 1] == head[1]);
    lemma_generics_accepted(ts, pos + 2, generics, Tok::Semicolon);
    assert(ts[pos + 2 + gen.len() + 0] == end[0]);
}

proof fn lemma_func_head_accepted(ts: Seq<Tok>, pos: int, name: Seq<char>, inputs: Seq<Pair>)
    requires
        occurs_at(ts, pos, func_head_tokens(name, inputs, false)),
    ensures
        spec_expect(ts, pos, Tok::Func) is Ok,
        spec_ident(ts, pos + 1) == Ok::<Seq<char>, ParseError>(name),
        spec_expect(ts, pos + 2, Tok::Open(Delimiter::Paren)) is Ok,
        spec_pairs(ts, pos + 3, Delimiter::Paren, false) == Ok::<(Seq<Pair>, int), ParseError>(
            (inputs, pos + func_head_tokens(name, inputs, false).len()),
        ),
{
    let head = seq![Tok::Func, Tok::Ident(name), Tok::Open(Delimiter::Paren)];
    let end = list_end_tokens(Delimiter::Paren, false);
    if inputs.len() == 0 {
        assert(func_head_tokens(name, inputs, false) =~= head + end);
        lemma_occurs_split(ts, pos, head, end);
        assert(ts[pos + 0] == head[0]);
        assert(ts[pos + 1] == head[1]);
        assert(ts[pos + 2] == head[2]);
        assert(ts[pos + 3 + 0] == end[0]);
        assert(inputs =~= Seq::empty());
    } else {
        let first = seq![Tok::Ident(inputs[0].0), Tok::Colon, Tok::Ident(inputs[0].1)];
        let more = more_pairs_tokens(inputs.skip(1));
        assert(func_head_tokens(name, inputs, false) =~= head + (first + (more + end)));
        lemma_occurs_split(ts, pos, head, first + (more + end));
        lemma_occurs_split(ts, pos + 3, first, more + end);
        assert(ts[pos + 0] == head[0]);
        assert(ts[pos + 1] == head[1]);
        assert(ts[pos + 2] == head[2]);
        assert(ts[pos + 3 + 0] == first[0]);
        assert(ts[pos + 3 + 1] == first[1]);
        assert(ts[pos + 3 + 2] == first[2]);
        assert(spec_pair(ts, pos + 3) == Ok::<Pair, ParseError>(inputs[0]));
        lemma_more_pairs_accepted(
            ts,
            pos + 6,
            Delimiter::Paren,
            false,
            false,
            seq![inputs[0]],
            inputs.skip(1),
        );
        assert(seq![inputs[0]] + inputs.skip(1) =~= inputs);
    }
}

/// A function declaration without a comma after its last argument,
/// wherever it stands in the input, is read as the function it spells.
pub proof fn lemma_func_accepted(ts: Seq<Tok>, pos: int, name: Seq<char>, inputs: Seq<Pair>)
    requires
        occurs_at(ts, pos, func_tokens(name, inputs, false)),
    ensures
        spec_func(ts, pos) == Ok::<(ItemModel, int), ParseError>(
            (
                ItemModel { ident: name, kind: ItemKindModel::Func { inputs } },
                pos + func_tokens(name, inputs, false).len(),
            ),
        ),
{
    let head = func_head_tokens(name, inputs, false);
    let body = seq![Tok::Open(Delimiter::Brace), Tok::Close(Delimiter::Brace)];
    lemma_occurs_split(ts, pos, head, body);
    lemma_func_head_accepted(ts, pos, name, inputs);
    assert(ts[pos + head.len() + 0] == body[0]);
    assert(ts[pos + head.len() + 1] == body[1]);
}

/// A function body must be empty: a function head followed by `{` and any
/// token other than `}`, wherever it stands in the input, is rejected at
/// that token.
pub proof fn lemma_body_must_be_empty(
    ts: Seq<Tok>,
    pos: int,
    name: Seq<char>,
    inputs: Seq<Pair>,
    inner: Tok,
)
    requires
        occurs_at(
            ts,
            pos,
            func_head_tokens(name, inputs, false) + seq![Tok::Open(Delimiter::Brace), inner],
        ),
        inner != Tok::Close(Delimiter::Brace),
    ensures
        spec_func(ts, pos) == Err::<(ItemModel, int), ParseError>(
            ParseError::UnexpectedToken {
                at: (pos + func_head_tokens(name, inputs, false).len() + 1) as usize,
            },
        ),
{
    let head = func_head_tokens(name, inputs, false);
    let body = seq![Tok::Open(Delimiter::Brace), inner];
    lemma_occurs_split(ts, pos, head, body);
    lemma_func_head_accepted(ts, pos, name, inputs);
    assert(ts[pos + head.len() + 0] == body[0]);
    assert(ts[pos + head.len() + 1] == body[1]);
}

/// Reading undoes writing: a program written out item by item, each field
/// list with a comma after the last field or without, is accepted, and what
/// is read is the program that was written.
pub proof fn lemma_program_read_back(items: Seq<ItemModel>, trailing: Seq<bool>)
    requires
        trailing.len() == items.len(),
        forall|i: int| 0 <= i < items.len() ==> writable(#[trigger] items[i]),
    ensures
        spec_program(program_tokens(items, trailing)) == Ok::<Seq<ItemModel>, ParseError>(items),
{
    let ts = program_tokens(items, trailing);
    lemma_items_read_back(ts, 0, Seq::empty(), items, trailing);
    assert(Seq::<ItemModel>::empty() + items =~= items);
}

/// Nothing may follow the items: a program written out and followed by a
/// token that starts no item, and by whatever else, is rejected at that
/// token as trailing input.
pub proof fn lemma_stray_token_rejected(
    items: Seq<ItemModel>,
    trailing: Seq<bool>,
    stray: Tok,
    rest: Seq<Tok>,
)
    requires
        trailing.len() == items.len(),
        forall|i: int| 0 <= i < items.len() ==> writable(#[trigger] items[i]),
        stray != Tok::Struct,
        stray != Tok::Func,
    ensures
        spec_program(program_tokens(items, trailing) + seq![stray] + rest) == Err::<
            Seq<ItemModel>,
            ParseError,
        >(ParseError::TrailingInput { at: program_tokens(items, trailing).len() as usize }),
{
    let written = program_tokens(items, trailing);
    let after = seq![stray] + rest;
    let ts = written + seq![stray] + rest;
    assert(ts =~= written + after);
    assert(occurs_at(ts, 0, written + after));
    lemma_occurs_split(ts, 0, written, after);
    lemma_items_read_back(ts, 0, Seq::empty(), items, trailing);
    assert(Seq::<ItemModel>::empty() + items =~= items);
    assert(ts[written.len() as int + 0] == after[0]);
}

proof fn lemma_items_read_back(
    ts: Seq<Tok>,
    pos: int,
    acc: Seq<ItemModel>,
    items: Seq<ItemModel>,
    trailing: Seq<bool>,
)
    requires
        occurs_at(ts, pos, program_tokens(items, trailing)),
        trailing.len() == items.len(),
        forall|i: int| 0 <= i < items.len() ==> writable(#[trigger] items[i]),
    ensures
        spec_items(ts, pos, acc) == spec_items(
            ts,
            pos + program_tokens(items, trailing).len(),
            acc + items,
        ),
    decreases items.len(),
{
    if items.len() == 0 {
        assert(acc + items =~= acc);
    } else {
        let item = items[0];
        let first = item_tokens(item, trailing[0]);
        let rest = program_tokens(items.skip(1), trailing.skip(1));
        lemma_occurs_split(ts, pos, first, rest);
        assert(writable(item));
        assert(first.len() >= 3 && (first[0] == Tok::Struct || first[0] == Tok::Func));
        assert(ts[pos + 0] == first[0]);
        match item.kind {
            ItemKindModel::Struct { generics, fields: None } => {
                lemma_unit_struct_accepted(ts, pos, item.ident, generics);
            },
            ItemKindModel::Struct { generics, fields: Some(fields) } => {
                lemma_struct_accepted(
                    ts,
                    pos,
                    item.ident,
                    generics,
                    fields,
                    trailing[0] && fields.len() > 0,
                );
            },
            ItemKindModel::Func { inputs } => {
                lemma_func_accepted(ts, pos, item.ident, inputs);
            },
        }
        assert forall|i: int| 0 <= i < items.skip(1).len() implies writable(
            #[trigger] items.skip(1)[i],
        ) by {
            assert(items.skip(1)[i] == items[i + 1]);
        }
        lemma_items_read_back(
            ts,
            pos + first.len(),
            acc.push(item),
            items.skip(1),
            trailing.skip(1),
        );
        assert(acc.push(item) + items.skip(1) =~= acc + items);
    }
}

/// A comma after the last field changes nothing: a struct declaration with
/// at least one field, taken as a whole program, is accepted with the comma
/// and without it, and both ways the program is the one struct with the
/// same fields.
pub proof fn lemma_field_trailing_comma(
    name: Seq<char>,
    generics: Option<Seq<Seq<char>>>,
    fields: Seq<Pair>,
)
    requires
        generics matches Some(names) ==> names.len() > 0,
        fields.len() > 0,
    ensures
        spec_program(struct_tokens(name, generics, fields, true)) == spec_program(
            struct_tokens(name, generics, fields, false),
        ),
        spec_program(struct_tokens(name, generics, fields, true)) == Ok::<Seq<ItemModel>, ParseError>(
            seq![
                ItemModel {
                    ident: name,
                    kind: ItemKindModel::Struct { generics, fields: Some(fields) },
                },
            ],
        ),
{
    let item = ItemModel { ident: name, kind: ItemKindModel::Struct { generics, fields: Some(fields) } };
    let with = struct_tokens(name, generics, fields, true);
    let without = struct_tokens(name, generics, fields, false);
    lemma_struct_accepted(with, 0, name, generics, fields, true);
    lemma_struct_accepted(without, 0, name, generics, fields, false);
    assert(with[0] == Tok::Struct);
    assert(without[0] == Tok::Struct);
    assert(Seq::<ItemModel>::empty().push(item) =~= seq![item]);
    assert(spec_items(with, with.len() as int, seq![item]) == Ok::<Seq<ItemModel>, ParseError>(seq![item]));
    assert(spec_items(without, without.len() as int, seq![item]) == Ok::<Seq<ItemModel>, ParseError>(
        seq![item],
    ));
}

/// A function declaration with a comma after its last argument, or with a
/// comma alone between its parentheses, is rejected wherever it stands in
/// the input: at the closing parenthesis, where an argument was wanted, or
/// at the lone comma.
pub proof fn lemma_func_rejected(ts: Seq<Tok>, pos: int, name: Seq<char>, inputs: Seq<Pair>)
    requires
        occurs_at(ts, pos, func_tokens(name, inputs, true)),
    ensures
        spec_func(ts, pos) == Err::<(ItemModel, int), ParseError>(
            ParseError::UnexpectedToken {
                at: (if inputs.len() == 0 {
                    pos + 3
                } else {
                    pos + 3 + pairs_tokens(inputs).len() + 1
                }) as usize,
            },
        ),
{
    let head = seq![Tok::Func, Tok::Ident(name), Tok::Open(Delimiter::Paren)];
    let end = list_end_tokens(Delimiter::Paren, true);
    let body = seq![Tok::Open(Delimiter::Brace), Tok::Close(Delimiter::Brace)];
    if inputs.len() == 0 {
        assert(func_tokens(name, inputs, true) =~= head + (end + body));
        lemma_occurs_split(ts, pos, head, end + body);
        lemma_occurs_split(ts, pos + 3, end, body);
        assert(ts[pos + 3 + 0] == end[0]);
        assert(spec_ident(ts, pos + 3) is Err);
    } else {
        let first = seq![Tok::Ident(inputs[0].0), Tok::Colon, Tok::Ident(inputs[0].1)];
        let more = more_pairs_tokens(inputs.skip(1));
        assert(func_tokens(name, inputs, true) =~= head + (first + ((more + end) + body)));
        lemma_occurs_split(ts, pos, head, first + ((more + end) + body));
        lemma_occurs_split(ts, pos + 3, first, (more + end) + body);
        lemma_occurs_split(ts, pos + 6, more + end, body);
        assert(ts[pos + 3 + 0] == first[0]);
        assert(ts[pos + 3 + 1] == first[1]);
        assert(ts[pos + 3 + 2] == first[2]);
        assert(spec_pair(ts, pos + 3) == Ok::<Pair, ParseError>(inputs[0]));
        lemma_more_pairs_rejected(ts, pos + 6, Delimiter::Paren, seq![inputs[0]], inputs.skip(1));
    }
}

/// A comma after the last argument is never accepted: a function
/// declaration written with one, taken as a whole program, fails to parse.
pub proof fn lemma_argument_trailing_comma(name: Seq<char>, inputs: Seq<Pair>)
    ensures
        spec_program(func_tokens(name, inputs, true)) is Err,
{
    let ts = func_tokens(name, inputs, true);
    lemma_func_rejected(ts, 0, name, inputs);
    assert(ts[0] == Tok::Func);
}

} // verus!
