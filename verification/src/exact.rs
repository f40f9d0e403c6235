use crate::ast::{ItemKindModel, ItemModel, Pair};
use crate::error::ParseError;
use crate::grammar::{
    spec_func, spec_generics, spec_ident, spec_items, spec_names_rest, spec_pair, spec_pairs,
    spec_pairs_rest, spec_program, spec_struct,
};
use crate::writing::{
    generics_tokens, item_tokens, list_end_tokens, more_names_tokens, more_pairs_tokens,
    pairs_tokens, program_tokens, writable,
};
use crate::token::{Delimiter, Tok};
use vstd::prelude::*;

verus! {

proof fn lemma_more_pairs_written(
    ts: Seq<Tok>,
    pos: int,
    close: Delimiter,
    allowed: bool,
    acc: Seq<Pair>,
    all: Seq<Pair>,
    next: int,
)
    requires
        0 <= pos,
        spec_pairs_rest(ts, pos, close, allowed, acc) == Ok::<(Seq<Pair>, int), ParseError>(
            (all, next),
        ),
    ensures
        pos < next <= ts.len(),
        acc.len() <= all.len(),
        all.take(acc.len() as int) == acc,
        ts.subrange(pos, next) == more_pairs_tokens(all.skip(acc.len() as int)) + list_end_tokens(
            close,
            false,
        ) || (allowed && ts.subrange(pos, next) == more_pairs_tokens(all.skip(acc.len() as int))
            + list_end_tokens(close, true)),
    decreases ts.len() - pos,
{
    let n = acc.len() as int;
    if ts[pos] == Tok::Close(close) {
        assert(all.take(n) =~= acc);
        assert(ts.subrange(pos, next) =~= more_pairs_tokens(all.skip(n)) + list_end_tokens(
            close,
            false,
        ));
    } else if allowed && pos + 1 < ts.len() && ts[pos + 1] == Tok::Close(close) {
        assert(all.take(n) =~= acc);
        assert(ts.subrange(pos, next) =~= more_pairs_tokens(all.skip(n)) + list_end_tokens(
            close,
            true,
        ));
    } else {
        let p = spec_pair(ts, pos + 1)->Ok_0;
        lemma_more_pairs_written(ts, pos + 4, close, allowed, acc.push(p), all, next);
        assert(all.take(n + 1)[n] == acc.push(p)[n]);
        assert(all.take(n) =~= acc) by {
            assert forall|i: int| 0 <= i < n implies all.take(n)[i] == acc[i] by {
                assert(all.take(n + 1)[i] == acc.push(p)[i]);
            }
        }
        let pairs = all.skip(n);
        assert(pairs[0] == p);
        assert(pairs.skip(1) =~= all.skip(n + 1));
        let head = seq![Tok::Comma, Tok::Ident(p.0), Tok::Colon, Tok::Ident(p.1)];
        assert(ts.subrange(pos, next) =~= head + ts.subrange(pos + 4, next));
        assert(head + (more_pairs_tokens(all.skip(n + 1)) + list_end_tokens(close, false))
            =~= more_pairs_tokens(pairs) + list_end_tokens(close, false));
        assert(head + (more_pairs_tokens(all.skip(n + 1)) + list_end_tokens(close, true))
            =~= more_pairs_tokens(pairs) + list_end_tokens(close, true));
    }
}

proof fn lemma_pairs_written(
    ts: Seq<Tok>,
    pos: int,
    close: Delimiter,
    allowed: bool,
    all: Seq<Pair>,
    next: int,
)
    requires
        0 <= pos,
        spec_pairs(ts, pos, close, allowed) == Ok::<(Seq<Pair>, int), ParseError>((all, next)),
    ensures
        pos < next <= ts.len(),
        ts.subrange(pos, next) == pairs_tokens(all) + list_end_tokens(close, false) || (allowed
            && all.len() > 0 && ts.subrange(pos, next) == pairs_tokens(all) + list_end_tokens(
            close,
            true,
        )),
{
    if ts[pos] == Tok::Close(close) {
        assert(ts.subrange(pos, next) =~= pairs_tokens(all) + list_end_tokens(close, false));
    } else {
        let p = spec_pair(ts, pos)->Ok_0;
        lemma_more_pairs_written(ts, pos + 3, close, allowed, seq![p], all, next);
        assert(all.take(1)[0] == seq![p][0]);
        let first = seq![Tok::Ident(p.0), Tok::Colon, Tok::Ident(p.1)];
        assert(ts.subrange(pos, next) =~= first + ts.subrange(pos + 3, next));
        assert(first + (more_pairs_tokens(all.skip(1)) + list_end_tokens(close, false))
            =~= pairs_tokens(all) + list_end_tokens(close, false));
        assert(first + (more_pairs_tokens(all.skip(1)) + list_end_tokens(close, true))
            =~= pairs_tokens(all) + list_end_tokens(close, true));
    }
}

proof fn lemma_more_names_written(
    ts: Seq<Tok>,
    pos: int,
    acc: Seq<Seq<char>>,
    all: Seq<Seq<char>>,
    next: int,
)
    requires
        0 <= pos,
        spec_names_rest(ts, pos, acc) == Ok::<(Seq<Seq<char>>, int), ParseError>((all, next)),
    ensures
        pos < next <= ts.len(),
        acc.len() <= all.len(),
        all.take(acc.len() as int) == acc,
        ts.subrange(pos, next) == more_names_tokens(all.skip(acc.len() as int)) + seq![Tok::Gt],
    decreases ts.len() - pos,
{
    let n = acc.len() as int;
    if ts[pos] == Tok::Gt {
        assert(all.take(n) =~= acc);
        assert(ts.subrange(pos, next) =~= more_names_tokens(all.skip(n)) + seq![Tok::Gt]);
    } else {
        let name = spec_ident(ts, pos + 1)->Ok_0;
        lemma_more_names_written(ts, pos + 2, acc.push(name), all, next);
        assert(all.take(n + 1)[n] == acc.push(name)[n]);
        assert(all.take(n) =~= acc) by {
            assert forall|i: int| 0 <= i < n implies all.take(n)[i] == acc[i] by {
                assert(all.take(n + 1)[i] == acc.push(name)[i]);
            }
        }
        let names = all.skip(n);
        assert(names[0] == name);
        assert(names.skip(1) =~= all.skip(n + 1));
        let head = seq![Tok::Comma, Tok::Ident(name)];
        assert(ts.subrange(pos, next) =~= head + ts.subrange(pos + 2, next));
        assert(head + (more_names_tokens(all.skip(n + 1)) + seq![Tok::Gt]) =~= more_names_tokens(
            names,
        ) + seq![Tok::Gt]);
    }
}

proof fn lemma_generics_written(
    ts: Seq<Tok>,
    pos: int,
    generics: Option<Seq<Seq<char>>>,
    next: int,
)
    requires
        0 <= pos,
        spec_generics(ts, pos) == Ok::<(Option<Seq<Seq<char>>>, int), ParseError>(
            (generics, next),
        ),
    ensures
        pos <= next,
        generics is Some ==> next <= ts.len(),
        generics matches Some(names) ==> names.len() > 0,
        generics is Some ==> ts.subrange(pos, next) == generics_tokens(generics),
        generics is None ==> next == pos && !(pos < ts.len() && ts[pos] == Tok::Lt),
{
    if pos < ts.len() && ts[pos] == Tok::Lt {
        let name = spec_ident(ts, pos + 1)->Ok_0;
        let names = generics->Some_0;
        lemma_more_names_written(ts, pos + 2, seq![name], names, next);
        assert(names.take(1)[0] == seq![name][0]);
        let head = seq![Tok::Lt, Tok::Ident(name)];
        assert(ts.subrange(pos, next) =~= head + ts.subrange(pos + 2, next));
        assert(head + (more_names_tokens(names.skip(1)) + seq![Tok::Gt]) =~= generics_tokens(
            generics,
        ));
    }
}

/// Nothing but a written struct is read as a struct: where the struct rule
/// accepts, the item it gives can be written, and the tokens it has read
/// are that item written out, with a comma after the last field or without.
pub proof fn lemma_struct_written(ts: Seq<Tok>, pos: int, item: ItemModel, next: int)
    requires
        0 <= pos,
        spec_struct(ts, pos) == Ok::<(ItemModel, int), ParseError>((item, next)),
    ensures
        pos < next <= ts.len(),
        writable(item),
        item.kind is Struct,
        ts.subrange(pos, next) == item_tokens(item, false) || ts.subrange(pos, next)
            == item_tokens(item, true),
{
    let generics = item.kind->Struct_generics;
    let fields = item.kind->Struct_fields;
    let body = spec_generics(ts, pos + 2)->Ok_0.1;
    lemma_generics_written(ts, pos + 2, generics, body);
    let head = seq![Tok::Struct, Tok::Ident(item.ident)];
    let gen = generics_tokens(generics);
    assert(ts.subrange(pos + 2, body) =~= gen) by {
        if generics is None {
            assert(gen =~= Seq::empty());
        }
    }
    if ts[body] == Tok::Semicolon {
        assert(ts.subrange(pos, next) =~= head + gen + seq![Tok::Semicolon]) by {
            assert(ts.subrange(pos, next) =~= head + ts.subrange(pos + 2, body) + seq![
                Tok::Semicolon,
            ]);
        }
    } else {
        let list = fields->Some_0;
        lemma_pairs_written(ts, body + 1, Delimiter::Brace, true, list, next);
        let open = seq![Tok::Open(Delimiter::Brace)];
        assert(ts.subrange(pos, next) =~= head + ts.subrange(pos + 2, body) + open + ts.subrange(
            body + 1,
            next,
        ));
        assert(head + gen + open + (pairs_tokens(list) + list_end_tokens(Delimiter::Brace, false))
            =~= head + gen + open + pairs_tokens(list) + list_end_tokens(Delimiter::Brace, false));
        assert(head + gen + open + (pairs_tokens(list) + list_end_tokens(Delimiter::Brace, true))
            =~= head + gen + open + pairs_tokens(list) + list_end_tokens(Delimiter::Brace, true));
    }
}

/// Nothing but a written function is read as a function: where the
/// function rule accepts, the tokens it has read are the item it gives,
/// written out without a comma after the last argument.
pub proof fn lemma_func_written(ts: Seq<Tok>, pos: int, item: ItemModel, next: int)
    requires
        0 <= pos,
        spec_func(ts, pos) == Ok::<(ItemModel, int), ParseError>((item, next)),
    ensures
        pos < next <= ts.len(),
        writable(item),
        item.kind is Func,
        ts.subrange(pos, next) == item_tokens(item, false),
{
    let inputs = item.kind->Func_inputs;
    let body = spec_pairs(ts, pos + 3, Delimiter::Paren, false)->Ok_0.1;
    lemma_pairs_written(ts, pos + 3, Delimiter::Paren, false, inputs, body);
    let head = seq![Tok::Func, Tok::Ident(item.ident), Tok::Open(Delimiter::Paren)];
    let block = seq![Tok::Open(Delimiter::Brace), Tok::Close(Delimiter::Brace)];
    assert(ts.subrange(pos, next) =~= head + ts.subrange(pos + 3, body) + block);
    assert(head + (pairs_tokens(inputs) + list_end_tokens(Delimiter::Paren, false)) + block
        =~= item_tokens(item, false));
}

proof fn lemma_items_written(
    ts: Seq<Tok>,
    pos: int,
    acc: Seq<ItemModel>,
    all: Seq<ItemModel>,
) -> (trailing: Seq<bool>)
    requires
        0 <= pos <= ts.len(),
        spec_items(ts, pos, acc) == Ok::<Seq<ItemModel>, ParseError>(all),
    ensures
        acc.len() <= all.len(),
        all.take(acc.len() as int) == acc,
        trailing.len() == all.len() - acc.len(),
        forall|i: int| acc.len() <= i < all.len() ==> writable(#[trigger] all[i]),
        ts.subrange(pos, ts.len() as int) == program_tokens(all.skip(acc.len() as int), trailing),
    decreases ts.len() - pos,
{
    let n = acc.len() as int;
    if pos >= ts.len() {
        assert(all.take(n) =~= acc);
        assert(ts.subrange(pos, ts.len() as int) =~= Seq::empty());
        Seq::empty()
    } else {
        let (item, next) = if ts[pos] == Tok::Struct {
            spec_struct(ts, pos)->Ok_0
        } else {
            spec_func(ts, pos)->Ok_0
        };
        if ts[pos] == Tok::Struct {
            lemma_struct_written(ts, pos, item, next);
        } else {
            lemma_func_written(ts, pos, item, next);
        }
        let later = lemma_items_written(ts, next, acc.push(item), all);
        let flag = ts.subrange(pos, next) == item_tokens(item, true);
        let trailing = seq![flag] + later;
        assert(all.take(n + 1)[n] == acc.push(item)[n]);
        assert(all.take(n) =~= acc) by {
            assert forall|i: int| 0 <= i < n implies all.take(n)[i] == acc[i] by {
                assert(all.take(n + 1)[i] == acc.push(item)[i]);
            }
        }
        let items = all.skip(n);
        assert(items[0] == item);
        assert(items.skip(1) =~= all.skip(n + 1));
        assert(trailing.skip(1) =~= later);
        assert(ts.subrange(pos, ts.len() as int) =~= ts.subrange(pos, next) + ts.subrange(
            next,
            ts.len() as int,
        ));
        trailing
    }
}

/// Nothing but a written program is read as a program: where the tokens
/// are accepted, every item read can be written, and the tokens are those
/// items written out one after another, each field list with a comma after
/// its last field or without, as the result says for each item.
pub proof fn lemma_program_written(ts: Seq<Tok>, items: Seq<ItemModel>) -> (trailing: Seq<bool>)
    requires
        spec_program(ts) == Ok::<Seq<ItemModel>, ParseError>(items),
    ensures
        trailing.len() == items.len(),
        forall|i: int| 0 <= i < items.len() ==> writable(#[trigger] items[i]),
        ts == program_tokens(items, trailing),
{
    let trailing = lemma_items_written(ts, 0, Seq::empty(), items);
    assert(items.skip(0) =~= items);
    assert(ts.subrange(0, ts.len() as int) =~= ts);
    trailing
}

} // verus!
