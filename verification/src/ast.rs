use vstd::prelude::*;

verus! {

/// A literal value.
#[derive(Clone, Debug, PartialEq, Eq)]
pub enum Lit {
    Int(i32),
    Str(String),
}

/// An expression.
#[derive(Clone, Debug, PartialEq, Eq)]
pub struct Expr {
    pub kind: ExprKind,
}

#[derive(Clone, Debug, PartialEq, Eq)]
pub enum ExprKind {
    Lit(Lit),
}

/// What a top-level declaration declares.
#[derive(Clone, Debug, PartialEq, Eq)]
pub enum ItemKind {
    /// `fields` is `None` for a unit struct, closed by `;`, and `Some` for a
    /// braced body, which may be empty.
    Struct { generics: Option<Vec<String>>, fields: Option<Vec<(String, String)>> },
    Func { inputs: Vec<(String, String)> },
}

/// A named top-level declaration.
#[derive(Clone, Debug, PartialEq, Eq)]
pub struct Item {
    pub ident: String,
    pub kind: ItemKind,
}

/// A sequence of statements. No rule of the grammar builds one yet: a
/// function body is accepted only when empty.
#[derive(Clone, Debug, PartialEq, Eq)]
pub struct Block {
    pub stmts: Vec<Stmt>,
}

#[derive(Clone, Debug, PartialEq, Eq)]
pub struct Stmt {
    pub kind: StmtKind,
}

#[derive(Clone, Debug, PartialEq, Eq)]
pub enum StmtKind {
    Item(Item),
    Expr(Expr),
}

/// A name and the name of its type, as character sequences.
pub type Pair = (Seq<char>, Seq<char>);

/// The mathematical value of a [`Lit`].
pub enum LitModel {
    Int(int),
    Str(Seq<char>),
}

/// The mathematical value of an [`ItemKind`].
pub enum ItemKindModel {
    Struct { generics: Option<Seq<Seq<char>>>, fields: Option<Seq<Pair>> },
    Func { inputs: Seq<Pair> },
}

/// The mathematical value of an [`Item`].
pub struct ItemModel {
    pub ident: Seq<char>,
    pub kind: ItemKindModel,
}

/// The mathematical value of a [`StmtKind`].
pub enum StmtModel {
    Item(ItemModel),
    Expr(LitModel),
}

pub open spec fn names_view(names: Seq<String>) -> Seq<Seq<char>> {
    names.map_values(|s: String| s@)
}

pub open spec fn pairs_view(pairs: Seq<(String, String)>) -> Seq<Pair> {
    pairs.map_values(|p: (String, String)| (p.0@, p.1@))
}

pub open spec fn items_view(items: Seq<Item>) -> Seq<ItemModel> {
    items.map_values(|it: Item| it@)
}

impl View for Lit {
    type V = LitModel;

    open spec fn view(&self) -> LitModel {
        match self {
            Lit::Int(n) => LitModel::Int(*n as int),
            Lit::Str(s) => LitModel::Str(s@),
        }
    }
}

impl View for Expr {
    type V = LitModel;

    open spec fn view(&self) -> LitModel {
        match self.kind {
            ExprKind::Lit(l) => l@,
        }
    }
}

impl View for ItemKind {
    type V = ItemKindModel;

    open spec fn view(&self) -> ItemKindModel {
        match self {
            ItemKind::Struct { generics, fields } => ItemKindModel::Struct {
                generics: match generics {
                    Some(g) => Some(names_view(g@)),
                    None => None,
                },
                fields: match fields {
                    Some(f) => Some(pairs_view(f@)),
                    None => None,
                },
            },
            ItemKind::Func { inputs } => ItemKindModel::Func { inputs: pairs_view(inputs@) },
        }
    }
}

impl View for Item {
    type V = ItemModel;

    open spec fn view(&self) -> ItemModel {
        ItemModel { ident: self.ident@, kind: self.kind@ }
    }
}

impl View for Stmt {
    type V = StmtModel;

    open spec fn view(&self) -> StmtModel {
        match self.kind {
            StmtKind::Item(it) => StmtModel::Item(it@),
            StmtKind::Expr(e) => StmtModel::Expr(e@),
        }
    }
}

impl View for Block {
    type V = Seq<StmtModel>;

    open spec fn view(&self) -> Seq<StmtModel> {
        self.stmts@.map_values(|s: Stmt| s@)
    }
}

} // verus!
