//! The intermediate representation: flat tables of expressions and of name
//! definitions, each addressed by a small integer handle.
//!
//! Every type that owns text has a view in which the text is a sequence of
//! characters; contracts are stated over those views.

use crate::base::FileId;
use crate::syntax::{BinaryOpKind, UnaryOpKind};
use vstd::prelude::*;

verus! {

/// The handle of an expression: its position in the module's expression table.
#[derive(Clone, Copy, Debug, PartialEq, Eq, PartialOrd, Ord, Hash, Structural)]
pub struct ExprId(pub u32);

/// The handle of a name definition: its position in the module's table of
/// name definitions.
#[derive(Clone, Copy, Debug, PartialEq, Eq, PartialOrd, Ord, Hash, Structural)]
pub struct NameDefId(pub u32);

/// One binding occurrence of a name. Two definitions may be spelled alike and
/// are still distinct.
#[derive(Clone, Debug, PartialEq, Eq, Hash)]
pub struct NameDef {
    pub name: String,
}

pub struct NameDefView {
    pub name: Seq<char>,
}

impl View for NameDef {
    type V = NameDefView;

    open spec fn view(&self) -> NameDefView {
        NameDefView { name: self.name@ }
    }
}

/// What a path literal is relative to.
#[derive(Clone, Debug, PartialEq, Eq, Hash)]
pub enum PathAnchor {
    Absolute,
    Home,
    /// Relative to the directory of the file that holds the literal.
    Relative(FileId),
    /// Looked up under the given name of the search path.
    Search(String),
}

pub enum PathAnchorView {
    Absolute,
    Home,
    Relative(FileId),
    Search(Seq<char>),
}

impl View for PathAnchor {
    type V = PathAnchorView;

    open spec fn view(&self) -> PathAnchorView {
        match *self {
            PathAnchor::Absolute => PathAnchorView::Absolute,
            PathAnchor::Home => PathAnchorView::Home,
            PathAnchor::Relative(f) => PathAnchorView::Relative(f),
            PathAnchor::Search(s) => PathAnchorView::Search(s@),
        }
    }
}

/// A normalized path: `supers` steps up from the anchor, then down along
/// `raw_segments`, which are joined by `/` and hold no `.`, `..` or empty
/// segment.
#[derive(Clone, Debug, PartialEq, Eq, Hash)]
pub struct Path {
    pub anchor: PathAnchor,
    pub supers: usize,
    pub raw_segments: String,
}

pub struct PathView {
    pub anchor: PathAnchorView,
    pub supers: nat,
    pub raw_segments: Seq<char>,
}

impl View for Path {
    type V = PathView;

    open spec fn view(&self) -> PathView {
        PathView {
            anchor: self.anchor@,
            supers: self.supers as nat,
            raw_segments: self.raw_segments@,
        }
    }
}

/// A literal value.
#[derive(Clone, Debug, PartialEq, Eq, Hash)]
pub enum Literal {
    Int(i64),
    /// A floating-point number, as its bit pattern (IEEE 754, 64 bits).
    Float(u64),
    String(String),
    Path(Path),
}

pub enum LiteralView {
    Int(i64),
    Float(u64),
    String(Seq<char>),
    Path(PathView),
}

impl View for Literal {
    type V = LiteralView;

    open spec fn view(&self) -> LiteralView {
        match *self {
            Literal::Int(i) => LiteralView::Int(i),
            Literal::Float(b) => LiteralView::Float(b),
            Literal::String(s) => LiteralView::String(s@),
            Literal::Path(p) => LiteralView::Path(p@),
        }
    }
}

/// A destructuring pattern of a lambda: each field with the name it binds and
/// its default, and whether further fields are allowed.
#[derive(Clone, Debug, PartialEq, Eq, Hash)]
pub struct Pat {
    pub fields: Vec<(Option<NameDefId>, Option<ExprId>)>,
    pub ellipsis: bool,
}

pub struct PatView {
    pub fields: Seq<(Option<NameDefId>, Option<ExprId>)>,
    pub ellipsis: bool,
}

impl View for Pat {
    type V = PatView;

    open spec fn view(&self) -> PatView {
        PatView { fields: self.fields@, ellipsis: self.ellipsis }
    }
}

/// The key of one binding in a set.
#[derive(Clone, Debug, PartialEq, Eq, Hash)]
pub enum BindingKey {
    /// A name of a recursive scope, with an identity of its own.
    NameDef(NameDefId),
    /// A name known as text only.
    Name(String),
    /// A key that is computed when the set is evaluated.
    Dynamic(ExprId),
}

pub enum BindingKeyView {
    NameDef(NameDefId),
    Name(Seq<char>),
    Dynamic(ExprId),
}

impl View for BindingKey {
    type V = BindingKeyView;

    open spec fn view(&self) -> BindingKeyView {
        match *self {
            BindingKey::NameDef(id) => BindingKeyView::NameDef(id),
            BindingKey::Name(s) => BindingKeyView::Name(s@),
            BindingKey::Dynamic(id) => BindingKeyView::Dynamic(id),
        }
    }
}

/// The value of one binding in a set.
#[derive(Clone, Copy, Debug, PartialEq, Eq, Hash, Structural)]
pub enum BindingValue {
    /// `inherit name;`: the reference expression that stands for the name.
    Inherit(ExprId),
    /// `inherit (source) name;`: the position of the source in the list of
    /// inherit sources of the same set.
    InheritFrom(usize),
    /// An ordinary value.
    Expr(ExprId),
}

/// The bindings of one set, in the order of their first declaration, and the
/// sources of its `inherit (source) ..` declarations.
#[derive(Clone, Debug, PartialEq, Eq, Hash)]
pub struct Bindings {
    pub entries: Vec<(BindingKey, BindingValue)>,
    pub inherit_froms: Vec<ExprId>,
}

pub struct BindingsView {
    pub entries: Seq<(BindingKeyView, BindingValue)>,
    pub inherit_froms: Seq<ExprId>,
}

impl View for Bindings {
    type V = BindingsView;

    open spec fn view(&self) -> BindingsView {
        BindingsView {
            entries: self.entries@.map_values(|e: (BindingKey, BindingValue)| (e.0@, e.1)),
            inherit_froms: self.inherit_froms@,
        }
    }
}

/// One node of the intermediate representation. Every sub-expression is named
/// by its handle in the same table.
#[derive(Clone, Debug, PartialEq, Eq, Hash)]
pub enum Expr {
    /// Stands for an expression that the source lacks.
    Missing,
    Reference(String),
    Literal(Literal),
    Lambda(Option<NameDefId>, Option<Pat>, ExprId),
    With(ExprId, ExprId),
    Assert(ExprId, ExprId),
    IfThenElse(ExprId, ExprId, ExprId),
    Binary(Option<BinaryOpKind>, ExprId, ExprId),
    Apply(ExprId, ExprId),
    Unary(Option<UnaryOpKind>, ExprId),
    HasAttr(ExprId, Vec<ExprId>),
    Select(ExprId, Vec<ExprId>, Option<ExprId>),
    /// The interpolated parts of a string, in source order.
    StringInterpolation(Vec<ExprId>),
    /// The interpolated parts of a path, in source order.
    PathInterpolation(Vec<ExprId>),
    List(Vec<ExprId>),
    LetIn(Bindings, ExprId),
    Attrset(Bindings),
    LetAttrset(Bindings),
}

pub enum ExprView {
    Missing,
    Reference(Seq<char>),
    Literal(LiteralView),
    Lambda(Option<NameDefId>, Option<PatView>, ExprId),
    With(ExprId, ExprId),
    Assert(ExprId, ExprId),
    IfThenElse(ExprId, ExprId, ExprId),
    Binary(Option<BinaryOpKind>, ExprId, ExprId),
    Apply(ExprId, ExprId),
    Unary(Option<UnaryOpKind>, ExprId),
    HasAttr(ExprId, Seq<ExprId>),
    Select(ExprId, Seq<ExprId>, Option<ExprId>),
    StringInterpolation(Seq<ExprId>),
    PathInterpolation(Seq<ExprId>),
    List(Seq<ExprId>),
    LetIn(BindingsView, ExprId),
    Attrset(BindingsView),
    LetAttrset(BindingsView),
}

impl View for Expr {
    type V = ExprView;

    open spec fn view(&self) -> ExprView {
        match *self {
            Expr::Missing => ExprView::Missing,
            Expr::Reference(s) => ExprView::Reference(s@),
            Expr::Literal(l) => ExprView::Literal(l@),
            Expr::Lambda(n, p, b) => ExprView::Lambda(
                n,
                match p {
                    Some(p) => Some(p@),
                    None => None,
                },
                b,
            ),
            Expr::With(a, b) => ExprView::With(a, b),
            Expr::Assert(a, b) => ExprView::Assert(a, b),
            Expr::IfThenElse(a, b, c) => ExprView::IfThenElse(a, b, c),
            Expr::Binary(o, a, b) => ExprView::Binary(o, a, b),
            Expr::Apply(a, b) => ExprView::Apply(a, b),
            Expr::Unary(o, a) => ExprView::Unary(o, a),
            Expr::HasAttr(a, p) => ExprView::HasAttr(a, p@),
            Expr::Select(a, p, d) => ExprView::Select(a, p@, d),
            Expr::StringInterpolation(p) => ExprView::StringInterpolation(p@),
            Expr::PathInterpolation(p) => ExprView::PathInterpolation(p@),
            Expr::List(p) => ExprView::List(p@),
            Expr::LetIn(b, e) => ExprView::LetIn(b@, e),
            Expr::Attrset(b) => ExprView::Attrset(b@),
            Expr::LetAttrset(b) => ExprView::LetAttrset(b@),
        }
    }
}

/// Whether every handle in `ids` is below `bound`.
pub open spec fn all_below(ids: Seq<ExprId>, bound: nat) -> bool {
    forall|i: int| 0 <= i < ids.len() ==> (#[trigger] ids[i]).0 < bound
}

/// Whether an optional handle, if there is one, is below `bound`.
pub open spec fn expr_below(id: Option<ExprId>, bound: nat) -> bool {
    match id {
        Some(id) => id.0 < bound,
        None => true,
    }
}

/// Whether an optional handle of a name definition, if there is one, is
/// below `bound`.
pub open spec fn name_below(id: Option<NameDefId>, bound: nat) -> bool {
    match id {
        Some(id) => id.0 < bound,
        None => true,
    }
}

impl BindingKeyView {
    /// Whether the handle in this key, if it holds one, is below the bound
    /// for its table.
    pub open spec fn within(self, exprs: nat, names: nat) -> bool {
        match self {
            BindingKeyView::NameDef(id) => id.0 < names,
            BindingKeyView::Name(_) => true,
            BindingKeyView::Dynamic(id) => id.0 < exprs,
        }
    }
}

impl BindingValue {
    /// Whether the handle in this value is below `exprs`, or the position in
    /// it below `froms`.
    pub open spec fn within(self, exprs: nat, froms: nat) -> bool {
        match self {
            BindingValue::Inherit(id) => id.0 < exprs,
            BindingValue::InheritFrom(i) => i < froms,
            BindingValue::Expr(id) => id.0 < exprs,
        }
    }
}

/// Whether no two of `entries` have the same key.
pub open spec fn keys_distinct(entries: Seq<(BindingKeyView, BindingValue)>) -> bool {
    forall|i: int, j: int|
        0 <= i < j < entries.len() ==> (#[trigger] entries[i]).0 != (#[trigger] entries[j]).0
}

impl BindingsView {
    /// Whether these bindings are sound below the given bounds: every
    /// handle in them is below the bound for its table, every inherited name
    /// has its source in the list, and no two entries have the same key.
    pub open spec fn within(self, exprs: nat, names: nat) -> bool {
        &&& forall|i: int|
            0 <= i < self.entries.len() ==> (#[trigger] self.entries[i]).0.within(exprs, names)
                && self.entries[i].1.within(exprs, self.inherit_froms.len())
        &&& all_below(self.inherit_froms, exprs)
        &&& keys_distinct(self.entries)
    }
}

impl PatView {
    /// Whether every handle in this pattern is below the bound for its
    /// table.
    pub open spec fn within(self, exprs: nat, names: nat) -> bool {
        forall|i: int|
            0 <= i < self.fields.len() ==> name_below((#[trigger] self.fields[i]).0, names)
                && expr_below(self.fields[i].1, exprs)
    }
}

impl ExprView {
    /// Whether every handle in this expression is below the bound for its
    /// table.
    pub open spec fn within(self, exprs: nat, names: nat) -> bool {
        match self {
            ExprView::Missing => true,
            ExprView::Reference(_) => true,
            ExprView::Literal(_) => true,
            ExprView::Lambda(n, p, b) => name_below(n, names) && b.0 < exprs && match p {
                Some(p) => p.within(exprs, names),
                None => true,
            },
            ExprView::With(a, b) => a.0 < exprs && b.0 < exprs,
            ExprView::Assert(a, b) => a.0 < exprs && b.0 < exprs,
            ExprView::IfThenElse(a, b, c) => a.0 < exprs && b.0 < exprs && c.0 < exprs,
            ExprView::Binary(_, a, b) => a.0 < exprs && b.0 < exprs,
            ExprView::Apply(a, b) => a.0 < exprs && b.0 < exprs,
            ExprView::Unary(_, a) => a.0 < exprs,
            ExprView::HasAttr(a, p) => a.0 < exprs && all_below(p, exprs),
            ExprView::Select(a, p, d) => a.0 < exprs && all_below(p, exprs) && expr_below(d, exprs),
            ExprView::StringInterpolation(p) => all_below(p, exprs),
            ExprView::PathInterpolation(p) => all_below(p, exprs),
            ExprView::List(p) => all_below(p, exprs),
            ExprView::LetIn(b, e) => b.within(exprs, names) && e.0 < exprs,
            ExprView::Attrset(b) => b.within(exprs, names),
            ExprView::LetAttrset(b) => b.within(exprs, names),
        }
    }
}

/// Handles that are below some bounds are below any higher bounds.
pub proof fn lemma_within_grows(
    e: ExprView,
    exprs: nat,
    names: nat,
    more_exprs: nat,
    more_names: nat,
)
    requires
        e.within(exprs, names),
        exprs <= more_exprs,
        names <= more_names,
    ensures
        e.within(more_exprs, more_names),
{
}

} // verus!
