//! The two tables of a module, kept in `la_arena` arenas.
//!
//! Nothing here is proved: each function states what the arena does, as its
//! source shows it, over the sequence of items that the arena holds.

use crate::ir::{Expr, ExprId, NameDef, NameDefId};
use la_arena::{Arena, Idx, RawIdx};
use vstd::prelude::*;

verus! {

/// `la_arena::Arena`: a table that only grows and hands out the position of
/// each item as its index. What it holds is known only through the
/// functions below.
#[verifier::external_type_specification]
#[verifier::external_body]
#[verifier::reject_recursive_types(T)]
pub struct ExArena<T>(Arena<T>);

/// The expressions that an arena holds, in the order of their allocation.
pub uninterp spec fn expr_items(arena: Arena<Expr>) -> Seq<Expr>;

/// The name definitions that an arena holds, in the order of their allocation.
pub uninterp spec fn name_def_items(arena: Arena<NameDef>) -> Seq<NameDef>;

/// `Arena::new`: an arena that holds nothing.
#[verifier::external_body]
pub(crate) fn new_expr_arena() -> (arena: Arena<Expr>)
    ensures
        expr_items(arena) == Seq::<Expr>::empty(),
{
    Arena::new()
}

/// `Arena::len`: the number of items held.
#[verifier::external_body]
pub(crate) fn expr_arena_len(arena: &Arena<Expr>) -> (n: usize)
    ensures
        n == expr_items(*arena).len(),
{
    arena.len()
}

/// `Arena::alloc`: appends `expr` and returns its index, which is the number
/// of items held before. The arena computes that index in 32 bits, so the
/// number must fit.
#[verifier::external_body]
pub(crate) fn alloc_expr_in(arena: &mut Arena<Expr>, expr: Expr) -> (id: ExprId)
    requires
        expr_items(*old(arena)).len() <= u32::MAX,
    ensures
        expr_items(*final(arena)) == expr_items(*old(arena)).push(expr),
        id.0 == expr_items(*old(arena)).len(),
{
    ExprId(arena.alloc(expr).into_raw().into_u32())
}

/// `Arena`'s `Index::index`: the item at position `id`. The arena panics on
/// an index beyond its items, so `id` must be one that it has handed out.
#[verifier::external_body]
pub(crate) fn expr_at(arena: &Arena<Expr>, id: ExprId) -> (expr: &Expr)
    requires
        id.0 < expr_items(*arena).len(),
    ensures
        *expr == expr_items(*arena)[id.0 as int],
{
    &arena[Idx::from_raw(RawIdx::from_u32(id.0))]
}

/// `Arena::new`: an arena that holds nothing.
#[verifier::external_body]
pub(crate) fn new_name_def_arena() -> (arena: Arena<NameDef>)
    ensures
        name_def_items(arena) == Seq::<NameDef>::empty(),
{
    Arena::new()
}

/// `Arena::len`: the number of items held.
#[verifier::external_body]
pub(crate) fn name_def_arena_len(arena: &Arena<NameDef>) -> (n: usize)
    ensures
        n == name_def_items(*arena).len(),
{
    arena.len()
}

/// `Arena::alloc`: appends `def` and returns its index, which is the number
/// of items held before. The arena computes that index in 32 bits, so the
/// number must fit.
#[verifier::external_body]
pub(crate) fn alloc_name_def_in(arena: &mut Arena<NameDef>, def: NameDef) -> (id: NameDefId)
    requires
        name_def_items(*old(arena)).len() <= u32::MAX,
    ensures
        name_def_items(*final(arena)) == name_def_items(*old(arena)).push(def),
        id.0 == name_def_items(*old(arena)).len(),
{
    NameDefId(arena.alloc(def).into_raw().into_u32())
}

/// `Arena`'s `Index::index`: the item at position `id`. The arena panics on
/// an index beyond its items, so `id` must be one that it has handed out.
#[verifier::external_body]
pub(crate) fn name_def_at(arena: &Arena<NameDef>, id: NameDefId) -> (def: &NameDef)
    requires
        id.0 < name_def_items(*arena).len(),
    ensures
        *def == name_def_items(*arena)[id.0 as int],
{
    &arena[Idx::from_raw(RawIdx::from_u32(id.0))]
}

} // verus!
