//! What the steps of merging cost in room, by what they do to the state and
//! to what a set has pending.

use crate::ir::{BindingValue, ExprId};
use crate::merge_model::{
    lemma_pending_push, lemma_pending_update, pending, pending_entry, pending_from, EntryModel,
    SetModel, ValueModel,
};
use crate::semantics::{emit_duplicated_key, make_attrset, recover_error};
use crate::state::LowerState;
use crate::syntax::AstPtr;
use vstd::prelude::*;

verus! {

/// Keeping an expression aside adds one expression and leaves pending what
/// was.
pub proof fn lemma_recover_error(st: LowerState, set: SetModel, expr: ExprId, ptr: AstPtr)
    ensures
        pending(recover_error(st, set, expr, ptr).1) == pending(set),
        recover_error(st, set, expr, ptr).0.on_track(
            pending(recover_error(st, set, expr, ptr).1),
            st,
            pending(set) + 1,
        ),
{
    let r = recover_error(st, set, expr, ptr);
    lemma_pending_push(set.entries, r.1.entries.last(), 0);
    assert(r.1.entries.drop_last() =~= set.entries);
    assert(r.1.entries =~= set.entries.push(r.1.entries.last()));
}

/// Reporting a conflict changes neither table, nor what the entry has
/// pending, nor how it is found.
pub proof fn lemma_emit_duplicated_key(st: LowerState, entry: EntryModel, ptr: AstPtr)
    ensures
        pending_entry(emit_duplicated_key(st, entry, ptr).1) == pending_entry(entry),
        emit_duplicated_key(st, entry, ptr).1.name == entry.name,
        emit_duplicated_key(st, entry, ptr).0.on_track(0, st, 0),
{
}

/// Turning an entry into a nested set costs nothing, except where a final
/// value gives way: then at most two, one for the placeholder that keeps the
/// value and one for the set that is now pending.
pub proof fn lemma_make_attrset(st: LowerState, entry: EntryModel, is_rec: bool, def_ptr: AstPtr)
    ensures
        make_attrset(st, entry, is_rec, def_ptr).1.value is Attrset,
        make_attrset(st, entry, is_rec, def_ptr).1.name == entry.name,
        pending_entry(make_attrset(st, entry, is_rec, def_ptr).1) == 1 + pending(
            make_attrset(st, entry, is_rec, def_ptr).1.nested(),
        ),
        make_attrset(st, entry, is_rec, def_ptr).0.on_track(
            pending_entry(make_attrset(st, entry, is_rec, def_ptr).1),
            st,
            pending_entry(entry) + (if entry.value is Final {
                2nat
            } else {
                0nat
            }),
        ),
{
    match entry.value {
        ValueModel::Final(BindingValue::Expr(expr)) => {
            lemma_recover_error(st, SetModel::new(is_rec), expr, entry.def_ptr);
        },
        _ => {},
    }
}

/// An entry has no more pending than the entries that it is one of.
pub proof fn lemma_pending_entry_le(entries: Seq<EntryModel>, j: int)
    requires
        0 <= j < entries.len(),
    ensures
        pending_entry(entries[j]) <= pending_from(entries, 0),
{
    let e = EntryModel { value: ValueModel::Final(BindingValue::InheritFrom(0)), ..entries[j] };
    lemma_pending_update(entries, j, e, 0);
}

} // verus!
