//! The state of merging the declarations of one set, as mathematical values.
//!
//! A set under construction is an ordered list of entries. An entry with a
//! statically known name is found again by that name; an entry with a dynamic
//! key is never found again, so two of them never merge.

use crate::ir::{all_below, BindingKeyView, BindingValue, ExprId};
use crate::syntax::AstPtr;
use vstd::prelude::*;

verus! {

/// What an entry holds so far.
pub enum ValueModel {
    /// Nothing yet.
    Placeholder,
    /// A nested set, still open to further declarations.
    Attrset(SetModel),
    /// A value that nothing can merge into.
    Final(BindingValue),
}

/// One entry of a set under construction.
pub struct EntryModel {
    pub key: BindingKeyView,
    pub name: Option<Seq<char>>,
    /// Where the entry was defined.
    pub def_ptr: AstPtr,
    /// Whether the place of definition was already reported as duplicated.
    pub is_duplicated: bool,
    pub value: ValueModel,
}

/// A set under construction.
pub struct SetModel {
    pub is_rec: bool,
    pub entries: Seq<EntryModel>,
    pub inherit_froms: Seq<ExprId>,
}

/// The position of the first entry at or after `i` that is named `name`, or
/// the number of entries where there is none.
pub open spec fn position_from(entries: Seq<EntryModel>, name: Seq<char>, i: int) -> int
    decreases entries.len() - i,
{
    if i >= entries.len() {
        entries.len() as int
    } else if i >= 0 && entries[i].name == Some(name) {
        i
    } else {
        position_from(entries, name, i + 1)
    }
}

/// The position in `entries` of the entry that `name` finds, or the number
/// of entries where it finds none. Without a name, nothing is found.
pub open spec fn position(entries: Seq<EntryModel>, name: Option<Seq<char>>) -> int {
    match name {
        Some(name) => position_from(entries, name, 0),
        None => entries.len() as int,
    }
}

impl SetModel {
    /// The set without entries.
    pub open spec fn new(is_rec: bool) -> SetModel {
        SetModel { is_rec, entries: Seq::empty(), inherit_froms: Seq::empty() }
    }

    /// This set with `entry` as its last.
    pub open spec fn push(self, entry: EntryModel) -> SetModel {
        SetModel { entries: self.entries.push(entry), ..self }
    }

    /// This set with `entry` in place of the entry at `i`.
    pub open spec fn with_entry(self, i: int, entry: EntryModel) -> SetModel {
        SetModel { entries: self.entries.update(i, entry), ..self }
    }
}

impl EntryModel {
    /// The nested set of this entry; the empty set where it holds none.
    pub open spec fn nested(self) -> SetModel {
        match self.value {
            ValueModel::Attrset(set) => set,
            _ => SetModel::new(false),
        }
    }

    /// This entry with `set` as its nested set.
    pub open spec fn with_nested(self, set: SetModel) -> EntryModel {
        EntryModel { value: ValueModel::Attrset(set), ..self }
    }
}

/// The number of expressions that finishing `entry` adds to the table: one
/// for an entry that holds nothing, none for a final value, and for a nested
/// set one more than for its entries.
pub open spec fn pending_entry(entry: EntryModel) -> nat
    decreases entry, 0nat,
{
    match entry.value {
        ValueModel::Placeholder => 1,
        ValueModel::Final(_) => 0,
        ValueModel::Attrset(set) => 1 + pending_from(set.entries, 0),
    }
}

/// The number of expressions that finishing the entries `entries[i..]` adds
/// to the table.
pub open spec fn pending_from(entries: Seq<EntryModel>, i: int) -> nat
    decreases entries, entries.len() - i,
{
    if 0 <= i < entries.len() {
        pending_entry(entries[i]) + pending_from(entries, i + 1)
    } else {
        0
    }
}

/// The number of expressions that finishing `set` adds to the table.
pub open spec fn pending(set: SetModel) -> nat {
    pending_from(set.entries, 0)
}

/// A new last entry adds what it has pending.
pub proof fn lemma_pending_push(entries: Seq<EntryModel>, entry: EntryModel, i: int)
    requires
        0 <= i <= entries.len(),
    ensures
        pending_from(entries.push(entry), i) == pending_from(entries, i) + pending_entry(entry),
    decreases entries.len() - i,
{
    if i < entries.len() {
        assert(entries.push(entry)[i] == entries[i]);
        lemma_pending_push(entries, entry, i + 1);
    } else {
        assert(entries.push(entry)[i] == entry);
        assert(pending_from(entries.push(entry), i + 1) == 0);
    }
}

/// An entry put in place of another changes the total by the difference of
/// what the two have pending.
pub proof fn lemma_pending_update(entries: Seq<EntryModel>, j: int, entry: EntryModel, i: int)
    requires
        0 <= i <= j < entries.len(),
    ensures
        pending_from(entries.update(j, entry), i) + pending_entry(entries[j]) == pending_from(
            entries,
            i,
        ) + pending_entry(entry),
    decreases entries.len() - i,
{
    if i < j {
        assert(entries.update(j, entry)[i] == entries[i]);
        lemma_pending_update(entries, j, entry, i + 1);
    } else {
        assert(entries.update(j, entry)[j] == entry);
        lemma_pending_same(entries, entries.update(j, entry), j + 1);
    }
}

/// Entries that agree from `i` on have the same pending from `i` on.
pub proof fn lemma_pending_same(a: Seq<EntryModel>, b: Seq<EntryModel>, i: int)
    requires
        0 <= i,
        a.len() == b.len(),
        forall|k: int| i <= k < a.len() ==> a[k] == b[k],
    ensures
        pending_from(a, i) == pending_from(b, i),
    decreases a.len() - i,
{
    if i < a.len() {
        lemma_pending_same(a, b, i + 1);
    }
}

/// Whether `index` files the entries of `entries` that have a name, each at
/// its position, and nothing else. Then no two entries share a name.
pub open spec fn index_matches(index: Map<Seq<char>, usize>, entries: Seq<EntryModel>) -> bool {
    &&& forall|name: Seq<char>| #[trigger]
        index.contains_key(name) ==> index[name] < entries.len() && entries[index[name] as int].name
            == Some(name)
    &&& forall|i: int|
        0 <= i < entries.len() && (#[trigger] entries[i]).name.is_some() ==> index.contains_key(
            entries[i].name.unwrap(),
        ) && index[entries[i].name.unwrap()] == i
}

/// With a matching index, a name finds what the index holds for it.
pub proof fn lemma_index_position(
    index: Map<Seq<char>, usize>,
    entries: Seq<EntryModel>,
    name: Seq<char>,
)
    requires
        index_matches(index, entries),
    ensures
        position(entries, Some(name)) == (if index.contains_key(name) {
            index[name] as int
        } else {
            entries.len() as int
        }),
{
    lemma_position_from_found(entries, name, 0);
    let p = position_from(entries, name, 0);
    if p < entries.len() {
        assert(entries[p].name.is_some());
        assert(index.contains_key(name) && index[name] == p);
    } else if index.contains_key(name) {
        let j = index[name] as int;
        assert(entries[j].name == Some(name));
        assert(false);
    }
}

/// Where `position_from` finds `name`: at `j`, given that no entry from `i`
/// up to `j` has that name and that the entry at `j`, if there is one, has.
pub proof fn lemma_position_from(entries: Seq<EntryModel>, name: Seq<char>, i: int, j: int)
    requires
        0 <= i <= j <= entries.len(),
        forall|k: int| i <= k < j ==> entries[k].name != Some(name),
        j < entries.len() ==> entries[j].name == Some(name),
    ensures
        position_from(entries, name, i) == j,
    decreases j - i,
{
    if i < j {
        lemma_position_from(entries, name, i + 1, j);
    }
}

/// What `position_from` returns is in range, names an entry of that name if
/// it names one at all, and passes over no entry of that name.
pub proof fn lemma_position_from_found(entries: Seq<EntryModel>, name: Seq<char>, i: int)
    requires
        0 <= i <= entries.len(),
    ensures
        i <= position_from(entries, name, i) <= entries.len(),
        position_from(entries, name, i) < entries.len() ==> entries[position_from(
            entries,
            name,
            i,
        )].name == Some(name),
        forall|k: int|
            i <= k < position_from(entries, name, i) ==> (#[trigger] entries[k]).name != Some(name),
    decreases entries.len() - i,
{
    if i < entries.len() && entries[i].name != Some(name) {
        lemma_position_from_found(entries, name, i + 1);
    }
}

impl EntryModel {
    /// Whether this entry is sound below the given bounds: every handle in
    /// it, and in what is nested in it, is below the bound for its table,
    /// and a key that is text is the name of the entry.
    pub open spec fn within(self, exprs: nat, names: nat) -> bool
        decreases self, 0nat,
    {
        &&& self.key.within(exprs, names)
        &&& (self.key matches BindingKeyView::Name(n) ==> self.name == Some(n))
        &&& match self.value {
            ValueModel::Placeholder => true,
            ValueModel::Final(value) => match value {
                BindingValue::InheritFrom(_) => true,
                BindingValue::Inherit(id) => id.0 < exprs,
                BindingValue::Expr(id) => id.0 < exprs,
            },
            ValueModel::Attrset(set) => set.within(exprs, names),
        }
    }

    /// Whether this entry, if it inherits from a source, names one of the
    /// first `froms` sources.
    pub open spec fn source_below(self, froms: nat) -> bool {
        match self.value {
            ValueModel::Final(BindingValue::InheritFrom(i)) => i < froms,
            _ => true,
        }
    }
}

/// Whether no two of `entries` have the same key.
pub open spec fn entry_keys_distinct(entries: Seq<EntryModel>) -> bool {
    forall|i: int, j: int|
        0 <= i < j < entries.len() ==> (#[trigger] entries[i]).key != (#[trigger] entries[j]).key
}

impl SetModel {
    /// Whether this set is sound below the given bounds: every handle in it,
    /// and in what is nested in it, is below the bound for its table, every
    /// inherited name has its source in the list, and no two entries have
    /// the same key, here and in every nested set.
    pub open spec fn within(self, exprs: nat, names: nat) -> bool
        decreases self, 0nat,
    {
        &&& forall|i: int|
            0 <= i < self.entries.len() ==> (#[trigger] self.entries[i]).within(exprs, names)
                && self.entries[i].source_below(self.inherit_froms.len())
        &&& all_below(self.inherit_froms, exprs)
        &&& entry_keys_distinct(self.entries)
    }
}

/// Whether no entry of `entries` has the key `key`.
pub open spec fn is_new_key(entries: Seq<EntryModel>, key: BindingKeyView) -> bool {
    forall|i: int| 0 <= i < entries.len() ==> (#[trigger] entries[i]).key != key
}

/// A key is new to a sound set if it is a handle at or above the bound, or
/// the text of a name that finds nothing.
pub proof fn lemma_new_key(
    set: SetModel,
    key: BindingKeyView,
    name: Option<Seq<char>>,
    exprs: nat,
    names: nat,
)
    requires
        set.within(exprs, names),
        match key {
            BindingKeyView::Dynamic(id) => id.0 >= exprs,
            BindingKeyView::NameDef(id) => id.0 >= names,
            BindingKeyView::Name(n) => name == Some(n) && position(set.entries, name)
                == set.entries.len(),
        },
    ensures
        is_new_key(set.entries, key),
{
    match key {
        BindingKeyView::Name(n) => {
            lemma_position_from_found(set.entries, n, 0);
        },
        _ => {},
    }
}

/// Whether `after` is `before` with, at most, another value and another
/// place of definition: it has the same key, is found by the same name, and
/// inherits from a source only if `before` did so from the same.
pub open spec fn same_entry(before: EntryModel, after: EntryModel) -> bool {
    &&& after.key == before.key
    &&& after.name == before.name
    &&& (after.value matches ValueModel::Final(BindingValue::InheritFrom(_)) ==> after.value
        == before.value)
}

/// Handles of an entry that are below some bounds are below any higher
/// bounds.
pub proof fn lemma_entry_within_grows(
    entry: EntryModel,
    exprs: nat,
    names: nat,
    more_exprs: nat,
    more_names: nat,
)
    requires
        entry.within(exprs, names),
        exprs <= more_exprs,
        names <= more_names,
    ensures
        entry.within(more_exprs, more_names),
    decreases entry, 0nat,
{
    match entry.value {
        ValueModel::Attrset(set) => {
            lemma_set_within_grows(set, exprs, names, more_exprs, more_names);
        },
        _ => {},
    }
}

/// Handles of a set that are below some bounds are below any higher bounds.
pub proof fn lemma_set_within_grows(
    set: SetModel,
    exprs: nat,
    names: nat,
    more_exprs: nat,
    more_names: nat,
)
    requires
        set.within(exprs, names),
        exprs <= more_exprs,
        names <= more_names,
    ensures
        set.within(more_exprs, more_names),
    decreases set, 1nat,
{
    assert forall|i: int| 0 <= i < set.entries.len() implies (#[trigger] set.entries[i]).within(
        more_exprs,
        more_names,
    ) by {
        lemma_entry_within_grows(set.entries[i], exprs, names, more_exprs, more_names);
    }
}

/// A set stays within bounds when an entry within them becomes its last.
pub proof fn lemma_within_push(set: SetModel, entry: EntryModel, exprs: nat, names: nat)
    requires
        set.within(exprs, names),
        entry.within(exprs, names),
        entry.source_below(set.inherit_froms.len()),
        is_new_key(set.entries, entry.key),
    ensures
        set.push(entry).within(exprs, names),
{
    let after = set.push(entry);
    assert forall|i: int| 0 <= i < after.entries.len() implies (#[trigger] after.entries[i]).within(
        exprs,
        names,
    ) && after.entries[i].source_below(after.inherit_froms.len()) by {
        if i < set.entries.len() {
            assert(after.entries[i] == set.entries[i]);
        }
    }
    assert forall|i: int, j: int| 0 <= i < j < after.entries.len() implies (
    #[trigger] after.entries[i]).key != (#[trigger] after.entries[j]).key by {
        assert(after.entries[i] == set.entries[i]);
        if j < set.entries.len() {
            assert(after.entries[j] == set.entries[j]);
        }
    }
}

/// A set stays within bounds, even higher ones, when an entry within them
/// takes the place of another with the same key.
pub proof fn lemma_within_update(
    set: SetModel,
    j: int,
    entry: EntryModel,
    exprs: nat,
    names: nat,
    more_exprs: nat,
    more_names: nat,
)
    requires
        0 <= j < set.entries.len(),
        set.within(exprs, names),
        exprs <= more_exprs,
        names <= more_names,
        entry.within(more_exprs, more_names),
        entry.source_below(set.inherit_froms.len()),
        entry.key == set.entries[j].key,
    ensures
        set.with_entry(j, entry).within(more_exprs, more_names),
{
    let after = set.with_entry(j, entry);
    lemma_set_within_grows(set, exprs, names, more_exprs, more_names);
    assert forall|a: int, b: int| 0 <= a < b < after.entries.len() implies (
    #[trigger] after.entries[a]).key != (#[trigger] after.entries[b]).key by {
        assert(after.entries[a].key == set.entries[a].key);
        assert(after.entries[b].key == set.entries[b].key);
    }
    assert forall|i: int| 0 <= i < after.entries.len() implies (#[trigger] after.entries[i]).within(
        more_exprs,
        more_names,
    ) && after.entries[i].source_below(after.inherit_froms.len()) by {
        if i != j {
            assert(after.entries[i] == set.entries[i]);
        }
    }
}

} // verus!
