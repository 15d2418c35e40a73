//! Laws of merging, proved of the functions in `semantics`.

use crate::base::TextRange;
use crate::diagnostic::{Diagnostic, DiagnosticKind};
use crate::merge_model::{
    lemma_position_from, lemma_position_from_found, position, position_from, EntryModel, SetModel,
};
use crate::semantics::{
    attr_name, dynamic_name, emit_duplicated_key, entry_for, lower_dynamic_key, lower_key,
    lower_string_key, merge_ast, merge_binding, merge_bindings, merge_inherit_attr,
    merge_into_entry, merge_path_from, merge_path_value, merge_terminal, string_name,
};
use crate::state::LowerState;
use crate::syntax::{AstPtr, Attr, Binding, ExprChild, StringNode, SyntaxExpr};
use vstd::prelude::*;

verus! {

/// Whether the right-hand side `e` of a declaration is there and is a
/// terminal value: under any number of parentheses, anything but a set
/// literal that merging folds in.
pub open spec fn is_terminal(e: ExprChild) -> bool
    decreases e,
{
    match e {
        Some(b) => match *b {
            SyntaxExpr::Paren { expr, .. } => is_terminal(expr),
            SyntaxExpr::AttrSet(node) => node.let_token,
            _ => true,
        },
        None => false,
    }
}

/// The report of a duplicated key at `range`.
pub open spec fn duplicated_at(range: TextRange) -> Diagnostic {
    Diagnostic { range, kind: DiagnosticKind::DuplicatedKey }
}

/// Whether `binding` declares `name = value;`: its path is the one segment
/// `name`, statically known, and its value is terminal.
pub open spec fn declares_value(binding: Binding, name: Seq<char>) -> bool {
    &&& binding matches Binding::AttrpathValue(node)
    &&& node.attrpath@.len() == 1
    &&& attr_name(node.attrpath@[0]) == Some(name)
    &&& is_terminal(node.value)
}

/// The span of the key of a declaration `name = value;`.
pub open spec fn key_range(binding: Binding) -> TextRange {
    match binding {
        Binding::AttrpathValue(node) => node.attrpath@[0].ptr().range,
        Binding::Inherit(_) => arbitrary(),
    }
}

/// What conflicting declarations report: first the place where the entry was
/// defined, then the key of each declaration, in order.
pub open spec fn duplicate_reports(defined_at: TextRange, decls: Seq<Binding>) -> Seq<Diagnostic> {
    seq![duplicated_at(defined_at)] + Seq::new(
        decls.len(),
        |i: int| duplicated_at(key_range(decls[i])),
    )
}

/// The entry `entry`, marked as reported.
pub open spec fn reported(entry: EntryModel) -> EntryModel {
    EntryModel { is_duplicated: true, ..entry }
}

/// Resolving a string key that is static changes nothing but, in a
/// recursive set, the table of name definitions.
proof fn lemma_string_key_static(st: LowerState, is_rec: bool, node: StringNode)
    requires
        string_name(node).is_some(),
    ensures
        !(lower_string_key(st, is_rec, node).1 is Dynamic),
        lower_string_key(st, is_rec, node).0.exprs == st.exprs,
        lower_string_key(st, is_rec, node).0.diagnostics == st.diagnostics,
{
}

/// Resolving an interpolated key that is static changes nothing but, in a
/// recursive set, the table of name definitions.
proof fn lemma_dynamic_key_static(st: LowerState, is_rec: bool, e: ExprChild)
    requires
        dynamic_name(e).is_some(),
    ensures
        !(lower_dynamic_key(st, is_rec, e).1 is Dynamic),
        lower_dynamic_key(st, is_rec, e).0.exprs == st.exprs,
        lower_dynamic_key(st, is_rec, e).0.diagnostics == st.diagnostics,
    decreases e,
{
    match e {
        Some(b) => match *b {
            SyntaxExpr::Paren { expr, .. } => {
                lemma_dynamic_key_static(st, is_rec, expr);
            },
            SyntaxExpr::String(node) => {
                lemma_string_key_static(st, is_rec, node);
            },
            _ => {},
        },
        None => {},
    }
}

/// Resolving a key that is static adds no expression and reports nothing.
pub proof fn lemma_lower_key_static(st: LowerState, is_rec: bool, attr: Attr)
    requires
        attr_name(attr).is_some(),
    ensures
        !(lower_key(st, is_rec, attr).1 is Dynamic),
        lower_key(st, is_rec, attr).0.exprs == st.exprs,
        lower_key(st, is_rec, attr).0.diagnostics == st.diagnostics,
{
    match attr {
        Attr::Name(_) => {},
        Attr::String(s) => {
            lemma_string_key_static(st, is_rec, s);
        },
        Attr::Dynamic(d) => {
            lemma_dynamic_key_static(st, is_rec, d.expr);
        },
    }
}

/// A terminal value that meets an entry which already holds something is a
/// conflict and nothing else: the value is not even lowered.
pub proof fn lemma_merge_ast_conflict(st: LowerState, entry: EntryModel, ptr: AstPtr, e: ExprChild)
    requires
        is_terminal(e),
        !(entry.value is Placeholder),
    ensures
        merge_ast(st, entry, ptr, e) == emit_duplicated_key(st, entry, ptr),
    decreases e,
{
    match e {
        Some(b) => match *b {
            SyntaxExpr::Paren { expr, .. } => {
                lemma_merge_ast_conflict(st, entry, ptr, expr);
            },
            _ => {
                assert(merge_terminal(st, entry, ptr, e) == emit_duplicated_key(st, entry, ptr));
            },
        },
        None => {},
    }
}

/// One declaration `name = value;` that meets an entry for `name` which
/// already holds something: it reports the entry, unless that was reported,
/// and itself; it marks the entry as reported; and it changes nothing else
/// in the set, and no expression.
pub proof fn lemma_conflict(
    st: LowerState,
    set: SetModel,
    binding: Binding,
    name: Seq<char>,
    allow_dynamic: bool,
)
    requires
        declares_value(binding, name),
        position(set.entries, Some(name)) < set.entries.len(),
        !(set.entries[position(set.entries, Some(name))].value is Placeholder),
    ensures
        ({
            let j = position(set.entries, Some(name));
            let entry = set.entries[j];
            let r = merge_binding(st, set, binding, allow_dynamic);
            &&& r.1 == set.with_entry(j, reported(entry))
            &&& r.0.exprs == st.exprs
            &&& r.0.diagnostics == st.diagnostics + (if entry.is_duplicated {
                Seq::<Diagnostic>::empty()
            } else {
                seq![duplicated_at(entry.def_ptr.range)]
            }) + seq![duplicated_at(key_range(binding))]
        }),
{
    let node = binding->AttrpathValue_0;
    let attr = node.attrpath@[0];
    let j = position(set.entries, Some(name));
    let entry = set.entries[j];
    lemma_lower_key_static(st, set.is_rec, attr);
    lemma_position_from_found(set.entries, name, 0);
    let (s1, set1, j1) = entry_for(st, set, attr, allow_dynamic);
    assert(j1 == j);
    assert(set1 == set);
    assert(s1.diagnostics == st.diagnostics);
    lemma_merge_ast_conflict(s1, entry, attr.ptr(), node.value);
    let (s2, e2) = emit_duplicated_key(s1, entry, attr.ptr());
    assert(merge_into_entry(s1, entry, node, 0, allow_dynamic) == (s2, e2));
    assert(merge_path_from(st, set, node, 0, allow_dynamic) == (s2, set.with_entry(j, e2)));
    assert(merge_path_value(st, set, node, allow_dynamic) == (s2, set.with_entry(j, e2)));
    if entry.is_duplicated {
        assert(s2.diagnostics =~= st.diagnostics + Seq::<Diagnostic>::empty() + seq![
            duplicated_at(key_range(binding)),
        ]);
    } else {
        assert(s2.diagnostics =~= st.diagnostics + seq![duplicated_at(entry.def_ptr.range)] + seq![
            duplicated_at(key_range(binding)),
        ]);
    }
}

/// Marking an entry as reported keeps every name where it is.
proof fn lemma_position_reported(entries: Seq<EntryModel>, j: int, name: Seq<char>, i: int)
    requires
        0 <= j < entries.len(),
        0 <= i,
    ensures
        position_from(entries.update(j, reported(entries[j])), name, i) == position_from(
            entries,
            name,
            i,
        ),
    decreases entries.len() - i,
{
    if i < entries.len() {
        lemma_position_reported(entries, j, name, i + 1);
    }
}

/// The declarations `decls[i..]`, each a conflict with the entry for `name`,
/// report that entry once, unless it was reported, and then each its own
/// key, in order.
proof fn lemma_conflicts_from(
    st: LowerState,
    set: SetModel,
    decls: Seq<Binding>,
    name: Seq<char>,
    allow_dynamic: bool,
    i: int,
)
    requires
        0 <= i <= decls.len(),
        forall|k: int| 0 <= k < decls.len() ==> declares_value(#[trigger] decls[k], name),
        position(set.entries, Some(name)) < set.entries.len(),
        !(set.entries[position(set.entries, Some(name))].value is Placeholder),
        i < decls.len() || set.entries[position(set.entries, Some(name))].is_duplicated,
    ensures
        ({
            let j = position(set.entries, Some(name));
            let entry = set.entries[j];
            let r = merge_bindings(st, set, decls, i, allow_dynamic);
            &&& r.1 == set.with_entry(j, reported(entry))
            &&& r.0.exprs == st.exprs
            &&& r.0.diagnostics == st.diagnostics + (if entry.is_duplicated {
                Seq::<Diagnostic>::empty()
            } else {
                seq![duplicated_at(entry.def_ptr.range)]
            }) + Seq::new(
                (decls.len() - i) as nat,
                |k: int| duplicated_at(key_range(decls[i + k])),
            )
        }),
    decreases decls.len() - i,
{
    let j = position(set.entries, Some(name));
    let entry = set.entries[j];
    let rest = Seq::new((decls.len() - i) as nat, |k: int| duplicated_at(key_range(decls[i + k])));
    lemma_position_from_found(set.entries, name, 0);
    if i < decls.len() {
        lemma_conflict(st, set, decls[i], name, allow_dynamic);
        let (s1, set1) = merge_binding(st, set, decls[i], allow_dynamic);
        lemma_position_reported(set.entries, j, name, 0);
        assert(set1.entries[j] == reported(entry));
        lemma_conflicts_from(s1, set1, decls, name, allow_dynamic, i + 1);
        let r = merge_bindings(s1, set1, decls, i + 1, allow_dynamic);
        assert(r == merge_bindings(st, set, decls, i, allow_dynamic));
        assert(r.1.entries =~= set.with_entry(j, reported(entry)).entries);
        let tail = Seq::new(
            (decls.len() - (i + 1)) as nat,
            |k: int| duplicated_at(key_range(decls[i + 1 + k])),
        );
        assert(rest =~= seq![duplicated_at(key_range(decls[i]))] + tail);
        let head = if entry.is_duplicated {
            Seq::<Diagnostic>::empty()
        } else {
            seq![duplicated_at(entry.def_ptr.range)]
        };
        assert(r.0.diagnostics =~= st.diagnostics + head + rest);
    } else {
        assert(rest =~= Seq::<Diagnostic>::empty());
        assert(set.with_entry(j, reported(entry)).entries =~= set.entries);
        assert(st.diagnostics + Seq::<Diagnostic>::empty() + rest =~= st.diagnostics);
    }
}

/// Duplicates are reported once each, and the first definition once in all.
///
/// Let a set hold an entry for `name` that has a value and was not yet
/// reported, and let `decls` be one or more declarations `name = value;` with
/// terminal values. Merging them, in a set that is recursive or not, adds
/// exactly one report for the place where the entry was defined, followed by
/// one for the key of each declaration, in order: counting the declaration
/// that defined the entry, that is as many reports as there are
/// declarations. None of
/// the values is lowered, and the set changes only in that the entry is
/// marked as reported.
pub proof fn law_duplicates_reported_once(
    st: LowerState,
    set: SetModel,
    decls: Seq<Binding>,
    name: Seq<char>,
    allow_dynamic: bool,
)
    requires
        decls.len() >= 1,
        forall|k: int| 0 <= k < decls.len() ==> declares_value(#[trigger] decls[k], name),
        position(set.entries, Some(name)) < set.entries.len(),
        !(set.entries[position(set.entries, Some(name))].value is Placeholder),
        !set.entries[position(set.entries, Some(name))].is_duplicated,
    ensures
        ({
            let j = position(set.entries, Some(name));
            let r = merge_bindings(st, set, decls, 0, allow_dynamic);
            &&& r.0.diagnostics == st.diagnostics + duplicate_reports(
                set.entries[j].def_ptr.range,
                decls,
            )
            &&& duplicate_reports(set.entries[j].def_ptr.range, decls).len() == decls.len() + 1
            &&& r.0.exprs == st.exprs
            &&& r.1 == set.with_entry(j, reported(set.entries[j]))
        }),
{
    lemma_conflicts_from(st, set, decls, name, allow_dynamic, 0);
    let j = position(set.entries, Some(name));
    let r = merge_bindings(st, set, decls, 0, allow_dynamic);
    let rest = Seq::new(decls.len(), |k: int| duplicated_at(key_range(decls[0 + k])));
    assert(rest =~= Seq::new(decls.len(), |k: int| duplicated_at(key_range(decls[k]))));
    assert(st.diagnostics + seq![duplicated_at(set.entries[j].def_ptr.range)] + rest
        =~= st.diagnostics + duplicate_reports(set.entries[j].def_ptr.range, decls));
}

/// Whether `binding` declares `name = ..;`: its path is the one segment
/// `name`, statically known. Its value may be anything.
pub open spec fn declares(binding: Binding, name: Seq<char>) -> bool {
    &&& binding matches Binding::AttrpathValue(node)
    &&& node.attrpath@.len() == 1
    &&& attr_name(node.attrpath@[0]) == Some(name)
}

/// A right-hand side merged into an entry that holds nothing gives it a
/// value, and neither reports the entry nor moves it.
pub proof fn lemma_merge_ast_fresh(st: LowerState, entry: EntryModel, ptr: AstPtr, e: ExprChild)
    requires
        entry.value is Placeholder,
    ensures
        !(merge_ast(st, entry, ptr, e).1.value is Placeholder),
        merge_ast(st, entry, ptr, e).1.is_duplicated == entry.is_duplicated,
        merge_ast(st, entry, ptr, e).1.def_ptr == entry.def_ptr,
        merge_ast(st, entry, ptr, e).1.name == entry.name,
    decreases e,
{
    match e {
        Some(b) => match *b {
            SyntaxExpr::Paren { expr, .. } => {
                lemma_merge_ast_fresh(st, entry, ptr, expr);
            },
            _ => {
                assert(!(merge_terminal(st, entry, ptr, e).1.value is Placeholder));
            },
        },
        None => {
            assert(!(merge_terminal(st, entry, ptr, e).1.value is Placeholder));
        },
    }
}

/// The first declaration of a name adds an entry for it as the last of the
/// set: one with a value, not reported, and defined at the key of the
/// declaration.
pub proof fn lemma_definition(
    st: LowerState,
    set: SetModel,
    binding: Binding,
    name: Seq<char>,
    allow_dynamic: bool,
)
    requires
        declares(binding, name),
        position(set.entries, Some(name)) == set.entries.len(),
    ensures
        ({
            let r = merge_binding(st, set, binding, allow_dynamic);
            let j = set.entries.len() as int;
            &&& r.1.entries.len() == set.entries.len() + 1
            &&& position(r.1.entries, Some(name)) == j
            &&& !(r.1.entries[j].value is Placeholder)
            &&& !r.1.entries[j].is_duplicated
            &&& r.1.entries[j].def_ptr.range == key_range(binding)
        }),
{
    let node = binding->AttrpathValue_0;
    let attr = node.attrpath@[0];
    let j = set.entries.len() as int;
    lemma_position_from_found(set.entries, name, 0);
    let (s1, set1, j1) = entry_for(st, set, attr, allow_dynamic);
    assert(j1 == j);
    lemma_merge_ast_fresh(s1, set1.entries[j], attr.ptr(), node.value);
    let (s2, e2) = merge_ast(s1, set1.entries[j], attr.ptr(), node.value);
    assert(merge_into_entry(s1, set1.entries[j], node, 0, allow_dynamic) == (s2, e2));
    assert(merge_path_from(st, set, node, 0, allow_dynamic) == (s2, set1.with_entry(j, e2)));
    let after = set1.with_entry(j, e2).entries;
    assert forall|k: int| 0 <= k < j implies after[k].name != Some(name) by {
        assert(after[k] == set.entries[k]);
    }
    lemma_position_from(after, name, 0, j);
}

/// N declarations of one name give N reports, the first of them once.
///
/// Let `name` be absent from a set, let `first` declare it with any value,
/// and let `rest` be one or more further declarations `name = value;` with
/// terminal values. Merging `first` and then `rest` adds, after whatever
/// merging `first` itself reports, exactly one report at the key of `first`
/// and then one at the key of each declaration of `rest`, in order: as many
/// reports as there are declarations.
pub proof fn law_redefinitions_reported(
    st: LowerState,
    set: SetModel,
    first: Binding,
    rest: Seq<Binding>,
    name: Seq<char>,
    allow_dynamic: bool,
)
    requires
        declares(first, name),
        position(set.entries, Some(name)) == set.entries.len(),
        rest.len() >= 1,
        forall|k: int| 0 <= k < rest.len() ==> declares_value(#[trigger] rest[k], name),
    ensures
        ({
            let defined = merge_binding(st, set, first, allow_dynamic);
            let r = merge_bindings(defined.0, defined.1, rest, 0, allow_dynamic);
            &&& r.0.diagnostics == defined.0.diagnostics + duplicate_reports(key_range(first), rest)
            &&& duplicate_reports(key_range(first), rest).len() == rest.len() + 1
            &&& r.0.exprs == defined.0.exprs
        }),
{
    lemma_definition(st, set, first, name, allow_dynamic);
    let defined = merge_binding(st, set, first, allow_dynamic);
    law_duplicates_reported_once(defined.0, defined.1, rest, name, allow_dynamic);
}

/// The reports among `reports` that are at `range`.
pub open spec fn reports_at(reports: Seq<Diagnostic>, range: TextRange) -> Seq<Diagnostic> {
    reports.filter(|d: Diagnostic| d.range == range)
}

/// The place of the first definition is reported exactly once.
///
/// Among the reports of conflicting declarations, exactly one is at the
/// place where the entry was defined, however many declarations conflict
/// with it, as long as none of them has its key at that very place.
pub proof fn law_first_definition_reported_once(defined_at: TextRange, decls: Seq<Binding>)
    requires
        forall|k: int| 0 <= k < decls.len() ==> key_range(#[trigger] decls[k]) != defined_at,
    ensures
        reports_at(duplicate_reports(defined_at, decls), defined_at).len() == 1,
{
    let at = |d: Diagnostic| d.range == defined_at;
    let first = seq![duplicated_at(defined_at)];
    let rest = Seq::new(decls.len(), |i: int| duplicated_at(key_range(decls[i])));
    Seq::filter_distributes_over_add(first, rest, at);
    assert(rest.all(|d: Diagnostic| !at(d))) by {
        assert forall|i: int| 0 <= i < rest.len() implies !at(#[trigger] rest[i]) by {
            assert(rest[i].range == key_range(decls[i]));
        }
    }
    rest.lemma_all_neg_filter_empty(at);
    assert(first.filter(at).len() == 1) by {
        reveal(Seq::filter);
        assert(first.drop_last() =~= Seq::<Diagnostic>::empty());
        assert(first.drop_last().filter(at) =~= Seq::<Diagnostic>::empty());
        assert(first.filter(at) =~= first);
    }
}

/// A dynamic key never merges.
///
/// A segment without a statically known name finds no entry, whatever the
/// set holds: it always gets an entry of its own, the last of the set, and
/// leaves every other entry as it was.
pub proof fn law_dynamic_key_never_merges(
    st: LowerState,
    set: SetModel,
    attr: Attr,
    allow_dynamic: bool,
)
    requires
        attr_name(attr).is_none(),
    ensures
        entry_for(st, set, attr, allow_dynamic).2 == set.entries.len(),
        entry_for(st, set, attr, allow_dynamic).1.entries.len() == set.entries.len() + 1,
        entry_for(st, set, attr, allow_dynamic).1.entries.take(set.entries.len() as int)
            == set.entries,
        entry_for(st, set, attr, allow_dynamic).1.entries.last().value is Placeholder,
{
    let after = entry_for(st, set, attr, allow_dynamic).1;
    assert(after.entries.take(set.entries.len() as int) =~= set.entries);
}

/// Resolving a string key with an interpolation gives a dynamic key.
proof fn lemma_string_key_dynamic(st: LowerState, is_rec: bool, node: StringNode)
    requires
        string_name(node).is_none(),
    ensures
        lower_string_key(st, is_rec, node).1 is Dynamic,
{
}

/// Resolving an interpolated key that is not a plain string gives a dynamic
/// key.
proof fn lemma_dynamic_key_dynamic(st: LowerState, is_rec: bool, e: ExprChild)
    requires
        dynamic_name(e).is_none(),
    ensures
        lower_dynamic_key(st, is_rec, e).1 is Dynamic,
    decreases e,
{
    match e {
        Some(b) => match *b {
            SyntaxExpr::Paren { expr, .. } => {
                lemma_dynamic_key_dynamic(st, is_rec, expr);
            },
            SyntaxExpr::String(node) => {
                lemma_string_key_dynamic(st, is_rec, node);
            },
            _ => {},
        },
        None => {},
    }
}

/// A segment has no statically known name exactly when it resolves to a
/// dynamic key.
pub proof fn lemma_lower_key_dynamic(st: LowerState, is_rec: bool, attr: Attr)
    ensures
        attr_name(attr).is_none() <==> lower_key(st, is_rec, attr).1 is Dynamic,
{
    if attr_name(attr).is_some() {
        lemma_lower_key_static(st, is_rec, attr);
    } else {
        match attr {
            Attr::Name(_) => {},
            Attr::String(s) => {
                lemma_string_key_dynamic(st, is_rec, s);
            },
            Attr::Dynamic(d) => {
                lemma_dynamic_key_dynamic(st, is_rec, d.expr);
            },
        }
    }
}

/// An inherited name never merges.
///
/// An inherited name that finds an entry, of whatever kind, is a conflict:
/// the entry is reported, unless it was already, and so is the name; the
/// entry is marked as reported, and nothing else changes in the set, nor is
/// any expression added.
pub proof fn law_inherit_never_merges(
    st: LowerState,
    set: SetModel,
    attr: Attr,
    from: Option<nat>,
    name: Seq<char>,
)
    requires
        attr_name(attr) == Some(name),
        position(set.entries, Some(name)) < set.entries.len(),
    ensures
        ({
            let j = position(set.entries, Some(name));
            let entry = set.entries[j];
            let r = merge_inherit_attr(st, set, attr, from);
            &&& r.1 == set.with_entry(j, reported(entry))
            &&& r.0.exprs == st.exprs
            &&& r.0.diagnostics == st.diagnostics + (if entry.is_duplicated {
                Seq::<Diagnostic>::empty()
            } else {
                seq![duplicated_at(entry.def_ptr.range)]
            }) + seq![duplicated_at(attr.ptr().range)]
        }),
{
    let j = position(set.entries, Some(name));
    let entry = set.entries[j];
    lemma_lower_key_static(st, set.is_rec, attr);
    let (s1, key) = lower_key(st, set.is_rec, attr);
    let (s2, e2) = emit_duplicated_key(s1, entry, attr.ptr());
    assert(merge_inherit_attr(st, set, attr, from) == (s2, set.with_entry(j, e2)));
    if entry.is_duplicated {
        assert(s2.diagnostics =~= st.diagnostics + Seq::<Diagnostic>::empty() + seq![
            duplicated_at(attr.ptr().range),
        ]);
    } else {
        assert(s2.diagnostics =~= st.diagnostics + seq![duplicated_at(entry.def_ptr.range)] + seq![
            duplicated_at(attr.ptr().range),
        ]);
    }
}

/// A dynamic key cannot be inherited.
///
/// An inherited segment without a statically known name is reported as an
/// invalid dynamic key at its own place, after whatever lowering it
/// reports, and what it encloses is kept in an entry of its own, the last of
/// the set, which no name finds.
pub proof fn law_inherit_rejects_dynamic(
    st: LowerState,
    set: SetModel,
    attr: Attr,
    from: Option<nat>,
)
    requires
        attr_name(attr).is_none(),
    ensures
        ({
            let r = merge_inherit_attr(st, set, attr, from);
            let resolved = lower_key(st, set.is_rec, attr).0;
            &&& r.0.diagnostics == resolved.diagnostics.push(
                Diagnostic { range: attr.ptr().range, kind: DiagnosticKind::InvalidDynamic },
            )
            &&& r.1.entries.len() == set.entries.len() + 1
            &&& r.1.entries.take(set.entries.len() as int) == set.entries
            &&& r.1.entries.last().name.is_none()
        }),
{
    lemma_lower_key_dynamic(st, set.is_rec, attr);
    let r = merge_inherit_attr(st, set, attr, from);
    assert(r.1.entries.take(set.entries.len() as int) =~= set.entries);
}

} // verus!
