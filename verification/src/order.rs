//! The order of declarations does not matter to the structure that they
//! build, as long as their paths do not overlap.
//!
//! The structure of a set is what stands at each path of names: a nested set
//! or a value. Handles and the order of entries are not part of it; they do
//! depend on the order of the declarations.

use crate::laws::lemma_lower_key_static;
use crate::merge_model::{
    lemma_position_from_found, position, position_from, EntryModel, SetModel, ValueModel,
};
use crate::semantics::{
    attr_name, entry_for, make_attrset, merge_ast, merge_binding, merge_bindings,
    merge_into_entry, merge_path_from, merge_terminal,
};
use crate::state::LowerState;
use crate::syntax::{AstPtr, Attr, AttrpathValueNode, Binding, ExprChild, SyntaxExpr};
use vstd::prelude::*;

verus! {

/// What stands at a path in a set.
pub enum Shape {
    /// A nested set, open to further declarations.
    Nested,
    /// A value.
    Value,
}

/// What an entry is to the structure of its set.
pub open spec fn entry_shape(entry: EntryModel) -> Shape {
    match entry.value {
        ValueModel::Attrset(_) => Shape::Nested,
        _ => Shape::Value,
    }
}

/// What stands in `set` at the path `path` of names, if anything does.
pub open spec fn shape_at(set: SetModel, path: Seq<Seq<char>>) -> Option<Shape>
    decreases path.len(),
{
    if path.len() == 0 {
        None
    } else {
        let j = position(set.entries, Some(path[0]));
        if j >= set.entries.len() {
            None
        } else if path.len() == 1 {
            Some(entry_shape(set.entries[j]))
        } else {
            match set.entries[j].value {
                ValueModel::Attrset(inner) => shape_at(inner, path.skip(1)),
                _ => None,
            }
        }
    }
}

/// Whether `q` is a beginning of `p`, and shorter.
pub open spec fn is_proper_prefix(q: Seq<Seq<char>>, p: Seq<Seq<char>>) -> bool {
    &&& q.len() < p.len()
    &&& q == p.take(q.len() as int)
}

/// Whether two paths overlap: they are the same, or one begins with the
/// other.
pub open spec fn overlap(p: Seq<Seq<char>>, q: Seq<Seq<char>>) -> bool {
    p == q || is_proper_prefix(p, q) || is_proper_prefix(q, p)
}

/// Whether the path `p` is free in `set`: nothing stands at it, and no value
/// stands in its way. Then a declaration of `p` merges without conflict.
pub open spec fn is_free(set: SetModel, p: Seq<Seq<char>>) -> bool {
    &&& shape_at(set, p).is_none()
    &&& forall|n: int|
        1 <= n < p.len() ==> shape_at(set, #[trigger] p.take(n)) != Some(Shape::Value)
}

/// What stands at `q` once a value is declared at the free path `p` of `set`:
/// nested sets along `p`, the value at `p`, and elsewhere what stood there.
pub open spec fn shape_with(set: SetModel, p: Seq<Seq<char>>, q: Seq<Seq<char>>) -> Option<Shape> {
    if is_proper_prefix(q, p) && q.len() >= 1 {
        Some(Shape::Nested)
    } else if q == p {
        Some(Shape::Value)
    } else {
        shape_at(set, q)
    }
}

/// Whether every segment of a path has a statically known name.
pub open spec fn is_static_path(attrs: Seq<Attr>) -> bool {
    &&& attrs.len() >= 1
    &&& forall|i: int| 0 <= i < attrs.len() ==> attr_name(#[trigger] attrs[i]).is_some()
}

/// The names of the segments `attrs[i..]` of a static path.
pub open spec fn path_names(attrs: Seq<Attr>, i: int) -> Seq<Seq<char>> {
    Seq::new((attrs.len() - i) as nat, |k: int| attr_name(attrs[i + k]).unwrap())
}

/// Whether the right-hand side `e` is a plain value: under any number of
/// parentheses, anything but a set literal that merging folds in. An absent
/// right-hand side is a plain value too.
pub open spec fn is_plain(e: ExprChild) -> bool
    decreases e,
{
    match e {
        Some(b) => match *b {
            SyntaxExpr::Paren { expr, .. } => is_plain(expr),
            SyntaxExpr::AttrSet(node) => node.let_token,
            _ => true,
        },
        None => true,
    }
}

/// Whether `binding` declares a plain value at a static path.
pub open spec fn is_plain_declaration(binding: Binding) -> bool {
    &&& binding matches Binding::AttrpathValue(node)
    &&& is_static_path(node.attrpath@)
    &&& is_plain(node.value)
}

/// The path of a declaration of a value, as names.
pub open spec fn declared_path(binding: Binding) -> Seq<Seq<char>> {
    match binding {
        Binding::AttrpathValue(node) => path_names(node.attrpath@, 0),
        Binding::Inherit(_) => Seq::empty(),
    }
}

/// A plain value merged into an entry that holds nothing makes it a value.
proof fn lemma_merge_ast_plain(st: LowerState, entry: EntryModel, ptr: AstPtr, e: ExprChild)
    requires
        entry.value is Placeholder,
        is_plain(e),
    ensures
        merge_ast(st, entry, ptr, e).1.value is Final,
        merge_ast(st, entry, ptr, e).1.name == entry.name,
    decreases e,
{
    match e {
        Some(b) => match *b {
            SyntaxExpr::Paren { expr, .. } => {
                lemma_merge_ast_plain(st, entry, ptr, expr);
            },
            _ => {
                assert(merge_terminal(st, entry, ptr, e).1.value is Final);
            },
        },
        None => {
            assert(merge_terminal(st, entry, ptr, e).1.value is Final);
        },
    }
}

/// Entries with the same names at the same places are searched alike.
proof fn lemma_position_same_names(a: Seq<EntryModel>, b: Seq<EntryModel>, name: Seq<char>, i: int)
    requires
        0 <= i,
        a.len() == b.len(),
        forall|k: int| 0 <= k < a.len() ==> a[k].name == b[k].name,
    ensures
        position_from(a, name, i) == position_from(b, name, i),
    decreases a.len() - i,
{
    if i < a.len() {
        lemma_position_same_names(a, b, name, i + 1);
    }
}

/// A new last entry is found by its own name, if no entry had that name, and
/// leaves every other name where it was: found at the same place, or not at
/// all.
proof fn lemma_position_push(entries: Seq<EntryModel>, entry: EntryModel, name: Seq<char>, i: int)
    requires
        0 <= i <= entries.len(),
    ensures
        position_from(entries.push(entry), name, i) == (if position_from(entries, name, i)
            < entries.len() {
            position_from(entries, name, i)
        } else if entry.name == Some(name) {
            entries.len() as int
        } else {
            entries.len() as int + 1
        }),
    decreases entries.len() - i,
{
    let pushed = entries.push(entry);
    if i < entries.len() {
        assert(pushed[i] == entries[i]);
        lemma_position_push(entries, entry, name, i + 1);
    } else {
        assert(pushed[i] == entry);
        assert(position_from(pushed, name, i + 1) == pushed.len());
    }
}

/// Nothing stands at any path in a set without entries.
proof fn lemma_shape_at_empty(is_rec: bool, q: Seq<Seq<char>>)
    ensures
        shape_at(SetModel::new(is_rec), q).is_none(),
{
}

/// What a declaration of a plain value at a free static path does to the
/// structure of a set, from segment `i` of the path on.
proof fn lemma_merge_path_shape(
    st: LowerState,
    set: SetModel,
    node: AttrpathValueNode,
    i: int,
    allow_dynamic: bool,
    q: Seq<Seq<char>>,
)
    requires
        0 <= i < node.attrpath@.len(),
        is_static_path(node.attrpath@),
        is_plain(node.value),
        is_free(set, path_names(node.attrpath@, i)),
    ensures
        shape_at(merge_path_from(st, set, node, i, allow_dynamic).1, q) == shape_with(
            set,
            path_names(node.attrpath@, i),
            q,
        ),
    decreases node.attrpath@.len() - i,
{
    let attrs = node.attrpath@;
    let p = path_names(attrs, i);
    let attr = attrs[i];
    let name = attr_name(attr).unwrap();
    assert(p[0] == name);
    let ptr = attr.ptr();
    lemma_lower_key_static(st, set.is_rec, attr);
    lemma_position_from_found(set.entries, name, 0);
    let (s1, set1, j) = entry_for(st, set, attr, allow_dynamic);
    let was_there = j < set.entries.len();
    if !was_there {
        lemma_position_push(set.entries, set1.entries[j], name, 0);
    }
    assert(set1.entries[j].name == Some(name));
    let result = merge_path_from(st, set, node, i, allow_dynamic).1;
    if i + 1 < attrs.len() {
        let rest = path_names(attrs, i + 1);
        assert(rest =~= p.skip(1));
        // The entry is absent or a nested set: no value stands in the way.
        assert(p.take(1) =~= seq![name]);
        assert(shape_at(set, p.take(1)) != Some(Shape::Value));
        let (s2, e1) = make_attrset(s1, set1.entries[j], false, ptr);
        let inner0 = e1.nested();
        assert(e1.name == Some(name));
        // The rest of the path is free in the nested set.
        assert(is_free(inner0, rest)) by {
            if was_there {
                assert(set.entries[j].value == ValueModel::Attrset(inner0));
                assert(shape_at(inner0, rest) == shape_at(set, p));
                assert forall|n: int| 1 <= n < rest.len() implies shape_at(
                    inner0,
                    #[trigger] rest.take(n),
                ) != Some(Shape::Value) by {
                    assert(p.take(n + 1).skip(1) =~= rest.take(n));
                    assert(p.take(n + 1)[0] == name);
                    assert(shape_at(set, p.take(n + 1)) == shape_at(inner0, rest.take(n)));
                }
            } else {
                lemma_shape_at_empty(false, rest);
                assert forall|n: int| 1 <= n < rest.len() implies shape_at(
                    inner0,
                    #[trigger] rest.take(n),
                ) != Some(Shape::Value) by {
                    lemma_shape_at_empty(false, rest.take(n));
                }
            }
        }
        let (s3, inner) = merge_path_from(s2, inner0, node, i + 1, allow_dynamic);
        let e2 = e1.with_nested(inner);
        assert(merge_into_entry(s1, set1.entries[j], node, i, allow_dynamic) == (s3, e2));
        assert(result == set1.with_entry(j, e2));
        lemma_position_same_names(set1.entries, result.entries, if q.len() > 0 {
            q[0]
        } else {
            name
        }, 0);
        if q.len() >= 1 && q[0] == name {
            assert(position(result.entries, Some(q[0])) == j);
            if q.len() == 1 {
                assert(q =~= p.take(1));
            } else {
                lemma_merge_path_shape(s2, inner0, node, i + 1, allow_dynamic, q.skip(1));
                assert(shape_at(result, q) == shape_at(inner, q.skip(1)));
                // Relate the paths below the first name.
                if is_proper_prefix(q.skip(1), rest) {
                    assert(q =~= p.take(q.len() as int)) by {
                        assert(q.skip(1) == rest.take(q.len() - 1));
                        assert forall|k: int| 0 <= k < q.len() implies q[k] == p.take(
                            q.len() as int,
                        )[k] by {
                            if k > 0 {
                                assert(q[k] == q.skip(1)[k - 1]);
                                assert(rest.take(q.len() - 1)[k - 1] == rest[k - 1]);
                            }
                        }
                    }
                } else if q.skip(1) == rest {
                    assert(q =~= p) by {
                        assert(q.len() == p.len());
                        assert forall|k: int| 0 <= k < q.len() implies q[k] == p[k] by {
                            if k > 0 {
                                assert(q[k] == q.skip(1)[k - 1]);
                                assert(p[k] == p.skip(1)[k - 1]);
                            }
                        }
                    }
                } else {
                    if is_proper_prefix(q, p) {
                        assert(q.skip(1) =~= rest.take(q.len() - 1));
                        assert(false);
                    }
                    if q == p {
                        assert(false);
                    }
                    if was_there {
                        assert(shape_at(set, q) == shape_at(inner0, q.skip(1)));
                    } else {
                        lemma_shape_at_empty(false, q.skip(1));
                    }
                }
            }
        } else if q.len() >= 1 {
            // Another first name: found where it was, with what it had.
            lemma_shape_other_name(set, set1, result, j, name, q);
            assert(!is_proper_prefix(q, p)) by {
                if is_proper_prefix(q, p) {
                    assert(p.take(q.len() as int)[0] == p[0]);
                }
            }
        }
    } else {
        assert(p =~= seq![name]);
        assert(!was_there);
        lemma_merge_ast_plain(s1, set1.entries[j], ptr, node.value);
        let (s2, e1) = merge_ast(s1, set1.entries[j], ptr, node.value);
        assert(merge_into_entry(s1, set1.entries[j], node, i, allow_dynamic) == (s2, e1));
        assert(result == set1.with_entry(j, e1));
        lemma_position_same_names(set1.entries, result.entries, if q.len() > 0 {
            q[0]
        } else {
            name
        }, 0);
        if q.len() >= 1 && q[0] == name {
            assert(position(result.entries, Some(q[0])) == j);
            if q.len() == 1 {
                assert(q =~= p);
            } else {
                assert(!is_proper_prefix(q, p));
                assert(q != p);
            }
        } else if q.len() >= 1 {
            lemma_shape_other_name(set, set1, result, j, name, q);
            assert(!is_proper_prefix(q, p)) by {
                if is_proper_prefix(q, p) {
                    assert(p.take(q.len() as int)[0] == p[0]);
                }
            }
        }
    }
}

/// Merging under the name `name` leaves what stands under any other first
/// name. Here `set1` is `set`, with an entry for `name` added at `j` if it
/// had none, and `result` is `set1` with another entry of the same name at
/// `j`.
proof fn lemma_shape_other_name(
    set: SetModel,
    set1: SetModel,
    result: SetModel,
    j: int,
    name: Seq<char>,
    q: Seq<Seq<char>>,
)
    requires
        q.len() >= 1,
        q[0] != name,
        0 <= j < set1.entries.len(),
        set1.entries[j].name == Some(name),
        set1 == set || (j == set.entries.len() && set1 == set.push(set1.entries[j])),
        result.entries.len() == set1.entries.len(),
        result.entries[j].name == Some(name),
        forall|k: int|
            0 <= k < set1.entries.len() && k != j ==> result.entries[k] == set1.entries[k],
    ensures
        shape_at(result, q) == shape_at(set, q),
{
    let other = q[0];
    lemma_position_same_names(set1.entries, result.entries, other, 0);
    lemma_position_from_found(set1.entries, other, 0);
    lemma_position_from_found(set.entries, other, 0);
    if set1 != set {
        lemma_position_push(set.entries, set1.entries[j], other, 0);
    }
    let k = position(set.entries, Some(other));
    if k < set.entries.len() {
        assert(position(result.entries, Some(other)) == k);
        assert(k != j);
        assert(result.entries[k] == set.entries[k]);
    } else {
        assert(position(result.entries, Some(other)) == result.entries.len());
    }
}

/// What one declaration does to the structure of a set.
///
/// A declaration of a plain value at a static path that is free in `set`
/// puts a value at that path, nested sets at the paths that lead to it, and
/// leaves what stands at every other path. So the structure after it is a
/// function of the structure before and of the path alone.
pub proof fn lemma_declaration_shape(
    st: LowerState,
    set: SetModel,
    binding: Binding,
    allow_dynamic: bool,
    q: Seq<Seq<char>>,
)
    requires
        is_plain_declaration(binding),
        is_free(set, declared_path(binding)),
    ensures
        shape_at(merge_binding(st, set, binding, allow_dynamic).1, q) == shape_with(
            set,
            declared_path(binding),
            q,
        ),
{
    let node = binding->AttrpathValue_0;
    lemma_merge_path_shape(st, set, node, 0, allow_dynamic, q);
}

/// The order of two declarations does not matter to the structure.
///
/// Let two declarations put plain values at static paths that do not overlap
/// and are both free in `set`. Whichever is merged first, from whatever
/// states, the same stands at every path afterwards.
pub proof fn law_merge_order(
    st_a: LowerState,
    st_b: LowerState,
    set: SetModel,
    first: Binding,
    second: Binding,
    allow_dynamic: bool,
    q: Seq<Seq<char>>,
)
    requires
        is_plain_declaration(first),
        is_plain_declaration(second),
        !overlap(declared_path(first), declared_path(second)),
        is_free(set, declared_path(first)),
        is_free(set, declared_path(second)),
    ensures
        ({
            let a1 = merge_binding(st_a, set, first, allow_dynamic);
            let a2 = merge_binding(a1.0, a1.1, second, allow_dynamic);
            let b1 = merge_binding(st_b, set, second, allow_dynamic);
            let b2 = merge_binding(b1.0, b1.1, first, allow_dynamic);
            shape_at(a2.1, q) == shape_at(b2.1, q)
        }),
{
    let path_a = declared_path(first);
    let path_b = declared_path(second);
    let a1 = merge_binding(st_a, set, first, allow_dynamic);
    let b1 = merge_binding(st_b, set, second, allow_dynamic);
    lemma_stays_free(st_a, set, first, second, allow_dynamic);
    lemma_stays_free(st_b, set, second, first, allow_dynamic);
    lemma_declaration_shape(a1.0, a1.1, second, allow_dynamic, q);
    lemma_declaration_shape(b1.0, b1.1, first, allow_dynamic, q);
    lemma_declaration_shape(st_a, set, first, allow_dynamic, q);
    lemma_declaration_shape(st_b, set, second, allow_dynamic, q);
    if is_proper_prefix(q, path_a) && q == path_b {
        assert(is_proper_prefix(path_b, path_a));
    }
    if is_proper_prefix(q, path_b) && q == path_a {
        assert(is_proper_prefix(path_a, path_b));
    }
}

/// A path that is free stays free when a declaration is merged whose path
/// does not overlap with it.
pub proof fn lemma_stays_free(
    st: LowerState,
    set: SetModel,
    merged: Binding,
    other: Binding,
    allow_dynamic: bool,
)
    requires
        is_plain_declaration(merged),
        is_plain_declaration(other),
        !overlap(declared_path(merged), declared_path(other)),
        is_free(set, declared_path(merged)),
        is_free(set, declared_path(other)),
    ensures
        is_free(merge_binding(st, set, merged, allow_dynamic).1, declared_path(other)),
{
    let p = declared_path(merged);
    let o = declared_path(other);
    let after = merge_binding(st, set, merged, allow_dynamic).1;
    lemma_declaration_shape(st, set, merged, allow_dynamic, o);
    assert forall|n: int| 1 <= n < o.len() implies shape_at(after, #[trigger] o.take(n)) != Some(
        Shape::Value,
    ) by {
        lemma_declaration_shape(st, set, merged, allow_dynamic, o.take(n));
        if o.take(n) == p {
            assert(is_proper_prefix(p, o));
        }
    }
}

/// Whether one of the declarations `decls[i..]` declares the path `q`.
pub open spec fn is_declared(decls: Seq<Binding>, i: int, q: Seq<Seq<char>>) -> bool {
    exists|k: int| i <= k < decls.len() && q == declared_path(#[trigger] decls[k])
}

/// Whether the path `q` leads to the path of one of the declarations
/// `decls[i..]`.
pub open spec fn leads_to_declared(decls: Seq<Binding>, i: int, q: Seq<Seq<char>>) -> bool {
    exists|k: int|
        i <= k < decls.len() && q.len() >= 1 && is_proper_prefix(
            q,
            declared_path(#[trigger] decls[k]),
        )
}

/// What stands at `q` once the declarations `decls[i..]` are merged into
/// `set`: this depends on which paths they declare, not on their order.
pub open spec fn shape_with_all(
    set: SetModel,
    decls: Seq<Binding>,
    i: int,
    q: Seq<Seq<char>>,
) -> Option<Shape> {
    if leads_to_declared(decls, i, q) {
        Some(Shape::Nested)
    } else if is_declared(decls, i, q) {
        Some(Shape::Value)
    } else {
        shape_at(set, q)
    }
}

/// Whether the declarations `decls[i..]` can be merged into `set` in any
/// order without conflict: each declares a plain value at a static path that
/// is free in `set`, and no two of their paths overlap.
pub open spec fn are_independent(set: SetModel, decls: Seq<Binding>, i: int) -> bool {
    &&& forall|k: int| i <= k < decls.len() ==> is_plain_declaration(#[trigger] decls[k])
    &&& forall|k: int| i <= k < decls.len() ==> is_free(set, declared_path(#[trigger] decls[k]))
    &&& forall|k: int, l: int|
        i <= k < decls.len() && i <= l < decls.len() && k != l ==> !overlap(
            declared_path(#[trigger] decls[k]),
            declared_path(#[trigger] decls[l]),
        )
}

/// What independent declarations do to the structure of a set, whatever the
/// state that they are merged from.
pub proof fn lemma_declarations_shape(
    st: LowerState,
    set: SetModel,
    decls: Seq<Binding>,
    i: int,
    allow_dynamic: bool,
    q: Seq<Seq<char>>,
)
    requires
        0 <= i <= decls.len(),
        are_independent(set, decls, i),
    ensures
        shape_at(merge_bindings(st, set, decls, i, allow_dynamic).1, q) == shape_with_all(
            set,
            decls,
            i,
            q,
        ),
    decreases decls.len() - i,
{
    if i < decls.len() {
        let p = declared_path(decls[i]);
        let (s1, set1) = merge_binding(st, set, decls[i], allow_dynamic);
        assert(are_independent(set1, decls, i + 1)) by {
            assert forall|k: int| i + 1 <= k < decls.len() implies is_free(
                set1,
                declared_path(#[trigger] decls[k]),
            ) by {
                lemma_stays_free(st, set, decls[i], decls[k], allow_dynamic);
            }
        }
        lemma_declarations_shape(s1, set1, decls, i + 1, allow_dynamic, q);
        lemma_declaration_shape(st, set, decls[i], allow_dynamic, q);
        if leads_to_declared(decls, i + 1, q) {
            assert(leads_to_declared(decls, i, q));
        } else if is_declared(decls, i + 1, q) {
            let k = choose|k: int|
                i + 1 <= k < decls.len() && q == declared_path(#[trigger] decls[k]);
            assert(is_declared(decls, i, q));
            if leads_to_declared(decls, i, q) {
                let l = choose|l: int|
                    i <= l < decls.len() && q.len() >= 1 && is_proper_prefix(
                        q,
                        declared_path(#[trigger] decls[l]),
                    );
                assert(l == i);
                assert(overlap(declared_path(decls[k]), declared_path(decls[i])));
                assert(false);
            }
        } else {
            if is_proper_prefix(q, p) && q.len() >= 1 {
                assert(leads_to_declared(decls, i, q));
            } else {
                if leads_to_declared(decls, i, q) {
                    let l = choose|l: int|
                        i <= l < decls.len() && q.len() >= 1 && is_proper_prefix(
                            q,
                            declared_path(#[trigger] decls[l]),
                        );
                    assert(l != i);
                    assert(false);
                }
                if q == p {
                    assert(is_declared(decls, i, q));
                } else if is_declared(decls, i, q) {
                    let k = choose|k: int|
                        i <= k < decls.len() && q == declared_path(#[trigger] decls[k]);
                    assert(k != i);
                    assert(false);
                }
            }
        }
    }
}

/// The order of declarations does not matter to the structure.
///
/// Let `a` and `b` be two lists of declarations that declare the same paths,
/// each list independent in `set`: plain values at static paths that are
/// free in `set`, no two of which overlap. Then merging `a` and merging `b`
/// into `set`, from whatever states, leave the same at every path: a nested
/// set at each path that leads to a declared one, a value at each declared
/// path, and elsewhere what stood there before.
pub proof fn law_merge_any_order(
    st_a: LowerState,
    st_b: LowerState,
    set: SetModel,
    a: Seq<Binding>,
    b: Seq<Binding>,
    allow_dynamic: bool,
    q: Seq<Seq<char>>,
)
    requires
        are_independent(set, a, 0),
        are_independent(set, b, 0),
        forall|p: Seq<Seq<char>>| is_declared(a, 0, p) <==> is_declared(b, 0, p),
    ensures
        shape_at(merge_bindings(st_a, set, a, 0, allow_dynamic).1, q) == shape_at(
            merge_bindings(st_b, set, b, 0, allow_dynamic).1,
            q,
        ),
        shape_at(merge_bindings(st_a, set, a, 0, allow_dynamic).1, q) == shape_with_all(
            set,
            a,
            0,
            q,
        ),
{
    lemma_declarations_shape(st_a, set, a, 0, allow_dynamic, q);
    lemma_declarations_shape(st_b, set, b, 0, allow_dynamic, q);
    if leads_to_declared(a, 0, q) {
        let k = choose|k: int|
            0 <= k < a.len() && q.len() >= 1 && is_proper_prefix(q, declared_path(#[trigger] a[k]));
        assert(is_declared(a, 0, declared_path(a[k])));
        let l = choose|l: int|
            0 <= l < b.len() && declared_path(a[k]) == declared_path(#[trigger] b[l]);
        assert(leads_to_declared(b, 0, q));
    }
    if leads_to_declared(b, 0, q) {
        let k = choose|k: int|
            0 <= k < b.len() && q.len() >= 1 && is_proper_prefix(q, declared_path(#[trigger] b[k]));
        assert(is_declared(b, 0, declared_path(b[k])));
        let l = choose|l: int|
            0 <= l < a.len() && declared_path(b[k]) == declared_path(#[trigger] a[l]);
        assert(leads_to_declared(a, 0, q));
    }
}

} // verus!
