//! What lowering means: for each kind of syntax node, the state after it is
//! lowered and the handle or value that it lowers to, as functions of the
//! state before and of the node.
//!
//! One walk visits every node once, from left to right; every allocation
//! takes the next free handle, so the order of the walk is part of the
//! meaning.

use crate::base::FileId;
use crate::diagnostic::DiagnosticKind;
use crate::ir::{
    BindingKeyView, BindingValue, BindingsView, ExprId, ExprView, LiteralView, NameDefId, PatView,
};
use crate::literal::lower_literal_spec;
use crate::merge_model::{position, EntryModel, SetModel, ValueModel};
use crate::module::{ModuleView, SourceMapView};
use crate::state::LowerState;
use crate::syntax::{
    AstPtr, Attr, AttrpathValueNode, Binding, ExprChild, InheritNode, NameNode, ParamNode,
    PatFieldNode, PathPart, StringNode, StringPart, SyntaxExpr,
};
use crate::text::unescape_spec;
use vstd::prelude::*;

verus! {

/// The text of an optional token; empty where the token is missing.
pub open spec fn text_or_empty(text: Option<String>) -> Seq<char> {
    match text {
        Some(t) => t@,
        None => Seq::empty(),
    }
}

/// Appends `expr` for the node at `ptr`; the result is its handle.
pub open spec fn alloc_at(st: LowerState, expr: ExprView, ptr: AstPtr) -> (LowerState, ExprId) {
    (st.alloc_expr(expr, ptr), st.next_expr())
}

/// Whether some part of a string is an interpolation.
pub open spec fn has_dynamic_part(parts: Seq<StringPart>) -> bool {
    exists|i: int| 0 <= i < parts.len() && parts[i] is Dynamic
}

/// The text that one part of a string contributes to a static key.
pub open spec fn part_content(part: StringPart) -> Seq<char> {
    match part {
        StringPart::Fragment(t) => t@,
        StringPart::Escape(t) => unescape_spec(t@),
        StringPart::Dynamic(_) => Seq::empty(),
    }
}

/// The text that a string without interpolation stands for: its fragments
/// and what its escape sequences stand for, in order.
pub open spec fn string_content(parts: Seq<StringPart>) -> Seq<char>
    decreases parts.len(),
{
    if parts.len() == 0 {
        Seq::empty()
    } else {
        string_content(parts.drop_last()) + part_content(parts.last())
    }
}

/// The name that `key` stands for in the state `st`: its text, or the name
/// of its definition; nothing for a dynamic key.
pub open spec fn key_name(st: LowerState, key: BindingKeyView) -> Option<Seq<char>> {
    match key {
        BindingKeyView::Name(name) => Some(name),
        BindingKeyView::NameDef(id) => Some(st.name_defs[id.0 as int].name),
        BindingKeyView::Dynamic(_) => None,
    }
}

/// A name in binding position: a new name definition.
pub open spec fn lower_name(st: LowerState, node: NameNode) -> (LowerState, NameDefId) {
    (st.alloc_name_def(node.name(), node.ptr()), st.next_name_def())
}

/// An optional name in binding position.
pub open spec fn lower_name_opt(st: LowerState, node: Option<NameNode>) -> (
    LowerState,
    Option<NameDefId>,
) {
    match node {
        Some(n) => (lower_name(st, n).0, Some(lower_name(st, n).1)),
        None => (st, None),
    }
}

/// A child in expression position. Where the source has none, a placeholder
/// stands in, so that every child has a handle.
pub open spec fn lower_expr_opt(st: LowerState, e: ExprChild) -> (LowerState, ExprId)
    decreases e, 0nat,
{
    match e {
        Some(b) => lower_expr(st, *b),
        None => (st.alloc_missing(), st.next_expr()),
    }
}

/// A child that is lowered only where the source has it.
pub open spec fn lower_expr_some(st: LowerState, e: ExprChild) -> (LowerState, Option<ExprId>)
    decreases e, 0nat,
{
    match e {
        Some(b) => (lower_expr(st, *b).0, Some(lower_expr(st, *b).1)),
        None => (st, None),
    }
}

/// An expression. Its children are lowered first, from left to right, then
/// the node itself gets the next handle. Parentheses get none: they lower to
/// what they enclose.
pub open spec fn lower_expr(st: LowerState, e: SyntaxExpr) -> (LowerState, ExprId)
    decreases e, 0nat,
{
    let ptr = e.ptr();
    match e {
        SyntaxExpr::Literal(lit) => alloc_at(
            st,
            match lower_literal_spec(st.file_id, lit) {
                Some(l) => ExprView::Literal(l),
                None => ExprView::Missing,
            },
            ptr,
        ),
        SyntaxExpr::Ref { name, .. } => alloc_at(st, ExprView::Reference(text_or_empty(name)), ptr),
        SyntaxExpr::Apply { function, argument, .. } => {
            let (s1, func) = lower_expr_opt(st, function);
            let (s2, arg) = lower_expr_opt(s1, argument);
            alloc_at(s2, ExprView::Apply(func, arg), ptr)
        },
        SyntaxExpr::Paren { expr, .. } => lower_expr_opt(st, expr),
        SyntaxExpr::Lambda { param, body, .. } => {
            let (s1, name, pat) = lower_param(st, param);
            let (s2, body_id) = lower_expr_opt(s1, body);
            alloc_at(s2, ExprView::Lambda(name, pat, body_id), ptr)
        },
        SyntaxExpr::Assert { condition, body, .. } => {
            let (s1, cond) = lower_expr_opt(st, condition);
            let (s2, body_id) = lower_expr_opt(s1, body);
            alloc_at(s2, ExprView::Assert(cond, body_id), ptr)
        },
        SyntaxExpr::IfThenElse { condition, then_body, else_body, .. } => {
            let (s1, cond) = lower_expr_opt(st, condition);
            let (s2, then_id) = lower_expr_opt(s1, then_body);
            let (s3, else_id) = lower_expr_opt(s2, else_body);
            alloc_at(s3, ExprView::IfThenElse(cond, then_id, else_id), ptr)
        },
        SyntaxExpr::With { environment, body, .. } => {
            let (s1, env) = lower_expr_opt(st, environment);
            let (s2, body_id) = lower_expr_opt(s1, body);
            alloc_at(s2, ExprView::With(env, body_id), ptr)
        },
        SyntaxExpr::BinaryOp { lhs, op, rhs, .. } => {
            let (s1, l) = lower_expr_opt(st, lhs);
            let (s2, r) = lower_expr_opt(s1, rhs);
            alloc_at(s2, ExprView::Binary(op, l, r), ptr)
        },
        SyntaxExpr::UnaryOp { op, arg, .. } => {
            let (s1, a) = lower_expr_opt(st, arg);
            alloc_at(s1, ExprView::Unary(op, a), ptr)
        },
        SyntaxExpr::HasAttr { set, attrpath, .. } => {
            let (s1, set_id) = lower_expr_opt(st, set);
            let (s2, path) = lower_attrpath(s1, attrpath@, 0, Seq::empty());
            alloc_at(s2, ExprView::HasAttr(set_id, path), ptr)
        },
        SyntaxExpr::Select { set, attrpath, default_expr, .. } => {
            let (s1, set_id) = lower_expr_opt(st, set);
            let (s2, path) = lower_attrpath(s1, attrpath@, 0, Seq::empty());
            let (s3, default) = lower_expr_some(s2, default_expr);
            alloc_at(s3, ExprView::Select(set_id, path, default), ptr)
        },
        SyntaxExpr::String(node) => lower_string(st, node, ptr),
        SyntaxExpr::IndentString(node) => lower_string(st, node, ptr),
        SyntaxExpr::List { elements, .. } => {
            let (s1, ids) = lower_exprs(st, elements@, 0, Seq::empty());
            alloc_at(s1, ExprView::List(ids), ptr)
        },
        SyntaxExpr::LetIn { bindings, body, .. } => {
            let (s1, set) = merge_bindings(st, SetModel::new(true), bindings@, 0, false);
            let (s2, b) = finish_set(s1, set);
            let (s3, body_id) = lower_expr_opt(s2, body);
            alloc_at(s3, ExprView::LetIn(b, body_id), ptr)
        },
        SyntaxExpr::AttrSet(node) => {
            let is_rec = node.rec_token || node.let_token;
            let (s1, set) = merge_bindings(st, SetModel::new(is_rec), node.bindings@, 0, true);
            let (s2, b) = finish_set(s1, set);
            alloc_at(
                s2,
                if !node.rec_token && node.let_token {
                    ExprView::LetAttrset(b)
                } else {
                    ExprView::Attrset(b)
                },
                ptr,
            )
        },
        SyntaxExpr::PathInterpolation { parts, .. } => {
            let (s1, ids) = lower_path_parts(st, parts@, 0, Seq::empty());
            alloc_at(s1, ExprView::PathInterpolation(ids), ptr)
        },
    }
}

/// The elements `es[i..]` of a list, from left to right; `acc` holds the
/// handles of those before.
pub open spec fn lower_exprs(st: LowerState, es: Seq<SyntaxExpr>, i: int, acc: Seq<ExprId>) -> (
    LowerState,
    Seq<ExprId>,
)
    decreases es, es.len() - i,
{
    if 0 <= i < es.len() {
        let (s1, id) = lower_expr(st, es[i]);
        lower_exprs(s1, es, i + 1, acc.push(id))
    } else {
        (st, acc)
    }
}

/// The parameter of a lambda: first its name, then the fields of its
/// pattern.
pub open spec fn lower_param(st: LowerState, param: Option<ParamNode>) -> (
    LowerState,
    Option<NameDefId>,
    Option<PatView>,
)
    decreases param, 0nat,
{
    match param {
        None => (st, None, None),
        Some(p) => {
            let (s1, name) = lower_name_opt(st, p.name);
            match p.pat {
                None => (s1, name, None),
                Some(pat) => {
                    let (s2, fields) = lower_pat_fields(s1, pat.fields@, 0, Seq::empty());
                    (s2, name, Some(PatView { fields, ellipsis: pat.ellipsis }))
                },
            }
        },
    }
}

/// The fields `fields[i..]` of a pattern: of each, first its name, then its
/// default.
pub open spec fn lower_pat_fields(
    st: LowerState,
    fields: Seq<PatFieldNode>,
    i: int,
    acc: Seq<(Option<NameDefId>, Option<ExprId>)>,
) -> (LowerState, Seq<(Option<NameDefId>, Option<ExprId>)>)
    decreases fields, fields.len() - i,
{
    if 0 <= i < fields.len() {
        let (s1, name) = lower_name_opt(st, fields[i].name);
        let (s2, default) = lower_expr_some(s1, fields[i].default_expr);
        lower_pat_fields(s2, fields, i + 1, acc.push((name, default)))
    } else {
        (st, acc)
    }
}

/// A string: only its interpolated parts are kept, in order.
pub open spec fn lower_string(st: LowerState, node: StringNode, ptr: AstPtr) -> (
    LowerState,
    ExprId,
)
    decreases node, 0nat,
{
    let (s1, ids) = lower_string_parts(st, node.parts@, 0, Seq::empty());
    alloc_at(s1, ExprView::StringInterpolation(ids), ptr)
}

/// The interpolated parts among `parts[i..]`.
pub open spec fn lower_string_parts(
    st: LowerState,
    parts: Seq<StringPart>,
    i: int,
    acc: Seq<ExprId>,
) -> (LowerState, Seq<ExprId>)
    decreases parts, parts.len() - i,
{
    if 0 <= i < parts.len() {
        match parts[i] {
            StringPart::Dynamic(d) => {
                let (s1, id) = lower_expr_opt(st, d.expr);
                lower_string_parts(s1, parts, i + 1, acc.push(id))
            },
            _ => lower_string_parts(st, parts, i + 1, acc),
        }
    } else {
        (st, acc)
    }
}

/// The interpolated parts among `parts[i..]` of a path.
pub open spec fn lower_path_parts(
    st: LowerState,
    parts: Seq<PathPart>,
    i: int,
    acc: Seq<ExprId>,
) -> (LowerState, Seq<ExprId>)
    decreases parts, parts.len() - i,
{
    if 0 <= i < parts.len() {
        match parts[i] {
            PathPart::Dynamic(d) => {
                let (s1, id) = lower_expr_opt(st, d.expr);
                lower_path_parts(s1, parts, i + 1, acc.push(id))
            },
            PathPart::Fragment(_) => lower_path_parts(st, parts, i + 1, acc),
        }
    } else {
        (st, acc)
    }
}

/// The segments `attrs[i..]` of an attribute path in an expression: a name
/// becomes a string literal, a string its interpolation, an interpolation
/// what it encloses.
pub open spec fn lower_attrpath(st: LowerState, attrs: Seq<Attr>, i: int, acc: Seq<ExprId>) -> (
    LowerState,
    Seq<ExprId>,
)
    decreases attrs, attrs.len() - i,
{
    if 0 <= i < attrs.len() {
        let (s1, id) = match attrs[i] {
            Attr::Dynamic(d) => lower_expr_opt(st, d.expr),
            Attr::Name(n) => alloc_at(
                st,
                ExprView::Literal(LiteralView::String(n.name())),
                n.ptr(),
            ),
            Attr::String(s) => lower_string(st, s, s.ptr()),
        };
        lower_attrpath(s1, attrs, i + 1, acc.push(id))
    } else {
        (st, acc)
    }
}

/// The name that a string stands for as a key: its content where it has no
/// interpolation.
pub open spec fn string_name(node: StringNode) -> Option<Seq<char>> {
    if !has_dynamic_part(node.parts@) {
        Some(string_content(node.parts@))
    } else {
        None
    }
}

/// The name that an interpolation stands for as a key: that of the string
/// that it encloses, under any number of parentheses, if it encloses one.
pub open spec fn dynamic_name(e: ExprChild) -> Option<Seq<char>>
    decreases e,
{
    match e {
        Some(b) => match *b {
            SyntaxExpr::Paren { expr, .. } => dynamic_name(expr),
            SyntaxExpr::String(node) => string_name(node),
            _ => None,
        },
        None => None,
    }
}

/// The name that a segment of an attribute path stands for, where that is
/// statically known. By this name the entry that the segment declares is
/// found again, in recursive sets as well as in others; a segment without a
/// name is a dynamic key and finds nothing.
pub open spec fn attr_name(attr: Attr) -> Option<Seq<char>> {
    match attr {
        Attr::Name(n) => Some(n.name()),
        Attr::String(s) => string_name(s),
        Attr::Dynamic(d) => dynamic_name(d.expr),
    }
}

/// A key whose text is statically known: a name definition of its own in a
/// recursive set, plain text otherwise.
pub open spec fn static_key(st: LowerState, is_rec: bool, name: Seq<char>, ptr: AstPtr) -> (
    LowerState,
    BindingKeyView,
) {
    if is_rec {
        (st.alloc_name_def(name, ptr), BindingKeyView::NameDef(st.next_name_def()))
    } else {
        (st, BindingKeyView::Name(name))
    }
}

/// A string as a key: static where it has no interpolation, dynamic
/// otherwise.
pub open spec fn lower_string_key(st: LowerState, is_rec: bool, node: StringNode) -> (
    LowerState,
    BindingKeyView,
)
    decreases node, 1nat,
{
    if !has_dynamic_part(node.parts@) {
        static_key(st, is_rec, string_content(node.parts@), node.ptr())
    } else {
        let (s1, id) = lower_string(st, node, node.ptr());
        (s1, BindingKeyView::Dynamic(id))
    }
}

/// An interpolation as a key: under any number of parentheses, a string is
/// treated as a string key; anything else is dynamic.
pub open spec fn lower_dynamic_key(st: LowerState, is_rec: bool, e: ExprChild) -> (
    LowerState,
    BindingKeyView,
)
    decreases e, 1nat,
{
    match e {
        Some(b) => match *b {
            SyntaxExpr::Paren { expr, .. } => lower_dynamic_key(st, is_rec, expr),
            SyntaxExpr::String(node) => lower_string_key(st, is_rec, node),
            _ => {
                let (s1, id) = lower_expr_opt(st, e);
                (s1, BindingKeyView::Dynamic(id))
            },
        },
        None => {
            let (s1, id) = lower_expr_opt(st, e);
            (s1, BindingKeyView::Dynamic(id))
        },
    }
}

/// One segment of an attribute path as the key of a binding in a set that is
/// recursive or not.
pub open spec fn lower_key(st: LowerState, is_rec: bool, attr: Attr) -> (
    LowerState,
    BindingKeyView,
)
    decreases attr, 0nat,
{
    match attr {
        Attr::Name(n) => static_key(st, is_rec, n.name(), n.ptr()),
        Attr::String(s) => lower_string_key(st, is_rec, s),
        Attr::Dynamic(d) => lower_dynamic_key(st, is_rec, d.expr),
    }
}

/// Keeps an expression that belongs to no key: it is filed under a dynamic
/// key made of a placeholder for the node at `ptr`, where nothing finds it.
pub open spec fn recover_error(st: LowerState, set: SetModel, expr: ExprId, ptr: AstPtr) -> (
    LowerState,
    SetModel,
) {
    (
        st.alloc_expr(ExprView::Missing, ptr),
        set.push(
            EntryModel {
                key: BindingKeyView::Dynamic(st.next_expr()),
                name: None,
                def_ptr: ptr,
                is_duplicated: true,
                value: ValueModel::Final(BindingValue::Expr(expr)),
            },
        ),
    )
}

/// Reports that the declaration at `ptr` conflicts with `entry`: at the
/// place where the entry was defined, unless that was reported before, and
/// at `ptr`.
pub open spec fn emit_duplicated_key(st: LowerState, entry: EntryModel, ptr: AstPtr) -> (
    LowerState,
    EntryModel,
) {
    let s1 = if entry.is_duplicated {
        st
    } else {
        st.diagnostic(entry.def_ptr.range, DiagnosticKind::DuplicatedKey)
    };
    (
        s1.diagnostic(ptr.range, DiagnosticKind::DuplicatedKey),
        EntryModel { is_duplicated: true, ..entry },
    )
}

/// Turns `entry` into a nested set for the declaration at `def_ptr`. An empty
/// entry becomes an empty set; a set stays; a final value gives way to a set,
/// which is a conflict, and is kept in that set if it is an expression.
pub open spec fn make_attrset(st: LowerState, entry: EntryModel, is_rec: bool, def_ptr: AstPtr) -> (
    LowerState,
    EntryModel,
) {
    match entry.value {
        ValueModel::Placeholder => (st, entry.with_nested(SetModel::new(is_rec))),
        ValueModel::Attrset(_) => (st, entry),
        ValueModel::Final(value) => {
            let (s1, set) = match value {
                BindingValue::Expr(expr) => recover_error(
                    st,
                    SetModel::new(is_rec),
                    expr,
                    entry.def_ptr,
                ),
                _ => (st, SetModel::new(is_rec)),
            };
            let (s2, e1) = emit_duplicated_key(s1, entry, def_ptr);
            (s2, EntryModel { def_ptr, value: ValueModel::Attrset(set), ..e1 })
        },
    }
}

/// Merges the right-hand side `e` of the declaration at `def_ptr` into
/// `entry`. Under any number of parentheses, a set literal that is not a
/// `let` is folded into the nested set of the entry. Anything else is a
/// terminal value: it fills an empty entry, and conflicts with any other,
/// unless the source has no right-hand side at all.
pub open spec fn merge_ast(st: LowerState, entry: EntryModel, def_ptr: AstPtr, e: ExprChild) -> (
    LowerState,
    EntryModel,
)
    decreases e, 2nat,
{
    match e {
        Some(b) => match *b {
            SyntaxExpr::Paren { expr, .. } => merge_ast(st, entry, def_ptr, expr),
            SyntaxExpr::AttrSet(node) => if !node.let_token {
                let (s1, e1) = make_attrset(st, entry, node.rec_token, node.ptr());
                let (s2, inner) = merge_bindings(s1, e1.nested(), node.bindings@, 0, true);
                (s2, e1.with_nested(inner))
            } else {
                merge_terminal(st, entry, def_ptr, e)
            },
            _ => merge_terminal(st, entry, def_ptr, e),
        },
        None => merge_terminal(st, entry, def_ptr, e),
    }
}

/// Merges the terminal value `e` of the declaration at `def_ptr` into
/// `entry`.
pub open spec fn merge_terminal(
    st: LowerState,
    entry: EntryModel,
    def_ptr: AstPtr,
    e: ExprChild,
) -> (LowerState, EntryModel)
    decreases e, 1nat,
{
    match entry.value {
        ValueModel::Placeholder => {
            let (s1, id) = lower_expr_opt(st, e);
            (s1, EntryModel { value: ValueModel::Final(BindingValue::Expr(id)), ..entry })
        },
        _ => if e.is_some() {
            emit_duplicated_key(st, entry, def_ptr)
        } else {
            (st, entry)
        },
    }
}

/// Merges one declaration into `set`.
pub open spec fn merge_binding(
    st: LowerState,
    set: SetModel,
    binding: Binding,
    allow_dynamic: bool,
) -> (LowerState, SetModel)
    decreases binding, 0nat,
{
    match binding {
        Binding::Inherit(node) => merge_inherit(st, set, node),
        Binding::AttrpathValue(node) => merge_path_value(st, set, node, allow_dynamic),
    }
}

/// Merges the declarations `bindings[i..]` into `set`, in order.
pub open spec fn merge_bindings(
    st: LowerState,
    set: SetModel,
    bindings: Seq<Binding>,
    i: int,
    allow_dynamic: bool,
) -> (LowerState, SetModel)
    decreases bindings, bindings.len() - i,
{
    if 0 <= i < bindings.len() {
        let (s1, set1) = merge_binding(st, set, bindings[i], allow_dynamic);
        merge_bindings(s1, set1, bindings, i + 1, allow_dynamic)
    } else {
        (st, set)
    }
}

/// Merges an `inherit` declaration into `set`. Its source, if it has one, is
/// lowered once and joins the list of sources of the set.
pub open spec fn merge_inherit(st: LowerState, set: SetModel, node: InheritNode) -> (
    LowerState,
    SetModel,
)
    decreases node, 0nat,
{
    match node.from_expr {
        Some(from) => {
            let (s1, id) = lower_expr_opt(st, from.expr);
            merge_inherit_attrs(
                s1,
                SetModel { inherit_froms: set.inherit_froms.push(id), ..set },
                node.attrs@,
                0,
                Some(set.inherit_froms.len()),
            )
        },
        None => merge_inherit_attrs(st, set, node.attrs@, 0, None),
    }
}

/// Merges one inherited name into `set`; `from` is the position of its
/// source among the sources of the set, if it has one. A dynamic key is an
/// error, and what it encloses is kept aside. A name that finds an entry
/// conflicts with it. Any other name becomes a final entry.
pub open spec fn merge_inherit_attr(
    st: LowerState,
    set: SetModel,
    attr: Attr,
    from: Option<nat>,
) -> (LowerState, SetModel)
    decreases attr, 1nat,
{
    let ptr = attr.ptr();
    let (s1, key) = lower_key(st, set.is_rec, attr);
    match key {
        BindingKeyView::Dynamic(expr) => recover_error(
            s1.diagnostic(ptr.range, DiagnosticKind::InvalidDynamic),
            set,
            expr,
            ptr,
        ),
        _ => {
            let name = attr_name(attr);
            let j = position(set.entries, name);
            if j < set.entries.len() {
                let (s2, e) = emit_duplicated_key(s1, set.entries[j], ptr);
                (s2, set.with_entry(j, e))
            } else {
                let (s2, value) = match from {
                    Some(id) => (s1, BindingValue::InheritFrom(id as usize)),
                    None => (
                        s1.alloc_expr(ExprView::Reference(name.unwrap()), ptr),
                        BindingValue::Inherit(s1.next_expr()),
                    ),
                };
                (
                    s2,
                    set.push(
                        EntryModel {
                            key,
                            name,
                            def_ptr: ptr,
                            is_duplicated: false,
                            value: ValueModel::Final(value),
                        },
                    ),
                )
            }
        },
    }
}

/// Merges the inherited names `attrs[i..]` into `set`, in order.
pub open spec fn merge_inherit_attrs(
    st: LowerState,
    set: SetModel,
    attrs: Seq<Attr>,
    i: int,
    from: Option<nat>,
) -> (LowerState, SetModel)
    decreases attrs, attrs.len() - i,
{
    if 0 <= i < attrs.len() {
        let (s1, set1) = merge_inherit_attr(st, set, attrs[i], from);
        merge_inherit_attrs(s1, set1, attrs, i + 1, from)
    } else {
        (st, set)
    }
}

/// Merges a declaration `path = value;` into `set`. Where the path is
/// absent, the value is still lowered and kept aside.
pub open spec fn merge_path_value(
    st: LowerState,
    set: SetModel,
    node: AttrpathValueNode,
    allow_dynamic: bool,
) -> (LowerState, SetModel)
    decreases node, 2 * node.attrpath@.len() + 2,
{
    if node.attrpath@.len() == 0 {
        let (s1, value) = lower_expr_opt(st, node.value);
        recover_error(s1, set, value, node.ptr())
    } else {
        merge_path_from(st, set, node, 0, allow_dynamic)
    }
}

/// Finds the entry of `set` for the segment `attr` of a path, or adds an
/// empty one, and gives its position. A dynamic key finds nothing, so it
/// always adds an entry; where `allow_dynamic` is false it is an error as
/// well.
pub open spec fn entry_for(st: LowerState, set: SetModel, attr: Attr, allow_dynamic: bool) -> (
    LowerState,
    SetModel,
    int,
)
    decreases attr, 1nat,
{
    let ptr = attr.ptr();
    let (s1, key) = lower_key(st, set.is_rec, attr);
    let name = attr_name(attr);
    let j = position(set.entries, name);
    (
        if !allow_dynamic && key is Dynamic {
            s1.diagnostic(ptr.range, DiagnosticKind::InvalidDynamic)
        } else {
            s1
        },
        if j < set.entries.len() {
            set
        } else {
            set.push(
                EntryModel {
                    key,
                    name,
                    def_ptr: ptr,
                    is_duplicated: false,
                    value: ValueModel::Placeholder,
                },
            )
        },
        j,
    )
}

/// Merges `node` into `entry`, which segment `i` of its path has found.
/// Either the next segment goes on in the nested set of the entry, which is
/// never recursive, or, at the last segment, the value is merged into the
/// entry.
pub open spec fn merge_into_entry(
    st: LowerState,
    entry: EntryModel,
    node: AttrpathValueNode,
    i: int,
    allow_dynamic: bool,
) -> (LowerState, EntryModel)
    decreases node, 2 * (node.attrpath@.len() - i),
{
    if 0 <= i < node.attrpath@.len() {
        let ptr = node.attrpath@[i].ptr();
        if i + 1 < node.attrpath@.len() {
            let (s1, e1) = make_attrset(st, entry, false, ptr);
            let (s2, inner) = merge_path_from(s1, e1.nested(), node, i + 1, allow_dynamic);
            (s2, e1.with_nested(inner))
        } else {
            merge_ast(st, entry, ptr, node.value)
        }
    } else {
        (st, entry)
    }
}

/// Merges `node` into `set` from segment `i` of its path on. The segment
/// finds its entry in `set`, or adds an empty one, and the rest is merged
/// into that entry.
pub open spec fn merge_path_from(
    st: LowerState,
    set: SetModel,
    node: AttrpathValueNode,
    i: int,
    allow_dynamic: bool,
) -> (LowerState, SetModel)
    decreases node, 2 * (node.attrpath@.len() - i) + 1,
{
    if 0 <= i < node.attrpath@.len() {
        let (s1, set1, j) = entry_for(st, set, node.attrpath@[i], allow_dynamic);
        let (s2, e1) = merge_into_entry(s1, set1.entries[j], node, i, allow_dynamic);
        (s2, set1.with_entry(j, e1))
    } else {
        (st, set)
    }
}

/// The final value of an entry. A nested set becomes a set expression of its
/// own, for the node where the entry was defined.
pub open spec fn finish_entry(st: LowerState, entry: EntryModel) -> (LowerState, BindingValue)
    decreases entry, 0nat,
{
    match entry.value {
        ValueModel::Placeholder => (st.alloc_missing(), BindingValue::Expr(st.next_expr())),
        ValueModel::Final(value) => (st, value),
        ValueModel::Attrset(set) => {
            let (s1, b) = finish_set(st, set);
            (
                s1.alloc_expr(ExprView::Attrset(b), entry.def_ptr),
                BindingValue::Expr(s1.next_expr()),
            )
        },
    }
}

/// The final bindings of the entries `entries[i..]`, in order.
pub open spec fn finish_entries(
    st: LowerState,
    entries: Seq<EntryModel>,
    i: int,
    acc: Seq<(BindingKeyView, BindingValue)>,
) -> (LowerState, Seq<(BindingKeyView, BindingValue)>)
    decreases entries, entries.len() - i,
{
    if 0 <= i < entries.len() {
        let (s1, value) = finish_entry(st, entries[i]);
        finish_entries(s1, entries, i + 1, acc.push((entries[i].key, value)))
    } else {
        (st, acc)
    }
}

/// The final bindings of a set: its entries in order, nested sets first
/// within each, and its list of inherit sources.
pub open spec fn finish_set(st: LowerState, set: SetModel) -> (LowerState, BindingsView)
    decreases set, 0nat,
{
    let (s1, entries) = finish_entries(st, set.entries, 0, Seq::empty());
    (s1, BindingsView { entries, inherit_froms: set.inherit_froms })
}

/// The lowering of a whole file.
pub open spec fn lower_file(file_id: FileId, root: ExprChild) -> (
    ModuleView,
    SourceMapView,
) {
    let (st, entry) = lower_expr_opt(LowerState::empty(file_id), root);
    (
        ModuleView {
            exprs: st.exprs,
            name_defs: st.name_defs,
            entry_expr: entry,
            diagnostics: st.diagnostics,
        },
        st.source_map,
    )
}

} // verus!
