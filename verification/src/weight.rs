//! How much room a syntax tree needs in the tables.
//!
//! Handles are 32 bits wide, so a tree can only be lowered while both tables
//! stay below that limit. The weight of a node bounds from above the number
//! of expressions, and the number of name definitions, that lowering it adds.

use crate::syntax::{
    Attr, Binding, ExprChild, NameNode, ParamNode, PatFieldNode, PathPart, StringPart, SyntaxExpr,
};
use vstd::prelude::*;

verus! {

/// The weight of a child in expression position; an absent child still
/// costs its placeholder.
pub open spec fn weight_opt(e: ExprChild) -> nat
    decreases e, 0nat,
{
    match e {
        Some(b) => weight_expr(*b),
        None => 1,
    }
}

/// The weight of an expression: one for the node, and the weights of its
/// children.
pub open spec fn weight_expr(e: SyntaxExpr) -> nat
    decreases e, 0nat,
{
    match e {
        SyntaxExpr::Literal(_) => 1,
        SyntaxExpr::Ref { .. } => 1,
        SyntaxExpr::Apply { function, argument, .. } => 1 + weight_opt(function) + weight_opt(
            argument,
        ),
        SyntaxExpr::Paren { expr, .. } => 1 + weight_opt(expr),
        SyntaxExpr::Lambda { param, body, .. } => 1 + weight_param(param) + weight_opt(body),
        SyntaxExpr::Assert { condition, body, .. } => 1 + weight_opt(condition) + weight_opt(body),
        SyntaxExpr::IfThenElse { condition, then_body, else_body, .. } => 1 + weight_opt(condition)
            + weight_opt(then_body) + weight_opt(else_body),
        SyntaxExpr::With { environment, body, .. } => 1 + weight_opt(environment) + weight_opt(
            body,
        ),
        SyntaxExpr::BinaryOp { lhs, rhs, .. } => 1 + weight_opt(lhs) + weight_opt(rhs),
        SyntaxExpr::UnaryOp { arg, .. } => 1 + weight_opt(arg),
        SyntaxExpr::HasAttr { set, attrpath, .. } => 1 + weight_opt(set) + weight_attrs(
            attrpath@,
            0,
        ),
        SyntaxExpr::Select { set, attrpath, default_expr, .. } => 1 + weight_opt(set)
            + weight_attrs(attrpath@, 0) + weight_opt(default_expr),
        SyntaxExpr::String(node) => 1 + weight_parts(node.parts@, 0),
        SyntaxExpr::IndentString(node) => 1 + weight_parts(node.parts@, 0),
        SyntaxExpr::List { elements, .. } => 1 + weight_exprs(elements@, 0),
        SyntaxExpr::LetIn { bindings, body, .. } => 1 + weight_bindings(bindings@, 0) + weight_opt(
            body,
        ),
        SyntaxExpr::AttrSet(node) => 1 + weight_bindings(node.bindings@, 0),
        SyntaxExpr::PathInterpolation { parts, .. } => 1 + weight_path_parts(parts@, 0),
    }
}

/// The weight of the expressions `es[i..]`.
pub open spec fn weight_exprs(es: Seq<SyntaxExpr>, i: int) -> nat
    decreases es, es.len() - i,
{
    if 0 <= i < es.len() {
        weight_expr(es[i]) + weight_exprs(es, i + 1)
    } else {
        0
    }
}

/// The weight of an optional name in binding position.
pub open spec fn weight_name(node: Option<NameNode>) -> nat {
    if node.is_some() {
        1
    } else {
        0
    }
}

/// The weight of the parameter of a lambda.
pub open spec fn weight_param(param: Option<ParamNode>) -> nat
    decreases param, 0nat,
{
    match param {
        None => 0,
        Some(p) => weight_name(p.name) + match p.pat {
            None => 0,
            Some(pat) => weight_fields(pat.fields@, 0),
        },
    }
}

/// The weight of the pattern fields `fields[i..]`.
pub open spec fn weight_fields(fields: Seq<PatFieldNode>, i: int) -> nat
    decreases fields, fields.len() - i,
{
    if 0 <= i < fields.len() {
        weight_name(fields[i].name) + weight_opt(fields[i].default_expr) + weight_fields(
            fields,
            i + 1,
        )
    } else {
        0
    }
}

/// The weight of the string parts `parts[i..]`: that of what they
/// interpolate.
pub open spec fn weight_parts(parts: Seq<StringPart>, i: int) -> nat
    decreases parts, parts.len() - i,
{
    if 0 <= i < parts.len() {
        (match parts[i] {
            StringPart::Dynamic(d) => weight_opt(d.expr),
            _ => 0,
        }) + weight_parts(parts, i + 1)
    } else {
        0
    }
}

/// The weight of the path parts `parts[i..]`: that of what they interpolate.
pub open spec fn weight_path_parts(parts: Seq<PathPart>, i: int) -> nat
    decreases parts, parts.len() - i,
{
    if 0 <= i < parts.len() {
        (match parts[i] {
            PathPart::Dynamic(d) => weight_opt(d.expr),
            PathPart::Fragment(_) => 0,
        }) + weight_path_parts(parts, i + 1)
    } else {
        0
    }
}

/// The weight of one segment of an attribute path: that of what it
/// encloses, and three for what merging may add on its account: a name
/// definition or a string, a nested set, and a placeholder that keeps a
/// displaced value.
pub open spec fn weight_attr(attr: Attr) -> nat
    decreases attr, 0nat,
{
    3 + match attr {
        Attr::Name(_) => 0,
        Attr::String(s) => weight_parts(s.parts@, 0),
        Attr::Dynamic(d) => weight_opt(d.expr),
    }
}

/// The weight of the segments `attrs[i..]`.
pub open spec fn weight_attrs(attrs: Seq<Attr>, i: int) -> nat
    decreases attrs, attrs.len() - i,
{
    if 0 <= i < attrs.len() {
        weight_attr(attrs[i]) + weight_attrs(attrs, i + 1)
    } else {
        0
    }
}

/// The weight of one declaration.
pub open spec fn weight_binding(binding: Binding) -> nat
    decreases binding, 0nat,
{
    match binding {
        Binding::Inherit(node) => (match node.from_expr {
            Some(from) => weight_opt(from.expr),
            None => 0,
        }) + weight_attrs(node.attrs@, 0),
        Binding::AttrpathValue(node) => 3 + weight_attrs(node.attrpath@, 0) + weight_opt(
            node.value,
        ),
    }
}

/// The weight of the declarations `bindings[i..]`.
pub open spec fn weight_bindings(bindings: Seq<Binding>, i: int) -> nat
    decreases bindings, bindings.len() - i,
{
    if 0 <= i < bindings.len() {
        weight_binding(bindings[i]) + weight_bindings(bindings, i + 1)
    } else {
        0
    }
}

/// One more than the largest weight that fits: weights are counted up to
/// here and no further.
pub const WEIGHT_CAP: u64 = 0x1_0000_0000;

/// The weight `w`, counted no further than the cap.
pub open spec fn capped(w: nat) -> u64 {
    if w >= WEIGHT_CAP {
        WEIGHT_CAP
    } else {
        w as u64
    }
}

/// The sum of two capped weights, capped.
fn add_capped(a: u64, b: u64) -> (r: u64)
    requires
        a <= WEIGHT_CAP,
        b <= WEIGHT_CAP,
    ensures
        r == (if a + b >= WEIGHT_CAP {
            WEIGHT_CAP
        } else {
            (a + b) as u64
        }),
{
    let sum = a + b;
    if sum >= WEIGHT_CAP {
        WEIGHT_CAP
    } else {
        sum
    }
}

/// The weight of a child in expression position, capped.
pub fn weigh_opt(e: &ExprChild) -> (w: u64)
    ensures
        w == capped(weight_opt(*e)),
    decreases *e, 0nat,
{
    match e {
        Some(b) => weigh_expr(b),
        None => 1,
    }
}

/// The weight of an expression, capped.
pub fn weigh_expr(e: &SyntaxExpr) -> (w: u64)
    ensures
        w == capped(weight_expr(*e)),
    decreases *e, 0nat,
{
    match e {
        SyntaxExpr::Literal(_) => 1,
        SyntaxExpr::Ref { .. } => 1,
        SyntaxExpr::Apply { function, argument, .. } => add_capped(
            add_capped(1, weigh_opt(function)),
            weigh_opt(argument),
        ),
        SyntaxExpr::Paren { expr, .. } => add_capped(1, weigh_opt(expr)),
        SyntaxExpr::Lambda { param, body, .. } => add_capped(
            add_capped(1, weigh_param(param)),
            weigh_opt(body),
        ),
        SyntaxExpr::Assert { condition, body, .. } => add_capped(
            add_capped(1, weigh_opt(condition)),
            weigh_opt(body),
        ),
        SyntaxExpr::IfThenElse { condition, then_body, else_body, .. } => add_capped(
            add_capped(add_capped(1, weigh_opt(condition)), weigh_opt(then_body)),
            weigh_opt(else_body),
        ),
        SyntaxExpr::With { environment, body, .. } => add_capped(
            add_capped(1, weigh_opt(environment)),
            weigh_opt(body),
        ),
        SyntaxExpr::BinaryOp { lhs, rhs, .. } => add_capped(
            add_capped(1, weigh_opt(lhs)),
            weigh_opt(rhs),
        ),
        SyntaxExpr::UnaryOp { arg, .. } => add_capped(1, weigh_opt(arg)),
        SyntaxExpr::HasAttr { set, attrpath, .. } => add_capped(
            add_capped(1, weigh_opt(set)),
            weigh_attrs(attrpath),
        ),
        SyntaxExpr::Select { set, attrpath, default_expr, .. } => add_capped(
            add_capped(add_capped(1, weigh_opt(set)), weigh_attrs(attrpath)),
            weigh_opt(default_expr),
        ),
        SyntaxExpr::String(node) => add_capped(1, weigh_parts(&node.parts)),
        SyntaxExpr::IndentString(node) => add_capped(1, weigh_parts(&node.parts)),
        SyntaxExpr::List { elements, .. } => add_capped(1, weigh_exprs(elements)),
        SyntaxExpr::LetIn { bindings, body, .. } => add_capped(
            add_capped(1, weigh_bindings(bindings)),
            weigh_opt(body),
        ),
        SyntaxExpr::AttrSet(node) => add_capped(1, weigh_bindings(&node.bindings)),
        SyntaxExpr::PathInterpolation { parts, .. } => add_capped(1, weigh_path_parts(parts)),
    }
}

/// The weight of the elements of a list, capped.
fn weigh_exprs(es: &Vec<SyntaxExpr>) -> (w: u64)
    ensures
        w == capped(weight_exprs(es@, 0)),
    decreases es@, es@.len(),
{
    let mut w: u64 = 0;
    let mut i: usize = es.len();
    while i > 0
        invariant
            i <= es.len(),
            w == capped(weight_exprs(es@, i as int)),
        decreases i,
    {
        i -= 1;
        w = add_capped(weigh_expr(&es[i]), w);
    }
    w
}

/// The weight of an optional name in binding position.
fn weigh_name(node: &Option<NameNode>) -> (w: u64)
    ensures
        w == capped(weight_name(*node)),
{
    if node.is_some() {
        1
    } else {
        0
    }
}

/// The weight of the parameter of a lambda, capped.
fn weigh_param(param: &Option<ParamNode>) -> (w: u64)
    ensures
        w == capped(weight_param(*param)),
    decreases *param, 0nat,
{
    match param {
        None => 0,
        Some(p) => {
            let fields = match &p.pat {
                None => 0,
                Some(pat) => weigh_fields(&pat.fields),
            };
                add_capped(weigh_name(&p.name), fields)
        },
    }
}

/// The weight of the fields of a pattern, capped.
fn weigh_fields(fields: &Vec<PatFieldNode>) -> (w: u64)
    ensures
        w == capped(weight_fields(fields@, 0)),
    decreases fields@, fields@.len(),
{
    let mut w: u64 = 0;
    let mut i: usize = fields.len();
    while i > 0
        invariant
            i <= fields.len(),
            w == capped(weight_fields(fields@, i as int)),
        decreases i,
    {
        i -= 1;
        let field = add_capped(weigh_name(&fields[i].name), weigh_opt(&fields[i].default_expr));
        w = add_capped(field, w);
    }
    w
}

/// The weight of the parts of a string, capped.
fn weigh_parts(parts: &Vec<StringPart>) -> (w: u64)
    ensures
        w == capped(weight_parts(parts@, 0)),
    decreases parts@, parts@.len(),
{
    let mut w: u64 = 0;
    let mut i: usize = parts.len();
    while i > 0
        invariant
            i <= parts.len(),
            w == capped(weight_parts(parts@, i as int)),
        decreases i,
    {
        i -= 1;
        let part = match &parts[i] {
            StringPart::Dynamic(d) => weigh_opt(&d.expr),
            _ => 0,
        };
        w = add_capped(part, w);
    }
    w
}

/// The weight of the parts of an interpolated path, capped.
fn weigh_path_parts(parts: &Vec<PathPart>) -> (w: u64)
    ensures
        w == capped(weight_path_parts(parts@, 0)),
    decreases parts@, parts@.len(),
{
    let mut w: u64 = 0;
    let mut i: usize = parts.len();
    while i > 0
        invariant
            i <= parts.len(),
            w == capped(weight_path_parts(parts@, i as int)),
        decreases i,
    {
        i -= 1;
        let part = match &parts[i] {
            PathPart::Dynamic(d) => weigh_opt(&d.expr),
            PathPart::Fragment(_) => 0,
        };
        w = add_capped(part, w);
    }
    w
}

/// The weight of one segment of an attribute path, capped.
fn weigh_attr(attr: &Attr) -> (w: u64)
    ensures
        w == capped(weight_attr(*attr)),
    decreases *attr, 0nat,
{
    let inner = match attr {
        Attr::Name(_) => 0,
        Attr::String(s) => weigh_parts(&s.parts),
        Attr::Dynamic(d) => weigh_opt(&d.expr),
    };
    add_capped(3, inner)
}

/// The weight of the segments of an attribute path, capped.
fn weigh_attrs(attrs: &Vec<Attr>) -> (w: u64)
    ensures
        w == capped(weight_attrs(attrs@, 0)),
    decreases attrs@, attrs@.len(),
{
    let mut w: u64 = 0;
    let mut i: usize = attrs.len();
    while i > 0
        invariant
            i <= attrs.len(),
            w == capped(weight_attrs(attrs@, i as int)),
        decreases i,
    {
        i -= 1;
        w = add_capped(weigh_attr(&attrs[i]), w);
    }
    w
}

/// The weight of one declaration, capped.
fn weigh_binding(binding: &Binding) -> (w: u64)
    ensures
        w == capped(weight_binding(*binding)),
    decreases *binding, 0nat,
{
    match binding {
        Binding::Inherit(node) => {
            let from = match &node.from_expr {
                Some(from) => weigh_opt(&from.expr),
                None => 0,
            };
                add_capped(from, weigh_attrs(&node.attrs))
        },
        Binding::AttrpathValue(node) => {
            add_capped(add_capped(3, weigh_attrs(&node.attrpath)), weigh_opt(&node.value))
        },
    }
}

/// The weight of the declarations of a set, capped.
fn weigh_bindings(bindings: &Vec<Binding>) -> (w: u64)
    ensures
        w == capped(weight_bindings(bindings@, 0)),
    decreases bindings@, bindings@.len(),
{
    let mut w: u64 = 0;
    let mut i: usize = bindings.len();
    while i > 0
        invariant
            i <= bindings.len(),
            w == capped(weight_bindings(bindings@, i as int)),
        decreases i,
    {
        i -= 1;
        w = add_capped(weigh_binding(&bindings[i]), w);
    }
    w
}

/// Whether the tree under `root` is light enough to be lowered: whether its
/// weight fits in a handle.
pub fn fits(root: &ExprChild) -> (r: bool)
    ensures
        r == (weight_opt(*root) <= u32::MAX),
{
    weigh_opt(root) < WEIGHT_CAP
}

} // verus!
