//! Lowering: one walk over the syntax tree of a file that builds its module
//! and its source map.
//!
//! Each function here does what the function of the same name in
//! `semantics` says, on the state that it is handed.

use crate::base::InFile;
use crate::bounds::{
    lemma_emit_duplicated_key, lemma_make_attrset, lemma_pending_entry_le, lemma_recover_error,
};
use crate::diagnostic::DiagnosticKind;
use crate::ir::{
    all_below, expr_below, name_below, BindingKey, BindingKeyView, Bindings, BindingValue, Expr,
    ExprId, Literal, NameDefId, Pat, PatView,
};
use crate::literal::{lower_literal_spec, lower_literal_token};
use crate::merge_model::{
    index_matches, lemma_entry_within_grows, lemma_index_position, lemma_new_key,
    lemma_pending_push, lemma_pending_update, lemma_set_within_grows, lemma_within_push,
    lemma_within_update, pending, pending_entry, pending_from, position, same_entry, EntryModel,
    SetModel, ValueModel,
};
use crate::module::{Module, ModuleSourceMap};
use crate::name_index::{index_entries, index_get, index_insert, new_index};
use crate::semantics;
use crate::state::LowerCtx;
use crate::syntax::{
    AstPtr, Attr, AttrpathValueNode, Binding, ExprChild, InheritNode, LiteralNode, NameNode,
    ParamNode, PatFieldNode, PathPart, SourceFile, StringNode, StringPart, SyntaxExpr,
};
use crate::text::push_unescaped;
use crate::weight::{
    fits, weight_attr, weight_attrs, weight_binding, weight_bindings, weight_expr, weight_exprs,
    weight_fields, weight_name, weight_opt, weight_param, weight_parts, weight_path_parts,
};
use indexmap::IndexMap;
use vstd::prelude::*;
use vstd::string::*;

verus! {

/// The text of an optional string.
pub open spec fn opt_text(text: Option<String>) -> Option<Seq<char>> {
    match text {
        Some(t) => Some(t@),
        None => None,
    }
}

/// What an entry of a set under construction holds so far.
pub enum MergingValue {
    Placeholder,
    Attrset(MergingSet),
    Final(BindingValue),
}

/// One entry of a set under construction.
pub struct MergingEntry {
    pub(crate) key: BindingKey,
    /// The name by which the entry is found again; `None` for a dynamic key.
    pub(crate) name: Option<String>,
    /// Where the entry was defined.
    pub(crate) def_ptr: AstPtr,
    /// Whether the place of definition was already reported as duplicated.
    pub(crate) is_duplicated: bool,
    pub(crate) value: MergingValue,
}

/// A set under construction: its entries in the order of their first
/// declaration, an index from names to the positions of the entries, and the
/// sources of its `inherit (source) ..` declarations.
pub struct MergingSet {
    pub(crate) is_rec: bool,
    pub(crate) entries: Vec<MergingEntry>,
    pub(crate) names: IndexMap<String, usize>,
    pub(crate) inherit_froms: Vec<ExprId>,
}

impl MergingEntry {
    /// This entry as a mathematical value.
    pub closed spec fn model(self) -> EntryModel
        decreases self,
    {
        EntryModel {
            key: self.key@,
            name: opt_text(self.name),
            def_ptr: self.def_ptr,
            is_duplicated: self.is_duplicated,
            value: match self.value {
                MergingValue::Placeholder => ValueModel::Placeholder,
                MergingValue::Attrset(set) => ValueModel::Attrset(set.model()),
                MergingValue::Final(value) => ValueModel::Final(value),
            },
        }
    }

    /// Whether the index of every set nested in this entry matches its
    /// entries.
    pub closed spec fn wf(self) -> bool
        decreases self,
    {
        match self.value {
            MergingValue::Attrset(set) => set.wf(),
            _ => true,
        }
    }
}

impl MergingSet {
    /// This set as a mathematical value.
    pub closed spec fn model(self) -> SetModel
        decreases self,
    {
        SetModel {
            is_rec: self.is_rec,
            entries: Seq::new(
                self.entries@.len(),
                |i: int|
                    if 0 <= i < self.entries@.len() {
                        self.entries@[i].model()
                    } else {
                        arbitrary()
                    },
            ),
            inherit_froms: self.inherit_froms@,
        }
    }

    /// Whether the index of this set, and of every set nested in it, matches
    /// its entries.
    pub closed spec fn wf(self) -> bool
        decreases self,
    {
        &&& index_matches(index_entries(self.names), self.model().entries)
        &&& forall|i: int| 0 <= i < self.entries@.len() ==> (#[trigger] self.entries@[i]).wf()
    }
}

impl View for MergingEntry {
    type V = EntryModel;

    closed spec fn view(&self) -> EntryModel {
        self.model()
    }
}

impl View for MergingSet {
    type V = SetModel;

    closed spec fn view(&self) -> SetModel {
        self.model()
    }
}

/// A copy of `key`.
fn clone_key(key: &BindingKey) -> (r: BindingKey)
    ensures
        r@ == key@,
{
    match key {
        BindingKey::NameDef(id) => BindingKey::NameDef(*id),
        BindingKey::Name(name) => BindingKey::Name(name.clone()),
        BindingKey::Dynamic(id) => BindingKey::Dynamic(*id),
    }
}

/// A copy of the text of an optional token; empty where the token is
/// missing.
fn text_of(text: &Option<String>) -> (r: String)
    ensures
        r@ == semantics::text_or_empty(*text),
{
    match text {
        Some(t) => t.clone(),
        None => String::new(),
    }
}

/// Whether some part of a string is an interpolation.
fn has_dynamic(parts: &Vec<StringPart>) -> (r: bool)
    ensures
        r == semantics::has_dynamic_part(parts@),
{
    let mut i: usize = 0;
    while i < parts.len()
        invariant
            i <= parts.len(),
            forall|k: int| 0 <= k < i ==> !(parts@[k] is Dynamic),
        decreases parts.len() - i,
    {
        match &parts[i] {
            StringPart::Dynamic(_) => {
                return true;
            },
            _ => {},
        }
        i += 1;
    }
    false
}

/// The text that a string without interpolation stands for.
fn static_content(parts: &Vec<StringPart>) -> (r: String)
    ensures
        r@ == semantics::string_content(parts@),
{
    let mut r = String::new();
    let mut i: usize = 0;
    while i < parts.len()
        invariant
            i <= parts.len(),
            r@ == semantics::string_content(parts@.take(i as int)),
        decreases parts.len() - i,
    {
        proof {
            assert(parts@.take(i + 1).drop_last() =~= parts@.take(i as int));
            assert(parts@.take(i + 1).last() == parts@[i as int]);
        }
        match &parts[i] {
            StringPart::Fragment(t) => {
                r.append(t.as_str());
            },
            StringPart::Escape(t) => {
                push_unescaped(&mut r, t.as_str());
            },
            StringPart::Dynamic(_) => {
                proof {
                    assert(r@ + Seq::<char>::empty() =~= r@);
                }
            },
        }
        i += 1;
    }
    proof {
        assert(parts@.take(parts.len() as int) =~= parts@);
    }
    r
}

impl LowerCtx {
    /// The name by which an entry filed under `key` is found again.
    pub fn key_name(&self, key: &BindingKey) -> (name: Option<String>)
        requires
            key matches BindingKey::NameDef(id) ==> id.0 < self@.name_defs.len(),
        ensures
            opt_text(name) == semantics::key_name(self@, key@),
    {
        match key {
            BindingKey::Name(name) => Some(name.clone()),
            BindingKey::NameDef(id) => Some(self.name_of(*id)),
            BindingKey::Dynamic(_) => None,
        }
    }

    /// Lowers a name in binding position to a new name definition.
    pub fn lower_name(&mut self, node: &NameNode) -> (id: NameDefId)
        requires
            old(self)@.has_room(1),
        ensures
            (final(self)@, id) == semantics::lower_name(old(self)@, *node),
            final(self)@.on_track(0, old(self)@, 1),
            id.0 < final(self)@.name_defs.len(),
            old(self)@.closed() ==> final(self)@.closed(),
    {
        let name = text_of(&node.text);
        let ptr = node.ast_ptr();
        self.alloc_name_def(name, ptr)
    }

    /// Lowers an optional name in binding position.
    fn lower_name_opt(&mut self, node: &Option<NameNode>) -> (id: Option<NameDefId>)
        requires
            old(self)@.has_room(weight_name(*node)),
        ensures
            (final(self)@, id) == semantics::lower_name_opt(old(self)@, *node),
            final(self)@.on_track(0, old(self)@, weight_name(*node)),
            old(self)@.closed() ==> final(self)@.closed(),
            name_below(id, final(self)@.name_defs.len()),
    {
        match node {
            Some(n) => Some(self.lower_name(n)),
            None => None,
        }
    }

    /// Lowers a child in expression position. Where the source has none, a
    /// placeholder stands in.
    pub fn lower_expr_opt(&mut self, e: &ExprChild) -> (id: ExprId)
        requires
            old(self)@.has_room(weight_opt(*e)),
        ensures
            (final(self)@, id) == semantics::lower_expr_opt(old(self)@, *e),
            final(self)@.on_track(0, old(self)@, weight_opt(*e)),
            old(self)@.exprs.len() <= id.0 < final(self)@.exprs.len(),
            old(self)@.closed() ==> final(self)@.closed(),
        decreases *e, 0nat,
    {
        match e {
            Some(b) => self.lower_expr(b),
            None => self.alloc_missing(),
        }
    }

    /// Lowers a child only where the source has it.
    fn lower_expr_some(&mut self, e: &ExprChild) -> (id: Option<ExprId>)
        requires
            old(self)@.has_room(weight_opt(*e)),
        ensures
            (final(self)@, id) == semantics::lower_expr_some(old(self)@, *e),
            final(self)@.on_track(0, old(self)@, weight_opt(*e)),
            old(self)@.closed() ==> final(self)@.closed(),
            expr_below(id, final(self)@.exprs.len()),
        decreases *e, 0nat,
    {
        match e {
            Some(b) => Some(self.lower_expr(b)),
            None => None,
        }
    }

    /// Lowers an expression and everything below it, and returns its handle.
    pub fn lower_expr(&mut self, e: &SyntaxExpr) -> (id: ExprId)
        requires
            old(self)@.has_room(weight_expr(*e)),
        ensures
            (final(self)@, id) == semantics::lower_expr(old(self)@, *e),
            final(self)@.on_track(0, old(self)@, weight_expr(*e)),
            old(self)@.exprs.len() <= id.0 < final(self)@.exprs.len(),
            old(self)@.closed() ==> final(self)@.closed(),
            !(*e is Paren) ==> final(self)@.source_map.expr_map.contains_key(e.ptr())
                && final(self)@.source_map.expr_map[e.ptr()] == id,
        decreases *e, 1nat,
    {
        match e {
            SyntaxExpr::Literal(_) => self.lower_leaf(e),
            SyntaxExpr::Ref { .. } => self.lower_leaf(e),
            SyntaxExpr::Paren { .. } => self.lower_unary(e),
            SyntaxExpr::UnaryOp { .. } => self.lower_unary(e),
            SyntaxExpr::Apply { .. } => self.lower_binary(e),
            SyntaxExpr::BinaryOp { .. } => self.lower_binary(e),
            SyntaxExpr::Assert { .. } => self.lower_control(e),
            SyntaxExpr::With { .. } => self.lower_control(e),
            SyntaxExpr::IfThenElse { .. } => self.lower_control(e),
            SyntaxExpr::Lambda { .. } => self.lower_lambda(e),
            SyntaxExpr::HasAttr { .. } => self.lower_attr_access(e),
            SyntaxExpr::Select { .. } => self.lower_attr_access(e),
            SyntaxExpr::String(_) => self.lower_sequence(e),
            SyntaxExpr::IndentString(_) => self.lower_sequence(e),
            SyntaxExpr::List { .. } => self.lower_sequence(e),
            SyntaxExpr::PathInterpolation { .. } => self.lower_sequence(e),
            SyntaxExpr::LetIn { .. } => self.lower_bindings(e),
            SyntaxExpr::AttrSet(_) => self.lower_bindings(e),
        }
    }

    /// Lowers a literal or a reference.
    fn lower_leaf(&mut self, e: &SyntaxExpr) -> (id: ExprId)
        requires
            *e is Literal || *e is Ref,
            old(self)@.has_room(weight_expr(*e)),
        ensures
            (final(self)@, id) == semantics::lower_expr(old(self)@, *e),
            final(self)@.on_track(0, old(self)@, weight_expr(*e)),
            old(self)@.exprs.len() <= id.0 < final(self)@.exprs.len(),
            old(self)@.closed() ==> final(self)@.closed(),
            !(*e is Paren) ==> final(self)@.source_map.expr_map.contains_key(e.ptr())
                && final(self)@.source_map.expr_map[e.ptr()] == id,
        decreases *e, 0nat,
    {
        let ptr = e.ast_ptr();
        match e {
            SyntaxExpr::Literal(lit) => {
                let expr = match self.lower_literal(lit) {
                    Some(l) => Expr::Literal(l),
                    None => Expr::Missing,
                };
                self.alloc_expr(expr, ptr)
            },
            SyntaxExpr::Ref { name, .. } => {
                let name = text_of(name);
                self.alloc_expr(Expr::Reference(name), ptr)
            },
            _ => {
                assert(false);
                vstd::pervasive::unreached()
            },
        }
    }

    /// Lowers what has one operand: parentheses, which lower to what they
    /// enclose, and a unary operation.
    fn lower_unary(&mut self, e: &SyntaxExpr) -> (id: ExprId)
        requires
            *e is Paren || *e is UnaryOp,
            old(self)@.has_room(weight_expr(*e)),
        ensures
            (final(self)@, id) == semantics::lower_expr(old(self)@, *e),
            final(self)@.on_track(0, old(self)@, weight_expr(*e)),
            old(self)@.exprs.len() <= id.0 < final(self)@.exprs.len(),
            old(self)@.closed() ==> final(self)@.closed(),
            !(*e is Paren) ==> final(self)@.source_map.expr_map.contains_key(e.ptr())
                && final(self)@.source_map.expr_map[e.ptr()] == id,
        decreases *e, 0nat,
    {
        let ptr = e.ast_ptr();
        match e {
            SyntaxExpr::Paren { expr, .. } => self.lower_expr_opt(expr),
            SyntaxExpr::UnaryOp { op, arg, .. } => {
                let arg = self.lower_expr_opt(arg);
                self.alloc_expr(Expr::Unary(*op, arg), ptr)
            },
            _ => {
                assert(false);
                vstd::pervasive::unreached()
            },
        }
    }

    /// Lowers an application or a binary operation.
    fn lower_binary(&mut self, e: &SyntaxExpr) -> (id: ExprId)
        requires
            *e is Apply || *e is BinaryOp,
            old(self)@.has_room(weight_expr(*e)),
        ensures
            (final(self)@, id) == semantics::lower_expr(old(self)@, *e),
            final(self)@.on_track(0, old(self)@, weight_expr(*e)),
            old(self)@.exprs.len() <= id.0 < final(self)@.exprs.len(),
            old(self)@.closed() ==> final(self)@.closed(),
            !(*e is Paren) ==> final(self)@.source_map.expr_map.contains_key(e.ptr())
                && final(self)@.source_map.expr_map[e.ptr()] == id,
        decreases *e, 0nat,
    {
        let ptr = e.ast_ptr();
        match e {
            SyntaxExpr::Apply { function, argument, .. } => {
                let func = self.lower_expr_opt(function);
                let arg = self.lower_expr_opt(argument);
                self.alloc_expr(Expr::Apply(func, arg), ptr)
            },
            SyntaxExpr::BinaryOp { lhs, op, rhs, .. } => {
                let lhs = self.lower_expr_opt(lhs);
                let rhs = self.lower_expr_opt(rhs);
                self.alloc_expr(Expr::Binary(*op, lhs, rhs), ptr)
            },
            _ => {
                assert(false);
                vstd::pervasive::unreached()
            },
        }
    }

    /// Lowers an `assert`, a `with` or a conditional.
    fn lower_control(&mut self, e: &SyntaxExpr) -> (id: ExprId)
        requires
            *e is Assert || *e is With || *e is IfThenElse,
            old(self)@.has_room(weight_expr(*e)),
        ensures
            (final(self)@, id) == semantics::lower_expr(old(self)@, *e),
            final(self)@.on_track(0, old(self)@, weight_expr(*e)),
            old(self)@.exprs.len() <= id.0 < final(self)@.exprs.len(),
            old(self)@.closed() ==> final(self)@.closed(),
            !(*e is Paren) ==> final(self)@.source_map.expr_map.contains_key(e.ptr())
                && final(self)@.source_map.expr_map[e.ptr()] == id,
        decreases *e, 0nat,
    {
        let ptr = e.ast_ptr();
        match e {
            SyntaxExpr::Assert { condition, body, .. } => {
                let cond = self.lower_expr_opt(condition);
                let body = self.lower_expr_opt(body);
                self.alloc_expr(Expr::Assert(cond, body), ptr)
            },
            SyntaxExpr::With { environment, body, .. } => {
                let env = self.lower_expr_opt(environment);
                let body = self.lower_expr_opt(body);
                self.alloc_expr(Expr::With(env, body), ptr)
            },
            SyntaxExpr::IfThenElse { condition, then_body, else_body, .. } => {
                let cond = self.lower_expr_opt(condition);
                let then_body = self.lower_expr_opt(then_body);
                let else_body = self.lower_expr_opt(else_body);
                self.alloc_expr(Expr::IfThenElse(cond, then_body, else_body), ptr)
            },
            _ => {
                assert(false);
                vstd::pervasive::unreached()
            },
        }
    }

    /// Lowers a lambda: its parameter first, then its body.
    fn lower_lambda(&mut self, e: &SyntaxExpr) -> (id: ExprId)
        requires
            *e is Lambda,
            old(self)@.has_room(weight_expr(*e)),
        ensures
            (final(self)@, id) == semantics::lower_expr(old(self)@, *e),
            final(self)@.on_track(0, old(self)@, weight_expr(*e)),
            old(self)@.exprs.len() <= id.0 < final(self)@.exprs.len(),
            old(self)@.closed() ==> final(self)@.closed(),
            !(*e is Paren) ==> final(self)@.source_map.expr_map.contains_key(e.ptr())
                && final(self)@.source_map.expr_map[e.ptr()] == id,
        decreases *e, 0nat,
    {
        let ptr = e.ast_ptr();
        match e {
            SyntaxExpr::Lambda { param, body, .. } => {
                let (name, pat) = self.lower_param(param);
                let body = self.lower_expr_opt(body);
                self.alloc_expr(Expr::Lambda(name, pat, body), ptr)
            },
            _ => {
                assert(false);
                vstd::pervasive::unreached()
            },
        }
    }

    /// Lowers a test for an attribute or a selection of one.
    fn lower_attr_access(&mut self, e: &SyntaxExpr) -> (id: ExprId)
        requires
            *e is HasAttr || *e is Select,
            old(self)@.has_room(weight_expr(*e)),
        ensures
            (final(self)@, id) == semantics::lower_expr(old(self)@, *e),
            final(self)@.on_track(0, old(self)@, weight_expr(*e)),
            old(self)@.exprs.len() <= id.0 < final(self)@.exprs.len(),
            old(self)@.closed() ==> final(self)@.closed(),
            !(*e is Paren) ==> final(self)@.source_map.expr_map.contains_key(e.ptr())
                && final(self)@.source_map.expr_map[e.ptr()] == id,
        decreases *e, 0nat,
    {
        let ptr = e.ast_ptr();
        match e {
            SyntaxExpr::HasAttr { set, attrpath, .. } => {
                let set = self.lower_expr_opt(set);
                let attrpath = self.lower_attrpath_opt(attrpath);
                self.alloc_expr(Expr::HasAttr(set, attrpath), ptr)
            },
            SyntaxExpr::Select { set, attrpath, default_expr, .. } => {
                let set = self.lower_expr_opt(set);
                let attrpath = self.lower_attrpath_opt(attrpath);
                let default_expr = self.lower_expr_some(default_expr);
                self.alloc_expr(Expr::Select(set, attrpath, default_expr), ptr)
            },
            _ => {
                assert(false);
                vstd::pervasive::unreached()
            },
        }
    }

    /// Lowers a string, a list or an interpolated path.
    fn lower_sequence(&mut self, e: &SyntaxExpr) -> (id: ExprId)
        requires
            *e is String || *e is IndentString || *e is List || *e is PathInterpolation,
            old(self)@.has_room(weight_expr(*e)),
        ensures
            (final(self)@, id) == semantics::lower_expr(old(self)@, *e),
            final(self)@.on_track(0, old(self)@, weight_expr(*e)),
            old(self)@.exprs.len() <= id.0 < final(self)@.exprs.len(),
            old(self)@.closed() ==> final(self)@.closed(),
            !(*e is Paren) ==> final(self)@.source_map.expr_map.contains_key(e.ptr())
                && final(self)@.source_map.expr_map[e.ptr()] == id,
        decreases *e, 0nat,
    {
        let ptr = e.ast_ptr();
        match e {
            SyntaxExpr::String(node) => self.lower_string(node, ptr),
            SyntaxExpr::IndentString(node) => self.lower_string(node, ptr),
            SyntaxExpr::List { elements, .. } => {
                let elements = self.lower_exprs(elements);
                self.alloc_expr(Expr::List(elements), ptr)
            },
            SyntaxExpr::PathInterpolation { parts, .. } => {
                let parts = self.lower_path_parts(parts);
                self.alloc_expr(Expr::PathInterpolation(parts), ptr)
            },
            _ => {
                assert(false);
                vstd::pervasive::unreached()
            },
        }
    }

    /// Lowers a `let .. in` or a set literal: its declarations are merged
    /// into one set of bindings, which is then finished.
    fn lower_bindings(&mut self, e: &SyntaxExpr) -> (id: ExprId)
        requires
            *e is LetIn || *e is AttrSet,
            old(self)@.has_room(weight_expr(*e)),
        ensures
            (final(self)@, id) == semantics::lower_expr(old(self)@, *e),
            final(self)@.on_track(0, old(self)@, weight_expr(*e)),
            old(self)@.exprs.len() <= id.0 < final(self)@.exprs.len(),
            old(self)@.closed() ==> final(self)@.closed(),
            !(*e is Paren) ==> final(self)@.source_map.expr_map.contains_key(e.ptr())
                && final(self)@.source_map.expr_map[e.ptr()] == id,
        decreases *e, 0nat,
    {
        let ptr = e.ast_ptr();
        match e {
            SyntaxExpr::LetIn { bindings, body, .. } => {
                let mut set = MergingSet::new(true);
                set.merge_bindings(self, bindings, false);
                let bindings = set.finish(self);
                let body = self.lower_expr_opt(body);
                self.alloc_expr(Expr::LetIn(bindings, body), ptr)
            },
            SyntaxExpr::AttrSet(node) => {
                let is_rec = node.rec_token || node.let_token;
                let mut set = MergingSet::new(is_rec);
                set.merge_bindings(self, &node.bindings, true);
                let bindings = set.finish(self);
                let expr = if !node.rec_token && node.let_token {
                    Expr::LetAttrset(bindings)
                } else {
                    Expr::Attrset(bindings)
                };
                self.alloc_expr(expr, ptr)
            },
            _ => {
                assert(false);
                vstd::pervasive::unreached()
            },
        }
    }

    /// Lowers the elements of a list, from left to right.
    fn lower_exprs(&mut self, es: &Vec<SyntaxExpr>) -> (ids: Vec<ExprId>)
        requires
            old(self)@.has_room(weight_exprs(es@, 0)),
        ensures
            (final(self)@, ids@) == semantics::lower_exprs(old(self)@, es@, 0, Seq::empty()),
            final(self)@.on_track(0, old(self)@, weight_exprs(es@, 0)),
            old(self)@.closed() ==> final(self)@.closed(),
            all_below(ids@, final(self)@.exprs.len()),
        decreases es@, es@.len(),
    {
        let mut ids: Vec<ExprId> = Vec::new();
        let mut i: usize = 0;
        while i < es.len()
            invariant
                i <= es.len(),
                old(self)@.has_room(weight_exprs(es@, 0)),
                self@.on_track(weight_exprs(es@, i as int), old(self)@, weight_exprs(es@, 0)),
                old(self)@.closed() ==> self@.closed(),
                all_below(ids@, self@.exprs.len()),
                semantics::lower_exprs(self@, es@, i as int, ids@) == semantics::lower_exprs(
                    old(self)@,
                    es@,
                    0,
                    Seq::empty(),
                ),
            decreases es.len() - i,
        {
            let id = self.lower_expr(&es[i]);
            ids.push(id);
            i += 1;
        }
        ids
    }

    /// Lowers the value of a literal.
    pub fn lower_literal(&self, lit: &LiteralNode) -> (r: Option<Literal>)
        ensures
            match r {
                Some(l) => lower_literal_spec(self@.file_id, *lit) == Some(l@),
                None => lower_literal_spec(self@.file_id, *lit).is_none(),
            },
    {
        match &lit.token {
            Some(token) => lower_literal_token(self.file_id(), token),
            None => None,
        }
    }

    /// Lowers the parameter of a lambda: first its name, then the fields of
    /// its pattern.
    fn lower_param(&mut self, param: &Option<ParamNode>) -> (r: (Option<NameDefId>, Option<Pat>))
        requires
            old(self)@.has_room(weight_param(*param)),
        ensures
            semantics::lower_param(old(self)@, *param) == (
                final(self)@,
                r.0,
                match r.1 {
                    Some(p) => Some(p@),
                    None => None,
                },
            ),
            final(self)@.on_track(0, old(self)@, weight_param(*param)),
            old(self)@.closed() ==> final(self)@.closed(),
            name_below(r.0, final(self)@.name_defs.len()),
            match r.1 {
                Some(p) => p@.within(final(self)@.exprs.len(), final(self)@.name_defs.len()),
                None => true,
            },
        decreases *param, 0nat,
    {
        match param {
            None => (None, None),
            Some(p) => {
                let name = self.lower_name_opt(&p.name);
                match &p.pat {
                    None => (name, None),
                    Some(pat) => {
                        let fields = self.lower_pat_fields(&pat.fields);
                        let pat = Pat { fields, ellipsis: pat.ellipsis };
                        proof {
                            assert(pat@.fields == (PatView {
                                fields: pat.fields@,
                                ellipsis: false,
                            }).fields);
                        }
                        (name, Some(pat))
                    },
                }
            },
        }
    }

    /// Lowers the fields of a pattern: of each, first its name, then its
    /// default.
    fn lower_pat_fields(&mut self, fields: &Vec<PatFieldNode>) -> (r: Vec<
        (Option<NameDefId>, Option<ExprId>),
    >)
        requires
            old(self)@.has_room(weight_fields(fields@, 0)),
        ensures
            (final(self)@, r@) == semantics::lower_pat_fields(
                old(self)@,
                fields@,
                0,
                Seq::empty(),
            ),
            final(self)@.on_track(0, old(self)@, weight_fields(fields@, 0)),
            old(self)@.closed() ==> final(self)@.closed(),
            (PatView { fields: r@, ellipsis: false }).within(
                final(self)@.exprs.len(),
                final(self)@.name_defs.len(),
            ),
        decreases fields@, fields@.len(),
    {
        let mut r: Vec<(Option<NameDefId>, Option<ExprId>)> = Vec::new();
        let mut i: usize = 0;
        while i < fields.len()
            invariant
                i <= fields.len(),
                old(self)@.has_room(weight_fields(fields@, 0)),
                self@.on_track(
                    weight_fields(fields@, i as int),
                    old(self)@,
                    weight_fields(fields@, 0),
                ),
                old(self)@.closed() ==> self@.closed(),
                (PatView { fields: r@, ellipsis: false }).within(
                    self@.exprs.len(),
                    self@.name_defs.len(),
                ),
                semantics::lower_pat_fields(self@, fields@, i as int, r@)
                    == semantics::lower_pat_fields(old(self)@, fields@, 0, Seq::empty()),
            decreases fields.len() - i,
        {
            let ghost before = r@;
            let ghost exprs_before = self@.exprs.len();
            let ghost names_before = self@.name_defs.len();
            proof {
                let view = PatView { fields: before, ellipsis: false };
                assert forall|k: int| 0 <= k < before.len() implies name_below(
                    (#[trigger] before[k]).0,
                    names_before,
                ) && expr_below(before[k].1, exprs_before) by {
                    assert(view.fields[k] == before[k]);
                }
            }
            let name = self.lower_name_opt(&fields[i].name);
            let default_expr = self.lower_expr_some(&fields[i].default_expr);
            r.push((name, default_expr));
            proof {
                assert forall|k: int| 0 <= k < r@.len() implies name_below(
                    (#[trigger] r@[k]).0,
                    self@.name_defs.len(),
                ) && expr_below(r@[k].1, self@.exprs.len()) by {
                    if k < before.len() {
                        assert(r@[k] == before[k]);
                        assert(name_below(before[k].0, names_before));
                        assert(names_before <= self@.name_defs.len());
                        assert(exprs_before <= self@.exprs.len());
                    }
                }
            }
            i += 1;
        }
        r
    }

    /// Lowers the segments of an attribute path in an expression.
    pub fn lower_attrpath_opt(&mut self, attrs: &Vec<Attr>) -> (ids: Vec<ExprId>)
        requires
            old(self)@.has_room(weight_attrs(attrs@, 0)),
        ensures
            (final(self)@, ids@) == semantics::lower_attrpath(old(self)@, attrs@, 0, Seq::empty()),
            final(self)@.on_track(0, old(self)@, weight_attrs(attrs@, 0)),
            old(self)@.closed() ==> final(self)@.closed(),
            all_below(ids@, final(self)@.exprs.len()),
        decreases attrs@, attrs@.len(),
    {
        let mut ids: Vec<ExprId> = Vec::new();
        let mut i: usize = 0;
        while i < attrs.len()
            invariant
                i <= attrs.len(),
                old(self)@.has_room(weight_attrs(attrs@, 0)),
                self@.on_track(weight_attrs(attrs@, i as int), old(self)@, weight_attrs(attrs@, 0)),
                old(self)@.closed() ==> self@.closed(),
                all_below(ids@, self@.exprs.len()),
                semantics::lower_attrpath(self@, attrs@, i as int, ids@)
                    == semantics::lower_attrpath(old(self)@, attrs@, 0, Seq::empty()),
            decreases attrs.len() - i,
        {
            proof {
                assert(weight_attrs(attrs@, i as int) == weight_attr(attrs@[i as int])
                    + weight_attrs(attrs@, i + 1));
            }
            let id = match &attrs[i] {
                Attr::Dynamic(d) => self.lower_expr_opt(&d.expr),
                Attr::Name(n) => {
                    let name = text_of(&n.text);
                    let ptr = n.ast_ptr();
                    self.alloc_expr(Expr::Literal(Literal::String(name)), ptr)
                },
                Attr::String(s) => {
                    let ptr = s.ast_ptr();
                    self.lower_string(s, ptr)
                },
            };
            ids.push(id);
            i += 1;
        }
        ids
    }

    /// Lowers a string for the node at `ptr`: only its interpolated parts
    /// are kept.
    pub fn lower_string(&mut self, node: &StringNode, ptr: AstPtr) -> (id: ExprId)
        requires
            old(self)@.has_room(1 + weight_parts(node.parts@, 0)),
        ensures
            (final(self)@, id) == semantics::lower_string(old(self)@, *node, ptr),
            final(self)@.on_track(0, old(self)@, 1 + weight_parts(node.parts@, 0)),
            old(self)@.exprs.len() <= id.0 < final(self)@.exprs.len(),
            old(self)@.closed() ==> final(self)@.closed(),
            final(self)@.source_map.expr_map.contains_key(ptr)
                && final(self)@.source_map.expr_map[ptr] == id,
        decreases *node, 0nat,
    {
        let parts = &node.parts;
        let mut ids: Vec<ExprId> = Vec::new();
        let mut i: usize = 0;
        while i < parts.len()
            invariant
                i <= parts.len(),
                parts == &node.parts,
                old(self)@.has_room(1 + weight_parts(parts@, 0)),
                self@.on_track(
                    1 + weight_parts(parts@, i as int),
                    old(self)@,
                    1 + weight_parts(parts@, 0),
                ),
                old(self)@.closed() ==> self@.closed(),
                all_below(ids@, self@.exprs.len()),
                semantics::lower_string_parts(self@, parts@, i as int, ids@)
                    == semantics::lower_string_parts(old(self)@, parts@, 0, Seq::empty()),
            decreases parts.len() - i,
        {
            match &parts[i] {
                StringPart::Dynamic(d) => {
                    let id = self.lower_expr_opt(&d.expr);
                    ids.push(id);
                },
                _ => {},
            }
            i += 1;
        }
        self.alloc_expr(Expr::StringInterpolation(ids), ptr)
    }

    /// Lowers the interpolated parts of a path.
    fn lower_path_parts(&mut self, parts: &Vec<PathPart>) -> (ids: Vec<ExprId>)
        requires
            old(self)@.has_room(weight_path_parts(parts@, 0)),
        ensures
            (final(self)@, ids@) == semantics::lower_path_parts(
                old(self)@,
                parts@,
                0,
                Seq::empty(),
            ),
            final(self)@.on_track(0, old(self)@, weight_path_parts(parts@, 0)),
            old(self)@.closed() ==> final(self)@.closed(),
            all_below(ids@, final(self)@.exprs.len()),
        decreases parts@, parts@.len(),
    {
        let mut ids: Vec<ExprId> = Vec::new();
        let mut i: usize = 0;
        while i < parts.len()
            invariant
                i <= parts.len(),
                old(self)@.has_room(weight_path_parts(parts@, 0)),
                self@.on_track(
                    weight_path_parts(parts@, i as int),
                    old(self)@,
                    weight_path_parts(parts@, 0),
                ),
                old(self)@.closed() ==> self@.closed(),
                all_below(ids@, self@.exprs.len()),
                semantics::lower_path_parts(self@, parts@, i as int, ids@)
                    == semantics::lower_path_parts(old(self)@, parts@, 0, Seq::empty()),
            decreases parts.len() - i,
        {
            match &parts[i] {
                PathPart::Dynamic(d) => {
                    let id = self.lower_expr_opt(&d.expr);
                    ids.push(id);
                },
                PathPart::Fragment(_) => {},
            }
            i += 1;
        }
        ids
    }

    /// Files a key whose text is statically known: under a name definition
    /// of its own in a recursive set, under its text otherwise.
    fn static_key(&mut self, is_rec: bool, name: String, ptr: AstPtr) -> (key: BindingKey)
        requires
            old(self)@.has_room(1),
        ensures
            (final(self)@, key@) == semantics::static_key(old(self)@, is_rec, name@, ptr),
            semantics::key_name(final(self)@, key@) == Some(name@),
            final(self)@.exprs == old(self)@.exprs,
            final(self)@.name_defs.len() <= old(self)@.name_defs.len() + 1,
            key matches BindingKey::NameDef(id) ==> id.0 < final(self)@.name_defs.len(),
            !(key is Dynamic),
            old(self)@.closed() ==> final(self)@.closed(),
            key matches BindingKey::NameDef(id) ==> id.0 >= old(self)@.name_defs.len(),
    {
        if is_rec {
            BindingKey::NameDef(self.alloc_name_def(name, ptr))
        } else {
            BindingKey::Name(name)
        }
    }

    /// Resolves a string as a key.
    fn lower_string_key(&mut self, is_rec: bool, node: &StringNode) -> (key: BindingKey)
        requires
            old(self)@.has_room(1 + weight_parts(node.parts@, 0)),
        ensures
            (final(self)@, key@) == semantics::lower_string_key(old(self)@, is_rec, *node),
            semantics::key_name(final(self)@, key@) == semantics::string_name(*node),
            final(self)@.on_track(0, old(self)@, 1 + weight_parts(node.parts@, 0)),
            key matches BindingKey::NameDef(id) ==> id.0 < final(self)@.name_defs.len(),
            old(self)@.closed() ==> final(self)@.closed(),
            key@.within(final(self)@.exprs.len(), final(self)@.name_defs.len()),
            key matches BindingKey::NameDef(id) ==> id.0 >= old(self)@.name_defs.len(),
            key matches BindingKey::Dynamic(id) ==> id.0 >= old(self)@.exprs.len(),
        decreases *node, 1nat,
    {
        if !has_dynamic(&node.parts) {
            let content = static_content(&node.parts);
            self.static_key(is_rec, content, node.ast_ptr())
        } else {
            let ptr = node.ast_ptr();
            BindingKey::Dynamic(self.lower_string(node, ptr))
        }
    }

    /// Resolves an interpolation as a key.
    fn lower_dynamic_key(&mut self, is_rec: bool, e: &ExprChild) -> (key: BindingKey)
        requires
            old(self)@.has_room(weight_opt(*e)),
        ensures
            (final(self)@, key@) == semantics::lower_dynamic_key(old(self)@, is_rec, *e),
            semantics::key_name(final(self)@, key@) == semantics::dynamic_name(*e),
            final(self)@.on_track(0, old(self)@, weight_opt(*e)),
            key matches BindingKey::NameDef(id) ==> id.0 < final(self)@.name_defs.len(),
            old(self)@.closed() ==> final(self)@.closed(),
            key@.within(final(self)@.exprs.len(), final(self)@.name_defs.len()),
            key matches BindingKey::NameDef(id) ==> id.0 >= old(self)@.name_defs.len(),
            key matches BindingKey::Dynamic(id) ==> id.0 >= old(self)@.exprs.len(),
        decreases *e, 1nat,
    {
        match e {
            Some(b) => match &**b {
                SyntaxExpr::Paren { expr, .. } => self.lower_dynamic_key(is_rec, expr),
                SyntaxExpr::String(node) => self.lower_string_key(is_rec, node),
                _ => BindingKey::Dynamic(self.lower_expr_opt(e)),
            },
            None => BindingKey::Dynamic(self.lower_expr_opt(e)),
        }
    }

    /// Resolves one segment of an attribute path as the key of a binding in
    /// a set that is recursive or not.
    pub fn lower_key(&mut self, is_rec: bool, attr: &Attr) -> (key: BindingKey)
        requires
            old(self)@.has_room(weight_attr(*attr)),
        ensures
            (final(self)@, key@) == semantics::lower_key(old(self)@, is_rec, *attr),
            semantics::key_name(final(self)@, key@) == semantics::attr_name(*attr),
            final(self)@.on_track(2, old(self)@, weight_attr(*attr)),
            key matches BindingKey::NameDef(id) ==> id.0 < final(self)@.name_defs.len(),
            old(self)@.closed() ==> final(self)@.closed(),
            key@.within(final(self)@.exprs.len(), final(self)@.name_defs.len()),
            key matches BindingKey::NameDef(id) ==> id.0 >= old(self)@.name_defs.len(),
            key matches BindingKey::Dynamic(id) ==> id.0 >= old(self)@.exprs.len(),
        decreases *attr, 0nat,
    {
        match attr {
            Attr::Name(n) => {
                let name = text_of(&n.text);
                self.static_key(is_rec, name, n.ast_ptr())
            },
            Attr::String(s) => self.lower_string_key(is_rec, s),
            Attr::Dynamic(d) => self.lower_dynamic_key(is_rec, &d.expr),
        }
    }
}

impl MergingEntry {
    /// Reports that the declaration at `ptr` conflicts with this entry: at
    /// the place where the entry was defined, unless that was reported
    /// before, and at `ptr`.
    pub fn emit_duplicated_key(&mut self, ctx: &mut LowerCtx, ptr: &AstPtr)
        ensures
            (final(ctx)@, final(self)@) == semantics::emit_duplicated_key(
                old(ctx)@,
                old(self)@,
                *ptr,
            ),
            old(self).wf() ==> final(self).wf(),
            same_entry(old(self)@, final(self)@),
            final(self)@.value == old(self)@.value,
            pending_entry(final(self)@) == pending_entry(old(self)@),
            final(ctx)@.on_track(0, old(ctx)@, 0),
            old(ctx)@.holds_entry(old(self)@) ==> final(ctx)@.holds_entry(final(self)@),
    {
        proof {
            lemma_emit_duplicated_key(old(ctx)@, old(self)@, *ptr);
        }
        if !self.is_duplicated {
            self.is_duplicated = true;
            ctx.diagnostic(self.def_ptr.text_range(), DiagnosticKind::DuplicatedKey);
        }
        ctx.diagnostic(ptr.text_range(), DiagnosticKind::DuplicatedKey);
    }

    /// Turns this entry into a nested set for the declaration at `def_ptr`
    /// and hands out that set. An empty entry becomes an empty set; a set
    /// stays; a final value gives way to a set, which is a conflict, and is
    /// kept in that set if it is an expression.
    pub fn make_attrset(&mut self, ctx: &mut LowerCtx, is_rec: bool, def_ptr: &AstPtr) -> (set:
        &mut MergingSet)
        requires
            old(self).wf(),
            old(ctx)@.has_room(1),
        ensures
            final(ctx)@ == semantics::make_attrset(old(ctx)@, old(self)@, is_rec, *def_ptr).0,
            set@ == semantics::make_attrset(old(ctx)@, old(self)@, is_rec, *def_ptr).1.nested(),
            final(self)@ == semantics::make_attrset(
                old(ctx)@,
                old(self)@,
                is_rec,
                *def_ptr,
            ).1.with_nested(final(set)@),
            set.wf(),
            final(set).wf() ==> final(self).wf(),
            same_entry(old(self)@, final(self)@),
            pending_entry(final(self)@) == 1 + pending(final(set)@),
            old(ctx)@.holds_entry(old(self)@) ==> final(ctx)@.holds(set@),
            final(ctx)@.on_track(
                1 + pending(set@),
                old(ctx)@,
                pending_entry(old(self)@) + (if old(self)@.value is Final {
                    2nat
                } else {
                    0nat
                }),
            ),
    {
        proof {
            lemma_make_attrset(old(ctx)@, old(self)@, is_rec, *def_ptr);
        }
        match &mut self.value {
            MergingValue::Placeholder => {
                self.value = MergingValue::Attrset(MergingSet::new(is_rec));
            },
            MergingValue::Attrset(_) => {},
            MergingValue::Final(value) => {
                let value = *value;
                let mut set = MergingSet::new(is_rec);
                match value {
                    BindingValue::Expr(expr) => {
                        set.recover_error(ctx, expr, self.def_ptr);
                    },
                    _ => {},
                }
                self.emit_duplicated_key(ctx, def_ptr);
                self.def_ptr = *def_ptr;
                self.value = MergingValue::Attrset(set);
            },
        }
        match &mut self.value {
            MergingValue::Attrset(set) => set,
            _ => {
                assert(false);
                vstd::pervasive::unreached()
            },
        }
    }

    /// Merges the terminal value `e` of the declaration at `def_ptr` into
    /// this entry.
    fn merge_terminal(&mut self, ctx: &mut LowerCtx, def_ptr: &AstPtr, e: &ExprChild)
        requires
            old(self).wf(),
            old(ctx)@.has_room(pending_entry(old(self)@) + weight_opt(*e)),
        ensures
            (final(ctx)@, final(self)@) == semantics::merge_terminal(
                old(ctx)@,
                old(self)@,
                *def_ptr,
                *e,
            ),
            final(self).wf(),
            same_entry(old(self)@, final(self)@),
            final(ctx)@.on_track(
                pending_entry(final(self)@),
                old(ctx)@,
                pending_entry(old(self)@) + weight_opt(*e),
            ),
            old(ctx)@.holds_entry(old(self)@) ==> final(ctx)@.holds_entry(final(self)@),
        decreases *e, 1nat,
    {
        match &self.value {
            MergingValue::Placeholder => {
                self.value = MergingValue::Final(BindingValue::Expr(ctx.lower_expr_opt(e)));
                proof {
                    if old(ctx)@.holds_entry(old(self)@) {
                        lemma_entry_within_grows(
                            old(self)@,
                            old(ctx)@.exprs.len(),
                            old(ctx)@.name_defs.len(),
                            ctx@.exprs.len(),
                            ctx@.name_defs.len(),
                        );
                    }
                }
            },
            _ => {
                if e.is_some() {
                    self.emit_duplicated_key(ctx, def_ptr);
                }
            },
        }
    }

    /// Merges the right-hand side `e` of the declaration at `def_ptr` into
    /// this entry. Under any number of parentheses, a set literal that is not
    /// a `let` is folded into the nested set of the entry; anything else is
    /// a terminal value.
    pub fn merge_ast(&mut self, ctx: &mut LowerCtx, def_ptr: &AstPtr, e: &ExprChild)
        requires
            old(self).wf(),
            old(ctx)@.has_room(pending_entry(old(self)@) + weight_opt(*e) + 1),
        ensures
            (final(ctx)@, final(self)@) == semantics::merge_ast(
                old(ctx)@,
                old(self)@,
                *def_ptr,
                *e,
            ),
            final(self).wf(),
            same_entry(old(self)@, final(self)@),
            final(ctx)@.on_track(
                pending_entry(final(self)@),
                old(ctx)@,
                pending_entry(old(self)@) + weight_opt(*e) + 1,
            ),
            old(ctx)@.holds_entry(old(self)@) ==> final(ctx)@.holds_entry(final(self)@),
        decreases *e, 2nat,
    {
        match e {
            Some(b) => match &**b {
                SyntaxExpr::Paren { expr, .. } => {
                    self.merge_ast(ctx, def_ptr, expr);
                },
                SyntaxExpr::AttrSet(node) => {
                    if !node.let_token {
                        let ptr = node.ast_ptr();
                        let inner = self.make_attrset(ctx, node.rec_token, &ptr);
                        proof {
                            assert(weight_opt(*e) == 1 + weight_bindings(node.bindings@, 0));
                        }
                        inner.merge_bindings(ctx, &node.bindings, true);
                        proof {
                            if old(ctx)@.holds_entry(old(self)@) {
                                lemma_entry_within_grows(
                                    old(self)@,
                                    old(ctx)@.exprs.len(),
                                    old(ctx)@.name_defs.len(),
                                    ctx@.exprs.len(),
                                    ctx@.name_defs.len(),
                                );
                            }
                        }
                    } else {
                        self.merge_terminal(ctx, def_ptr, e);
                    }
                },
                _ => {
                    self.merge_terminal(ctx, def_ptr, e);
                },
            },
            None => {
                self.merge_terminal(ctx, def_ptr, e);
            },
        }
    }

    /// Merges `node` into this entry, which segment `i` of its path has
    /// found: the next segment goes on in the nested set of the entry, or,
    /// at the last segment, the value is merged into the entry.
    fn merge_into(
        &mut self,
        ctx: &mut LowerCtx,
        node: &AttrpathValueNode,
        i: usize,
        allow_dynamic: bool,
    )
        requires
            old(self).wf(),
            i < node.attrpath@.len(),
            old(ctx)@.has_room(
                pending_entry(old(self)@) + (if old(self)@.value is Placeholder {
                    0nat
                } else {
                    2nat
                }) + weight_attrs(node.attrpath@, i + 1) + weight_opt(node.value) + 1,
            ),
        ensures
            (final(ctx)@, final(self)@) == semantics::merge_into_entry(
                old(ctx)@,
                old(self)@,
                *node,
                i as int,
                allow_dynamic,
            ),
            final(self).wf(),
            same_entry(old(self)@, final(self)@),
            final(ctx)@.on_track(
                pending_entry(final(self)@),
                old(ctx)@,
                pending_entry(old(self)@) + (if old(self)@.value is Placeholder {
                    0nat
                } else {
                    2nat
                }) + weight_attrs(node.attrpath@, i + 1) + weight_opt(node.value) + 1,
            ),
            old(ctx)@.holds_entry(old(self)@) ==> final(ctx)@.holds_entry(final(self)@),
        decreases *node, 2 * (node.attrpath@.len() - i),
    {
        let len = node.attrpath.len();
        let ptr = node.attrpath[i].ast_ptr();
        if i + 1 < len {
            let inner = self.make_attrset(ctx, false, &ptr);
            inner.merge_path_from(ctx, node, i + 1, allow_dynamic);
            proof {
                if old(ctx)@.holds_entry(old(self)@) {
                    lemma_entry_within_grows(
                        old(self)@,
                        old(ctx)@.exprs.len(),
                        old(ctx)@.name_defs.len(),
                        ctx@.exprs.len(),
                        ctx@.name_defs.len(),
                    );
                }
            }
        } else {
            proof {
                assert(weight_attrs(node.attrpath@, i + 1) == 0);
            }
            self.merge_ast(ctx, &ptr, &node.value);
        }
    }

    /// The final value of this entry. A nested set becomes a set expression
    /// of its own, for the node where the entry was defined; an entry that
    /// holds nothing becomes a placeholder.
    pub fn finish(&self, ctx: &mut LowerCtx) -> (value: BindingValue)
        requires
            old(ctx)@.has_room(pending_entry(self@)),
        ensures
            (final(ctx)@, value) == semantics::finish_entry(old(ctx)@, self@),
            final(ctx)@.on_track(0, old(ctx)@, pending_entry(self@)),
            old(ctx)@.holds_entry(self@) ==> final(ctx)@.closed() && match value {
                BindingValue::InheritFrom(_) => self@.value == ValueModel::Final(value),
                BindingValue::Inherit(id) => id.0 < final(ctx)@.exprs.len(),
                BindingValue::Expr(id) => id.0 < final(ctx)@.exprs.len(),
            },
        decreases *self, 0nat,
    {
        match &self.value {
            MergingValue::Placeholder => BindingValue::Expr(ctx.alloc_missing()),
            MergingValue::Final(value) => *value,
            MergingValue::Attrset(set) => {
                let bindings = set.finish_entries(ctx);
                BindingValue::Expr(ctx.alloc_expr(Expr::Attrset(bindings), self.def_ptr))
            },
        }
    }
}

impl MergingSet {
    /// The set without entries.
    pub fn new(is_rec: bool) -> (set: MergingSet)
        ensures
            set@ == SetModel::new(is_rec),
            set.wf(),
    {
        let set = MergingSet {
            is_rec,
            entries: Vec::new(),
            names: new_index(),
            inherit_froms: Vec::new(),
        };
        proof {
            assert(set.model().entries =~= Seq::empty());
            assert(index_entries(set.names) =~= Map::empty());
        }
        set
    }

    /// Whether this set is recursive.
    pub fn is_rec(&self) -> (r: bool)
        ensures
            r == self@.is_rec,
    {
        self.is_rec
    }

    /// Adds `entry` as the last entry, and files it under its name if it has
    /// one. No entry may have that name yet.
    fn push_entry(&mut self, entry: MergingEntry)
        requires
            old(self).wf(),
            entry.wf(),
            position(old(self)@.entries, entry@.name) == old(self)@.entries.len(),
        ensures
            final(self)@ == old(self)@.push(entry@),
            final(self).wf(),
            final(self).entries@.len() == old(self).entries@.len() + 1,
            pending(final(self)@) == pending(old(self)@) + pending_entry(entry@),
    {
        let ghost model = entry.model();
        let n = self.entries.len();
        match &entry.name {
            Some(name) => {
                proof {
                    lemma_index_position(index_entries(self.names), self.model().entries, name@);
                }
                index_insert(&mut self.names, name.clone(), n);
            },
            None => {},
        }
        self.entries.push(entry);
        proof {
            assert(self.model().entries =~= old(self).model().entries.push(model));
            assert(forall|i: int|
                0 <= i < self.entries@.len() ==> (#[trigger] self.entries@[i]).wf());
            lemma_pending_push(old(self).model().entries, model, 0);
        }
    }

    /// Keeps an expression that belongs to no key: files it under a dynamic
    /// key made of a placeholder for the node at `ptr`.
    pub fn recover_error(&mut self, ctx: &mut LowerCtx, expr: ExprId, ptr: AstPtr)
        requires
            old(self).wf(),
            old(ctx)@.has_room(1),
        ensures
            (final(ctx)@, final(self)@) == semantics::recover_error(
                old(ctx)@,
                old(self)@,
                expr,
                ptr,
            ),
            final(self).wf(),
            pending(final(self)@) == pending(old(self)@),
            final(ctx)@.on_track(pending(final(self)@), old(ctx)@, pending(old(self)@) + 1),
            old(ctx)@.holds(old(self)@) && expr.0 < old(ctx)@.exprs.len() ==> final(ctx)@.holds(
                final(self)@,
            ),
    {
        proof {
            lemma_recover_error(old(ctx)@, old(self)@, expr, ptr);
            if old(ctx)@.holds(old(self)@) && expr.0 < old(ctx)@.exprs.len() {
                let after = semantics::recover_error(old(ctx)@, old(self)@, expr, ptr);
                lemma_set_within_grows(
                    old(self)@,
                    old(ctx)@.exprs.len(),
                    old(ctx)@.name_defs.len(),
                    after.0.exprs.len(),
                    after.0.name_defs.len(),
                );
                lemma_new_key(
                    old(self)@,
                    after.1.entries.last().key,
                    None,
                    old(ctx)@.exprs.len(),
                    old(ctx)@.name_defs.len(),
                );
                lemma_within_push(
                    old(self)@,
                    after.1.entries.last(),
                    after.0.exprs.len(),
                    after.0.name_defs.len(),
                );
                assert(after.1 == old(self)@.push(after.1.entries.last()));
            }
        }
        let key = BindingKey::Dynamic(ctx.alloc_expr(Expr::Missing, ptr));
        let entry = MergingEntry {
            key,
            name: None,
            def_ptr: ptr,
            is_duplicated: true,
            value: MergingValue::Final(BindingValue::Expr(expr)),
        };
        self.push_entry(entry);
    }

    /// Merges one declaration into this set.
    pub fn merge_binding(&mut self, ctx: &mut LowerCtx, binding: &Binding, allow_dynamic: bool)
        requires
            old(self).wf(),
            old(ctx)@.has_room(pending(old(self)@) + weight_binding(*binding)),
        ensures
            (final(ctx)@, final(self)@) == semantics::merge_binding(
                old(ctx)@,
                old(self)@,
                *binding,
                allow_dynamic,
            ),
            final(self).wf(),
            final(ctx)@.on_track(
                pending(final(self)@),
                old(ctx)@,
                pending(old(self)@) + weight_binding(*binding),
            ),
            old(ctx)@.holds(old(self)@) ==> final(ctx)@.holds(final(self)@),
        decreases *binding, 0nat,
    {
        match binding {
            Binding::Inherit(node) => {
                self.merge_inherit(ctx, node);
            },
            Binding::AttrpathValue(node) => {
                self.merge_path_value(ctx, node, allow_dynamic);
            },
        }
    }

    /// Merges the declarations `bindings` into this set, in order.
    pub fn merge_bindings(
        &mut self,
        ctx: &mut LowerCtx,
        bindings: &Vec<Binding>,
        allow_dynamic: bool,
    )
        requires
            old(self).wf(),
            old(ctx)@.has_room(pending(old(self)@) + weight_bindings(bindings@, 0)),
        ensures
            (final(ctx)@, final(self)@) == semantics::merge_bindings(
                old(ctx)@,
                old(self)@,
                bindings@,
                0,
                allow_dynamic,
            ),
            final(self).wf(),
            final(ctx)@.on_track(
                pending(final(self)@),
                old(ctx)@,
                pending(old(self)@) + weight_bindings(bindings@, 0),
            ),
            old(ctx)@.holds(old(self)@) ==> final(ctx)@.holds(final(self)@),
        decreases bindings@, bindings@.len(),
    {
        let mut i: usize = 0;
        while i < bindings.len()
            invariant
                i <= bindings.len(),
                self.wf(),
                old(ctx)@.has_room(pending(old(self)@) + weight_bindings(bindings@, 0)),
                ctx@.on_track(
                    pending(self@) + weight_bindings(bindings@, i as int),
                    old(ctx)@,
                    pending(old(self)@) + weight_bindings(bindings@, 0),
                ),
                semantics::merge_bindings(ctx@, self@, bindings@, i as int, allow_dynamic)
                    == semantics::merge_bindings(
                    old(ctx)@,
                    old(self)@,
                    bindings@,
                    0,
                    allow_dynamic,
                ),
                old(ctx)@.holds(old(self)@) ==> ctx@.holds(self@),
            decreases bindings.len() - i,
        {
            self.merge_binding(ctx, &bindings[i], allow_dynamic);
            i += 1;
        }
    }

    /// Merges an `inherit` declaration into this set.
    pub fn merge_inherit(&mut self, ctx: &mut LowerCtx, node: &InheritNode)
        requires
            old(self).wf(),
            old(ctx)@.has_room(pending(old(self)@) + weight_binding(Binding::Inherit(*node))),
        ensures
            (final(ctx)@, final(self)@) == semantics::merge_inherit(old(ctx)@, old(self)@, *node),
            final(self).wf(),
            final(ctx)@.on_track(
                pending(final(self)@),
                old(ctx)@,
                pending(old(self)@) + weight_binding(Binding::Inherit(*node)),
            ),
            old(ctx)@.holds(old(self)@) ==> final(ctx)@.holds(final(self)@),
        decreases *node, 0nat,
    {
        let from: Option<usize> = match &node.from_expr {
            Some(from) => {
                let expr = ctx.lower_expr_opt(&from.expr);
                let from_id = self.inherit_froms.len();
                self.inherit_froms.push(expr);
                proof {
                    assert(self.model().entries =~= old(self).model().entries);
                    if old(ctx)@.holds(old(self)@) {
                        lemma_set_within_grows(
                            old(self)@,
                            old(ctx)@.exprs.len(),
                            old(ctx)@.name_defs.len(),
                            ctx@.exprs.len(),
                            ctx@.name_defs.len(),
                        );
                        assert(self@.within(ctx@.exprs.len(), ctx@.name_defs.len()));
                    }
                }
                Some(from_id)
            },
            None => None,
        };
        let ghost mid_ctx = ctx@;
        let ghost mid_set = self@;
        let ghost from_spec: Option<nat> = match from {
            Some(id) => Some(id as nat),
            None => None,
        };
        let attrs = &node.attrs;
        let mut i: usize = 0;
        while i < attrs.len()
            invariant
                i <= attrs.len(),
                attrs == &node.attrs,
                self.wf(),
                from_spec == (match from {
                    Some(id) => Some(id as nat),
                    None => None::<nat>,
                }),
                old(ctx)@.has_room(pending(old(self)@) + weight_binding(Binding::Inherit(*node))),
                ctx@.on_track(
                    pending(self@) + weight_attrs(attrs@, i as int),
                    old(ctx)@,
                    pending(old(self)@) + weight_binding(Binding::Inherit(*node)),
                ),
                semantics::merge_inherit_attrs(ctx@, self@, attrs@, i as int, from_spec)
                    == semantics::merge_inherit_attrs(mid_ctx, mid_set, attrs@, 0, from_spec),
                old(ctx)@.holds(old(self)@) ==> ctx@.holds(self@),
                from matches Some(id) ==> id < self@.inherit_froms.len(),
            decreases attrs.len() - i,
        {
            self.merge_inherit_attr(ctx, &attrs[i], from);
            i += 1;
        }
    }

    /// Merges one inherited name into this set; `from` is the position of
    /// its source among the sources of the set, if it has one.
    fn merge_inherit_attr(&mut self, ctx: &mut LowerCtx, attr: &Attr, from: Option<usize>)
        requires
            old(self).wf(),
            old(ctx)@.has_room(pending(old(self)@) + weight_attr(*attr)),
            from matches Some(id) ==> id < old(self)@.inherit_froms.len(),
        ensures
            (final(ctx)@, final(self)@) == semantics::merge_inherit_attr(
                old(ctx)@,
                old(self)@,
                *attr,
                match from {
                    Some(id) => Some(id as nat),
                    None => None,
                },
            ),
            final(self).wf(),
            final(ctx)@.on_track(
                pending(final(self)@),
                old(ctx)@,
                pending(old(self)@) + weight_attr(*attr),
            ),
            old(ctx)@.holds(old(self)@) ==> final(ctx)@.holds(final(self)@),
            final(self)@.inherit_froms == old(self)@.inherit_froms,
        decreases *attr, 1nat,
    {
        let ptr = attr.ast_ptr();
        let key = ctx.lower_key(self.is_rec, attr);
        proof {
            if old(ctx)@.holds(old(self)@) {
                lemma_set_within_grows(
                    old(self)@,
                    old(ctx)@.exprs.len(),
                    old(ctx)@.name_defs.len(),
                    ctx@.exprs.len(),
                    ctx@.name_defs.len(),
                );
            }
        }
        match key {
            BindingKey::Dynamic(expr) => {
                ctx.diagnostic(ptr.text_range(), DiagnosticKind::InvalidDynamic);
                self.recover_error(ctx, expr, ptr);
            },
            _ => {
                let name = ctx.key_name(&key);
                match self.find(&name) {
                    Some(j) => {
                        let ghost before = self.model().entries;
                        proof {
                            assert(before[j as int] == self.entries@[j as int].model());
                        }
                        let ghost st1 = ctx@;
                        let ghost set1 = self@;
                        self.entries[j].emit_duplicated_key(ctx, &ptr);
                        proof {
                            let after = self.entries@[j as int].model();
                            assert(self.model().entries =~= before.update(j as int, after));
                            lemma_pending_update(before, j as int, after, 0);
                            if st1.holds(set1) {
                                lemma_within_update(
                                    set1,
                                    j as int,
                                    after,
                                    st1.exprs.len(),
                                    st1.name_defs.len(),
                                    ctx@.exprs.len(),
                                    ctx@.name_defs.len(),
                                );
                            }
                            assert forall|i: int| 0 <= i < self.entries@.len() implies (
                                #[trigger] self.entries@[i]
                            ).wf() by {
                                if i != j {
                                    assert(self.entries@[i] == old(self).entries@[i]);
                                }
                            }
                        }
                    },
                    None => {
                        let value = match from {
                            Some(id) => BindingValue::InheritFrom(id),
                            None => {
                                let text = match &name {
                                    Some(t) => t.clone(),
                                    None => String::new(),
                                };
                                BindingValue::Inherit(ctx.alloc_expr(Expr::Reference(text), ptr))
                            },
                        };
                        let entry = MergingEntry {
                            key,
                            name,
                            def_ptr: ptr,
                            is_duplicated: false,
                            value: MergingValue::Final(value),
                        };
                        proof {
                            if old(ctx)@.holds(old(self)@) {
                                lemma_set_within_grows(
                                    old(self)@,
                                    old(ctx)@.exprs.len(),
                                    old(ctx)@.name_defs.len(),
                                    ctx@.exprs.len(),
                                    ctx@.name_defs.len(),
                                );
                                lemma_new_key(
                                    old(self)@,
                                    entry@.key,
                                    entry@.name,
                                    old(ctx)@.exprs.len(),
                                    old(ctx)@.name_defs.len(),
                                );
                                lemma_within_push(
                                    old(self)@,
                                    entry@,
                                    ctx@.exprs.len(),
                                    ctx@.name_defs.len(),
                                );
                            }
                        }
                        self.push_entry(entry);
                    },
                }
            },
        }
    }

    /// The position of the entry that `name` finds, if it finds one.
    fn find(&self, name: &Option<String>) -> (r: Option<usize>)
        requires
            self.wf(),
        ensures
            match r {
                Some(j) => j == position(self@.entries, opt_text(*name)) && j < self@.entries.len(),
                None => position(self@.entries, opt_text(*name)) == self@.entries.len(),
            },
            self@.entries.len() == self.entries@.len(),
    {
        match name {
            Some(n) => {
                proof {
                    lemma_index_position(index_entries(self.names), self.model().entries, n@);
                }
                index_get(&self.names, n.as_str())
            },
            None => None,
        }
    }

    /// Merges a declaration `path = value;` into this set.
    pub fn merge_path_value(
        &mut self,
        ctx: &mut LowerCtx,
        node: &AttrpathValueNode,
        allow_dynamic: bool,
    )
        requires
            old(self).wf(),
            old(ctx)@.has_room(pending(old(self)@) + weight_binding(Binding::AttrpathValue(*node))),
        ensures
            (final(ctx)@, final(self)@) == semantics::merge_path_value(
                old(ctx)@,
                old(self)@,
                *node,
                allow_dynamic,
            ),
            final(self).wf(),
            final(ctx)@.on_track(
                pending(final(self)@),
                old(ctx)@,
                pending(old(self)@) + weight_binding(Binding::AttrpathValue(*node)),
            ),
            old(ctx)@.holds(old(self)@) ==> final(ctx)@.holds(final(self)@),
        decreases *node, 2 * node.attrpath@.len() + 2,
    {
        if node.attrpath.len() == 0 {
            let value = ctx.lower_expr_opt(&node.value);
            proof {
                if old(ctx)@.holds(old(self)@) {
                    lemma_set_within_grows(
                        old(self)@,
                        old(ctx)@.exprs.len(),
                        old(ctx)@.name_defs.len(),
                        ctx@.exprs.len(),
                        ctx@.name_defs.len(),
                    );
                }
            }
            self.recover_error(ctx, value, node.ast_ptr());
        } else {
            self.merge_path_from(ctx, node, 0, allow_dynamic);
        }
    }

    /// Finds the entry of this set for the segment `attr` of a path, or adds
    /// an empty one, and returns its position.
    fn entry_for(&mut self, ctx: &mut LowerCtx, attr: &Attr, allow_dynamic: bool) -> (j: usize)
        requires
            old(self).wf(),
            old(ctx)@.has_room(pending(old(self)@) + weight_attr(*attr)),
        ensures
            semantics::entry_for(old(ctx)@, old(self)@, *attr, allow_dynamic) == (
                final(ctx)@,
                final(self)@,
                j as int,
            ),
            final(self).wf(),
            j < final(self).entries@.len(),
            final(self)@.entries.len() == final(self).entries@.len(),
            final(ctx)@.on_track(
                pending(final(self)@) + (if final(self)@.entries[j as int].value is Placeholder {
                    0nat
                } else {
                    2nat
                }),
                old(ctx)@,
                pending(old(self)@) + weight_attr(*attr),
            ),
            old(ctx)@.holds(old(self)@) ==> final(ctx)@.holds(final(self)@),
            final(self)@.inherit_froms == old(self)@.inherit_froms,
        decreases *attr, 1nat,
    {
        let ptr = attr.ast_ptr();
        let key = ctx.lower_key(self.is_rec, attr);
        let name = ctx.key_name(&key);
        if !allow_dynamic {
            match &key {
                BindingKey::Dynamic(_) => {
                    ctx.diagnostic(ptr.text_range(), DiagnosticKind::InvalidDynamic);
                },
                _ => {},
            }
        }
        proof {
            if old(ctx)@.holds(old(self)@) {
                lemma_set_within_grows(
                    old(self)@,
                    old(ctx)@.exprs.len(),
                    old(ctx)@.name_defs.len(),
                    ctx@.exprs.len(),
                    ctx@.name_defs.len(),
                );
            }
        }
        match self.find(&name) {
            Some(j) => j,
            None => {
                let j = self.entries.len();
                let entry = MergingEntry {
                    key,
                    name,
                    def_ptr: ptr,
                    is_duplicated: false,
                    value: MergingValue::Placeholder,
                };
                proof {
                    if old(ctx)@.holds(old(self)@) {
                        lemma_new_key(
                            old(self)@,
                            entry@.key,
                            entry@.name,
                            old(ctx)@.exprs.len(),
                            old(ctx)@.name_defs.len(),
                        );
                        lemma_within_push(
                            old(self)@,
                            entry@,
                            ctx@.exprs.len(),
                            ctx@.name_defs.len(),
                        );
                    }
                }
                self.push_entry(entry);
                j
            },
        }
    }

    /// Merges `node` into this set from segment `i` of its path on.
    fn merge_path_from(
        &mut self,
        ctx: &mut LowerCtx,
        node: &AttrpathValueNode,
        i: usize,
        allow_dynamic: bool,
    )
        requires
            old(self).wf(),
            i < node.attrpath@.len(),
            old(ctx)@.has_room(
                pending(old(self)@) + weight_attrs(node.attrpath@, i as int) + weight_opt(
                    node.value,
                ) + 1,
            ),
        ensures
            (final(ctx)@, final(self)@) == semantics::merge_path_from(
                old(ctx)@,
                old(self)@,
                *node,
                i as int,
                allow_dynamic,
            ),
            final(self).wf(),
            final(ctx)@.on_track(
                pending(final(self)@),
                old(ctx)@,
                pending(old(self)@) + weight_attrs(node.attrpath@, i as int) + weight_opt(
                    node.value,
                ) + 1,
            ),
            old(ctx)@.holds(old(self)@) ==> final(ctx)@.holds(final(self)@),
        decreases *node, 2 * (node.attrpath@.len() - i) + 1,
    {
        let attr = &node.attrpath[i];
        proof {
            assert(weight_attrs(node.attrpath@, i as int) == weight_attr(*attr) + weight_attrs(
                node.attrpath@,
                i + 1,
            ));
        }
        let j = self.entry_for(ctx, attr, allow_dynamic);
        let ghost set1 = self.model();
        let ghost st1 = ctx@;
        let ghost index = index_entries(self.names);
        let ghost items = self.entries@;
        proof {
            assert(set1.entries[j as int] == items[j as int].model());
            assert(items[j as int].wf());
            lemma_pending_entry_le(set1.entries, j as int);
            if st1.holds(set1) {
                assert(st1.holds_entry(set1.entries[j as int]));
            }
        }
        self.entries[j].merge_into(ctx, node, i, allow_dynamic);
        proof {
            // Only the entry at `j` has changed: the set is what it was
            // after the segment was resolved, with that entry replaced.
            let after = self.entries@[j as int].model();
            assert(self.model().entries =~= set1.entries.update(j as int, after));
            lemma_pending_update(set1.entries, j as int, after, 0);
            if st1.holds(set1) {
                lemma_within_update(
                    set1,
                    j as int,
                    after,
                    st1.exprs.len(),
                    st1.name_defs.len(),
                    ctx@.exprs.len(),
                    ctx@.name_defs.len(),
                );
            }
            // The index still matches: no entry has changed its name.
            assert forall|k: int| 0 <= k < self.entries@.len() implies (
                #[trigger] self.entries@[k]
            ).wf() by {
                if k != j {
                    assert(self.entries@[k] == items[k]);
                }
            }
            assert(index_entries(self.names) == index);
            assert(index_matches(index, self.model().entries));
        }
    }

    /// The final bindings of the entries of this set, in order.
    fn finish_entries(&self, ctx: &mut LowerCtx) -> (bindings: Bindings)
        requires
            old(ctx)@.has_room(pending(self@)),
        ensures
            (final(ctx)@, bindings@) == semantics::finish_set(old(ctx)@, self@),
            final(ctx)@.on_track(0, old(ctx)@, pending(self@)),
            old(ctx)@.holds(self@) ==> final(ctx)@.closed() && bindings@.within(
                final(ctx)@.exprs.len(),
                final(ctx)@.name_defs.len(),
            ),
            bindings@.inherit_froms == self@.inherit_froms,
            bindings@.entries.len() == self@.entries.len(),
            forall|k: int|
                0 <= k < self@.entries.len() ==> (#[trigger] bindings@.entries[k]).0
                    == self@.entries[k].key,
        decreases *self, 1nat,
    {
        let mut entries: Vec<(BindingKey, BindingValue)> = Vec::new();
        let ghost mut acc: Seq<(BindingKeyView, BindingValue)> = Seq::empty();
        let mut i: usize = 0;
        proof {
            assert(entries@.map_values(|e: (BindingKey, BindingValue)| (e.0@, e.1)) =~= acc);
        }
        while i < self.entries.len()
            invariant
                i <= self.entries.len(),
                self@.entries.len() == self.entries@.len(),
                old(ctx)@.has_room(pending(self@)),
                ctx@.on_track(pending_from(self@.entries, i as int), old(ctx)@, pending(self@)),
                acc == entries@.map_values(|e: (BindingKey, BindingValue)| (e.0@, e.1)),
                semantics::finish_entries(ctx@, self@.entries, i as int, acc)
                    == semantics::finish_entries(old(ctx)@, self@.entries, 0, Seq::empty()),
                old(ctx)@.holds(self@) ==> ctx@.closed() && forall|k: int|
                    0 <= k < acc.len() ==> (#[trigger] acc[k]).0.within(
                        ctx@.exprs.len(),
                        ctx@.name_defs.len(),
                    ) && acc[k].1.within(ctx@.exprs.len(), self@.inherit_froms.len()),
                acc.len() == i,
                forall|k: int| 0 <= k < acc.len() ==> (#[trigger] acc[k]).0 == self@.entries[k].key,
            decreases self.entries.len() - i,
        {
            let ghost before = acc;
            let ghost exprs_before = ctx@.exprs.len();
            let ghost names_before = ctx@.name_defs.len();
            proof {
                assert(self@.entries[i as int] == self.entries@[i as int]@);
                if old(ctx)@.holds(self@) {
                    lemma_entry_within_grows(
                        self@.entries[i as int],
                        old(ctx)@.exprs.len(),
                        old(ctx)@.name_defs.len(),
                        exprs_before,
                        names_before,
                    );
                }
            }
            let value = self.entries[i].finish(ctx);
            let key = clone_key(&self.entries[i].key);
            proof {
                acc = acc.push((key@, value));
                if old(ctx)@.holds(self@) {
                    assert(self@.entries[i as int].source_below(self@.inherit_froms.len()));
                    assert forall|k: int| 0 <= k < acc.len() implies (#[trigger] acc[k]).0.within(
                        ctx@.exprs.len(),
                        ctx@.name_defs.len(),
                    ) && acc[k].1.within(ctx@.exprs.len(), self@.inherit_froms.len()) by {
                        if k < before.len() {
                            assert(acc[k] == before[k]);
                            assert(before[k].0.within(exprs_before, names_before));
                        }
                    }
                }
            }
            entries.push((key, value));
            proof {
                assert(entries@.map_values(|e: (BindingKey, BindingValue)| (e.0@, e.1)) =~= acc);
            }
            i += 1;
        }
        let mut inherit_froms: Vec<ExprId> = Vec::new();
        let mut k: usize = 0;
        while k < self.inherit_froms.len()
            invariant
                k <= self.inherit_froms.len(),
                inherit_froms@ == self.inherit_froms@.take(k as int),
            decreases self.inherit_froms.len() - k,
        {
            inherit_froms.push(self.inherit_froms[k]);
            proof {
                assert(self.inherit_froms@.take(k + 1) =~= self.inherit_froms@.take(k as int).push(
                    self.inherit_froms@[k as int],
                ));
            }
            k += 1;
        }
        proof {
            assert(self.inherit_froms@.take(self.inherit_froms@.len() as int)
                =~= self.inherit_froms@);
        }
        Bindings { entries, inherit_froms }
    }

    /// Ends merging: the final bindings of this set. Every nested set
    /// becomes a set expression of its own, inner ones first.
    pub fn finish(self, ctx: &mut LowerCtx) -> (bindings: Bindings)
        requires
            old(ctx)@.has_room(pending(self@)),
        ensures
            (final(ctx)@, bindings@) == semantics::finish_set(old(ctx)@, self@),
            final(ctx)@.on_track(0, old(ctx)@, pending(self@)),
            old(ctx)@.holds(self@) ==> final(ctx)@.closed() && bindings@.within(
                final(ctx)@.exprs.len(),
                final(ctx)@.name_defs.len(),
            ),
            bindings@.inherit_froms == self@.inherit_froms,
            bindings@.entries.len() == self@.entries.len(),
            forall|k: int|
                0 <= k < self@.entries.len() ==> (#[trigger] bindings@.entries[k]).0
                    == self@.entries[k].key,
    {
        self.finish_entries(ctx)
    }
}

/// Lowers a parsed file to its module and its source map. Handles are 32
/// bits wide, so the tree must be light enough for them; `fits` tells.
pub fn lower(parse: InFile<SourceFile>) -> (r: (Module, ModuleSourceMap))
    requires
        weight_opt(parse.value.expr) <= u32::MAX,
    ensures
        (r.0@, r.1@) == semantics::lower_file(parse.file_id, parse.value.expr),
        r.0@.entry_expr.0 < r.0@.exprs.len(),
        r.0@.exprs.len() <= weight_opt(parse.value.expr),
        r.0@.name_defs.len() <= weight_opt(parse.value.expr),
        r.0@.is_closed(r.1@),
{
    let mut ctx = LowerCtx::new(parse.file_id);
    let entry = ctx.lower_expr_opt(&parse.value.expr);
    ctx.finish(entry)
}

/// Lowers a parsed file to its module and its source map, provided that its
/// tree is light enough for handles of 32 bits; `None` where it is not.
pub fn lower_if_fits(parse: InFile<SourceFile>) -> (r: Option<(Module, ModuleSourceMap)>)
    ensures
        match r {
            Some(m) => weight_opt(parse.value.expr) <= u32::MAX && (m.0@, m.1@)
                == semantics::lower_file(parse.file_id, parse.value.expr) && m.0@.entry_expr.0
                < m.0@.exprs.len() && m.0@.is_closed(m.1@),
            None => weight_opt(parse.value.expr) > u32::MAX,
        },
{
    if fits(&parse.value.expr) {
        Some(lower(parse))
    } else {
        None
    }
}

} // verus!
