//! A lowered file: its tables, its diagnostics and its source map.

use crate::arena::{
    alloc_expr_in, alloc_name_def_in, expr_arena_len, expr_at, expr_items, name_def_arena_len,
    name_def_at, name_def_items, new_expr_arena, new_name_def_arena,
};
use crate::diagnostic::Diagnostic;
use crate::ir::{Expr, ExprId, ExprView, NameDef, NameDefId, NameDefView};
use crate::syntax::{AstPtr, SyntaxKind};
use la_arena::Arena;
use std::collections::HashMap;
use vstd::prelude::*;

verus! {

/// The intermediate representation of one file. Handles are positions in the
/// two tables; the tables only ever grow, so a handle stays good.
#[derive(Debug, PartialEq, Eq)]
pub struct Module {
    pub(crate) exprs: Arena<Expr>,
    pub(crate) name_defs: Arena<NameDef>,
    pub(crate) entry_expr: ExprId,
    pub(crate) diagnostics: Vec<Diagnostic>,
}

pub struct ModuleView {
    pub exprs: Seq<ExprView>,
    pub name_defs: Seq<NameDefView>,
    pub entry_expr: ExprId,
    pub diagnostics: Seq<Diagnostic>,
}

impl View for Module {
    type V = ModuleView;

    closed spec fn view(&self) -> ModuleView {
        ModuleView {
            exprs: expr_items(self.exprs).map_values(|e: Expr| e@),
            name_defs: name_def_items(self.name_defs).map_values(|d: NameDef| d@),
            entry_expr: self.entry_expr,
            diagnostics: self.diagnostics@,
        }
    }
}

impl Module {
    /// A module with empty tables; its entry is still to be set.
    pub(crate) fn new() -> (m: Module)
        ensures
            m@ == (ModuleView {
                exprs: Seq::empty(),
                name_defs: Seq::empty(),
                entry_expr: ExprId(0),
                diagnostics: Seq::empty(),
            }),
    {
        let m = Module {
            exprs: new_expr_arena(),
            name_defs: new_name_def_arena(),
            entry_expr: ExprId(0),
            diagnostics: Vec::new(),
        };
        proof {
            assert(m@.exprs =~= Seq::empty());
            assert(m@.name_defs =~= Seq::empty());
        }
        m
    }

    /// Appends `expr` to the expression table and returns its handle.
    pub(crate) fn alloc_expr(&mut self, expr: Expr) -> (id: ExprId)
        requires
            old(self)@.exprs.len() <= u32::MAX,
        ensures
            final(self)@ == (ModuleView { exprs: old(self)@.exprs.push(expr@), ..old(self)@ }),
            id.0 == old(self)@.exprs.len(),
    {
        let id = alloc_expr_in(&mut self.exprs, expr);
        proof {
            assert(self@.exprs =~= old(self)@.exprs.push(expr@));
        }
        id
    }

    /// Appends a definition of `name` to the table of name definitions and
    /// returns its handle.
    pub(crate) fn alloc_name_def(&mut self, name: String) -> (id: NameDefId)
        requires
            old(self)@.name_defs.len() <= u32::MAX,
        ensures
            final(self)@ == (ModuleView {
                name_defs: old(self)@.name_defs.push(NameDefView { name: name@ }),
                ..old(self)@
            }),
            id.0 == old(self)@.name_defs.len(),
    {
        let ghost view = NameDefView { name: name@ };
        let id = alloc_name_def_in(&mut self.name_defs, NameDef { name });
        proof {
            assert(self@.name_defs =~= old(self)@.name_defs.push(view));
        }
        id
    }

    /// Appends `diagnostic` to the list of diagnostics.
    pub(crate) fn push_diagnostic(&mut self, diagnostic: Diagnostic)
        ensures
            final(self)@ == (ModuleView {
                diagnostics: old(self)@.diagnostics.push(diagnostic),
                ..old(self)@
            }),
    {
        self.diagnostics.push(diagnostic);
    }

    /// Makes `id` the entry of the module.
    pub(crate) fn set_entry_expr(&mut self, id: ExprId)
        ensures
            final(self)@ == (ModuleView { entry_expr: id, ..old(self)@ }),
    {
        self.entry_expr = id;
    }

    /// The number of expressions in the table.
    pub fn expr_count(&self) -> (n: usize)
        ensures
            n == self@.exprs.len(),
    {
        expr_arena_len(&self.exprs)
    }

    /// The expression behind `id`, if the table has one.
    pub fn expr(&self, id: ExprId) -> (e: Option<&Expr>)
        ensures
            id.0 < self@.exprs.len() ==> e.is_some() && e.unwrap()@ == self@.exprs[id.0 as int],
            id.0 >= self@.exprs.len() ==> e.is_none(),
    {
        if (id.0 as usize) < expr_arena_len(&self.exprs) {
            Some(expr_at(&self.exprs, id))
        } else {
            None
        }
    }

    /// The number of name definitions in the table.
    pub fn name_def_count(&self) -> (n: usize)
        ensures
            n == self@.name_defs.len(),
    {
        name_def_arena_len(&self.name_defs)
    }

    /// The name definition behind `id`, if the table has one.
    pub fn name_def(&self, id: NameDefId) -> (d: Option<&NameDef>)
        ensures
            id.0 < self@.name_defs.len() ==> d.is_some() && d.unwrap()@
                == self@.name_defs[id.0 as int],
            id.0 >= self@.name_defs.len() ==> d.is_none(),
    {
        if (id.0 as usize) < name_def_arena_len(&self.name_defs) {
            Some(name_def_at(&self.name_defs, id))
        } else {
            None
        }
    }

    /// The expression that the whole file lowers to.
    pub fn entry_expr(&self) -> (id: ExprId)
        ensures
            id == self@.entry_expr,
    {
        self.entry_expr
    }

    /// The diagnostics that consumers surface: those of severity `Error`, in
    /// the order in which lowering reported them.
    pub fn diagnostics(&self) -> (r: Vec<Diagnostic>)
        ensures
            r@ == self@.diagnostics.filter(
                |d: Diagnostic| d.kind.severity_spec().is_surfaced_spec(),
            ),
            r@ == self@.diagnostics,
    {
        let mut r: Vec<Diagnostic> = Vec::new();
        let n = self.diagnostics.len();
        let ghost keep = |d: Diagnostic| d.kind.severity_spec().is_surfaced_spec();
        let mut i: usize = 0;
        proof {
            assert(self.diagnostics@.take(0) =~= Seq::empty());
            Seq::<Diagnostic>::empty().lemma_filter_len(keep);
        }
        while i < n
            invariant
                n == self.diagnostics@.len(),
                i <= n,
                keep == (|d: Diagnostic| d.kind.severity_spec().is_surfaced_spec()),
                r@ == self.diagnostics@.take(i as int),
                r@ == self.diagnostics@.take(i as int).filter(keep),
            decreases n - i,
        {
            let d = self.diagnostics[i];
            proof {
                assert(self.diagnostics@.take(i + 1) =~= self.diagnostics@.take(i as int).push(d));
                self.diagnostics@.take(i as int).lemma_filter_push(d, keep);
            }
            if d.severity().is_surfaced() {
                r.push(d);
            }
            i += 1;
        }
        proof {
            assert(self.diagnostics@.take(n as int) =~= self.diagnostics@);
        }
        r
    }
}

/// The number that stands for a kind of node in the key of a pointer.
pub open spec fn kind_code(kind: SyntaxKind) -> nat {
    match kind {
        SyntaxKind::Apply => 0,
        SyntaxKind::Assert => 1,
        SyntaxKind::AttrPathValue => 2,
        SyntaxKind::AttrSet => 3,
        SyntaxKind::BinaryOp => 4,
        SyntaxKind::Dynamic => 5,
        SyntaxKind::HasAttr => 6,
        SyntaxKind::IfThenElse => 7,
        SyntaxKind::IndentString => 8,
        SyntaxKind::Lambda => 9,
        SyntaxKind::LetIn => 10,
        SyntaxKind::List => 11,
        SyntaxKind::Literal => 12,
        SyntaxKind::Name => 13,
        SyntaxKind::Paren => 14,
        SyntaxKind::PathInterpolation => 15,
        SyntaxKind::Ref => 16,
        SyntaxKind::Select => 17,
        SyntaxKind::String => 18,
        SyntaxKind::UnaryOp => 19,
        SyntaxKind::With => 20,
    }
}

/// The integer under which a pointer is filed: kind, start and end, each in
/// bits of its own, so that different pointers get different keys.
pub open spec fn ptr_key(ptr: AstPtr) -> u128 {
    (kind_code(ptr.kind) * 0x1_0000_0000_0000_0000 + ptr.range.start * 0x1_0000_0000
        + ptr.range.end) as u128
}

pub proof fn lemma_ptr_key_injective(p: AstPtr, q: AstPtr)
    ensures
        ptr_key(p) == ptr_key(q) <==> p == q,
{
    if ptr_key(p) == ptr_key(q) {
        assert(kind_code(p.kind) == kind_code(q.kind));
        assert(p.range.start == q.range.start);
        assert(p.range.end == q.range.end);
        assert(p.range == q.range);
        assert(p.kind == q.kind);
    }
}

fn kind_code_of(kind: SyntaxKind) -> (c: u128)
    ensures
        c == kind_code(kind),
{
    match kind {
        SyntaxKind::Apply => 0,
        SyntaxKind::Assert => 1,
        SyntaxKind::AttrPathValue => 2,
        SyntaxKind::AttrSet => 3,
        SyntaxKind::BinaryOp => 4,
        SyntaxKind::Dynamic => 5,
        SyntaxKind::HasAttr => 6,
        SyntaxKind::IfThenElse => 7,
        SyntaxKind::IndentString => 8,
        SyntaxKind::Lambda => 9,
        SyntaxKind::LetIn => 10,
        SyntaxKind::List => 11,
        SyntaxKind::Literal => 12,
        SyntaxKind::Name => 13,
        SyntaxKind::Paren => 14,
        SyntaxKind::PathInterpolation => 15,
        SyntaxKind::Ref => 16,
        SyntaxKind::Select => 17,
        SyntaxKind::String => 18,
        SyntaxKind::UnaryOp => 19,
        SyntaxKind::With => 20,
    }
}

fn key_of(ptr: AstPtr) -> (k: u128)
    ensures
        k == ptr_key(ptr),
{
    let start: u128 = ptr.range.start as u128;
    let end: u128 = ptr.range.end as u128;
    kind_code_of(ptr.kind) * 0x1_0000_0000_0000_0000 + start * 0x1_0000_0000 + end
}

/// The correspondence between syntax nodes and handles, in both directions,
/// for expressions and for name definitions. Entries are only ever added.
#[derive(Debug, Clone, PartialEq, Eq)]
pub struct ModuleSourceMap {
    pub(crate) expr_map: HashMap<u128, ExprId>,
    pub(crate) expr_map_rev: HashMap<u32, AstPtr>,
    pub(crate) name_def_map: HashMap<u128, NameDefId>,
    pub(crate) name_def_map_rev: HashMap<u32, AstPtr>,
}

pub struct SourceMapView {
    pub expr_map: Map<AstPtr, ExprId>,
    pub expr_map_rev: Map<ExprId, AstPtr>,
    pub name_def_map: Map<AstPtr, NameDefId>,
    pub name_def_map_rev: Map<NameDefId, AstPtr>,
}

impl SourceMapView {
    /// The map that records nothing.
    pub open spec fn empty() -> SourceMapView {
        SourceMapView {
            expr_map: Map::empty(),
            expr_map_rev: Map::empty(),
            name_def_map: Map::empty(),
            name_def_map_rev: Map::empty(),
        }
    }

    /// This map with `ptr` and the expression `id` recorded for each other.
    pub open spec fn with_expr(self, ptr: AstPtr, id: ExprId) -> SourceMapView {
        SourceMapView {
            expr_map: self.expr_map.insert(ptr, id),
            expr_map_rev: self.expr_map_rev.insert(id, ptr),
            ..self
        }
    }

    /// This map with `ptr` and the name definition `id` recorded for each
    /// other.
    pub open spec fn with_name_def(self, ptr: AstPtr, id: NameDefId) -> SourceMapView {
        SourceMapView {
            name_def_map: self.name_def_map.insert(ptr, id),
            name_def_map_rev: self.name_def_map_rev.insert(id, ptr),
            ..self
        }
    }
}

impl View for ModuleSourceMap {
    type V = SourceMapView;

    closed spec fn view(&self) -> SourceMapView {
        SourceMapView {
            expr_map: Map::new(
                |p: AstPtr| self.expr_map@.contains_key(ptr_key(p)),
                |p: AstPtr| self.expr_map@[ptr_key(p)],
            ),
            expr_map_rev: Map::new(
                |id: ExprId| self.expr_map_rev@.contains_key(id.0),
                |id: ExprId| self.expr_map_rev@[id.0],
            ),
            name_def_map: Map::new(
                |p: AstPtr| self.name_def_map@.contains_key(ptr_key(p)),
                |p: AstPtr| self.name_def_map@[ptr_key(p)],
            ),
            name_def_map_rev: Map::new(
                |id: NameDefId| self.name_def_map_rev@.contains_key(id.0),
                |id: NameDefId| self.name_def_map_rev@[id.0],
            ),
        }
    }
}

impl ModuleSourceMap {
    /// A source map that records nothing.
    pub fn new() -> (m: ModuleSourceMap)
        ensures
            m@ == SourceMapView::empty(),
    {
        let m = ModuleSourceMap {
            expr_map: HashMap::new(),
            expr_map_rev: HashMap::new(),
            name_def_map: HashMap::new(),
            name_def_map_rev: HashMap::new(),
        };
        proof {
            assert(m@.expr_map =~= Map::empty());
            assert(m@.expr_map_rev =~= Map::empty());
            assert(m@.name_def_map =~= Map::empty());
            assert(m@.name_def_map_rev =~= Map::empty());
        }
        m
    }

    /// Records `ptr` and the expression `id` for each other.
    pub(crate) fn insert_expr(&mut self, ptr: AstPtr, id: ExprId)
        ensures
            final(self)@ == old(self)@.with_expr(ptr, id),
    {
        self.expr_map.insert(key_of(ptr), id);
        self.expr_map_rev.insert(id.0, ptr);
        proof {
            assert forall|p: AstPtr| ptr_key(p) == ptr_key(ptr) <==> p == ptr by {
                lemma_ptr_key_injective(p, ptr);
            }
            assert(self@.expr_map =~= old(self)@.expr_map.insert(ptr, id));
            assert(self@.expr_map_rev =~= old(self)@.expr_map_rev.insert(id, ptr));
            assert(self@.name_def_map =~= old(self)@.name_def_map);
            assert(self@.name_def_map_rev =~= old(self)@.name_def_map_rev);
        }
    }

    /// Records `ptr` and the name definition `id` for each other.
    pub(crate) fn insert_name_def(&mut self, ptr: AstPtr, id: NameDefId)
        ensures
            final(self)@ == old(self)@.with_name_def(ptr, id),
    {
        self.name_def_map.insert(key_of(ptr), id);
        self.name_def_map_rev.insert(id.0, ptr);
        proof {
            assert forall|p: AstPtr| ptr_key(p) == ptr_key(ptr) <==> p == ptr by {
                lemma_ptr_key_injective(p, ptr);
            }
            assert(self@.name_def_map =~= old(self)@.name_def_map.insert(ptr, id));
            assert(self@.name_def_map_rev =~= old(self)@.name_def_map_rev.insert(id, ptr));
            assert(self@.expr_map =~= old(self)@.expr_map);
            assert(self@.expr_map_rev =~= old(self)@.expr_map_rev);
        }
    }

    /// The expression recorded for the node at `ptr`.
    pub fn expr_map(&self, ptr: AstPtr) -> (r: Option<ExprId>)
        ensures
            r == (if self@.expr_map.contains_key(ptr) {
                Some(self@.expr_map[ptr])
            } else {
                None
            }),
    {
        match self.expr_map.get(&key_of(ptr)) {
            Some(id) => Some(*id),
            None => None,
        }
    }

    /// The node recorded for the expression `id`.
    pub fn expr_node(&self, id: ExprId) -> (r: Option<AstPtr>)
        ensures
            r == (if self@.expr_map_rev.contains_key(id) {
                Some(self@.expr_map_rev[id])
            } else {
                None
            }),
    {
        match self.expr_map_rev.get(&id.0) {
            Some(ptr) => Some(*ptr),
            None => None,
        }
    }

    /// The name definition recorded for the node at `ptr`.
    pub fn name_def_map(&self, ptr: AstPtr) -> (r: Option<NameDefId>)
        ensures
            r == (if self@.name_def_map.contains_key(ptr) {
                Some(self@.name_def_map[ptr])
            } else {
                None
            }),
    {
        match self.name_def_map.get(&key_of(ptr)) {
            Some(id) => Some(*id),
            None => None,
        }
    }

    /// The node recorded for the name definition `id`.
    pub fn name_def_node(&self, id: NameDefId) -> (r: Option<AstPtr>)
        ensures
            r == (if self@.name_def_map_rev.contains_key(id) {
                Some(self@.name_def_map_rev[id])
            } else {
                None
            }),
    {
        match self.name_def_map_rev.get(&id.0) {
            Some(ptr) => Some(*ptr),
            None => None,
        }
    }

    /// The number of expressions that have a node recorded.
    pub fn expr_node_count(&self) -> (n: usize)
        ensures
            n == self@.expr_map_rev.dom().len(),
    {
        proof {
            lemma_rev_dom_len(self.expr_map_rev@);
            assert(self@.expr_map_rev.dom() =~= self.expr_map_rev@.dom().map(|k: u32| ExprId(k)));
        }
        self.expr_map_rev.len()
    }
}

/// Renaming the keys of a finite map by `ExprId` keeps their number.
proof fn lemma_rev_dom_len(m: Map<u32, AstPtr>)
    requires
        m.dom().finite(),
    ensures
        m.dom().map(|k: u32| ExprId(k)).len() == m.dom().len(),
{
    let f = |k: u32| ExprId(k);
    assert(vstd::relations::injective(f));
    vstd::set_lib::lemma_map_size(m.dom(), m.dom().map(f), f);
}

} // verus!
