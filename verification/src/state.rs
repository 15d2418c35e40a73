//! The state that lowering threads through the syntax tree: the tables, the
//! diagnostics and the source map as they stand so far.

use crate::base::{FileId, TextRange};
use crate::diagnostic::{Diagnostic, DiagnosticKind};
use crate::ir::{lemma_within_grows, Expr, ExprId, ExprView, NameDefId, NameDefView};
use crate::merge_model::{EntryModel, SetModel};
use crate::module::{Module, ModuleSourceMap, ModuleView, SourceMapView};
use crate::syntax::AstPtr;
use vstd::prelude::*;

verus! {

/// Whether `long` begins with the items of `short`, in their order.
pub open spec fn starts_with<T>(long: Seq<T>, short: Seq<T>) -> bool {
    &&& short.len() <= long.len()
    &&& forall|i: int| 0 <= i < short.len() ==> short[i] == long[i]
}

/// Whether two tables and a source map are closed: every expression refers
/// only to expressions before it and to name definitions of the table, no
/// two bindings of a set have the same key, and the source map refers only
/// to handles of the tables and leads from a node to its handle and back to
/// the same node.
#[verifier::opaque]
pub open spec fn are_closed(
    exprs: Seq<ExprView>,
    name_defs: Seq<NameDefView>,
    source_map: SourceMapView,
) -> bool {
    &&& forall|i: int|
        0 <= i < exprs.len() ==> (#[trigger] exprs[i]).within(i as nat, name_defs.len())
    &&& forall|p: AstPtr| #[trigger]
        source_map.expr_map.contains_key(p) ==> source_map.expr_map[p].0 < exprs.len()
            && source_map.expr_map_rev.contains_key(source_map.expr_map[p])
            && source_map.expr_map_rev[source_map.expr_map[p]] == p
    &&& forall|id: ExprId| #[trigger]
        source_map.expr_map_rev.contains_key(id) ==> id.0 < exprs.len()
    &&& forall|p: AstPtr| #[trigger]
        source_map.name_def_map.contains_key(p) ==> source_map.name_def_map[p].0
            < name_defs.len() && source_map.name_def_map_rev.contains_key(
            source_map.name_def_map[p],
        ) && source_map.name_def_map_rev[source_map.name_def_map[p]] == p
    &&& forall|id: NameDefId| #[trigger]
        source_map.name_def_map_rev.contains_key(id) ==> id.0 < name_defs.len()
}

/// The state of lowering as a mathematical value.
pub struct LowerState {
    pub file_id: FileId,
    pub exprs: Seq<ExprView>,
    pub name_defs: Seq<NameDefView>,
    pub diagnostics: Seq<Diagnostic>,
    pub source_map: SourceMapView,
}

impl LowerState {
    /// The state before anything is lowered.
    pub open spec fn empty(file_id: FileId) -> LowerState {
        LowerState {
            file_id,
            exprs: Seq::empty(),
            name_defs: Seq::empty(),
            diagnostics: Seq::empty(),
            source_map: SourceMapView::empty(),
        }
    }

    /// The handle that the next expression gets.
    pub open spec fn next_expr(self) -> ExprId {
        ExprId(self.exprs.len() as u32)
    }

    /// The handle that the next name definition gets.
    pub open spec fn next_name_def(self) -> NameDefId {
        NameDefId(self.name_defs.len() as u32)
    }

    /// This state with `expr` appended for the node at `ptr`, and the two
    /// recorded for each other in the source map.
    pub open spec fn alloc_expr(self, expr: ExprView, ptr: AstPtr) -> LowerState {
        LowerState {
            exprs: self.exprs.push(expr),
            source_map: self.source_map.with_expr(ptr, self.next_expr()),
            ..self
        }
    }

    /// This state with a placeholder appended that no node stands behind.
    pub open spec fn alloc_missing(self) -> LowerState {
        LowerState { exprs: self.exprs.push(ExprView::Missing), ..self }
    }

    /// This state with a definition of `name` appended for the node at `ptr`,
    /// and the two recorded for each other in the source map.
    pub open spec fn alloc_name_def(self, name: Seq<char>, ptr: AstPtr) -> LowerState {
        LowerState {
            name_defs: self.name_defs.push(NameDefView { name }),
            source_map: self.source_map.with_name_def(ptr, self.next_name_def()),
            ..self
        }
    }

    /// This state with one more diagnostic.
    pub open spec fn diagnostic(self, range: TextRange, kind: DiagnosticKind) -> LowerState {
        LowerState { diagnostics: self.diagnostics.push(Diagnostic { range, kind }), ..self }
    }

    /// Whether both tables can take `load` more items, handles being 32 bits
    /// wide.
    pub open spec fn has_room(self, load: nat) -> bool {
        &&& self.exprs.len() + load <= u32::MAX
        &&& self.name_defs.len() + load <= u32::MAX
    }

    /// Whether `self` continues `before`: it is of the same file, and no
    /// table or list has lost or changed an item.
    pub open spec fn extends(self, before: LowerState) -> bool {
        &&& self.file_id == before.file_id
        &&& starts_with(self.exprs, before.exprs)
        &&& starts_with(self.name_defs, before.name_defs)
        &&& starts_with(self.diagnostics, before.diagnostics)
    }

    /// Whether the state is closed: its tables and its source map are.
    pub open spec fn closed(self) -> bool {
        are_closed(self.exprs, self.name_defs, self.source_map)
    }

    /// Whether the state is closed and every handle in `set` is good in it.
    pub open spec fn holds(self, set: SetModel) -> bool {
        self.closed() && set.within(self.exprs.len(), self.name_defs.len())
    }

    /// Whether the state is closed and every handle in `entry` is good in
    /// it.
    pub open spec fn holds_entry(self, entry: EntryModel) -> bool {
        self.closed() && entry.within(self.exprs.len(), self.name_defs.len())
    }

    /// Whether `self` continues `before` and has used up no more room than
    /// the load has shrunk by: what either table has gained, and the load
    /// that is left, together do not exceed the load that there was.
    pub open spec fn on_track(self, load: nat, before: LowerState, load_before: nat) -> bool {
        &&& self.extends(before)
        &&& self.exprs.len() + load <= before.exprs.len() + load_before
        &&& self.name_defs.len() + load <= before.name_defs.len() + load_before
    }
}

impl ModuleView {
    /// Whether a module with its source map is closed: its entry is one of
    /// its expressions, and its tables and the source map are closed. Such a
    /// module is acyclic, and every handle that occurs in it is good.
    pub open spec fn is_closed(self, source_map: SourceMapView) -> bool {
        &&& self.entry_expr.0 < self.exprs.len()
        &&& are_closed(self.exprs, self.name_defs, source_map)
    }
}

/// The empty state is closed.
pub proof fn lemma_closed_empty(file_id: FileId)
    ensures
        LowerState::empty(file_id).closed(),
{
    reveal(are_closed);
}

/// A closed state stays closed when an expression is appended that refers
/// only to what is there.
pub proof fn lemma_closed_alloc_expr(st: LowerState, expr: ExprView, ptr: AstPtr)
    requires
        st.closed(),
        st.exprs.len() <= u32::MAX,
        expr.within(st.exprs.len(), st.name_defs.len()),
    ensures
        st.alloc_expr(expr, ptr).closed(),
{
    reveal(are_closed);
    let after = st.alloc_expr(expr, ptr);
    assert forall|i: int| 0 <= i < after.exprs.len() implies (#[trigger] after.exprs[i]).within(
        i as nat,
        after.name_defs.len(),
    ) by {
        if i < st.exprs.len() {
            assert(after.exprs[i] == st.exprs[i]);
        }
    }
}

/// A closed state stays closed when a placeholder is appended.
pub proof fn lemma_closed_alloc_missing(st: LowerState)
    requires
        st.closed(),
    ensures
        st.alloc_missing().closed(),
{
    reveal(are_closed);
    let after = st.alloc_missing();
    assert forall|i: int| 0 <= i < after.exprs.len() implies (#[trigger] after.exprs[i]).within(
        i as nat,
        after.name_defs.len(),
    ) by {
        if i < st.exprs.len() {
            assert(after.exprs[i] == st.exprs[i]);
        }
    }
}

/// A closed state stays closed when a name definition is appended.
pub proof fn lemma_closed_alloc_name_def(st: LowerState, name: Seq<char>, ptr: AstPtr)
    requires
        st.closed(),
        st.name_defs.len() <= u32::MAX,
    ensures
        st.alloc_name_def(name, ptr).closed(),
{
    reveal(are_closed);
    let after = st.alloc_name_def(name, ptr);
    assert forall|i: int| 0 <= i < after.exprs.len() implies (#[trigger] after.exprs[i]).within(
        i as nat,
        after.name_defs.len(),
    ) by {
        lemma_within_grows(
            st.exprs[i],
            i as nat,
            st.name_defs.len(),
            i as nat,
            after.name_defs.len(),
        );
    }
}

/// A closed state stays closed when a diagnostic is reported.
pub proof fn lemma_closed_diagnostic(st: LowerState, range: TextRange, kind: DiagnosticKind)
    requires
        st.closed(),
    ensures
        st.diagnostic(range, kind).closed(),
{
    reveal(are_closed);
}

/// The state of lowering: the module under construction and its source map.
pub struct LowerCtx {
    pub(crate) file_id: FileId,
    pub(crate) module: Module,
    pub(crate) source_map: ModuleSourceMap,
}

impl View for LowerCtx {
    type V = LowerState;

    closed spec fn view(&self) -> LowerState {
        LowerState {
            file_id: self.file_id,
            exprs: self.module@.exprs,
            name_defs: self.module@.name_defs,
            diagnostics: self.module@.diagnostics,
            source_map: self.source_map@,
        }
    }
}

impl LowerCtx {
    /// The state before anything of the file `file_id` is lowered.
    pub fn new(file_id: FileId) -> (ctx: LowerCtx)
        ensures
            ctx@ == LowerState::empty(file_id),
            ctx@.closed(),
    {
        proof {
            lemma_closed_empty(file_id);
        }
        LowerCtx { file_id, module: Module::new(), source_map: ModuleSourceMap::new() }
    }

    /// The file that is being lowered.
    pub fn file_id(&self) -> (f: FileId)
        ensures
            f == self@.file_id,
    {
        self.file_id
    }

    /// Appends `expr` to the expression table as the lowering of the node at
    /// `ptr`, records the two for each other, and returns the new handle.
    pub fn alloc_expr(&mut self, expr: Expr, ptr: AstPtr) -> (id: ExprId)
        requires
            old(self)@.exprs.len() <= u32::MAX,
        ensures
            final(self)@ == old(self)@.alloc_expr(expr@, ptr),
            id == old(self)@.next_expr(),
            old(self)@.closed() && expr@.within(
                old(self)@.exprs.len(),
                old(self)@.name_defs.len(),
            ) ==> final(self)@.closed(),
    {
        proof {
            if old(self)@.closed() && expr@.within(
                old(self)@.exprs.len(),
                old(self)@.name_defs.len(),
            ) {
                lemma_closed_alloc_expr(old(self)@, expr@, ptr);
            }
        }
        let id = self.module.alloc_expr(expr);
        self.source_map.insert_expr(ptr, id);
        id
    }

    /// Appends a placeholder for an expression that the source lacks. No
    /// node stands behind it, so the source map stays as it is.
    pub fn alloc_missing(&mut self) -> (id: ExprId)
        requires
            old(self)@.exprs.len() <= u32::MAX,
        ensures
            final(self)@ == old(self)@.alloc_missing(),
            id == old(self)@.next_expr(),
            old(self)@.closed() ==> final(self)@.closed(),
    {
        proof {
            if old(self)@.closed() {
                lemma_closed_alloc_missing(old(self)@);
            }
        }
        self.module.alloc_expr(Expr::Missing)
    }

    /// Appends a definition of `name` for the node at `ptr`, records the two
    /// for each other, and returns the new handle.
    pub fn alloc_name_def(&mut self, name: String, ptr: AstPtr) -> (id: NameDefId)
        requires
            old(self)@.name_defs.len() <= u32::MAX,
        ensures
            final(self)@ == old(self)@.alloc_name_def(name@, ptr),
            id == old(self)@.next_name_def(),
            old(self)@.closed() ==> final(self)@.closed(),
    {
        proof {
            if old(self)@.closed() {
                lemma_closed_alloc_name_def(old(self)@, name@, ptr);
            }
        }
        let id = self.module.alloc_name_def(name);
        self.source_map.insert_name_def(ptr, id);
        id
    }

    /// Reports `kind` at `range`.
    pub fn diagnostic(&mut self, range: TextRange, kind: DiagnosticKind)
        ensures
            final(self)@ == old(self)@.diagnostic(range, kind),
            old(self)@.closed() ==> final(self)@.closed(),
    {
        proof {
            if old(self)@.closed() {
                lemma_closed_diagnostic(old(self)@, range, kind);
            }
        }
        self.module.push_diagnostic(Diagnostic::new(range, kind));
    }

    /// The name that the definition `id` defines.
    pub fn name_of(&self, id: NameDefId) -> (name: String)
        requires
            id.0 < self@.name_defs.len(),
        ensures
            name@ == self@.name_defs[id.0 as int].name,
    {
        match self.module.name_def(id) {
            Some(def) => def.name.clone(),
            None => String::new(),
        }
    }

    /// Ends lowering: the module, with `entry` as its entry, and the source
    /// map.
    pub fn finish(self, entry: ExprId) -> (r: (Module, ModuleSourceMap))
        ensures
            r.0@ == (ModuleView {
                exprs: self@.exprs,
                name_defs: self@.name_defs,
                entry_expr: entry,
                diagnostics: self@.diagnostics,
            }),
            r.1@ == self@.source_map,
            self@.closed() && entry.0 < self@.exprs.len() ==> r.0@.is_closed(r.1@),
    {
        let mut module = self.module;
        module.set_entry_expr(entry);
        (module, self.source_map)
    }
}

} // verus!
