//! The lowering front end of a language server for Nix: from the syntax tree
//! of a file to a flat, handle-addressed intermediate representation, with
//! the merge semantics of attribute sets, a source map and diagnostics.

pub mod arena;
pub mod base;
pub mod bounds;
pub mod diagnostic;
pub mod ir;
pub mod laws;
pub mod literal;
pub mod lower;
pub mod merge_model;
pub mod module;
pub mod name_index;
pub mod order;
pub mod semantics;
pub mod state;
pub mod syntax;
pub mod text;
pub mod weight;

pub use base::{FileId, FilePos, InFile, TextRange};
pub use diagnostic::{Diagnostic, DiagnosticKind, Severity};
pub use lower::lower;
pub use module::{Module, ModuleSourceMap};
