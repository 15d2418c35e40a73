//! What lowering reports about the source.

use crate::base::TextRange;
use vstd::prelude::*;
use vstd::string::*;

verus! {

/// What is wrong at the place a diagnostic points to.
#[derive(Clone, Copy, Debug, PartialEq, Eq, Hash, Structural)]
pub enum DiagnosticKind {
    /// A key that is only known on evaluation stands where a name must be
    /// statically known.
    InvalidDynamic,
    /// A key is declared again in a way that cannot be merged.
    DuplicatedKey,
}

/// How serious a diagnostic is.
#[derive(Clone, Copy, Debug, PartialEq, Eq, Hash, Structural)]
pub enum Severity {
    Error,
    /// The source is merely unfinished; consumers do not surface this level.
    IncompleteSyntax,
}

/// One finding, at a span of the lowered file.
#[derive(Clone, Copy, Debug, PartialEq, Eq, Hash, Structural)]
pub struct Diagnostic {
    pub range: TextRange,
    pub kind: DiagnosticKind,
}

impl Severity {
    /// Whether consumers surface a diagnostic of this severity: errors are
    /// surfaced, unfinished syntax is not.
    pub open spec fn is_surfaced_spec(self) -> bool {
        self == Severity::Error
    }

    #[verifier::when_used_as_spec(is_surfaced_spec)]
    pub fn is_surfaced(self) -> (r: bool)
        ensures
            r == self.is_surfaced_spec(),
    {
        match self {
            Severity::Error => true,
            Severity::IncompleteSyntax => false,
        }
    }
}

impl DiagnosticKind {
    /// Every kind that lowering reports is an error.
    pub open spec fn severity_spec(self) -> Severity {
        Severity::Error
    }

    /// The message shown for this kind.
    pub open spec fn message_spec(self) -> Seq<char> {
        match self {
            DiagnosticKind::InvalidDynamic => "Invalid usage of dynamic attributes"@,
            DiagnosticKind::DuplicatedKey => "Duplicated name definition"@,
        }
    }
}

impl Diagnostic {
    pub fn new(range: TextRange, kind: DiagnosticKind) -> (d: Diagnostic)
        ensures
            d == (Diagnostic { range, kind }),
    {
        Diagnostic { range, kind }
    }

    pub fn severity(&self) -> (s: Severity)
        ensures
            s == self.kind.severity_spec(),
    {
        match self.kind {
            DiagnosticKind::InvalidDynamic => Severity::Error,
            DiagnosticKind::DuplicatedKey => Severity::Error,
        }
    }

    pub fn message(&self) -> (m: String)
        ensures
            m@ == self.kind.message_spec(),
    {
        match self.kind {
            DiagnosticKind::InvalidDynamic => "Invalid usage of dynamic attributes".to_owned(),
            DiagnosticKind::DuplicatedKey => "Duplicated name definition".to_owned(),
        }
    }
}

} // verus!
