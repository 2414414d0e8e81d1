use vstd::prelude::*;
use crate::ast::Span;

verus! {

/// The kind of a reported problem.
#[derive(Debug, Clone, Copy, PartialEq, Eq, Structural)]
pub enum DiagnosticCode {
    UnexpectedToken,
    UnknownIdentifier,
    DuplicateDeclaration,
    TypeMismatch,
    UnknownType,
    ImmutableAssignment,
    UninitializedVariable,
}

/// An error reported by a compiler phase.
#[derive(Debug)]
pub struct Diagnostic {
    pub code: DiagnosticCode,
    pub message: String,
    pub span: Span,
}

/// The mathematical value of a diagnostic.
pub struct DiagnosticV {
    pub code: DiagnosticCode,
    pub message: Seq<char>,
    pub span: Span,
}

impl View for Diagnostic {
    type V = DiagnosticV;

    open spec fn view(&self) -> DiagnosticV {
        DiagnosticV { code: self.code, message: self.message@, span: self.span }
    }
}

/// The views of a list of diagnostics.
pub open spec fn diagnostics_view(ds: Seq<Diagnostic>) -> Seq<DiagnosticV> {
    ds.map_values(|d: Diagnostic| d@)
}

impl Diagnostic {
    /// An error with the given code, message and span.
    pub fn error(code: DiagnosticCode, message: String, span: Span) -> (res: Self)
        ensures
            res.code == code,
            res.message@ == message@,
            res.span == span,
    {
        Diagnostic { code, message, span }
    }
}

} // verus!
