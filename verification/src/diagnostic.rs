//! User-facing diagnostics emitted by all frontend and solver stages.

use vstd::prelude::*;
use crate::source::{SpanView, TextSpan};

verus! {

/// Diagnostic severity.
#[derive(Clone, Copy, Debug, PartialEq, Eq, Structural)]
pub enum Severity {
    /// Compilation or solving cannot continue correctly.
    Error,
    /// Suspicious but not blocking.
    Warning,
    /// Informational note for tooling.
    Info,
}

/// A source-aware diagnostic with stable machine-readable code.
#[derive(Clone, Debug, PartialEq, Eq)]
pub struct Diagnostic {
    /// Stable diagnostic code, for example `syntax.unknown-document-kind`.
    pub code: String,
    /// Severity level.
    pub severity: Severity,
    /// Human-readable message.
    pub message: String,
    /// Optional actionable help text.
    pub help: Option<String>,
    /// Optional source span.
    pub span: Option<TextSpan>,
}

/// What a diagnostic says, with its texts as character sequences.
pub struct DiagnosticView {
    pub code: Seq<char>,
    pub severity: Severity,
    pub message: Seq<char>,
    pub help: Option<Seq<char>>,
    pub span: Option<SpanView>,
}

impl View for Diagnostic {
    type V = DiagnosticView;

    open spec fn view(&self) -> DiagnosticView {
        DiagnosticView {
            code: self.code@,
            severity: self.severity,
            message: self.message@,
            help: match self.help {
                Some(h) => Some(h@),
                None => None,
            },
            span: match self.span {
                Some(s) => Some(s@),
                None => None,
            },
        }
    }
}

/// The view of every diagnostic of a sequence.
pub open spec fn diagnostics_view(ds: Seq<Diagnostic>) -> Seq<DiagnosticView> {
    ds.map_values(|d: Diagnostic| d@)
}

/// An error diagnostic with the given code and message and nothing attached.
pub open spec fn error_view(code: Seq<char>, message: Seq<char>) -> DiagnosticView {
    DiagnosticView { code, severity: Severity::Error, message, help: None, span: None }
}

impl DiagnosticView {
    pub open spec fn with_span(self, span: SpanView) -> DiagnosticView {
        DiagnosticView { span: Some(span), ..self }
    }

    pub open spec fn with_help(self, help: Seq<char>) -> DiagnosticView {
        DiagnosticView { help: Some(help), ..self }
    }
}

impl Diagnostic {
    /// Creates an error diagnostic.
    pub fn error(code: &str, message: &str) -> (r: Diagnostic)
        ensures
            r@ == error_view(code@, message@),
    {
        Diagnostic {
            code: code.to_owned(),
            severity: Severity::Error,
            message: message.to_owned(),
            help: None,
            span: None,
        }
    }

    /// Creates an error diagnostic whose message is already an owned string.
    pub fn error_with_message(code: &str, message: String) -> (r: Diagnostic)
        ensures
            r@ == error_view(code@, message@),
    {
        Diagnostic {
            code: code.to_owned(),
            severity: Severity::Error,
            message,
            help: None,
            span: None,
        }
    }

    /// Creates a warning diagnostic.
    pub fn warning(code: &str, message: &str) -> (r: Diagnostic)
        ensures
            r@ == (DiagnosticView {
                code: code@,
                severity: Severity::Warning,
                message: message@,
                help: None,
                span: None,
            }),
    {
        Diagnostic {
            code: code.to_owned(),
            severity: Severity::Warning,
            message: message.to_owned(),
            help: None,
            span: None,
        }
    }

    /// Attaches help text.
    pub fn with_help(self, help: &str) -> (r: Diagnostic)
        ensures
            r@ == self@.with_help(help@),
    {
        let mut d = self;
        d.help = Some(help.to_owned());
        d
    }

    /// Attaches a source span.
    pub fn with_span(self, span: TextSpan) -> (r: Diagnostic)
        ensures
            r@ == self@.with_span(span@),
    {
        let mut d = self;
        d.span = Some(span);
        d
    }
}

/// Whether some diagnostic of the sequence is an error.
pub open spec fn any_error(ds: Seq<DiagnosticView>) -> bool {
    exists|i: int| 0 <= i < ds.len() && ds[i].severity == Severity::Error
}

/// Whether some diagnostic of a slice is an error.
pub fn contains_error(ds: &[Diagnostic]) -> (r: bool)
    ensures
        r == any_error(diagnostics_view(ds@)),
{
    let mut i: usize = 0;
    while i < ds.len()
        invariant
            i <= ds@.len(),
            forall|k: int| 0 <= k < i ==> ds@[k].severity != Severity::Error,
        decreases ds@.len() - i,
    {
        if ds[i].severity == Severity::Error {
            assert(diagnostics_view(ds@)[i as int].severity == Severity::Error);
            return true;
        }
        i = i + 1;
    }
    proof {
        assert forall|k: int| 0 <= k < ds@.len() implies diagnostics_view(ds@)[k].severity
            != Severity::Error by {
            assert(diagnostics_view(ds@)[k] == ds@[k]@);
        }
    }
    false
}

/// Diagnostics returned by a checking pass.
#[derive(Clone, Debug, PartialEq, Eq)]
pub struct CheckReport {
    /// Ordered diagnostics.
    pub diagnostics: Vec<Diagnostic>,
}

impl CheckReport {
    /// Creates an empty report.
    pub fn new() -> (r: CheckReport)
        ensures
            r.diagnostics@ == Seq::<Diagnostic>::empty(),
    {
        CheckReport { diagnostics: Vec::new() }
    }

    /// Adds a diagnostic to the report.
    pub fn push(&mut self, diagnostic: Diagnostic)
        ensures
            final(self).diagnostics@ == old(self).diagnostics@.push(diagnostic),
    {
        self.diagnostics.push(diagnostic);
    }

    /// Extends the report with diagnostics from another stage.
    pub fn extend(&mut self, diagnostics: Vec<Diagnostic>)
        ensures
            final(self).diagnostics@ == old(self).diagnostics@ + diagnostics@,
    {
        let mut more = diagnostics;
        self.diagnostics.append(&mut more);
    }

    /// Returns true if at least one error was emitted.
    pub fn has_errors(&self) -> (r: bool)
        ensures
            r == any_error(diagnostics_view(self.diagnostics@)),
    {
        contains_error(self.diagnostics.as_slice())
    }
}

} // verus!
