//! Diagnostics as an editor shows them: ranges in editor positions, the
//! stage that reported them, and help folded into the message.

use vstd::prelude::*;
use crate::diagnostic::{any_error, diagnostics_view, Diagnostic, DiagnosticView, Severity};
use crate::line_index::{position_spec, LineIndex, LspPosition, LspRange};
use crate::semantic::{lower_document, lower_document_spec};
use crate::source::SourceId;
use crate::syntax::{parse_document, parse_document_spec};
use crate::text::{chars_of, push_chars, push_range, string_from_chars};
use crate::project::{semantic_diagnostics_spec, IndexedDocumentView, ProjectDiagnostic, ProjectDiagnosticView, ProjectSymbolIndex};

verus! {

/// A diagnostic placed in a document for an editor.
#[derive(Clone, Debug, PartialEq, Eq)]
pub struct EditorDiagnostic {
    /// Where it applies.
    pub range: LspRange,
    /// How severe it is.
    pub severity: Severity,
    /// Stable diagnostic code.
    pub code: String,
    /// The stage that reported it.
    pub source: String,
    /// The message, with the help text appended.
    pub message: String,
}

pub struct EditorDiagnosticView {
    pub range: LspRange,
    pub severity: Severity,
    pub code: Seq<char>,
    pub source: Seq<char>,
    pub message: Seq<char>,
}

impl View for EditorDiagnostic {
    type V = EditorDiagnosticView;

    open spec fn view(&self) -> EditorDiagnosticView {
        EditorDiagnosticView {
            range: self.range,
            severity: self.severity,
            code: self.code@,
            source: self.source@,
            message: self.message@,
        }
    }
}

pub open spec fn editor_views(ds: Seq<EditorDiagnostic>) -> Seq<EditorDiagnosticView> {
    ds.map_values(|d: EditorDiagnostic| d@)
}

/// The message of a diagnostic, followed by its help on a line of its own.
pub open spec fn message_spec(d: DiagnosticView) -> Seq<char> {
    match d.help {
        Some(help) => d.message + "\nhelp: "@ + help,
        None => d.message,
    }
}

/// A diagnostic of a text placed for the editor: its span's range in editor
/// positions (the start of the text when it has none).
pub open spec fn editor_spec(text: Seq<char>, d: DiagnosticView, stage: Seq<char>) -> EditorDiagnosticView {
    EditorDiagnosticView {
        range: match d.span {
            Some(span) => LspRange {
                start: position_spec(text, span.range.start as int),
                end: position_spec(text, span.range.end as int),
            },
            None => LspRange {
                start: LspPosition { line: 0, character: 0 },
                end: LspPosition { line: 0, character: 0 },
            },
        },
        severity: d.severity,
        code: d.code,
        source: stage,
        message: message_spec(d),
    }
}

pub open spec fn editor_all(text: Seq<char>, ds: Seq<DiagnosticView>, stage: Seq<char>) -> Seq<
    EditorDiagnosticView,
> {
    ds.map_values(|d: DiagnosticView| editor_spec(text, d, stage))
}

/// The syntax diagnostics of a text.
pub open spec fn syntax_diagnostics_spec(id: Seq<char>, text: Seq<char>) -> Seq<EditorDiagnosticView> {
    editor_all(text, parse_document_spec(id, text).diagnostics, "mcdp-syntax"@)
}

/// The lowering diagnostics of a text that parses without errors.
pub open spec fn compiler_diagnostics_spec(id: Seq<char>, text: Seq<char>) -> Seq<EditorDiagnosticView> {
    let parsed = parse_document_spec(id, text);
    if any_error(parsed.diagnostics) {
        Seq::empty()
    } else {
        editor_all(text, lower_document_spec(id, parsed).1, "mcdp-compiler"@)
    }
}

/// A diagnostic's message with its help appended.
pub fn diagnostic_message(diagnostic: &Diagnostic) -> (r: String)
    ensures
        r@ == message_spec(diagnostic@),
{
    match &diagnostic.help {
        Some(help) => {
            let message = chars_of(diagnostic.message.as_str());
            let help_chars = chars_of(help.as_str());
            let mut out: Vec<char> = Vec::new();
            push_range(&mut out, message.as_slice(), 0, message.len());
            push_chars(&mut out, "\nhelp: ");
            push_range(&mut out, help_chars.as_slice(), 0, help_chars.len());
            assert(message@.subrange(0, message@.len() as int) =~= message@);
            assert(help_chars@.subrange(0, help_chars@.len() as int) =~= help_chars@);
            string_from_chars(out.as_slice())
        },
        None => diagnostic.message.clone(),
    }
}

/// A diagnostic placed for the editor, reported by `stage`.
pub fn editor_diagnostic(line_index: &LineIndex, diagnostic: &Diagnostic, stage: &str) -> (r:
    EditorDiagnostic)
    requires
        line_index.wf(),
    ensures
        r@ == editor_spec(line_index@, diagnostic@, stage@),
{
    let range = match &diagnostic.span {
        Some(span) => line_index.range(span.range),
        None => LspRange {
            start: LspPosition { line: 0, character: 0 },
            end: LspPosition { line: 0, character: 0 },
        },
    };
    EditorDiagnostic {
        range,
        severity: diagnostic.severity,
        code: diagnostic.code.clone(),
        source: stage.to_owned(),
        message: diagnostic_message(diagnostic),
    }
}

fn editor_diagnostics(line_index: &LineIndex, diagnostics: &[Diagnostic], stage: &str) -> (r: Vec<
    EditorDiagnostic,
>)
    requires
        line_index.wf(),
    ensures
        editor_views(r@) == editor_all(line_index@, diagnostics_view(diagnostics@), stage@),
{
    let ghost dv = diagnostics_view(diagnostics@);
    let mut out: Vec<EditorDiagnostic> = Vec::new();
    let mut i: usize = 0;
    while i < diagnostics.len()
        invariant
            i <= diagnostics@.len(),
            line_index.wf(),
            dv == diagnostics_view(diagnostics@),
            editor_views(out@) == editor_all(line_index@, dv.take(i as int), stage@),
        decreases diagnostics@.len() - i,
    {
        let d = editor_diagnostic(line_index, &diagnostics[i], stage);
        proof {
            assert(dv[i as int] == diagnostics@[i as int]@);
            assert(editor_views(out@.push(d)) =~= editor_views(out@).push(d@));
            assert(editor_all(line_index@, dv.take(i + 1), stage@) =~= editor_all(
                line_index@,
                dv.take(i as int),
                stage@,
            ).push(d@));
        }
        out.push(d);
        i = i + 1;
    }
    assert(dv.take(diagnostics@.len() as int) =~= dv);
    out
}

/// The syntax diagnostics of a document, placed for the editor.
pub fn syntax_diagnostics(source_id: &str, source: &str) -> (r: Vec<EditorDiagnostic>)
    ensures
        editor_views(r@) == syntax_diagnostics_spec(source_id@, source@),
{
    let parsed = parse_document(SourceId::new(source_id), source);
    let line_index = LineIndex::new(source);
    editor_diagnostics(&line_index, parsed.diagnostics.as_slice(), "mcdp-syntax")
}

/// The lowering diagnostics of a document, placed for the editor; none when
/// the document has syntax errors.
pub fn compiler_diagnostics(source_id: &str, source: &str) -> (r: Vec<EditorDiagnostic>)
    ensures
        editor_views(r@) == compiler_diagnostics_spec(source_id@, source@),
{
    let id = SourceId::new(source_id);
    let parsed = parse_document(id.duplicate(), source);
    if parsed.has_errors() {
        let empty: Vec<EditorDiagnostic> = Vec::new();
        assert(editor_views(empty@) =~= Seq::<EditorDiagnosticView>::empty());
        return empty;
    }
    let (_model, diagnostics) = lower_document(id, &parsed);
    let line_index = LineIndex::new(source);
    editor_diagnostics(&line_index, diagnostics.as_slice(), "mcdp-compiler")
}

/// A diagnostic that needs the project, placed for the editor.
pub open spec fn project_editor_spec(text: Seq<char>, d: ProjectDiagnosticView) -> EditorDiagnosticView {
    EditorDiagnosticView {
        range: LspRange { start: position_spec(text, d.range.start as int), end: position_spec(text, d.range.end as int) },
        severity: d.severity,
        code: d.code,
        source: "mcdp-lsp"@,
        message: match d.help {
            Some(help) => d.message + "\nhelp: "@ + help,
            None => d.message,
        },
    }
}

pub open spec fn project_editor_all(text: Seq<char>, ds: Seq<ProjectDiagnosticView>) -> Seq<EditorDiagnosticView> {
    ds.map_values(|d: ProjectDiagnosticView| project_editor_spec(text, d))
}

/// A diagnostic that needs the project, placed for the editor.
pub fn project_editor_diagnostic(line_index: &LineIndex, diagnostic: &ProjectDiagnostic) -> (r: EditorDiagnostic)
    requires
        line_index.wf(),
    ensures
        r@ == project_editor_spec(line_index@, diagnostic@),
{
    let message = match &diagnostic.help {
        Some(help) => {
            let message = chars_of(diagnostic.message.as_str());
            let help_chars = chars_of(help.as_str());
            let mut out: Vec<char> = Vec::new();
            push_range(&mut out, message.as_slice(), 0, message.len());
            push_chars(&mut out, "\nhelp: ");
            push_range(&mut out, help_chars.as_slice(), 0, help_chars.len());
            assert(message@.subrange(0, message@.len() as int) =~= message@);
            assert(help_chars@.subrange(0, help_chars@.len() as int) =~= help_chars@);
            string_from_chars(out.as_slice())
        },
        None => diagnostic.message.clone(),
    };
    EditorDiagnostic {
        range: line_index.range(diagnostic.range),
        severity: diagnostic.severity,
        code: diagnostic.code.clone(),
        source: "mcdp-lsp".to_owned(),
        message,
    }
}

/// The project diagnostics of a document in the index, placed for the
/// editor; none when the index has no document under that id.
pub open spec fn project_diagnostics_spec(index: Option<Seq<IndexedDocumentView>>, id: Seq<char>, text: Seq<char>) -> Seq<
    EditorDiagnosticView,
> {
    match index {
        Some(docs) => project_editor_all(text, semantic_diagnostics_spec(docs, id)),
        None => Seq::empty(),
    }
}

pub open spec fn opt_index(index: Option<&ProjectSymbolIndex>) -> Option<Seq<IndexedDocumentView>> {
    match index {
        Some(i) => Some(i@),
        None => None,
    }
}

/// Syntax diagnostics, then lowering diagnostics, then, with an index, the
/// diagnostics of the document that need the project.
pub fn document_diagnostics(source_id: &str, source: &str, index: Option<&ProjectSymbolIndex>) -> (r: Vec<
    EditorDiagnostic,
>)
    ensures
        editor_views(r@) == syntax_diagnostics_spec(source_id@, source@) + compiler_diagnostics_spec(
            source_id@,
            source@,
        ) + project_diagnostics_spec(opt_index(index), source_id@, source@),
{
    let mut diagnostics = syntax_diagnostics(source_id, source);
    let mut more = compiler_diagnostics(source_id, source);
    let ghost a = diagnostics@;
    let ghost b = more@;
    diagnostics.append(&mut more);
    assert(editor_views(diagnostics@) =~= editor_views(a) + editor_views(b));
    let ghost before = editor_views(diagnostics@);
    match index {
        Some(index) => {
            let project = index.semantic_diagnostics(source_id);
            let line_index = LineIndex::new(source);
            let ghost pv = crate::symbols::views(project@);
            let mut i: usize = 0;
            while i < project.len()
                invariant
                    i <= project@.len(),
                    line_index.wf(),
                    line_index@ == source@,
                    pv == crate::symbols::views(project@),
                    editor_views(diagnostics@) == before + project_editor_all(source@, pv.take(i as int)),
                decreases project@.len() - i,
            {
                let d = project_editor_diagnostic(&line_index, &project[i]);
                proof {
                    assert(pv[i as int] == project@[i as int]@);
                    assert(editor_views(diagnostics@.push(d)) =~= editor_views(diagnostics@).push(d@));
                    assert(project_editor_all(source@, pv.take(i + 1)) =~= project_editor_all(
                        source@,
                        pv.take(i as int),
                    ).push(d@));
                }
                diagnostics.push(d);
                i = i + 1;
            }
            assert(pv.take(project@.len() as int) =~= pv);
        },
        None => {
            assert(before + project_diagnostics_spec(None, source_id@, source@) =~= before);
        },
    }
    diagnostics
}

} // verus!
