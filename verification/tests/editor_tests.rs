use mcdp_language::diagnostic::{Diagnostic, Severity};
use mcdp_language::editor::{
    document_diagnostics, editor_diagnostic, syntax_diagnostics, EditorDiagnostic,
};
use mcdp_language::line_index::{LineIndex, LspPosition, LspRange, TokenSegment};
use mcdp_language::{SourceId, TextRange, TextSpan};

fn offset_of(source: &str, needle: &str) -> usize {
    match source.find(needle) {
        Some(offset) => offset,
        None => panic!("missing `{needle}` in test source"),
    }
}

fn position(line: u32, character: u32) -> LspPosition {
    LspPosition { line, character }
}

#[test]
fn maps_ascii_offsets_to_lsp_positions() {
    let source = "mcdp {\n  provides speed [Nat]\n}\n";
    let line_index = LineIndex::new(source);

    assert_eq!(line_index.position(offset_of(source, "provides")), position(1, 2));
    assert_eq!(line_index.position(source.len()), position(3, 0));
}

#[test]
fn counts_utf16_columns_for_unicode_source() {
    let source = "mcdp {\n  provides speed [m/s²]\n  provided speed ≤ 10\n}\n";
    let line_index = LineIndex::new(source);
    let squared_offset = offset_of(source, "²");
    let relation_offset = offset_of(source, "≤");

    assert_eq!(line_index.position(squared_offset), position(1, 21));
    assert_eq!(line_index.position(squared_offset + "²".len()), position(1, 22));
    assert_eq!(line_index.position(relation_offset), position(2, 17));
    assert_eq!(line_index.position(relation_offset + "≤".len()), position(2, 18));
}

#[test]
fn clamps_non_char_boundary_offsets() {
    let source = "mcdp { α }";
    let line_index = LineIndex::new(source);
    let alpha_offset = offset_of(source, "α");

    assert_eq!(line_index.position(alpha_offset + 1), line_index.position(alpha_offset));
}

#[test]
fn maps_lsp_positions_back_to_byte_offsets() {
    let source = "mcdp {\n  provides speed [m/s²]\n}\n";
    let line_index = LineIndex::new(source);

    assert_eq!(line_index.offset(position(1, 2)), offset_of(source, "provides"));
    assert_eq!(line_index.offset(position(1, 22)), offset_of(source, "]"));
    assert_eq!(line_index.offset(position(99, 0)), source.len());
}

#[test]
fn offsets_stop_before_carriage_return_line_breaks() {
    let source = "ab\r\ncd";
    let line_index = LineIndex::new(source);

    assert_eq!(line_index.offset(position(0, 10)), 2);
    assert_eq!(line_index.offset(position(1, 1)), 5);
    assert_eq!(line_index.position(5), position(1, 1));
}

#[test]
fn position_then_offset_gives_back_the_boundary() {
    let source = "x ≤ 𝔸y\nz";
    let line_index = LineIndex::new(source);
    for (offset, ch) in source.char_indices() {
        if ch == '\n' {
            continue;
        }
        assert_eq!(line_index.offset(line_index.position(offset)), offset);
    }
}

#[test]
fn token_segments_split_at_line_breaks() {
    let source = "ab\ncd\n";
    let line_index = LineIndex::new(source);

    assert_eq!(
        line_index.token_segments(TextRange::new(1, 5)),
        vec![
            TokenSegment { line: 0, start: 1, length: 1 },
            TokenSegment { line: 1, start: 0, length: 2 }
        ]
    );
    assert!(line_index.token_segments(TextRange::new(3, 3)).is_empty());
}

#[test]
fn lsp_diagnostic_preserves_severity_code_and_help() {
    let source = "bad { }";
    let line_index = LineIndex::new(source);
    let diagnostic =
        Diagnostic::error("syntax.unknown-document-kind", "expected a top-level MCDPL document kind")
            .with_help("Start the file with mcdp.")
            .with_span(TextSpan::new(SourceId::new("test.mcdp"), TextRange::new(0, 3)));

    let converted: EditorDiagnostic = editor_diagnostic(&line_index, &diagnostic, "mcdp-syntax");

    assert_eq!(converted.range, LspRange { start: position(0, 0), end: position(0, 3) });
    assert_eq!(converted.severity, Severity::Error);
    assert_eq!(converted.code, "syntax.unknown-document-kind");
    assert_eq!(
        converted.message,
        "expected a top-level MCDPL document kind\nhelp: Start the file with mcdp."
    );
}

#[test]
fn syntax_diagnostics_parse_mcdpl_source() {
    let diagnostics = syntax_diagnostics("bad.mcdp", "bad { }");

    assert_eq!(diagnostics.len(), 1);
    assert_eq!(diagnostics[0].code, "syntax.unknown-document-kind");
}

#[test]
fn document_diagnostics_include_compiler_lowering_errors() {
    let diagnostics = document_diagnostics(
        "file:///tmp/duplicate.mcdp",
        "\
mcdp {
  provides value [Nat]
  provides value [Nat]
}
",
        None,
    );

    assert!(diagnostics.iter().any(|diagnostic| {
        diagnostic.source == "mcdp-compiler" && diagnostic.code == "compiler.duplicate-port"
    }));
}

#[test]
fn document_diagnostics_include_cross_namespace_duplicate_names() {
    let diagnostics = document_diagnostics(
        "file:///tmp/duplicate-name.mcdp",
        "\
dp {
  provides name [Nat]
  requires name [J]

  sub name = instance `model

  implemented-by yaml resource(\"test\")
}
",
        None,
    );

    assert!(diagnostics.iter().any(|diagnostic| {
        diagnostic.source == "mcdp-compiler" && diagnostic.code == "compiler.duplicate-name"
    }));
}

#[test]
fn compiler_diagnostics_are_skipped_when_syntax_fails() {
    let diagnostics = document_diagnostics("x.mcdp", "mcdp { provides x [kg]\nprovides x [kg]", None);
    assert!(diagnostics.iter().all(|diagnostic| diagnostic.source == "mcdp-syntax"));
    assert!(!diagnostics.is_empty());
}

#[test]
fn document_diagnostics_include_project_diagnostics_with_an_index() {
    let uri = "file:///tmp/editor-project/fleet.mcdp";
    let source = "mcdp {\n  required total >= cost required by fu\n}\n";
    let mut index = mcdp_language::project::ProjectSymbolIndex::new();
    index.upsert(uri, source);
    let diagnostics = document_diagnostics(uri, source, Some(&index));
    let project: Vec<&EditorDiagnostic> =
        diagnostics.iter().filter(|diagnostic| diagnostic.source == "mcdp-lsp").collect();
    assert_eq!(project.len(), 1);
    assert_eq!(project[0].code, "lsp.undefined-instance");
    assert_eq!(
        project[0].message,
        "instance `fu` is not declared in this document\nhelp: Add a matching `sub fu = instance ...` declaration or update the `by fu` reference."
    );
    assert_eq!(project[0].range.start.line, 1);
    assert!(document_diagnostics(uri, source, None).iter().all(|diagnostic| diagnostic.source != "mcdp-lsp"));
}

#[test]
fn document_diagnostics_reject_trailing_tokens_after_port_posets() {
    let diagnostics = document_diagnostics(
        "file:///tmp/trailing-port-poset.mcdp",
        "\
dp {
  provides name [N];
  requires name [J]hallo;
}
",
        None,
    );

    assert!(diagnostics.iter().any(|diagnostic| {
        diagnostic.source == "mcdp-syntax" && diagnostic.code == "syntax.trailing-port-poset-token"
    }));
}

#[test]
fn trailing_port_token_is_reported_at_the_token_only_for_ports() {
    let source = "dp {\n  provides name [N]\n  requires other [J] extra\n  total = [1] + 2\n}\n";
    let diagnostics = document_diagnostics("file:///tmp/trailing-port-token.mcdp", source, None);
    let trailing: Vec<&EditorDiagnostic> = diagnostics
        .iter()
        .filter(|diagnostic| diagnostic.code == "syntax.trailing-port-poset-token")
        .collect();

    assert_eq!(trailing.len(), 1);
    let line_index = LineIndex::new(source);
    let start = offset_of(source, "extra");
    assert_eq!(trailing[0].range, LspRange { start: line_index.position(start), end: line_index.position(start + 5) });
    assert_eq!(trailing[0].severity, Severity::Error);
    assert!(!diagnostics.iter().any(|diagnostic| diagnostic.source == "mcdp-compiler"));
}
