use mcdp_language::{lex, parse_document, DocumentKind, ParsedDocument, SourceId, StatementKind, SyntaxBody, TokenKind};

fn statement_kinds(parsed: &ParsedDocument) -> Vec<StatementKind> {
    match parsed.syntax.as_ref().map(|syntax| &syntax.body) {
        Some(SyntaxBody::Braced { statements }) | Some(SyntaxBody::Template { statements, .. }) => {
            statements.iter().map(|statement| statement.kind).collect()
        }
        _ => Vec::new(),
    }
}

#[test]
fn detects_mcdp_document() {
    let parsed = parse_document(SourceId::new("battery.mcdp"), "mcdp { provides capacity [J] }");

    assert_eq!(parsed.kind, Some(DocumentKind::Mcdp));
    assert!(!parsed.has_errors());
    assert_eq!(
        parsed.syntax.as_ref().map(|syntax| syntax.body.statements().len()),
        Some(1)
    );
}

#[test]
fn keeps_unicode_operators() {
    let tokens = lex("provided capacity ≤ 500 J");
    let operators: Vec<_> = tokens
        .iter()
        .filter(|token| token.kind == TokenKind::Operator)
        .map(|token| token.text.as_str())
        .collect();

    assert_eq!(operators, vec!["≤"]);
}

#[test]
fn reports_unknown_document_kind() {
    let parsed = parse_document(SourceId::new("bad.mcdp"), "unknown { }");

    assert!(parsed.has_errors());
    assert_eq!(parsed.diagnostics[0].code, "syntax.unknown-document-kind");
}

#[test]
fn classifies_core_statement_shapes() {
    let parsed = parse_document(
        SourceId::new("rover.mcdp"),
        "\
mcdp {
  provides velocity [m/s]
  requires cost [USD]
  battery_dp = instance `battery
  provided velocity <= velocity provided by battery_dp
  mass = 10 kg
}
",
    );

    let kinds = statement_kinds(&parsed);

    assert_eq!(
        kinds,
        vec![
            StatementKind::Provides,
            StatementKind::Requires,
            StatementKind::Instance,
            StatementKind::Constraint,
            StatementKind::Assignment,
        ]
    );
}

#[test]
fn classifies_direct_import_statement() {
    let parsed = parse_document(
        SourceId::new("system.mcdp"),
        "\
mcdp {
  import model `battery
}
",
    );

    let kinds = statement_kinds(&parsed);

    assert_eq!(kinds, vec![StatementKind::Import]);
}

#[test]
fn parses_choose_entries() {
    let parsed = parse_document(
        SourceId::new("Batteries.mcdp"),
        "choose (NiMH: `Battery_NiMH, LFP: `Battery_LFP)",
    );

    let entry_count = match parsed.syntax.as_ref().map(|syntax| &syntax.body) {
        Some(SyntaxBody::Parenthesized { entries }) => entries.len(),
        _ => 0,
    };

    assert_eq!(entry_count, 2);
    assert!(!parsed.has_errors());
}

#[test]
fn parses_intersection_entries() {
    let parsed = parse_document(
        SourceId::new("Both.mcdp"),
        "intersection (A: `Battery_A, B: `Battery_B)",
    );

    let entry_count = match parsed.syntax.as_ref().map(|syntax| &syntax.body) {
        Some(SyntaxBody::Parenthesized { entries }) => entries.len(),
        _ => 0,
    };

    assert_eq!(parsed.kind, Some(DocumentKind::Intersection));
    assert_eq!(entry_count, 2);
    assert!(!parsed.has_errors());
}

#[test]
fn keeps_multiline_product_declaration_as_one_statement() {
    let parsed = parse_document(
        SourceId::new("catalog_planner.mcdp"),
        "\
dp {
  requires dyn_prop [product(v: m/s,
                             max_lateral_a: m/s²,
                             path_type: `path_type)]
  implemented-by yaml resource(\"catalog.yaml\")
}
",
    );

    let kinds = statement_kinds(&parsed);

    assert_eq!(kinds, vec![StatementKind::Requires, StatementKind::ImplementedBy]);
    assert!(!parsed.has_errors());
}

#[test]
fn classifies_catalog_record() {
    let parsed = parse_document(
        SourceId::new("catalog.mcdp"),
        "catalog { ⟨5 m/s, 1 m⟩ <-| imp1 |-> 10 kg, 4000 USD }",
    );

    assert_eq!(statement_kinds(&parsed), vec![StatementKind::CatalogRecord]);
    assert!(!parsed.has_errors());
}

#[test]
fn reports_unbalanced_delimiters() {
    let parsed = parse_document(SourceId::new("bad.mcdp"), "mcdp { provides x [kg] ");

    assert!(parsed.has_errors());
    assert!(parsed
        .diagnostics
        .iter()
        .any(|diagnostic| diagnostic.code == "syntax.unbalanced-delimiter"));
}

#[test]
fn lexes_identifiers_of_a_port_declaration() {
    let tokens = lex("mcdp { provides speed [m/s] }");
    let identifiers: Vec<_> = tokens
        .iter()
        .filter(|token| token.kind == TokenKind::Ident)
        .map(|token| token.text.as_str())
        .collect();

    assert_eq!(identifiers, vec!["speed", "m", "s"]);
}
