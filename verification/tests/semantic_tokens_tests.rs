use mcdp_language::line_index::LineIndex;
use mcdp_language::semantic_tokens::{
    legend, semantic_tokens, EncodedToken, TOKEN_TYPE_COMMENT, TOKEN_TYPE_DOCUMENT_KIND,
    TOKEN_TYPE_INSTANCE, TOKEN_TYPE_KEYWORD, TOKEN_TYPE_MODEL_REFERENCE, TOKEN_TYPE_NUMBER,
    TOKEN_TYPE_OPERATOR, TOKEN_TYPE_PROVIDED_VARIABLE, TOKEN_TYPE_REQUIRED_VARIABLE,
    TOKEN_TYPE_RESOURCE_BINDING, TOKEN_TYPE_STRING, TOKEN_TYPE_VARIABLE, TOKEN_TYPE_TEMPLATE_REFERENCE,
    TOKEN_TYPE_LIBRARY,
};
use mcdp_language::symbols::DocumentSymbols;

#[derive(Debug, PartialEq, Eq)]
struct AbsoluteToken {
    line: u32,
    start: u32,
    length: u32,
    token_type: u32,
}

fn absolute_tokens(tokens: &[EncodedToken]) -> Vec<AbsoluteToken> {
    let mut line = 0;
    let mut start = 0;
    tokens
        .iter()
        .map(|token| {
            line += token.delta_line;
            if token.delta_line == 0 {
                start += token.delta_start;
            } else {
                start = token.delta_start;
            }
            AbsoluteToken { line, start, length: token.length, token_type: token.token_type }
        })
        .collect()
}

fn offset_of(source: &str, needle: &str) -> usize {
    match source.find(needle) {
        Some(offset) => offset,
        None => panic!("missing `{needle}` in test source"),
    }
}

fn offset_after(source: &str, needle: &str) -> usize {
    offset_of(source, needle) + needle.len()
}

fn absolute_token_at_offset(
    source: &str,
    needle: &str,
    start_offset: usize,
    token_type: u32,
) -> AbsoluteToken {
    let line_index = LineIndex::new(source);
    let start = line_index.position(start_offset);
    let end = line_index.position(start_offset + needle.len());
    AbsoluteToken {
        line: start.line,
        start: start.character,
        length: end.character.saturating_sub(start.character),
        token_type,
    }
}

fn absolute_token(source: &str, needle: &str, token_type: u32) -> AbsoluteToken {
    let line_index = LineIndex::new(source);
    let start_offset = offset_of(source, needle);
    let start = line_index.position(start_offset);
    let end = line_index.position(start_offset + needle.len());
    AbsoluteToken {
        line: start.line,
        start: start.character,
        length: end.character.saturating_sub(start.character),
        token_type,
    }
}

#[test]
fn options_advertise_full_document_tokens() {
    assert_eq!(legend().len(), 14);
    assert_eq!(legend()[0], "keyword");
    assert_eq!(legend()[13], "mcdplLibrary");
}

#[test]
fn encode_core_token_kinds() {
    let source = "\
mcdp {
  provides speed [m/s²]
  implemented-by yaml resource(\"catalog.yaml\") # catalog
  provided speed ≤ 10
}
";
    let tokens = absolute_tokens(&semantic_tokens(source, None));

    assert!(tokens.contains(&absolute_token(source, "mcdp", TOKEN_TYPE_KEYWORD)));
    assert!(tokens.contains(&absolute_token(source, "provides", TOKEN_TYPE_KEYWORD)));
    assert!(tokens.contains(&absolute_token(source, "speed", TOKEN_TYPE_VARIABLE)));
    assert!(tokens.contains(&absolute_token(source, "\"catalog.yaml\"", TOKEN_TYPE_STRING)));
    assert!(tokens.contains(&absolute_token(source, "# catalog", TOKEN_TYPE_COMMENT)));
    assert!(tokens.contains(&absolute_token(source, "≤", TOKEN_TYPE_OPERATOR)));
    assert!(tokens.contains(&absolute_token(source, "10", TOKEN_TYPE_NUMBER)));
}

#[test]
fn split_multiline_string_segments() {
    let source = "mcdp {\n  label = \"a\nb\"\n}\n";
    let tokens = absolute_tokens(&semantic_tokens(source, None));
    let string_tokens: Vec<_> =
        tokens.into_iter().filter(|token| token.token_type == TOKEN_TYPE_STRING).collect();

    assert_eq!(
        string_tokens,
        vec![
            absolute_token(source, "\"a", TOKEN_TYPE_STRING),
            absolute_token(source, "b\"", TOKEN_TYPE_STRING),
        ]
    );
}

#[test]
fn delta_encoding_of_a_small_document() {
    let tokens = semantic_tokens("dp {\n  x\n}", None);
    assert_eq!(
        tokens,
        vec![
            EncodedToken {
                delta_line: 0,
                delta_start: 0,
                length: 2,
                token_type: TOKEN_TYPE_KEYWORD,
                token_modifiers_bitset: 0
            },
            EncodedToken {
                delta_line: 1,
                delta_start: 2,
                length: 1,
                token_type: TOKEN_TYPE_VARIABLE,
                token_modifiers_bitset: 0
            },
        ]
    );
}

#[test]
fn semantic_symbol_roles_override_lexical_variable_tokens() {
    let source = "\
mcdp {
  provides number_t1 [car]
  requires total_cost [USD]
  requires student_policy [`student_policy]
  sub dp_t1 = instance `fleet_type_1
  implemented-by yaml resource(\"fleet.yaml\")
  provided number_t1 <= number_t1 provided by dp_t1
  required total_cost >= cost required by dp_t1
}
";
    let symbols = DocumentSymbols::parse("file:///tmp/fleet.mcdp", source);
    let tokens = absolute_tokens(&semantic_tokens(source, Some(&symbols)));

    assert!(tokens.contains(&absolute_token(source, "mcdp", TOKEN_TYPE_DOCUMENT_KIND)));
    assert!(tokens.contains(&absolute_token(source, "number_t1", TOKEN_TYPE_PROVIDED_VARIABLE)));
    assert!(tokens.contains(&absolute_token(source, "total_cost", TOKEN_TYPE_REQUIRED_VARIABLE)));
    assert!(tokens.contains(&absolute_token(source, "dp_t1", TOKEN_TYPE_INSTANCE)));
    assert!(tokens.contains(&absolute_token(source, "fleet_type_1", TOKEN_TYPE_INSTANCE)));
    assert!(tokens.contains(&absolute_token_at_offset(
        source,
        "student_policy",
        offset_of(source, "`student_policy") + 1,
        TOKEN_TYPE_MODEL_REFERENCE
    )));
    assert!(tokens.contains(&absolute_token(source, "implemented", TOKEN_TYPE_RESOURCE_BINDING)));
    assert!(!tokens.contains(&absolute_token(source, "\"fleet.yaml\"", TOKEN_TYPE_RESOURCE_BINDING)));
    assert!(!tokens.contains(&absolute_token(source, "\"fleet.yaml\"", TOKEN_TYPE_STRING)));
    assert!(tokens.contains(&absolute_token_at_offset(
        source,
        "number_t1",
        source.rfind("number_t1").expect("test source has number_t1"),
        TOKEN_TYPE_PROVIDED_VARIABLE
    )));
    assert!(tokens.contains(&absolute_token_at_offset(
        source,
        "dp_t1",
        source.rfind("dp_t1").expect("test source has dp_t1"),
        TOKEN_TYPE_INSTANCE
    )));
}

#[test]
fn duplicate_name_declarations_keep_their_declaration_role_colors() {
    let source = "\
dp {
  provides name [Nat]
  requires name [J]

  sub name = instance `model

  implemented-by yaml resource(\"test\")
}
";
    let symbols = DocumentSymbols::parse("file:///tmp/duplicate-name.mcdp", source);
    let tokens = absolute_tokens(&semantic_tokens(source, Some(&symbols)));

    assert!(tokens.contains(&absolute_token_at_offset(
        source,
        "name",
        offset_after(source, "provides "),
        TOKEN_TYPE_PROVIDED_VARIABLE
    )));
    assert!(tokens.contains(&absolute_token_at_offset(
        source,
        "name",
        offset_after(source, "requires "),
        TOKEN_TYPE_REQUIRED_VARIABLE
    )));
    assert!(tokens.contains(&absolute_token_at_offset(
        source,
        "name",
        offset_after(source, "sub "),
        TOKEN_TYPE_INSTANCE
    )));
}

#[test]
fn instance_scoped_variables_get_directional_role_colors() {
    let source = "\
mcdp {
  sub rs = instance `routing_service
  sub fu = instance `fuel
  sub mo = instance `monitor

  required total_cost >= (
    fuel_cost required by fu +
    monitor_cost required by mo
  )

  monitor_buses required by rs <= monitor_buses provided by mo
}
";
    let symbols = DocumentSymbols::parse("file:///tmp/routing.mcdp", source);
    let tokens = absolute_tokens(&semantic_tokens(source, Some(&symbols)));
    let fuel_cost = offset_of(source, "fuel_cost required by fu");
    let monitor_cost = offset_of(source, "monitor_cost required by mo");
    let required_monitor_buses = offset_of(source, "monitor_buses required by rs");
    let provided_monitor_buses = offset_of(source, "monitor_buses provided by mo");

    assert!(tokens.contains(&absolute_token_at_offset(
        source,
        "fuel_cost",
        fuel_cost,
        TOKEN_TYPE_REQUIRED_VARIABLE
    )));
    assert!(tokens.contains(&absolute_token_at_offset(
        source,
        "monitor_cost",
        monitor_cost,
        TOKEN_TYPE_REQUIRED_VARIABLE
    )));
    assert!(tokens.contains(&absolute_token_at_offset(
        source,
        "monitor_buses",
        required_monitor_buses,
        TOKEN_TYPE_REQUIRED_VARIABLE
    )));
    assert!(tokens.contains(&absolute_token_at_offset(
        source,
        "monitor_buses",
        provided_monitor_buses,
        TOKEN_TYPE_PROVIDED_VARIABLE
    )));
}

#[test]
fn instance_model_references_inside_instance_declarations_are_instance_colored() {
    let source = "\
mcdp {
  provides f [Nat]
  requires r [Nat]

  sub n0 = instance `unit
  sub n1 = instance `unit
  sub n2 = instance `unit
}
";
    let symbols = DocumentSymbols::parse("file:///tmp/units.mcdp", source);
    let tokens = absolute_tokens(&semantic_tokens(source, Some(&symbols)));
    let mut search_start = 0;

    for _ in 0..3 {
        let unit_offset = search_start
            + source[search_start..].find("`unit").expect("test source has instance unit reference")
            + 1;
        assert!(tokens.contains(&absolute_token_at_offset(source, "unit", unit_offset, TOKEN_TYPE_INSTANCE)));
        search_start = unit_offset + "unit".len();
    }
}

#[test]
fn specialize_template_target_and_parameter_bindings_get_distinct_colors() {
    let source = "\
specialize [
  Battery: `batteries_uncertain1.batteries,
  Actuation: `actuations_v2.actuation
] `UAVCompleteTemplate
";
    let symbols = DocumentSymbols::parse("file:///tmp/uav_actuation_battery.mcdp", source);
    let tokens = absolute_tokens(&semantic_tokens(source, Some(&symbols)));

    assert!(tokens.contains(&absolute_token(source, "UAVCompleteTemplate", TOKEN_TYPE_TEMPLATE_REFERENCE)));
    let batteries_offset = offset_after(source, "batteries_uncertain1.");
    assert!(tokens.contains(&absolute_token_at_offset(source, "batteries", batteries_offset, TOKEN_TYPE_INSTANCE)));
    assert!(!tokens.contains(&absolute_token_at_offset(
        source,
        "batteries",
        batteries_offset,
        TOKEN_TYPE_MODEL_REFERENCE
    )));
}

#[test]
fn instance_specialize_template_target_is_template_colored_not_instance() {
    let source = "\
template [Battery: BatteryInterface]
mcdp {
  actuation_energetics = instance specialize [
    Battery: Battery
  ] `ActuationEnergeticsTemplate
}
";
    let symbols = DocumentSymbols::parse("file:///tmp/UAVCompleteTemplate.mcdp_template", source);
    let tokens = absolute_tokens(&semantic_tokens(source, Some(&symbols)));

    assert!(tokens.contains(&absolute_token(source, "ActuationEnergeticsTemplate", TOKEN_TYPE_TEMPLATE_REFERENCE)));
    assert!(!tokens.contains(&absolute_token(source, "ActuationEnergeticsTemplate", TOKEN_TYPE_INSTANCE)));
}

#[test]
fn from_library_import_statements_color_library_and_imported_names() {
    let source = "\
from library batteries_uncertain1 import interface BatteryInterface

template [Battery: BatteryInterface]
mcdp {
  provides range [km]
}
";
    let symbols = DocumentSymbols::parse("file:///tmp/UAVCompleteTemplate.mcdp_template", source);
    let tokens = absolute_tokens(&semantic_tokens(source, Some(&symbols)));

    assert!(tokens.contains(&absolute_token(source, "batteries_uncertain1", TOKEN_TYPE_LIBRARY)));
    assert!(tokens.contains(&absolute_token_at_offset(
        source,
        "BatteryInterface",
        offset_after(source, "import interface "),
        TOKEN_TYPE_MODEL_REFERENCE
    )));
}
