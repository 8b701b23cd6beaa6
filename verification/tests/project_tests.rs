use mcdp_language::lookup::InstanceScopedReference;
use mcdp_language::completion::{model_file_paths, FoundFile};
use mcdp_language::project::{
    document_file, document_priority, ProjectDiagnostic, ProjectSymbolIndex, SymbolContext, SymbolTarget,
};
use mcdp_language::symbols::{DocumentSymbols, InstanceBinding, PortDirection, PortSymbol};
use mcdp_language::{DocumentKind, Severity, TextRange};

fn unit_text(port: &PortSymbol) -> Option<&str> {
    port.unit.as_ref().map(|unit| unit.text.as_str())
}

fn names(ports: &[PortSymbol]) -> Vec<&str> {
    ports.iter().map(|port| port.name.as_str()).collect()
}

fn instance_names(instances: &[InstanceBinding]) -> Vec<&str> {
    instances.iter().map(|instance| instance.name.as_str()).collect()
}

fn model_reference_names(symbols: &DocumentSymbols) -> Vec<&str> {
    symbols.model_references.iter().map(|reference| reference.name.as_str()).collect()
}

fn resource_paths(symbols: &DocumentSymbols) -> Vec<&str> {
    symbols.resource_bindings.iter().map(|resource| resource.path.as_str()).collect()
}

fn unit_names(symbols: &DocumentSymbols) -> Vec<&str> {
    symbols.declared_units.iter().map(|unit| unit.name.as_str()).collect()
}

fn has_diagnostic(diagnostics: &[ProjectDiagnostic], code: &str, text: &str) -> bool {
    diagnostics.iter().any(|diagnostic| diagnostic.code == code && diagnostic.message.contains(text))
}

fn offset_of(source: &str, needle: &str) -> usize {
    match source.find(needle) {
        Some(offset) => offset,
        None => panic!("missing `{needle}` in test source"),
    }
}

fn text_at(source: &str, range: TextRange) -> &str {
    &source[range.start..range.end]
}

fn must_option<T>(option: Option<T>, context: &str) -> T {
    match option {
        Some(value) => value,
        None => panic!("{context}"),
    }
}

fn index_of(documents: &[(&str, &str)]) -> ProjectSymbolIndex {
    let mut index = ProjectSymbolIndex::new();
    for (uri, source) in documents {
        index.upsert(uri, source);
    }
    index
}

#[test]
fn indexes_port_instance_model_resource_and_unit_symbols() {
    let source = "\
mcdp {
  provides number_t1 [car]
  requires total_cost [USD]
  sub dp_t1 = instance `fleet_type_1
  battery_dp = instance `battery
  implemented-by yaml resource(\"catalogs/fleet.yaml\")
}
";

    let symbols = DocumentSymbols::parse("file:///tmp/fleet.mcdp", source);

    assert_eq!(symbols.kind, Some(DocumentKind::Mcdp));
    assert_eq!(names(&symbols.provides), vec!["number_t1"]);
    assert_eq!(unit_text(&symbols.provides[0]), Some("car"));
    assert_eq!(names(&symbols.requires), vec!["total_cost"]);
    assert_eq!(unit_text(&symbols.requires[0]), Some("USD"));
    assert_eq!(instance_names(&symbols.instances), vec!["dp_t1", "battery_dp"]);
    assert_eq!(symbols.instances[0].model.as_ref().map(|model| model.name.as_str()), Some("fleet_type_1"));
    assert_eq!(symbols.instances[1].model.as_ref().map(|model| model.name.as_str()), Some("battery"));
    assert_eq!(model_reference_names(&symbols), vec!["fleet_type_1", "battery"]);
    assert_eq!(resource_paths(&symbols), vec!["catalogs/fleet.yaml"]);
    assert_eq!(unit_names(&symbols), vec!["car", "USD"]);
}

#[test]
fn indexes_multiline_product_unit_expression() {
    let source = "\
dp {
  requires dyn_prop [product(v: m/s,
                             max_lateral_a: m/s²,
                             path_type: `path_type)]
}
";

    let symbols = DocumentSymbols::parse("file:///tmp/planner.mcdp", source);

    assert_eq!(names(&symbols.requires), vec!["dyn_prop"]);
    assert_eq!(
        unit_text(&symbols.requires[0]),
        Some(
            "product(v: m/s,\n                             max_lateral_a: m/s²,\n                             path_type: `path_type)"
        )
    );
    assert_eq!(model_reference_names(&symbols), vec!["path_type"]);
}

#[test]
fn resolves_model_reference_definition_to_matching_model_file() {
    let fleet_source = "\
mcdp {
  sub dp_t1 = instance `fleet_type_1
}
";
    let target_source = "dp { provides operators [Nat] }";
    let fleet_uri = "file:///tmp/model-reference-definition/fleet.mcdp";
    let target_uri = "file:///tmp/model-reference-definition/fleet_type_1.mcdp";
    let index = index_of(&[(fleet_uri, fleet_source), (target_uri, target_source)]);

    let target = match index.definition_at(fleet_uri, offset_of(fleet_source, "fleet_type_1")) {
        Some(target) => target,
        None => panic!("missing definition target for model reference"),
    };

    assert_eq!(target.uri, target_uri);
    assert_eq!(text_at(target_source, target.range), "dp");
}

#[test]
fn resolves_instance_scoped_variable_to_instance_model_port() {
    let fleet_source = "\
mcdp {
  sub dp_t1 = instance `fleet_type_1
  required total_num_operators >= operators required by dp_t1
}
";
    let target_source = "dp { requires operators [Nat] }";
    let fleet_uri = "file:///tmp/instance-scoped-definition/fleet.mcdp";
    let target_uri = "file:///tmp/instance-scoped-definition/fleet_type_1.mcdp";
    let index = index_of(&[(fleet_uri, fleet_source), (target_uri, target_source)]);

    let target = match index.definition_at(fleet_uri, offset_of(fleet_source, "operators required by dp_t1")) {
        Some(target) => target,
        None => panic!("missing definition target for instance-scoped variable"),
    };

    assert_eq!(target.uri, target_uri);
    assert_eq!(text_at(target_source, target.range), "operators");
}

#[test]
fn hover_explains_document_kind_and_resolved_symbols() {
    let fleet_source = "\
mcdp {
  sub dp_t1 = instance `fleet_type_1
  required total_num_operators >= operators required by dp_t1
}
";
    let fleet_uri = "file:///tmp/symbol-hover/fleet.mcdp";
    let target_uri = "file:///tmp/symbol-hover/fleet_type_1.mcdp";
    let index = index_of(&[(fleet_uri, fleet_source), (target_uri, "dp { requires operators [Nat] }")]);

    let document_kind_hover = must_option(index.hover_at(target_uri, 0), "missing document kind hover");
    assert!(document_kind_hover.contents.contains("`dp` document"));

    let model_hover =
        must_option(index.hover_at(fleet_uri, offset_of(fleet_source, "fleet_type_1")), "missing model reference hover");
    assert!(model_hover.contents.contains("Model reference"));
    assert!(model_hover.contents.contains("fleet_type_1"));

    let variable_hover = must_option(
        index.hover_at(fleet_uri, offset_of(fleet_source, "operators required by dp_t1")),
        "missing instance-scoped variable hover",
    );
    assert!(variable_hover.contents.contains("Required variable"));
    assert!(variable_hover.contents.contains("dp_t1"));
}

#[test]
fn hover_explains_primitive_posets_and_units() {
    let source = "\
dp {
  provides count [Nat]
  requires energy [J]
}
";
    let uri = "file:///tmp/primitive-poset-hover/unit.mcdp";
    let index = index_of(&[(uri, source)]);

    let nat_hover = must_option(index.hover_at(uri, offset_of(source, "Nat")), "missing Nat hover");
    assert!(nat_hover.contents.contains("Natural numbers"));

    let joule_hover = must_option(index.hover_at(uri, offset_of(source, "J")), "missing J hover");
    assert!(joule_hover.contents.contains("joule"));
}

#[test]
fn reports_undefined_custom_units_and_named_posets() {
    let source = "\
mcdp {
  provides vehicles [car]
  requires mode [`missing_mode]
  requires totals [product(cost: USD, mass: kg)]
}
";
    let uri = "file:///tmp/undefined-units/fleet.mcdp";
    let index = index_of(&[(uri, source)]);

    let diagnostics = index.semantic_diagnostics(uri);

    assert!(has_diagnostic(&diagnostics, "lsp.undefined-unit", "car"));
    assert!(has_diagnostic(&diagnostics, "lsp.undefined-poset", "missing_mode"));
    assert!(!diagnostics.iter().any(|diagnostic| diagnostic.message.contains("USD")));
    assert!(!diagnostics.iter().any(|diagnostic| diagnostic.message.contains("kg")));
}

#[test]
fn reports_undefined_instance_references() {
    let source = "\
mcdp {
  requires total_cost [USD]
  # sub fu = instance `fuel

  required total_cost >= fuel_cost required by fu
}
";
    let uri = "file:///tmp/undefined-instance/fleet.mcdp";
    let index = index_of(&[(uri, source), ("file:///tmp/undefined-instance/fuel.mcdp", "dp { requires fuel_cost [USD] }")]);

    let diagnostics = index.semantic_diagnostics(uri);

    assert!(has_diagnostic(&diagnostics, "lsp.undefined-instance", "fu"));
    let diagnostic = diagnostics
        .iter()
        .find(|diagnostic| diagnostic.code == "lsp.undefined-instance")
        .expect("undefined instance diagnostic should exist");
    assert_eq!(text_at(source, diagnostic.range), "fu");
}

#[test]
fn reports_missing_ports_on_resolved_instances() {
    let source = "\
mcdp {
  requires total_cost [USD]
  sub fu = instance `fuel

  required total_cost >= fuel_cost required by fu
}
";
    let uri = "file:///tmp/undefined-instance-port/fleet.mcdp";
    let index = index_of(&[(uri, source), ("file:///tmp/undefined-instance-port/fuel.mcdp", "dp { requires emissions [kg] }")]);

    let diagnostics = index.semantic_diagnostics(uri);

    assert!(has_diagnostic(&diagnostics, "lsp.undefined-required-port", "fuel_cost"));
    let diagnostic = diagnostics
        .iter()
        .find(|diagnostic| diagnostic.code == "lsp.undefined-required-port")
        .expect("undefined required port diagnostic should exist");
    assert_eq!(text_at(source, diagnostic.range), "fuel_cost");
}

#[test]
fn accepts_project_defined_custom_units_and_named_posets() {
    let source = "\
mcdp {
  provides vehicles [car]
  requires mode [`mode]
}
";
    let uri = "file:///tmp/defined-units/fleet.mcdp";
    let index = index_of(&[
        (uri, source),
        ("file:///tmp/defined-units/car.mcdp_poset", "poset { compact full_size }"),
        ("file:///tmp/defined-units/mode.mcdp_poset", "poset { regular express }"),
    ]);

    let diagnostics = index.semantic_diagnostics(uri);

    assert!(diagnostics.is_empty(), "{diagnostics:?}");
}

#[test]
fn upsert_replaces_the_document_under_its_uri() {
    let uri = "file:///tmp/replace/fleet.mcdp";
    let mut index = index_of(&[(uri, "mcdp { provides old_name [Nat] }")]);
    index.upsert(uri, "mcdp { provides number_t1 [car]\n sub dp_t1 = instance `fleet_type_1 }");

    assert_eq!(index.len(), 1);
    let symbols = must_option(index.document(uri), "missing replaced document");
    assert_eq!(names(&symbols.provides), vec!["number_t1"]);
    assert_eq!(instance_names(&symbols.instances), vec!["dp_t1"]);
    assert!(index.document("file:///tmp/replace/other.mcdp").is_none());
}

#[test]
fn model_document_prefers_models_over_interfaces() {
    let index = index_of(&[
        ("file:///tmp/priority/battery.mcdp_interface", "interface { provides capacity [J] }"),
        ("file:///tmp/priority/battery.mcdp", "dp { provides capacity [J] }"),
        ("file:///tmp/priority/other.mcdp", "dp { }"),
    ]);

    let position = must_option(index.model_document("battery"), "missing battery model");
    assert_eq!(index.entry(position).symbols.uri, "file:///tmp/priority/battery.mcdp");
    assert!(index.model_document("missing").is_none());
    assert_eq!(index.poset_document("battery"), None);
}

#[test]
fn document_files_give_stem_and_extension() {
    let file = document_file("file:///tmp/library/fleet_type_1.mcdp_poset");
    assert_eq!(file.stem.as_deref(), Some("fleet_type_1"));
    assert_eq!(file.extension.as_deref(), Some("mcdp_poset"));
    assert_eq!(document_priority(&file.extension), 3);
    assert_eq!(document_priority(&Some("mcdp".to_owned())), 0);
    assert_eq!(document_priority(&Some("yaml".to_owned())), usize::MAX);
    assert_eq!(document_priority(&None), usize::MAX);
    let not_a_uri = document_file("not a uri");
    assert_eq!(not_a_uri.stem, None);
}

#[test]
fn symbol_at_resolves_port_declarations_and_references() {
    let fleet_source = "\
mcdp {
  provides speed [m/s]
  sub dp_t1 = instance `fleet_type_1
  required total >= operators required by dp_t1
}
";
    let fleet_uri = "file:///tmp/symbol-at/fleet.mcdp";
    let target_uri = "file:///tmp/symbol-at/fleet_type_1.mcdp";
    let index = index_of(&[(fleet_uri, fleet_source), (target_uri, "dp { requires operators [Nat] }")]);

    let declaration = must_option(index.symbol_at(fleet_uri, offset_of(fleet_source, "speed")), "missing port");
    assert_eq!(
        declaration.context,
        SymbolContext::PortDeclaration { name: "speed".to_owned(), direction: PortDirection::Provided }
    );
    let variable =
        must_option(index.symbol_at(fleet_uri, offset_of(fleet_source, "operators required")), "missing variable");
    assert_eq!(
        variable.context,
        SymbolContext::InstanceScopedVariable {
            port_name: "operators".to_owned(),
            instance_name: "dp_t1".to_owned(),
            model_name: "fleet_type_1".to_owned(),
            direction: PortDirection::Required,
        }
    );
    match variable.target {
        SymbolTarget::Port { uri, name, .. } => {
            assert_eq!(uri, target_uri);
            assert_eq!(name, "operators");
        },
        SymbolTarget::Model { .. } => panic!("expected a port target"),
    }
    let hover = index.hover_for_symbol(&declaration);
    assert_eq!(
        hover.contents,
        "**Provided declaration** `speed`\n\nDeclares a functionality/output that the model can provide on this model."
    );
    assert!(index.symbol_at(fleet_uri, 0).is_none());
    assert!(index.symbol_at("file:///tmp/symbol-at/missing.mcdp", 0).is_none());
}

#[test]
fn instance_scoped_references_are_found_in_order() {
    let source = "mcdp {\n  a provided by x <= b required by y\n}";
    let symbols = DocumentSymbols::parse("file:///tmp/refs.mcdp", source);
    let references = symbols.instance_scoped_references();
    assert_eq!(
        references,
        vec![
            InstanceScopedReference {
                port_name: "a".to_owned(),
                port_range: TextRange::new(9, 10),
                instance_name: "x".to_owned(),
                instance_range: TextRange::new(23, 24),
                direction: PortDirection::Provided,
            },
            InstanceScopedReference {
                port_name: "b".to_owned(),
                port_range: TextRange::new(28, 29),
                instance_name: "y".to_owned(),
                instance_range: TextRange::new(42, 43),
                direction: PortDirection::Required,
            },
        ]
    );
    let at = must_option(symbols.instance_scoped_reference_at(28), "missing reference at offset");
    assert_eq!(at, references[1]);
    assert!(symbols.instance_scoped_reference_at(11).is_none());
}

#[test]
fn undefined_model_is_reported_once_per_reference_site() {
    let source = "\
mcdp {
  sub fu = instance `fuel
  required a >= x required by fu
  required b >= y required by fu
}
";
    let uri = "file:///tmp/undefined-model/fleet.mcdp";
    let index = index_of(&[(uri, source)]);
    let diagnostics = index.semantic_diagnostics(uri);
    let models: Vec<&ProjectDiagnostic> =
        diagnostics.iter().filter(|diagnostic| diagnostic.code == "lsp.undefined-model").collect();
    assert_eq!(models.len(), 1);
    assert_eq!(models[0].message, "model `fuel` for instance `fu` was not found");
    assert_eq!(models[0].severity, Severity::Error);
    assert_eq!(text_at(source, models[0].range), "fuel");
}

fn occurrence_texts(index: &ProjectSymbolIndex, occurrences: &[mcdp_language::project::SymbolOccurrence]) -> Vec<String> {
    occurrences
        .iter()
        .map(|occurrence| {
            let document = must_option(index.document(&occurrence.uri), "missing occurrence document");
            text_at(&document.source, occurrence.range).to_owned()
        })
        .collect()
}

#[test]
fn references_for_model_reference_use_resolved_model_identity() {
    let fleet_source = "\
mcdp {
  sub dp_t1 = instance `fleet_type_1
  sub dp_t1_backup = instance `fleet_type_1
  sub dp_t2 = instance `fleet_type_2
}
";
    let target_source = "dp { requires operators [Nat] }";
    let fleet_uri = "file:///tmp/model-reference-occurrences/fleet.mcdp";
    let target_uri = "file:///tmp/model-reference-occurrences/fleet_type_1.mcdp";
    let index = index_of(&[
        (fleet_uri, fleet_source),
        (target_uri, target_source),
        ("file:///tmp/model-reference-occurrences/fleet_type_2.mcdp", "dp { requires operators [Nat] }"),
    ]);

    let references = must_option(
        index.references_at(fleet_uri, offset_of(fleet_source, "fleet_type_1"), false),
        "missing model references",
    );
    assert_eq!(occurrence_texts(&index, &references), vec!["fleet_type_1", "fleet_type_1"]);

    let references_with_declaration = must_option(
        index.references_at(fleet_uri, offset_of(fleet_source, "fleet_type_1"), true),
        "missing model references with declaration",
    );
    assert!(references_with_declaration
        .iter()
        .any(|occurrence| occurrence.uri == target_uri && text_at(target_source, occurrence.range) == "dp"));
}

#[test]
fn references_for_instance_scoped_variable_use_resolved_port_identity() {
    let fleet_source = "\
mcdp {
  sub dp_t1 = instance `fleet_type_1
  sub dp_t2 = instance `fleet_type_2
  required total_num_operators >= operators required by dp_t1
  required total_num_drivers >= operators required by dp_t2
}
";
    let target_source = "dp { requires operators [Nat] }";
    let fleet_uri = "file:///tmp/instance-scoped-occurrences/fleet.mcdp";
    let target_uri = "file:///tmp/instance-scoped-occurrences/fleet_type_1.mcdp";
    let index = index_of(&[
        (fleet_uri, fleet_source),
        (target_uri, target_source),
        ("file:///tmp/instance-scoped-occurrences/fleet_type_2.mcdp", "dp { requires operators [Nat] }"),
    ]);

    let references = must_option(
        index.references_at(fleet_uri, offset_of(fleet_source, "operators required by dp_t1"), false),
        "missing instance-scoped references",
    );
    assert_eq!(occurrence_texts(&index, &references), vec!["operators"]);
    assert_eq!(references[0].uri, fleet_uri);

    let highlights = must_option(
        index.document_occurrences_at(fleet_uri, offset_of(fleet_source, "operators required by dp_t1")),
        "missing instance-scoped document highlights",
    );
    assert_eq!(occurrence_texts(&index, &highlights), vec!["operators"]);

    let references_with_declaration = must_option(
        index.references_at(fleet_uri, offset_of(fleet_source, "operators required by dp_t1"), true),
        "missing instance-scoped references with declaration",
    );
    assert!(references_with_declaration
        .iter()
        .any(|occurrence| occurrence.uri == target_uri && text_at(target_source, occurrence.range) == "operators"));
}

#[test]
fn reports_unit_mismatches_across_resolved_instance_ports() {
    let source = "\
mcdp {
  requires total_cost [USD]
  sub fu = instance `fuel

  required total_cost >= emissions required by fu
}
";
    let uri = "file:///tmp/unit-mismatch/fleet.mcdp";
    let index = index_of(&[(uri, source), ("file:///tmp/unit-mismatch/fuel.mcdp", "dp { requires emissions [kg] }")]);

    let diagnostics = index.semantic_diagnostics(uri);

    assert!(has_diagnostic(&diagnostics, "lsp.unit-mismatch", "emissions"));
    let mismatch = diagnostics
        .iter()
        .find(|diagnostic| diagnostic.code == "lsp.unit-mismatch")
        .expect("unit mismatch diagnostic should exist");
    assert_eq!(text_at(source, mismatch.range), "emissions");
}

#[test]
fn does_not_flag_ports_inside_unit_converting_product_terms() {
    let source = "\
mcdp {
  provides total_load [kg]
  provides velocity [m/s]
  requires power [W]
  requires total_mass [kg]

  self_mass = 770 [kg]
  gain_mass_velocity_to_power = 1 [W*s/m/kg]
  min_required_power = 10 [W]

  required power >= min_required_power + gain_mass_velocity_to_power * (provided total_load + self_mass) * provided velocity
  required total_mass >= provided total_load + self_mass
}
";
    let uri = "file:///tmp/unit-product-conversion/mechanics.mcdp";
    let index = index_of(&[(uri, source)]);

    let diagnostics = index.semantic_diagnostics(uri);

    assert!(diagnostics.iter().all(|diagnostic| diagnostic.code != "lsp.unit-mismatch"), "{diagnostics:?}");
}

#[test]
fn reports_unit_mismatches_after_product_unit_algebra() {
    let source = "\
mcdp {
  provides total_load [kg]
  provides velocity [m/s]
  requires power [W]

  gain_mass_velocity_to_power = 1 [s/m/kg]

  required power >= gain_mass_velocity_to_power * provided total_load * provided velocity
}
";
    let uri = "file:///tmp/unit-product-mismatch/mechanics.mcdp";
    let index = index_of(&[(uri, source)]);

    let diagnostics = index.semantic_diagnostics(uri);

    let mismatch = diagnostics
        .iter()
        .find(|diagnostic| diagnostic.code == "lsp.unit-mismatch")
        .expect("unit mismatch diagnostic should exist");
    assert!(text_at(source, mismatch.range).contains("gain_mass_velocity_to_power"), "{diagnostics:?}");
}

#[test]
fn resolves_product_field_units_from_compiler_posets() {
    let source = "\
mcdp {
  requires budget [USD]
  requires mass [kg]
  requires cost_and_mass [product(overall_cost: USD, total_mass: kg)]

  required budget >= (required cost_and_mass).overall_cost
  required budget >= (required cost_and_mass).total_mass
}
";
    let uri = "file:///tmp/product-field-units/rover.mcdp";
    let index = index_of(&[(uri, source)]);

    let diagnostics = index.semantic_diagnostics(uri);

    assert_eq!(
        diagnostics.iter().filter(|diagnostic| diagnostic.code == "lsp.unit-mismatch").count(),
        1,
        "{diagnostics:?}"
    );
    let mismatch = diagnostics
        .iter()
        .find(|diagnostic| diagnostic.code == "lsp.unit-mismatch")
        .expect("unit mismatch diagnostic should exist");
    assert_eq!(text_at(source, mismatch.range), "total_mass");
}

#[test]
fn diagnostic_refresh_uris_include_dependent_open_documents() {
    let fleet_source = "\
mcdp {
  sub fu = instance `fuel
  required total_cost >= fuel_cost required by fu
}
";
    let fleet_uri = "file:///tmp/diagnostic-refresh-uris/fleet.mcdp";
    let fuel_uri = "file:///tmp/diagnostic-refresh-uris/fuel.mcdp";
    let unrelated_uri = "file:///tmp/diagnostic-refresh-uris/unrelated.mcdp";
    let index = index_of(&[
        (fleet_uri, fleet_source),
        (fuel_uri, "dp { requires fuel_cost [USD] }"),
        (unrelated_uri, "dp { provides speed [m/s] }"),
    ]);
    let open_uris = vec![fleet_uri.to_owned(), fuel_uri.to_owned(), unrelated_uri.to_owned()];

    let refresh_uris = index.diagnostic_refresh_uris(fuel_uri, &open_uris);

    assert!(refresh_uris.contains(&fleet_uri.to_owned()));
    assert!(refresh_uris.contains(&fuel_uri.to_owned()));
    assert!(!refresh_uris.contains(&unrelated_uri.to_owned()));
}

#[test]
fn accepts_dimensionally_equivalent_units_in_relations() {
    let source = "\
mcdp {
  requires mass [kg]
  sub supplier = instance `supplier

  required mass >= supplied_mass provided by supplier
}
";
    let uri = "file:///tmp/unit-compatible/fleet.mcdp";
    let index = index_of(&[(uri, source), ("file:///tmp/unit-compatible/supplier.mcdp", "dp { provides supplied_mass [g] }")]);

    let diagnostics = index.semantic_diagnostics(uri);

    assert!(diagnostics.iter().all(|diagnostic| diagnostic.code != "lsp.unit-mismatch"), "{diagnostics:?}");
}

#[test]
fn unit_mismatch_message_names_both_units() {
    let source = "\
mcdp {
  requires total_cost [USD]
  sub fu = instance `fuel

  required total_cost >= emissions required by fu
}
";
    let uri = "file:///tmp/unit-message/fleet.mcdp";
    let index = index_of(&[(uri, source), ("file:///tmp/unit-message/fuel.mcdp", "dp { requires emissions [N] }")]);
    let diagnostics = index.semantic_diagnostics(uri);
    let mismatch = diagnostics
        .iter()
        .find(|diagnostic| diagnostic.code == "lsp.unit-mismatch")
        .expect("unit mismatch diagnostic should exist");
    assert_eq!(mismatch.message, "unit mismatch: `emissions` has unit `kg*m/s^2`, expected `USD`");
    assert_eq!(
        mismatch.help.as_deref(),
        Some("This relation compares values against `total_cost`; both sides should have compatible units.")
    );
}

#[test]
fn additive_terms_with_different_units_are_reported() {
    let source = "\
mcdp {
  requires total [kg]
  a = 1 [kg]
  b = 2 [s]
  required total >= a + b
}
";
    let uri = "file:///tmp/additive/fleet.mcdp";
    let index = index_of(&[(uri, source)]);
    let diagnostics = index.semantic_diagnostics(uri);
    let mismatch = diagnostics
        .iter()
        .find(|diagnostic| diagnostic.code == "lsp.unit-mismatch")
        .expect("additive mismatch diagnostic should exist");
    assert_eq!(mismatch.message, "unit mismatch: `b` has unit `s`, but `+` combines it with `a` of unit `kg`");
    assert_eq!(text_at(source, mismatch.range), "b");
}

#[test]
fn completion_names_come_sorted_and_once() {
    let uri = "file:///tmp/completion-names/fleet.mcdp";
    let index = index_of(&[
        (uri, "mcdp {\n  sub zeta = instance `b\n  sub alpha = instance `a\n  sub zeta = instance `b\n}"),
        ("file:///tmp/completion-names/b.mcdp", "dp { provides y [kg]\n provides x [m] }"),
        ("file:///tmp/completion-names/a.mcdp", "dp { }"),
    ]);
    assert_eq!(index.instance_completion_names(uri), vec!["alpha".to_owned(), "zeta".to_owned()]);
    assert_eq!(index.model_completion_names(), vec!["a".to_owned(), "b".to_owned(), "fleet".to_owned()]);
    let ports = index.instance_port_completions(uri, "zeta", PortDirection::Provided);
    assert_eq!(names(&ports), vec!["x", "y"]);
    assert!(index.instance_port_completions(uri, "missing", PortDirection::Provided).is_empty());
}

#[test]
fn project_index_overlays_open_documents_on_files() {
    let fleet_uri = "file:///tmp/project-symbol-index/fleet.mcdp";
    let target_uri = "file:///tmp/project-symbol-index/fleet_type_1.mcdp";
    let sources = vec![
        (fleet_uri.to_owned(), "mcdp { provides old_name [Nat] }".to_owned()),
        (target_uri.to_owned(), "dp { provides operators [Nat] }".to_owned()),
        (fleet_uri.to_owned(), "mcdp { provides number_t1 [car]\n sub dp_t1 = instance `fleet_type_1 }".to_owned()),
    ];

    let index = ProjectSymbolIndex::from_sources(&sources);

    assert_eq!(index.len(), 2);
    let fleet_symbols = must_option(index.document(fleet_uri), "missing fleet document");
    assert_eq!(names(&fleet_symbols.provides), vec!["number_t1"]);
    assert_eq!(instance_names(&fleet_symbols.instances), vec!["dp_t1"]);
    assert!(must_option(index.document(target_uri), "missing target document")
        .provides
        .iter()
        .any(|port| port.name == "operators"));
}

#[test]
fn project_index_scans_sibling_mcdpl_files_and_overlays_open_documents() {
    let directory = "file:///tmp/project-symbol-index/";
    let files_on_disk = [
        ("fleet.mcdp", "mcdp { provides old_name [Nat] }"),
        ("fleet_type_1.mcdp", "dp { provides operators [Nat] }"),
        ("fleet.yaml", "[]"),
    ];
    let found: Vec<FoundFile> = files_on_disk
        .iter()
        .map(|(name, _)| {
            let path = std::path::Path::new(name);
            FoundFile {
                relative_path: (*name).to_owned(),
                stem: path.file_stem().and_then(|stem| stem.to_str()).map(str::to_owned),
                extension: path.extension().and_then(|extension| extension.to_str()).map(str::to_owned),
            }
        })
        .collect();

    let model_paths = model_file_paths(&found);
    assert_eq!(model_paths, vec!["fleet.mcdp", "fleet_type_1.mcdp"]);

    let mut sources: Vec<(String, String)> = model_paths
        .iter()
        .map(|path| {
            let text = files_on_disk.iter().find(|(name, _)| name == path).map(|(_, text)| *text).unwrap_or("");
            (format!("{directory}{path}"), text.to_owned())
        })
        .collect();
    let fleet_uri = format!("{directory}fleet.mcdp");
    sources.push((fleet_uri.clone(), "mcdp { provides number_t1 [car]\n sub dp_t1 = instance `fleet_type_1 }".to_owned()));

    let index = ProjectSymbolIndex::from_sources(&sources);

    assert_eq!(index.len(), 2);
    let fleet_symbols = must_option(index.document(&fleet_uri), "missing fleet document");
    assert_eq!(names(&fleet_symbols.provides), vec!["number_t1"]);
    assert_eq!(instance_names(&fleet_symbols.instances), vec!["dp_t1"]);
    assert!(must_option(index.document(&format!("{directory}fleet_type_1.mcdp")), "missing target document")
        .provides
        .iter()
        .any(|port| port.name == "operators"));
}

#[test]
fn symbols_record_imports_specializations_and_library_qualified_references() {
    let source = "from library lib1 import interface A, `B\n\ntemplate [X: A]\nmcdp { provides range [km] }\n";
    let symbols = DocumentSymbols::parse("file:///tmp/imports.mcdp_template", source);
    assert_eq!(symbols.imports.len(), 1);
    let lib_start = offset_of(source, "lib1");
    assert_eq!(symbols.imports[0].library_range, Some(TextRange { start: lib_start, end: lib_start + 4 }));
    let a_start = offset_of(source, "A,");
    let b_start = offset_of(source, "B\n");
    assert_eq!(
        symbols.imports[0].imported_name_ranges,
        vec![TextRange { start: a_start, end: a_start + 1 }, TextRange { start: b_start, end: b_start + 1 }]
    );

    let source = "specialize [\n  Battery: `batteries_uncertain1.batteries\n] `UAVCompleteTemplate\n";
    let symbols = DocumentSymbols::parse("file:///tmp/uav.mcdp", source);
    assert_eq!(model_reference_names(&symbols), vec!["batteries", "UAVCompleteTemplate"]);
    let reference = &symbols.model_references[0];
    let batteries_start = offset_of(source, "batteries_uncertain1.") + "batteries_uncertain1.".len();
    assert_eq!(reference.name_range, TextRange { start: batteries_start, end: batteries_start + 9 });
    assert_eq!(
        reference.reference_range,
        TextRange { start: offset_of(source, "`batteries"), end: batteries_start + 9 }
    );
    let target = must_option(symbols.specialize_target.as_ref(), "missing specialize target");
    assert_eq!(target.name, "UAVCompleteTemplate");

    let source = "mcdp {\n  a = instance specialize [B: B] `Tmpl\n  b = instance `plain\n}\n";
    let symbols = DocumentSymbols::parse("file:///tmp/inst.mcdp", source);
    assert_eq!(instance_names(&symbols.instances), vec!["a", "b"]);
    assert!(symbols.instances[0].specializes_template);
    assert!(!symbols.instances[1].specializes_template);
    assert!(symbols.specialize_target.is_none());
}

#[test]
fn document_file_of_a_dotted_name_keeps_the_last_extension() {
    let file = document_file("file:///tmp/library/battery.v2.mcdp");
    assert_eq!(file.stem.as_deref(), Some("battery.v2"));
    assert_eq!(file.extension.as_deref(), Some("mcdp"));
    let plain = document_file("battery.mcdp");
    assert_eq!(plain.stem, None);
    assert_eq!(plain.extension, None);
}
