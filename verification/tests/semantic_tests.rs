use mcdp_language::{
    graph_from_semantic, lower_document, CheckReport, parse_document, BinaryOperator, DocumentKind, Expression,
    LiteralExpression, PortDirection, PosetRef, Relation, SourceId, UnitExpression,
};

#[test]
fn lowers_ports_instances_assignments_and_constraints() {
    let source = SourceId::new("rover.mcdp");
    let parsed = parse_document(
        source.clone(),
        "\
mcdp {
  provides velocity [m/s]
  requires cost [product(overall_cost: USD, total_mass: kg)]
  sub battery = instance `battery
  total = 10 USD
  required cost >= total
}
",
    );

    let (model, diagnostics) = lower_document(source, &parsed);
    let model = model.expect("document should lower");

    assert!(diagnostics.is_empty());
    assert_eq!(model.ports.len(), 2);
    assert_eq!(model.ports[0].direction, PortDirection::Provides);
    assert!(matches!(model.ports[1].poset, PosetRef::Product(_)));
    assert_eq!(model.instances[0].name, "battery");
    assert_eq!(model.assignments[0].target, "total");
    assert!(matches!(
        model.assignments[0].expression_ast,
        Expression::Literal(LiteralExpression::Quantity(_))
    ));
    assert_eq!(model.constraints[0].relation, Relation::Geq);
    assert!(matches!(model.constraints[0].left_expr, Expression::Port(_)));

    let graph = graph_from_semantic(Some("rover".to_owned()), &model);
    assert_eq!(graph.ports.len(), 2);
    assert_eq!(graph.nodes.len(), 1);
    assert_eq!(graph.constraints.len(), 2);
}

#[test]
fn lowers_choose_entries() {
    let source = SourceId::new("Batteries.mcdp");
    let parsed = parse_document(source.clone(), "choose (NiMH: `Battery_NiMH, LFP: `Battery_LFP)");

    let (model, diagnostics) = lower_document(source, &parsed);
    let model = model.expect("choose should lower");

    assert!(diagnostics.is_empty());
    assert_eq!(model.choices.len(), 2);
    assert_eq!(model.choices[0].name, "NiMH");
    assert_eq!(model.choices[0].target, "Battery_NiMH");
}

#[test]
fn lowers_intersection_entries() {
    let source = SourceId::new("Both.mcdp");
    let parsed = parse_document(source.clone(), "intersection (A: `Battery_A, B: `Battery_B)");

    let (model, diagnostics) = lower_document(source, &parsed);
    let model = model.expect("intersection should lower");

    assert!(diagnostics.is_empty());
    assert_eq!(model.kind, DocumentKind::Intersection);
    assert_eq!(model.choices.len(), 2);
    assert_eq!(model.choices[0].name, "A");
    assert_eq!(model.choices[0].target, "Battery_A");
}

#[test]
fn lowers_implementation_resource() {
    let source = SourceId::new("battery.mcdp");
    let parsed =
        parse_document(source.clone(), "dp { implemented-by yaml resource(\"battery.yaml\") }");

    let (model, diagnostics) = lower_document(source, &parsed);
    let model = model.expect("implementation should lower");

    assert!(diagnostics.is_empty());
    assert_eq!(model.implementations[0].backend, "yaml");
    assert_eq!(model.implementations[0].resource.as_deref(), Some("battery.yaml"));
}

#[test]
fn lowers_port_without_space_before_poset() {
    let source = SourceId::new("catalog.mcdp");
    let parsed = parse_document(source.clone(), "catalog { requires timebudget[s] }");

    let (model, diagnostics) = lower_document(source, &parsed);
    let model = model.expect("port should lower");

    assert!(diagnostics.is_empty());
    assert_eq!(model.ports[0].name, "timebudget");
}

#[test]
fn lowers_catalog_records() {
    let source = SourceId::new("catalog.mcdp");
    let parsed = parse_document(source.clone(), "catalog { 0.5 m <-| robot_1 |-> 10 USD }");

    let (model, diagnostics) = lower_document(source, &parsed);
    let model = model.expect("catalog should lower");

    assert!(diagnostics.is_empty());
    assert_eq!(model.catalog_records[0].implementation, "robot_1");
    assert_eq!(model.catalog_records[0].provided_values.len(), 1);
    assert_eq!(model.catalog_records[0].required_values.len(), 1);
}

#[test]
fn lowers_constant_assignments_and_expression_ast() {
    let source = SourceId::new("robot.mcdp");
    let parsed = parse_document(
        source.clone(),
        "mcdp { constant v_to_cost = 25 USD * s / m\nrequired cost >= provided mass * v_to_cost }",
    );

    let (model, diagnostics) = lower_document(source, &parsed);
    let model = model.expect("constant should lower");

    assert!(diagnostics.is_empty());
    assert_eq!(model.assignments[0].target, "v_to_cost");
    assert!(matches!(
        model.constraints[0].right_expr,
        Expression::Binary { operator: BinaryOperator::Mul, .. }
    ));
}

#[test]
fn reports_duplicate_ports() {
    let source = SourceId::new("bad.mcdp");
    let parsed = parse_document(source.clone(), "mcdp { provides x [kg]\nprovides x [kg] }");

    let (_model, diagnostics) = lower_document(source, &parsed);

    assert!(diagnostics.iter().any(|diagnostic| diagnostic.code == "compiler.duplicate-port"));
}

#[test]
fn reports_duplicate_names_across_ports_and_instances() {
    let source = SourceId::new("bad.mcdp");
    let parsed = parse_document(
        source.clone(),
        "\
dp {
  provides name [Nat]
  requires name [J]

  sub name = instance `model

  implemented-by yaml resource(\"test\")
}
",
    );

    let (_model, diagnostics) = lower_document(source, &parsed);

    assert!(
        diagnostics.iter().any(|diagnostic| diagnostic.code == "compiler.duplicate-name"),
        "{diagnostics:?}"
    );
}

#[test]
fn duplicate_port_error_points_at_the_previous_declaration() {
    let source = SourceId::new("bad.mcdp");
    let parsed = parse_document(source.clone(), "mcdp { provides x [kg]\nprovides x [kg] }");
    let (model, diagnostics) = lower_document(source, &parsed);
    let model = model.expect("document should lower");

    let duplicate = diagnostics
        .iter()
        .find(|diagnostic| diagnostic.code == "compiler.duplicate-port")
        .expect("duplicate port reported");
    assert_eq!(duplicate.message, "duplicate provides port `x`");
    assert_eq!(duplicate.span, Some(model.ports[0].span.clone()));
    assert_eq!(duplicate.help.as_deref(), Some("Use unique port names within each direction."));
}

#[test]
fn duplicate_name_message_names_the_first_role() {
    let source = SourceId::new("bad.mcdp");
    let parsed = parse_document(source.clone(), "mcdp { provides name [Nat]\nrequires name [J] }");
    let (model, diagnostics) = lower_document(source, &parsed);
    let model = model.expect("document should lower");

    assert_eq!(diagnostics.len(), 1);
    assert_eq!(diagnostics[0].code, "compiler.duplicate-name");
    assert_eq!(diagnostics[0].message, "name `name` is already used as a provided port");
    assert_eq!(diagnostics[0].span, Some(model.ports[1].span.clone()));
}

#[test]
fn duplicate_instances_are_reported() {
    let source = SourceId::new("bad.mcdp");
    let parsed =
        parse_document(source.clone(), "mcdp { sub a = instance `m\nsub a = instance `n }");
    let (_model, diagnostics) = lower_document(source, &parsed);

    assert_eq!(diagnostics.len(), 1);
    assert_eq!(diagnostics[0].code, "compiler.duplicate-instance");
    assert_eq!(diagnostics[0].message, "duplicate instance `a`");
}

#[test]
fn missing_document_kind_gives_no_model() {
    let source = SourceId::new("x.mcdp");
    let parsed = parse_document(source.clone(), "hello { }");
    let (model, diagnostics) = lower_document(source, &parsed);

    assert!(model.is_none());
    assert_eq!(diagnostics.len(), 1);
    assert_eq!(diagnostics[0].code, "compiler.missing-document-kind");
}

#[test]
fn malformed_declarations_are_reported_with_their_span() {
    let source = SourceId::new("bad.mcdp");
    let parsed = parse_document(source.clone(), "mcdp { provides [kg] }");
    let (model, diagnostics) = lower_document(source, &parsed);
    let model = model.expect("document should lower");

    assert!(model.ports.is_empty());
    assert_eq!(diagnostics.len(), 1);
    assert_eq!(diagnostics[0].code, "compiler.malformed-port");
    assert!(diagnostics[0].span.is_some());
}

#[test]
fn product_posets_keep_field_names_and_units() {
    let source = SourceId::new("p.mcdp");
    let parsed = parse_document(source.clone(), "mcdp { provides p [product(a: m, b: `Named)] }");
    let (model, _diagnostics) = lower_document(source, &parsed);
    let model = model.expect("document should lower");

    match &model.ports[0].poset {
        PosetRef::Product(fields) => {
            assert_eq!(fields.len(), 2);
            assert_eq!(fields[0].name, "a");
            assert_eq!(fields[0].poset, PosetRef::Unit(UnitExpression::Symbol("m".to_owned())));
            assert_eq!(fields[1].poset, PosetRef::Named("Named".to_owned()));
        }
        other => panic!("unexpected poset: {other:?}"),
    }
}

#[test]
fn graph_turns_assignments_into_equalities() {
    let source = SourceId::new("g.mcdp");
    let parsed = parse_document(source.clone(), "mcdp { x = 1 m\nrequired c <= provided d }");
    let (model, _diagnostics) = lower_document(source, &parsed);
    let model = model.expect("document should lower");
    let graph = graph_from_semantic(None, &model);

    assert_eq!(graph.constraints.len(), 2);
    assert_eq!(graph.constraints[0].relation, Relation::Leq);
    assert_eq!(graph.constraints[1].left, "x");
    assert_eq!(graph.constraints[1].relation, Relation::Eq);
    assert_eq!(graph.constraints[1].right, "1 m");
}

#[test]
fn imports_collect_model_names() {
    let source = SourceId::new("i.mcdp");
    let parsed = parse_document(source.clone(), "mcdp { import models `a, b }");
    let (model, diagnostics) = lower_document(source, &parsed);
    let model = model.expect("document should lower");

    assert!(diagnostics.is_empty(), "{diagnostics:?}");
    assert_eq!(model.imports.len(), 1);
    assert_eq!(model.imports[0].models, vec!["a".to_owned(), "b".to_owned()]);
}

#[test]
fn checks_and_lowers_a_minimal_rover_model() {
    let source_id = SourceId::new("rover.mcdp");
    let source = "
mcdp {
  provides speed [m/s]
  requires power [W]
  total_power = 10 W
}
";
    let parsed = parse_document(source_id.clone(), source);
    let (model, lowering_diagnostics) = lower_document(source_id, &parsed);

    let mut report = CheckReport::new();
    report.extend(parsed.diagnostics.clone());
    report.extend(lowering_diagnostics);
    assert!(!report.has_errors());

    let model = model.expect("a valid document lowers to a semantic model");
    let graph = graph_from_semantic(Some("rover".to_owned()), &model);
    assert_eq!(graph.ports.len(), 2);
    assert_eq!(graph.nodes.len(), 0);
    assert_eq!(graph.constraints.len(), 1);
}
