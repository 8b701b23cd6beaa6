use mcdp_language::{
    parse_expression_list_text, parse_expression_text, parse_unit_expression_text, BinaryOperator,
    Expression, LiteralExpression, PortDirection, UnitExpression,
};

#[test]
fn parses_quantity_with_compound_unit() {
    let expression = parse_expression_text("25 USD * s / m");

    match expression {
        Expression::Literal(LiteralExpression::Quantity(quantity)) => {
            assert_eq!(quantity.magnitude, "25");
            assert!(matches!(quantity.unit, Some(UnitExpression::Quotient { .. })));
        }
        other => panic!("unexpected expression: {other:?}"),
    }
}

#[test]
fn parses_port_references_and_binary_expression() {
    let expression = parse_expression_text("provided extra_payload + mass required by battery");

    match expression {
        Expression::Binary { operator: BinaryOperator::Add, left, right } => {
            assert!(matches!(*left, Expression::Port(_)));
            match *right {
                Expression::Port(port) => {
                    assert_eq!(port.direction, PortDirection::Requires);
                    assert_eq!(port.port, "mass");
                    assert_eq!(port.instance.as_deref(), Some("battery"));
                }
                other => panic!("unexpected right expression: {other:?}"),
            }
        }
        other => panic!("unexpected expression: {other:?}"),
    }
}

#[test]
fn parses_call_tuple_and_symbolic_value() {
    let call = parse_expression_text("take(provided dyn_prop, 6)");
    assert!(matches!(call, Expression::Call { .. }));

    let tuple = parse_expression_text("⟨12.0 m, `path_type: SuperType⟩");
    match tuple {
        Expression::Literal(LiteralExpression::Tuple(values)) => {
            assert_eq!(values.len(), 2);
        }
        other => panic!("unexpected tuple: {other:?}"),
    }
}

#[test]
fn parses_field_access() {
    let expression = parse_expression_text("(required cost_and_mass).overall_cost");

    assert!(matches!(expression, Expression::FieldAccess { .. }));
}

#[test]
fn parses_catalog_value_lists() {
    let values = parse_expression_list_text("10s, 5Wh");

    assert_eq!(values.len(), 2);
    assert!(matches!(values[0], Expression::Literal(LiteralExpression::Quantity(_))));
}

#[test]
fn parses_superscript_units() {
    let unit = parse_unit_expression_text("W*s²/m²");

    assert!(matches!(unit, UnitExpression::Quotient { .. }));
}

#[test]
fn blank_expression_is_empty_raw() {
    assert_eq!(parse_expression_text("   "), Expression::Raw(String::new()));
}

#[test]
fn unparsable_expression_keeps_trimmed_text() {
    assert_eq!(parse_expression_text("  1 + ) "), Expression::Raw("1 + )".to_owned()));
}

#[test]
fn trailing_tokens_make_the_expression_raw() {
    assert_eq!(parse_expression_text("a b"), Expression::Raw("a b".to_owned()));
}

#[test]
fn parses_names_booleans_and_negation() {
    assert_eq!(parse_expression_text("x"), Expression::Name("x".to_owned()));
    assert_eq!(
        parse_expression_text("true"),
        Expression::Literal(LiteralExpression::Bool(true))
    );
    assert!(matches!(parse_expression_text("-x"), Expression::Unary { .. }));
}

#[test]
fn multiplication_binds_tighter_than_addition() {
    match parse_expression_text("a + b * c") {
        Expression::Binary { operator: BinaryOperator::Add, left, right } => {
            assert_eq!(*left, Expression::Name("a".to_owned()));
            assert!(matches!(*right, Expression::Binary { operator: BinaryOperator::Mul, .. }));
        }
        other => panic!("unexpected expression: {other:?}"),
    }
}

#[test]
fn subtraction_associates_to_the_left() {
    match parse_expression_text("a - b - c") {
        Expression::Binary { operator: BinaryOperator::Sub, left, right } => {
            assert!(matches!(*left, Expression::Binary { operator: BinaryOperator::Sub, .. }));
            assert_eq!(*right, Expression::Name("c".to_owned()));
        }
        other => panic!("unexpected expression: {other:?}"),
    }
}

#[test]
fn bracketed_quantity_unit_is_parsed() {
    match parse_expression_text("3 [m/s]") {
        Expression::Literal(LiteralExpression::Quantity(q)) => {
            assert_eq!(q.magnitude, "3");
            assert!(matches!(q.unit, Some(UnitExpression::Quotient { .. })));
        }
        other => panic!("unexpected expression: {other:?}"),
    }
}

#[test]
fn unclosed_bracket_makes_a_raw_unit_of_the_whole_text() {
    match parse_expression_text("3 [m") {
        Expression::Literal(LiteralExpression::Quantity(q)) => {
            assert_eq!(q.unit, Some(UnitExpression::Raw("3 [m".to_owned())));
        }
        other => panic!("unexpected expression: {other:?}"),
    }
}

#[test]
fn aggregate_with_wildcard_instance() {
    match parse_expression_text("sum mass required by *") {
        Expression::Aggregate(a) => {
            assert_eq!(a.port, "mass");
            assert_eq!(a.direction, PortDirection::Requires);
            assert_eq!(a.instance, None);
        }
        other => panic!("unexpected expression: {other:?}"),
    }
}

#[test]
fn list_drops_blank_last_part_and_respects_brackets() {
    let values = parse_expression_list_text("f(a, b), ⟨1, 2⟩,");
    assert_eq!(values.len(), 2);
    assert!(matches!(values[0], Expression::Call { .. }));
    assert!(matches!(values[1], Expression::Literal(LiteralExpression::Tuple(_))));
    assert!(parse_expression_list_text("   ").is_empty());
}

#[test]
fn unit_expressions_cover_one_symbol_power_and_product() {
    assert_eq!(parse_unit_expression_text("  "), UnitExpression::One);
    assert_eq!(parse_unit_expression_text("m"), UnitExpression::Symbol("m".to_owned()));
    assert_eq!(
        parse_unit_expression_text("s^2"),
        UnitExpression::Power {
            base: Box::new(UnitExpression::Symbol("s".to_owned())),
            exponent: "2".to_owned()
        }
    );
    assert!(matches!(parse_unit_expression_text("N*m"), UnitExpression::Product(_)));
}

#[test]
fn parses_sum_of_quantities_and_acceleration_unit() {
    let expression = parse_expression_text("10 W + 5 W");
    match expression {
        Expression::Binary { operator: BinaryOperator::Add, left, right } => {
            for (side, magnitude) in [(*left, "10"), (*right, "5")] {
                match side {
                    Expression::Literal(LiteralExpression::Quantity(quantity)) => {
                        assert_eq!(quantity.magnitude, magnitude);
                        assert_eq!(quantity.unit, Some(UnitExpression::Symbol("W".to_owned())));
                    }
                    other => panic!("unexpected operand: {other:?}"),
                }
            }
        }
        other => panic!("unexpected expression: {other:?}"),
    }

    assert_eq!(
        parse_unit_expression_text("m/s^2"),
        UnitExpression::Quotient {
            numerator: Box::new(UnitExpression::Symbol("m".to_owned())),
            denominator: Box::new(UnitExpression::Power {
                base: Box::new(UnitExpression::Symbol("s".to_owned())),
                exponent: "2".to_owned(),
            }),
        }
    );
}

#[test]
fn unparsable_expressions_keep_their_trimmed_text() {
    assert_eq!(parse_expression_text("a b"), Expression::Raw("a b".to_owned()));
    assert_eq!(parse_expression_text(" x + "), Expression::Raw("x +".to_owned()));
    assert_eq!(parse_expression_text("   "), Expression::Raw(String::new()));
}
