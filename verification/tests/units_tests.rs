use mcdp_language::{canonical_unit_label, units_equivalent};

#[test]
fn canonicalizes_unitless_aliases() {
    assert_eq!(canonical_unit_label("dimensionless"), None);
    assert_eq!(canonical_unit_label("Reals"), None);
    assert_eq!(canonical_unit_label("unitless"), None);
}

#[test]
fn canonicalizes_superscript_and_caret_exponents() {
    assert_eq!(canonical_unit_label("W*s²/m²"), Some("W*s^2/m^2".to_owned()));
    assert!(units_equivalent(Some("m/s²"), Some("m/s^2")));
}

#[test]
fn keeps_multiple_denominator_factors_unambiguous() {
    assert_eq!(canonical_unit_label("W*s/m/kg"), Some("W*s/kg/m".to_owned()));
    assert!(units_equivalent(Some("W*s/m/kg"), Some("W*s/kg/m")));
}

#[test]
fn canonicalizes_currency_alias() {
    assert!(units_equivalent(Some("$"), Some("USD")));
}

#[test]
fn equates_scaled_unit_dimensions_without_relabeling() {
    assert_eq!(canonical_unit_label("deg"), Some("deg".to_owned()));
    assert_eq!(canonical_unit_label("g"), Some("g".to_owned()));
    assert_eq!(canonical_unit_label("km"), Some("km".to_owned()));
    assert!(units_equivalent(Some("deg"), Some("rad")));
    assert!(units_equivalent(Some("Wh"), Some("J")));
    assert!(units_equivalent(Some("g"), Some("kg")));
    assert!(units_equivalent(Some("km"), Some("m")));
    assert!(units_equivalent(Some("min"), Some("s")));
}

#[test]
fn equates_si_derived_unit_dimensions() {
    assert!(units_equivalent(Some("N"), Some("kg*m/s^2")));
    assert!(units_equivalent(Some("Nm"), Some("J")));
    assert!(units_equivalent(Some("W"), Some("J/s")));
    assert!(units_equivalent(Some("Hz"), Some("1/s")));
    assert!(units_equivalent(Some("Pa"), Some("N/m^2")));
    assert!(units_equivalent(Some("C"), Some("A*s")));
    assert!(units_equivalent(Some("V"), Some("W/A")));
    assert!(units_equivalent(Some("F"), Some("C/V")));
    assert!(units_equivalent(Some("Ω"), Some("V/A")));
    assert!(units_equivalent(Some("Ohm"), Some("Ω")));
    assert!(units_equivalent(Some("S"), Some("A/V")));
    assert!(units_equivalent(Some("Wb"), Some("V*s")));
    assert!(units_equivalent(Some("T"), Some("Wb/m^2")));
    assert!(units_equivalent(Some("H"), Some("Wb/A")));
    assert!(units_equivalent(Some("lx"), Some("lm/m^2")));
    assert!(units_equivalent(Some("Bq"), Some("1/s")));
    assert!(units_equivalent(Some("Gy"), Some("J/kg")));
    assert!(units_equivalent(Some("Sv"), Some("J/kg")));
    assert!(units_equivalent(Some("kat"), Some("mol/s")));
}

#[test]
fn unit_helpers_ignore_spacing_and_drop_unitless_labels() {
    assert_eq!(canonical_unit_label("dimensionless"), None);
    assert!(units_equivalent(Some("m / s^2"), Some("m/s^2")));
    assert_eq!(canonical_unit_label("m / s^2"), Some("m/s^2".to_owned()));
}
