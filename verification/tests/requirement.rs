use crate_graph::decimal::format_version;
use crate_graph::domain::CrateRequirement;
use crate_graph::requirement::{numeric_overflow, MalformedRequirement};

#[test]
fn minimum_version() {
    let requirement = CrateRequirement::parse("^2.2.2").unwrap();
    let version = requirement.minimum_version().unwrap();
    assert_eq!("2.2.2", version.as_str())
}

#[test]
fn minimum_version_fills_missing_components_with_zero() {
    let requirement = CrateRequirement::parse("^1.0").unwrap();
    assert_eq!("1.0.0", requirement.minimum_version().unwrap().as_str());

    let requirement = CrateRequirement::parse("2").unwrap();
    assert_eq!("2.0.0", requirement.minimum_version().unwrap().as_str());
}

#[test]
fn minimum_version_reads_bare_triples_as_caret_ranges() {
    let requirement = CrateRequirement::parse("1.2.3").unwrap();
    assert_eq!("1.2.3", requirement.minimum_version().unwrap().as_str());
}

#[test]
fn minimum_version_takes_the_first_comparator_of_the_first_range() {
    let requirement = CrateRequirement::parse(">1.2.3 <2.0.0 || =4.5.6").unwrap();
    assert_eq!("1.2.3", requirement.minimum_version().unwrap().as_str());
}

#[test]
fn minimum_version_rejects_malformed_requirements() {
    let requirement = CrateRequirement::parse(">").unwrap();
    assert_eq!(Err(MalformedRequirement), requirement.minimum_version());

    let requirement = CrateRequirement::parse("not a requirement").unwrap();
    assert!(requirement.minimum_version().is_err());
}

#[test]
fn minimum_version_rejects_components_beyond_u64() {
    let requirement = CrateRequirement::parse("^99999999999999999999.0.0").unwrap();
    assert_eq!(Err(MalformedRequirement), requirement.minimum_version());
}

#[test]
fn minimum_version_rejects_the_largest_u64_component() {
    // range expansion computes component successors, so the largest u64
    // itself is turned away before it reaches the parser
    let requirement = CrateRequirement::parse("^18446744073709551615.0.0").unwrap();
    assert_eq!(Err(MalformedRequirement), requirement.minimum_version());

    let requirement = CrateRequirement::parse("=18446744073709551615.0.0").unwrap();
    assert_eq!(Err(MalformedRequirement), requirement.minimum_version());
}

#[test]
fn minimum_version_accepts_components_below_the_largest_u64() {
    let requirement = CrateRequirement::parse("=18446744073709551614.0.0").unwrap();
    assert_eq!(
        "18446744073709551614.0.0",
        requirement.minimum_version().unwrap().as_str()
    );
}

#[test]
fn numeric_overflow_draws_the_line_below_u64_max() {
    assert!(!numeric_overflow("^1.2.3"));
    assert!(!numeric_overflow("18446744073709551614"));
    assert!(numeric_overflow("18446744073709551615"));
    assert!(numeric_overflow("18446744073709551616"));
    assert!(numeric_overflow("99999999999999999999"));
    assert!(numeric_overflow("x123456789012345678901x"));
    assert!(!numeric_overflow(""));
}

#[test]
fn format_version_renders_canonical_decimal() {
    assert_eq!("1.22.333", format_version(1, 22, 333));
    assert_eq!("0.0.0", format_version(0, 0, 0));
    assert_eq!(
        "18446744073709551615.0.10",
        format_version(18446744073709551615, 0, 10)
    );
}
