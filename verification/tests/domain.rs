use crate_graph::domain::{
    CrateDependency, CrateDependencyType, CrateMetadata, CrateName, CrateRelationship,
    CrateRequirement, CrateVersion, dependencies_from_rows,
};

#[test]
fn crate_name_as_str() {
    let value = "some-package";
    let result = CrateName::parse(value).unwrap();
    assert_eq!(value, result.as_str());
}

#[test]
fn crate_name_parse() {
    let result = CrateName::parse("any string at all");
    assert!(result.is_ok());
}

#[test]
fn crate_version_as_str() {
    let value = "1.2.3-beta.4";
    let result = CrateVersion::parse(value).unwrap();
    assert_eq!(value, result.as_str());
}

#[test]
fn crate_version_parse() {
    let result = CrateVersion::parse("not even a version");
    assert!(result.is_ok());
}

#[test]
fn crate_requirement_as_str() {
    let value = "^1.0";
    let result = CrateRequirement::parse(value).unwrap();
    assert_eq!(value, result.as_str());
}

#[test]
fn crate_requirement_parse() {
    let result = CrateRequirement::parse("anything goes here");
    assert!(result.is_ok());
}

#[test]
fn crate_relationship_as_str() {
    assert_eq!("normal", CrateRelationship::Normal.as_str());
    assert_eq!("dev", CrateRelationship::Dev.as_str());
}

#[test]
fn crate_relationship_try_from() {
    assert_eq!(
        Ok(CrateRelationship::Normal),
        CrateRelationship::try_from("normal")
    );
    assert_eq!(Ok(CrateRelationship::Dev), CrateRelationship::try_from("dev"));

    let other = "other";
    assert_eq!(
        Err(format!(
            "{} is not a supported relationship. Use either `normal` or `dev`.",
            other
        )),
        CrateRelationship::try_from(other)
    );
}

#[test]
fn create_dependency_type_as_str() {
    assert_eq!("build", CrateDependencyType::Build.as_str());
    assert_eq!("dev", CrateDependencyType::Dev.as_str());
    assert_eq!("normal", CrateDependencyType::Normal.as_str());
}

#[test]
fn create_dependency_type_try_from() {
    assert_eq!(
        Ok(CrateDependencyType::Build),
        CrateDependencyType::try_from("build")
    );
    assert_eq!(
        Ok(CrateDependencyType::Dev),
        CrateDependencyType::try_from("dev")
    );
    assert_eq!(
        Ok(CrateDependencyType::Normal),
        CrateDependencyType::try_from("normal")
    );

    let other = "other";
    assert_eq!(
        Err(format!(
            "{} is not a supported relationship. Use either `build`, `dev` or `normal`.",
            other
        )),
        CrateDependencyType::try_from(other)
    );
}

#[test]
fn metadata_equality_is_by_value() {
    let a = CrateMetadata {
        name: CrateName::parse("pkg").unwrap(),
        version: CrateVersion::parse("1.0.0").unwrap(),
        dependencies: vec![CrateDependency {
            name: CrateName::parse("dep").unwrap(),
            requirement: CrateRequirement::parse("^1.0").unwrap(),
            type_: CrateDependencyType::Normal,
        }],
    };
    let b = CrateMetadata {
        name: CrateName::parse("pkg").unwrap(),
        version: CrateVersion::parse("1.0.0").unwrap(),
        dependencies: vec![CrateDependency {
            name: CrateName::parse("dep").unwrap(),
            requirement: CrateRequirement::parse("^1.0").unwrap(),
            type_: CrateDependencyType::Normal,
        }],
    };
    let c = CrateMetadata {
        name: CrateName::parse("pkg").unwrap(),
        version: CrateVersion::parse("1.0.0").unwrap(),
        dependencies: vec![],
    };
    assert_eq!(a, b);
    assert_ne!(a, c);
}

#[test]
fn dependencies_from_rows_keeps_order_and_kinds() {
    let rows = vec![
        ("quote".to_owned(), "^1.0".to_owned(), "dev".to_owned()),
        ("unicode-xid".to_owned(), "^0.2".to_owned(), "normal".to_owned()),
        ("cc".to_owned(), "^1.0.1".to_owned(), "build".to_owned()),
    ];
    let deps = dependencies_from_rows(&rows).unwrap();
    assert_eq!(3, deps.len());
    assert_eq!("quote", deps[0].name.as_str());
    assert_eq!("^1.0", deps[0].requirement.as_str());
    assert_eq!(CrateDependencyType::Dev, deps[0].type_);
    assert_eq!("unicode-xid", deps[1].name.as_str());
    assert_eq!(CrateDependencyType::Normal, deps[1].type_);
    assert_eq!("cc", deps[2].name.as_str());
    assert_eq!(CrateDependencyType::Build, deps[2].type_);
}

#[test]
fn dependencies_from_rows_rejects_unknown_kind() {
    let rows = vec![("quote".to_owned(), "^1.0".to_owned(), "optional".to_owned())];
    let result = dependencies_from_rows(&rows);
    assert_eq!(
        Err(
            "optional is not a supported relationship. Use either `build`, `dev` or `normal`."
                .to_owned()
        ),
        result
    );
}
