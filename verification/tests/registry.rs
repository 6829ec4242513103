use crate_graph::domain::{CrateDependencyType, CrateName, CrateVersion};
use crate_graph::registry::{
    classify_status, FetchStatus, MemoryRegistry, metadata_from_response_rows,
};
use crate_graph::resolver::Registry;

fn name(value: &str) -> CrateName {
    CrateName::parse(value).unwrap()
}

fn version(value: &str) -> CrateVersion {
    CrateVersion::parse(value).unwrap()
}

#[test]
fn response_rows_become_metadata_in_order() {
    let rows = vec![
        ("quote".to_owned(), "^1.0".to_owned(), "dev".to_owned()),
        ("unicode-xid".to_owned(), "^0.2".to_owned(), "normal".to_owned()),
    ];

    let result = metadata_from_response_rows(&name("proc-macro2"), &version("1.0.24"), &rows)
        .unwrap();

    assert_eq!("proc-macro2", result.name.as_str());
    assert_eq!("1.0.24", result.version.as_str());
    assert_eq!(2, result.dependencies.len());
    assert_eq!("quote", result.dependencies[0].name.as_str());
    assert_eq!("^1.0", result.dependencies[0].requirement.as_str());
    assert_eq!("dev", result.dependencies[0].type_.as_str());
    assert_eq!("unicode-xid", result.dependencies[1].name.as_str());
    assert_eq!("^0.2", result.dependencies[1].requirement.as_str());
    assert_eq!("normal", result.dependencies[1].type_.as_str());
}

#[test]
fn response_rows_with_an_unknown_kind_fail() {
    let rows = vec![("quote".to_owned(), "^1.0".to_owned(), "runtime".to_owned())];

    let result = metadata_from_response_rows(&name("proc-macro2"), &version("1.0.24"), &rows);

    assert_eq!(
        Err("runtime is not a supported relationship. Use either `build`, `dev` or `normal`."
            .to_owned()),
        result
    );
}

#[test]
fn the_dependencies_url_follows_the_documented_pattern() {
    let url = crate_graph::registry::dependencies_url(
        "https://crates.io",
        &name("proc-macro2"),
        &version("1.0.24"),
    );
    assert_eq!("https://crates.io/api/v1/crates/proc-macro2/1.0.24/dependencies", url);
}

#[test]
fn status_classification_matches_the_protocol() {
    assert_eq!(FetchStatus::Success, classify_status(200));
    assert_eq!(FetchStatus::NotFound, classify_status(404));
    assert_eq!(FetchStatus::Unsupported, classify_status(500));
    assert_eq!(FetchStatus::Unsupported, classify_status(201));
}

#[test]
fn the_memory_registry_serves_what_was_registered() {
    let mut registry = MemoryRegistry::new();
    let rows = vec![("dep".to_owned(), "^1.0".to_owned(), "normal".to_owned())];
    let metadata = metadata_from_response_rows(&name("pkg"), &version("2.0.0"), &rows).unwrap();
    registry.register(metadata);

    let found = registry.get_crate_metadata(&name("pkg"), &version("2.0.0")).unwrap();
    assert_eq!("pkg", found.name.as_str());
    assert_eq!(1, found.dependencies.len());
    assert_eq!(CrateDependencyType::Normal, found.dependencies[0].type_);

    let missing = registry.get_crate_metadata(&name("pkg"), &version("3.0.0"));
    assert!(missing.is_none());
    assert_eq!(2, registry.fetches());
}
