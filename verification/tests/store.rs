use crate_graph::domain::{
    CrateDependency, CrateDependencyType, CrateMetadata, CrateName, CrateRequirement, CrateVersion,
};
use crate_graph::resolver::Database;
use crate_graph::store::{metadata_from_store_rows, MemoryDatabase, StoreLookup};

fn name(value: &str) -> CrateName {
    CrateName::parse(value).unwrap()
}

fn version(value: &str) -> CrateVersion {
    CrateVersion::parse(value).unwrap()
}

fn requirement(value: &str) -> CrateRequirement {
    CrateRequirement::parse(value).unwrap()
}

fn three_dependencies() -> Vec<CrateDependency> {
    vec![
        CrateDependency {
            name: name("name-1"),
            requirement: requirement("requirement-1"),
            type_: CrateDependencyType::Build,
        },
        CrateDependency {
            name: name("name-2"),
            requirement: requirement("requirement-2"),
            type_: CrateDependencyType::Dev,
        },
        CrateDependency {
            name: name("name-3"),
            requirement: requirement("requirement-3"),
            type_: CrateDependencyType::Normal,
        },
    ]
}

#[test]
fn returns_none_when_not_present() {
    let mut database = MemoryDatabase::new();
    database.put_row("no-dependencies", "version-1", 0, vec![]);

    let result = database.get_crate_metadata(&name("not-present"), &version("version-1"));

    assert!(result.is_none());
}

#[test]
fn returns_none_when_checksum_fails() {
    let mut database = MemoryDatabase::new();
    let corrupted = vec![CrateDependency {
        name: name("name-1"),
        requirement: requirement("requirement-1"),
        type_: CrateDependencyType::Build,
    }];
    database.put_row("corrupted", "version-1", 3, corrupted);

    let result = database.get_crate_metadata(&name("corrupted"), &version("version-1"));

    assert!(result.is_none());
}

#[test]
fn returns_empty_dependencies() {
    let mut database = MemoryDatabase::new();
    database.put_row("no-dependencies", "version-1", 0, vec![]);

    let result = database
        .get_crate_metadata(&name("no-dependencies"), &version("version-1"))
        .unwrap();

    assert_eq!(
        CrateMetadata {
            name: name("no-dependencies"),
            version: version("version-1"),
            dependencies: vec![]
        },
        result
    );
}

#[test]
fn returns_dependencies() {
    let mut database = MemoryDatabase::new();
    database.put_row("three-dependencies", "version-1", 3, three_dependencies());

    let result = database
        .get_crate_metadata(&name("three-dependencies"), &version("version-1"))
        .unwrap();

    assert_eq!(
        CrateMetadata {
            name: name("three-dependencies"),
            version: version("version-1"),
            dependencies: three_dependencies()
        },
        result
    );
}

#[test]
fn saves_with_no_dependencies() {
    let mut database = MemoryDatabase::new();

    database.put_crate_metadata(&CrateMetadata {
        name: name("no-dependencies"),
        version: version("version-1"),
        dependencies: vec![],
    });

    let result = database
        .get_crate_metadata(&name("no-dependencies"), &version("version-1"))
        .unwrap();
    assert_eq!(
        CrateMetadata {
            name: name("no-dependencies"),
            version: version("version-1"),
            dependencies: vec![]
        },
        result
    );
}

#[test]
fn saves_with_dependencies() {
    let mut database = MemoryDatabase::new();

    database.put_crate_metadata(&CrateMetadata {
        name: name("three-dependencies"),
        version: version("version-1"),
        dependencies: three_dependencies(),
    });

    let result = database
        .get_crate_metadata(&name("three-dependencies"), &version("version-1"))
        .unwrap();
    assert_eq!(
        CrateMetadata {
            name: name("three-dependencies"),
            version: version("version-1"),
            dependencies: three_dependencies()
        },
        result
    );
}

#[test]
fn saves_with_dependencies_when_persistence_is_corrupted() {
    let mut database = MemoryDatabase::new();
    let stale = vec![CrateDependency {
        name: name("name-1"),
        requirement: requirement("wrong-requirement-1"),
        type_: CrateDependencyType::Build,
    }];
    database.put_row("three-dependencies-corrupted", "version-1", 2, stale);

    database.put_crate_metadata(&CrateMetadata {
        name: name("three-dependencies-corrupted"),
        version: version("version-1"),
        dependencies: three_dependencies(),
    });

    let result = database
        .get_crate_metadata(&name("three-dependencies-corrupted"), &version("version-1"))
        .unwrap();
    assert_eq!(
        CrateMetadata {
            name: name("three-dependencies-corrupted"),
            version: version("version-1"),
            dependencies: three_dependencies()
        },
        result
    );
}

#[test]
fn put_twice_with_the_same_value_equals_put_once() {
    let value = CrateMetadata {
        name: name("idempotent"),
        version: version("version-1"),
        dependencies: three_dependencies(),
    };

    let mut once = MemoryDatabase::new();
    once.put_crate_metadata(&value);

    let mut twice = MemoryDatabase::new();
    twice.put_crate_metadata(&value);
    twice.put_crate_metadata(&value);

    let from_once = once.get_crate_metadata(&name("idempotent"), &version("version-1"));
    let from_twice = twice.get_crate_metadata(&name("idempotent"), &version("version-1"));
    assert_eq!(from_once, from_twice);
    assert!(from_once.is_some());
}

#[test]
fn store_rows_reconstruction_reports_absent() {
    let result = metadata_from_store_rows(&name("a"), &version("1.0.0"), false, 0, &vec![]);
    assert_eq!(Ok(StoreLookup::Absent), result);
}

#[test]
fn store_rows_reconstruction_reports_corruption_on_count_mismatch() {
    let rows = vec![("name-1".to_owned(), "requirement-1".to_owned(), "build".to_owned())];
    let result = metadata_from_store_rows(&name("a"), &version("1.0.0"), true, 3, &rows);
    assert_eq!(Ok(StoreLookup::Corrupted), result);
}

#[test]
fn store_rows_reconstruction_builds_metadata() {
    let rows = vec![
        ("name-1".to_owned(), "requirement-1".to_owned(), "build".to_owned()),
        ("name-2".to_owned(), "requirement-2".to_owned(), "dev".to_owned()),
        ("name-3".to_owned(), "requirement-3".to_owned(), "normal".to_owned()),
    ];
    let result = metadata_from_store_rows(&name("three-dependencies"), &version("version-1"), true, 3, &rows);
    assert_eq!(
        Ok(StoreLookup::Found(CrateMetadata {
            name: name("three-dependencies"),
            version: version("version-1"),
            dependencies: three_dependencies(),
        })),
        result
    );
}

#[test]
fn store_rows_reconstruction_rejects_unknown_kind() {
    let rows = vec![("name-1".to_owned(), "requirement-1".to_owned(), "weird".to_owned())];
    let result = metadata_from_store_rows(&name("a"), &version("1.0.0"), true, 1, &rows);
    assert_eq!(
        Err("weird is not a supported relationship. Use either `build`, `dev` or `normal`.".to_owned()),
        result
    );
}
