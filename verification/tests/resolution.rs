use crate_graph::domain::{
    CrateDependency, CrateDependencyType, CrateMetadata, CrateName, CrateRequirement, CrateVersion,
};
use crate_graph::query::Query;
use crate_graph::registry::MemoryRegistry;
use crate_graph::resolver::{Database, DependencyResolver, MinimumDependencyResolver};
use crate_graph::response::graph_response;
use crate_graph::store::MemoryDatabase;

fn name(value: &str) -> CrateName {
    CrateName::parse(value).unwrap()
}

fn version(value: &str) -> CrateVersion {
    CrateVersion::parse(value).unwrap()
}

fn edge(target: &str, req: &str, kind: CrateDependencyType) -> CrateDependency {
    CrateDependency {
        name: name(target),
        requirement: CrateRequirement::parse(req).unwrap(),
        type_: kind,
    }
}

fn package(pkg: &str, ver: &str, dependencies: Vec<CrateDependency>) -> CrateMetadata {
    CrateMetadata { name: name(pkg), version: version(ver), dependencies }
}

fn entry_named<'a>(results: &'a [CrateMetadata], pkg: &str) -> &'a CrateMetadata {
    results
        .iter()
        .find(|m| m.name.as_str() == pkg)
        .expect("package missing from the result set")
}

#[test]
fn zero_dependencies_resolve_to_a_single_entry() {
    let mut registry = MemoryRegistry::new();
    registry.register(package("root", "1.0.0", vec![]));
    let mut query = Query::new(registry, MemoryDatabase::new());

    let results = query.dependency_graph(&name("root"), &version("1.0.0")).unwrap();

    assert_eq!(1, results.len());
    assert_eq!("root", results[0].name.as_str());
    assert_eq!("1.0.0", results[0].version.as_str());
    assert!(results[0].dependencies.is_empty());
}

#[test]
fn a_corrupted_store_row_counts_as_a_miss_and_is_repaired() {
    let mut registry = MemoryRegistry::new();
    registry.register(package("root", "1.0.0", vec![]));

    let mut database = MemoryDatabase::new();
    // the row's declared count disagrees with its edge rows
    database.put_row(
        "root",
        "1.0.0",
        3,
        vec![edge("stale", "^1.0", CrateDependencyType::Build)],
    );

    let mut query = Query::new(registry, database);
    let results = query.dependency_graph(&name("root"), &version("1.0.0")).unwrap();

    // the registry was consulted and its (empty) dependency list won
    assert_eq!(1, results.len());
    assert!(results[0].dependencies.is_empty());
    assert_eq!(1, query.registry.fetches());

    // the store was corrected: the row reads back consistently now
    let repaired = query
        .database
        .get_crate_metadata(&name("root"), &version("1.0.0"))
        .unwrap();
    assert!(repaired.dependencies.is_empty());
}

#[test]
fn three_uncached_dependencies_resolve_to_the_reachable_set() {
    let mut registry = MemoryRegistry::new();
    registry.register(package(
        "root",
        "1.0.0",
        vec![
            edge("one", "^1.1.1", CrateDependencyType::Build),
            edge("two", "^2.2.2", CrateDependencyType::Dev),
            edge("three", "^3.3.3", CrateDependencyType::Normal),
        ],
    ));
    registry.register(package("one", "1.1.1", vec![]));
    registry.register(package("two", "2.2.2", vec![]));
    registry.register(package("three", "3.3.3", vec![]));

    let mut query = Query::new(registry, MemoryDatabase::new());
    let results = query.dependency_graph(&name("root"), &version("1.0.0")).unwrap();

    assert_eq!(4, results.len());
    assert_eq!("root", results[0].name.as_str());
    assert_eq!(3, entry_named(&results, "root").dependencies.len());
    assert_eq!("1.1.1", entry_named(&results, "one").version.as_str());
    assert_eq!("2.2.2", entry_named(&results, "two").version.as_str());
    assert_eq!("3.3.3", entry_named(&results, "three").version.as_str());
    // one registry fetch per distinct package, none cached beforehand
    assert_eq!(4, query.registry.fetches());
}

#[test]
fn a_missing_reachable_package_fails_the_whole_resolution() {
    let mut registry = MemoryRegistry::new();
    registry.register(package(
        "root",
        "1.0.0",
        vec![
            edge("present", "^1.0.0", CrateDependencyType::Normal),
            edge("absent", "^9.9.9", CrateDependencyType::Normal),
        ],
    ));
    registry.register(package("present", "1.0.0", vec![]));
    // nothing registered as ("absent", "9.9.9")

    let mut query = Query::new(registry, MemoryDatabase::new());
    let results = query.dependency_graph(&name("root"), &version("1.0.0"));

    assert!(results.is_none());
}

#[test]
fn rows_fetched_before_a_failure_persist_in_the_store() {
    let mut registry = MemoryRegistry::new();
    registry.register(package(
        "root",
        "1.0.0",
        vec![
            edge("absent", "^9.9.9", CrateDependencyType::Normal),
            edge("present", "^1.0.0", CrateDependencyType::Normal),
        ],
    ));
    registry.register(package("present", "1.0.0", vec![]));
    // nothing registered as ("absent", "9.9.9"); the worklist reaches
    // "present" first, so its row is written before the failure

    let mut query = Query::new(registry, MemoryDatabase::new());
    let results = query.dependency_graph(&name("root"), &version("1.0.0"));
    assert!(results.is_none());

    // the rows written for the fetched packages are not rolled back
    let kept = query
        .database
        .get_crate_metadata(&name("present"), &version("1.0.0"))
        .unwrap();
    assert!(kept.dependencies.is_empty());
    let root_kept = query
        .database
        .get_crate_metadata(&name("root"), &version("1.0.0"))
        .unwrap();
    assert_eq!(2, root_kept.dependencies.len());
}

#[test]
fn a_malformed_requirement_fails_the_whole_resolution() {
    let mut registry = MemoryRegistry::new();
    registry.register(package(
        "root",
        "1.0.0",
        vec![edge("dep", "not a requirement", CrateDependencyType::Normal)],
    ));

    let mut query = Query::new(registry, MemoryDatabase::new());
    let results = query.dependency_graph(&name("root"), &version("1.0.0"));

    assert!(results.is_none());
}

#[test]
fn a_diamond_dependency_is_recorded_and_queried_once() {
    let mut registry = MemoryRegistry::new();
    registry.register(package(
        "root",
        "1.0.0",
        vec![
            edge("left", "^1.0.0", CrateDependencyType::Normal),
            edge("right", "^1.0.0", CrateDependencyType::Normal),
        ],
    ));
    registry.register(package(
        "left",
        "1.0.0",
        vec![edge("shared", "^1.0.0", CrateDependencyType::Normal)],
    ));
    registry.register(package(
        "right",
        "1.0.0",
        vec![edge("shared", "^1.0.0", CrateDependencyType::Normal)],
    ));
    registry.register(package("shared", "1.0.0", vec![]));

    let mut query = Query::new(registry, MemoryDatabase::new());
    let results = query.dependency_graph(&name("root"), &version("1.0.0")).unwrap();

    // exactly one entry for the shared transitive package
    assert_eq!(4, results.len());
    let shared_entries = results.iter().filter(|m| m.name.as_str() == "shared").count();
    assert_eq!(1, shared_entries);
    // at most one store/registry query pair per package
    assert_eq!(4, query.registry.fetches());
    assert_eq!(4, query.database.lookups());
}

#[test]
fn a_cached_package_is_served_from_the_store() {
    let mut database = MemoryDatabase::new();
    database.put_crate_metadata(&package("root", "1.0.0", vec![]));

    let mut query = Query::new(MemoryRegistry::new(), database);
    let results = query.dependency_graph(&name("root"), &version("1.0.0")).unwrap();

    assert_eq!(1, results.len());
    // the registry was never needed
    assert_eq!(0, query.registry.fetches());
}

#[test]
fn cycles_terminate_with_one_entry_per_package() {
    let mut registry = MemoryRegistry::new();
    registry.register(package(
        "ping",
        "1.0.0",
        vec![edge("pong", "^1.0.0", CrateDependencyType::Normal)],
    ));
    registry.register(package(
        "pong",
        "1.0.0",
        vec![edge("ping", "^1.0.0", CrateDependencyType::Normal)],
    ));

    let mut query = Query::new(registry, MemoryDatabase::new());
    let results = query.dependency_graph(&name("ping"), &version("1.0.0")).unwrap();

    assert_eq!(2, results.len());
}

#[test]
fn the_resolver_trait_drives_the_same_engine() {
    let mut registry = MemoryRegistry::new();
    registry.register(package("root", "1.0.0", vec![]));
    let mut database = MemoryDatabase::new();

    let resolver = MinimumDependencyResolver::new().resolve(&name("root"), &version("1.0.0"));
    let results = resolver.execute(&mut registry, &mut database).unwrap();

    assert_eq!(1, results.len());
    assert_eq!("root", results[0].name.as_str());
}

#[test]
fn graph_response_renders_nodes_and_edges() {
    let results = vec![package(
        "root",
        "1.0.0",
        vec![edge("dep", "^1.2", CrateDependencyType::Dev)],
    )];

    let response = graph_response(&results).unwrap();

    assert_eq!(1, response.data.len());
    let node = &response.data[0];
    assert_eq!("root", node.name);
    assert_eq!("1.0.0", node.version);
    assert_eq!(1, node.edges.len());
    assert_eq!("dependency.dev", node.edges[0].relationship);
    assert_eq!("dep", node.edges[0].node.name);
    assert_eq!("^1.2", node.edges[0].node.requirement);
    assert_eq!("1.2.0", node.edges[0].node.minimum_version);
}

#[test]
fn graph_response_rejects_a_malformed_requirement() {
    let results = vec![package(
        "root",
        "1.0.0",
        vec![edge("dep", ">", CrateDependencyType::Normal)],
    )];

    assert!(graph_response(&results).is_err());
}
