//! The query-side entry point: one value owning the two capabilities, asked
//! for a package's full transitive dependency graph.

use vstd::prelude::*;

use crate::domain::{CrateMetadata, CrateName, CrateVersion};
use crate::resolver::{resolve_graph, PackageKey, row_consistent};

pub use crate::resolver::{Database, Registry};

verus! {

use crate::resolver::{resolution_fails, resolution_ok, store_repaired, views_of};

/// A dependency-graph query bound to a registry and a store.
pub struct Query<R: Registry, D: Database> {
    pub registry: R,
    pub database: D,
}

impl<R: Registry, D: Database> Query<R, D> {
    pub fn new(registry: R, database: D) -> (r: Self)
        ensures
            r.registry == registry,
            r.database == database,
    {
        Self { registry, database }
    }

    /// The full transitive dependency graph of `(name, version)`, in
    /// discovery order, resolved store-first with registry fallback; `None`
    /// exactly where some reachable package is found nowhere or carries a
    /// requirement with no minimum version (see `resolution_ok`).
    pub fn dependency_graph(&mut self, name: &CrateName, version: &CrateVersion) -> (r: Option<
        Vec<CrateMetadata>,
    >)
        requires
            old(self).registry.catalog().dom().finite(),
            old(self).database.store().dom().finite(),
        ensures
            final(self).registry.catalog() == old(self).registry.catalog(),
            r matches Some(v) ==> resolution_ok(
                old(self).registry.catalog(),
                old(self).database.store(),
                (name@, version@),
                views_of(v@),
            ),
            r matches Some(v) ==> store_repaired(
                old(self).database.store(),
                final(self).database.store(),
                views_of(v@),
            ),
            r is Some <==> !resolution_fails(
                old(self).registry.catalog(),
                old(self).database.store(),
                (name@, version@),
            ),
            forall|k: PackageKey| #[trigger]
                old(self).database.store().contains_key(k)
                    ==> final(self).database.store().contains_key(k),
            forall|k: PackageKey| #[trigger]
                final(self).database.store().contains_key(k)
                    ==> ((old(self).database.store().contains_key(k)
                    && final(self).database.store()[k] == old(self).database.store()[k])
                    || row_consistent(final(self).database.store()[k])),
            forall|k: PackageKey| #[trigger]
                final(self).database.store().contains_key(k)
                    && !(old(self).database.store().contains_key(k)
                    && final(self).database.store()[k] == old(self).database.store()[k]) ==> (old(
                    self,
                ).registry.catalog().contains_key(k) && final(self).database.store()[k]
                    == (crate::resolver::StoredRow {
                    declared: old(self).registry.catalog()[k].len(),
                    deps: old(self).registry.catalog()[k],
                })),
    {
        resolve_graph(&mut self.registry, &mut self.database, name, version)
    }
}

} // verus!

