//! The store capability: an in-memory implementation of `Database` with the
//! denormalized dependency count and its read-side corruption check, and the
//! row-level reconstruction shared with any SQL-backed store.

use vstd::prelude::*;

use crate::domain::{
    all_tags_valid, clone_dependencies, CrateDependency, CrateMetadata, CrateName, CrateVersion,
    dependencies_from_rows,
};
use crate::resolver::{Database, PackageKey, row_consistent, StoredRow};

verus! {

/// One persisted package row: identity, the denormalized dependency count,
/// and the dependency rows. Count and rows can disagree; reads detect that.
struct StoreRecord {
    name: String,
    version: String,
    declared: usize,
    deps: Vec<CrateDependency>,
}

spec fn record_key(r: StoreRecord) -> PackageKey {
    (r.name@, r.version@)
}

spec fn record_row(r: StoreRecord) -> StoredRow {
    StoredRow { declared: r.declared as nat, deps: Seq::new(r.deps@.len(), |i: int| r.deps@[i]@) }
}

/// The map a row list denotes: later rows for a key shadow earlier ones.
spec fn store_of(rows: Seq<StoreRecord>) -> Map<PackageKey, StoredRow>
    decreases rows.len(),
{
    if rows.len() == 0 {
        Map::empty()
    } else {
        store_of(rows.drop_last()).insert(record_key(rows.last()), record_row(rows.last()))
    }
}

proof fn lemma_store_of_absent(rows: Seq<StoreRecord>, k: PackageKey)
    requires
        forall|j: int| 0 <= j < rows.len() ==> record_key(#[trigger] rows[j]) != k,
    ensures
        !store_of(rows).contains_key(k),
    decreases rows.len(),
{
    if rows.len() > 0 {
        assert(forall|j: int|
            0 <= j < rows.drop_last().len() ==> rows.drop_last()[j] == rows[j]);
        lemma_store_of_absent(rows.drop_last(), k);
        assert(record_key(rows.last()) != k);
    }
}

proof fn lemma_store_of_found(rows: Seq<StoreRecord>, i: int)
    requires
        0 <= i < rows.len(),
        forall|j: int| i < j < rows.len() ==> record_key(#[trigger] rows[j]) != record_key(
            rows[i],
        ),
    ensures
        store_of(rows).contains_key(record_key(rows[i])),
        store_of(rows)[record_key(rows[i])] == record_row(rows[i]),
    decreases rows.len(),
{
    if i == rows.len() - 1 {
        assert(rows.last() == rows[i]);
    } else {
        assert(forall|j: int|
            0 <= j < rows.drop_last().len() ==> rows.drop_last()[j] == rows[j]);
        lemma_store_of_found(rows.drop_last(), i);
        assert(record_key(rows.last()) != record_key(rows[i]));
    }
}

/// An in-memory store: rows appended in write order, the latest row for a
/// key authoritative; reads count their calls.
pub struct MemoryDatabase {
    rows: Vec<StoreRecord>,
    lookups: u64,
}

impl MemoryDatabase {
    /// How many reads this store has served (saturating).
    pub closed spec fn lookup_count(&self) -> u64 {
        self.lookups
    }

    pub fn new() -> (r: Self)
        ensures
            r.store() == Map::<PackageKey, StoredRow>::empty(),
            r.lookup_count() == 0,
    {
        Self { rows: Vec::new(), lookups: 0 }
    }

    pub fn lookups(&self) -> (r: u64)
        ensures
            r == self.lookup_count(),
    {
        self.lookups
    }

    /// Writes a raw row, count and edges exactly as given — the seam through
    /// which a test plants an inconsistent (corrupted) row.
    pub fn put_row(
        &mut self,
        name: &str,
        version: &str,
        declared: usize,
        deps: Vec<CrateDependency>,
    )
        ensures
            final(self).store() == old(self).store().insert(
                (name@, version@),
                StoredRow {
                    declared: declared as nat,
                    deps: Seq::new(deps@.len(), |i: int| deps@[i]@),
                },
            ),
            final(self).lookup_count() == old(self).lookup_count(),
    {
        let ghost rows_pre = self.rows@;
        let record = StoreRecord {
            name: name.to_owned(),
            version: version.to_owned(),
            declared,
            deps,
        };
        self.rows.push(record);
        proof {
            assert(self.rows@.drop_last() =~= rows_pre);
        }
    }
}

impl Database for MemoryDatabase {
    closed spec fn store(&self) -> Map<PackageKey, StoredRow> {
        store_of(self.rows@)
    }

    fn get_crate_metadata(&mut self, name: &CrateName, version: &CrateVersion) -> (r: Option<
        CrateMetadata,
    >)
        ensures
            old(self).lookup_count() < u64::MAX ==> final(self).lookup_count() == old(
                self,
            ).lookup_count() + 1,
    {
        if self.lookups < u64::MAX {
            self.lookups = self.lookups + 1;
        }
        let mut i: usize = self.rows.len();
        while i > 0
            invariant
                i <= self.rows@.len(),
                self.rows@ == old(self).rows@,
                store_of(self.rows@) == old(self).store(),
                self.lookups as int == (if old(self).lookup_count() < u64::MAX {
                    old(self).lookup_count() + 1
                } else {
                    old(self).lookup_count() as int
                }),
                forall|j: int|
                    i <= j < self.rows@.len() ==> record_key(#[trigger] self.rows@[j]) != (
                    name@,
                    version@,
                    ),
            decreases i,
        {
            i = i - 1;
            if name.is(&self.rows[i].name) && version.is(&self.rows[i].version) {
                proof {
                    lemma_store_of_found(self.rows@, i as int);
                }
                let record = &self.rows[i];
                if record.declared == record.deps.len() {
                    let m = CrateMetadata {
                        name: name.clone(),
                        version: version.clone(),
                        dependencies: clone_dependencies(&record.deps),
                    };
                    proof {
                        assert(record_key(self.rows@[i as int]) == (name@, version@));
                        assert(m@.deps =~= record_row(self.rows@[i as int]).deps);
                        assert(row_consistent(store_of(self.rows@)[(name@, version@)]));
                    }
                    return Some(m);
                } else {
                    proof {
                        assert(record_key(self.rows@[i as int]) == (name@, version@));
                        assert(!row_consistent(store_of(self.rows@)[(name@, version@)]));
                    }
                    return None;
                }
            }
            proof {
                assert(record_key(self.rows@[i as int]) != (name@, version@));
            }
        }
        proof {
            lemma_store_of_absent(self.rows@, (name@, version@));
        }
        None
    }

    fn put_crate_metadata(&mut self, metadata: &CrateMetadata) {
        let ghost rows_pre = self.rows@;
        let deps = clone_dependencies(&metadata.dependencies);
        let record = StoreRecord {
            name: metadata.name.as_str().to_owned(),
            version: metadata.version.as_str().to_owned(),
            declared: deps.len(),
            deps,
        };
        self.rows.push(record);
        proof {
            assert(self.rows@.drop_last() =~= rows_pre);
            assert(record_row(self.rows@.last()).deps =~= metadata@.deps);
        }
    }
}

/// What a store read yields once the row-level consistency check has run.
#[derive(Debug, PartialEq)]
pub enum StoreLookup {
    Found(CrateMetadata),
    Absent,
    Corrupted,
}

/// The read-side reconstruction a SQL-backed store performs: `package_found`
/// says whether the package row exists, `declared` is its denormalized
/// dependency count, and `rows` are the dependency rows that came with it. A
/// count that disagrees with the rows is corruption, reported as such; a kind
/// tag outside the closed vocabulary fails the read outright.
pub fn metadata_from_store_rows(
    name: &CrateName,
    version: &CrateVersion,
    package_found: bool,
    declared: usize,
    rows: &Vec<(String, String, String)>,
) -> (r: Result<StoreLookup, String>)
    ensures
        !package_found ==> r == Ok::<StoreLookup, String>(StoreLookup::Absent),
        package_found && declared != rows@.len() ==> r == Ok::<StoreLookup, String>(
            StoreLookup::Corrupted,
        ),
        package_found && declared == rows@.len() ==> {
            &&& (r is Ok <==> all_tags_valid(rows@))
            &&& (r matches Ok(l) ==> (l matches StoreLookup::Found(m) && m@.name == name@
                && m@.version == version@ && m@.deps.len() == rows@.len() && forall|i: int|
                0 <= i < rows@.len() ==> ((#[trigger] m@.deps[i]).name == rows@[i].0@
                    && m@.deps[i].requirement == rows@[i].1@ && Some(m@.deps[i].kind)
                    == crate::domain::CrateDependencyType::of_tag(rows@[i].2@))))
        },
{
    if !package_found {
        return Ok(StoreLookup::Absent);
    }
    if declared != rows.len() {
        return Ok(StoreLookup::Corrupted);
    }
    match dependencies_from_rows(rows) {
        Ok(dependencies) => {
            let m = CrateMetadata {
                name: name.clone(),
                version: version.clone(),
                dependencies,
            };
            Ok(StoreLookup::Found(m))
        },
        Err(message) => Err(message),
    }
}

} // verus!
