//! The registry capability: an in-memory implementation of `Registry`, the
//! reconstruction of metadata from a registry response's dependency rows, and
//! the classification of a registry response status.

use vstd::prelude::*;

use crate::domain::{
    all_tags_valid, CrateMetadata, CrateName, CrateVersion, dependencies_from_rows, DependencyView,
};
use crate::resolver::{PackageKey, Registry};

verus! {

use vstd::string::StringExecFns;

spec fn entry_key(m: CrateMetadata) -> PackageKey {
    (m@.name, m@.version)
}

/// The catalog an entry list denotes: later entries for a key shadow earlier
/// ones.
spec fn catalog_of(entries: Seq<CrateMetadata>) -> Map<PackageKey, Seq<DependencyView>>
    decreases entries.len(),
{
    if entries.len() == 0 {
        Map::empty()
    } else {
        catalog_of(entries.drop_last()).insert(
            entry_key(entries.last()),
            entries.last()@.deps,
        )
    }
}

proof fn lemma_catalog_of_absent(entries: Seq<CrateMetadata>, k: PackageKey)
    requires
        forall|j: int| 0 <= j < entries.len() ==> entry_key(#[trigger] entries[j]) != k,
    ensures
        !catalog_of(entries).contains_key(k),
    decreases entries.len(),
{
    if entries.len() > 0 {
        assert(forall|j: int|
            0 <= j < entries.drop_last().len() ==> entries.drop_last()[j] == entries[j]);
        lemma_catalog_of_absent(entries.drop_last(), k);
        assert(entry_key(entries.last()) != k);
    }
}

proof fn lemma_catalog_of_found(entries: Seq<CrateMetadata>, i: int)
    requires
        0 <= i < entries.len(),
        forall|j: int| i < j < entries.len() ==> entry_key(#[trigger] entries[j]) != entry_key(
            entries[i],
        ),
    ensures
        catalog_of(entries).contains_key(entry_key(entries[i])),
        catalog_of(entries)[entry_key(entries[i])] == entries[i]@.deps,
    decreases entries.len(),
{
    if i == entries.len() - 1 {
        assert(entries.last() == entries[i]);
    } else {
        assert(forall|j: int|
            0 <= j < entries.drop_last().len() ==> entries.drop_last()[j] == entries[j]);
        lemma_catalog_of_found(entries.drop_last(), i);
        assert(entry_key(entries.last()) != entry_key(entries[i]));
    }
}

/// An in-memory registry: entries registered in order, the latest entry for a
/// key authoritative; lookups count their calls.
pub struct MemoryRegistry {
    entries: Vec<CrateMetadata>,
    fetches: u64,
}

impl MemoryRegistry {
    /// How many lookups this registry has served (saturating).
    pub closed spec fn fetch_count(&self) -> u64 {
        self.fetches
    }

    pub fn new() -> (r: Self)
        ensures
            r.catalog() == Map::<PackageKey, Seq<DependencyView>>::empty(),
            r.fetch_count() == 0,
    {
        Self { entries: Vec::new(), fetches: 0 }
    }

    pub fn fetches(&self) -> (r: u64)
        ensures
            r == self.fetch_count(),
    {
        self.fetches
    }

    /// Makes the registry serve `metadata` for its own `(name, version)`.
    pub fn register(&mut self, metadata: CrateMetadata)
        ensures
            final(self).catalog() == old(self).catalog().insert(
                (metadata@.name, metadata@.version),
                metadata@.deps,
            ),
            final(self).fetch_count() == old(self).fetch_count(),
    {
        let ghost entries_pre = self.entries@;
        self.entries.push(metadata);
        proof {
            assert(self.entries@.drop_last() =~= entries_pre);
        }
    }
}

impl Registry for MemoryRegistry {
    closed spec fn catalog(&self) -> Map<PackageKey, Seq<DependencyView>> {
        catalog_of(self.entries@)
    }

    fn get_crate_metadata(&mut self, name: &CrateName, version: &CrateVersion) -> (r: Option<
        CrateMetadata,
    >)
        ensures
            old(self).fetch_count() < u64::MAX ==> final(self).fetch_count() == old(
                self,
            ).fetch_count() + 1,
    {
        if self.fetches < u64::MAX {
            self.fetches = self.fetches + 1;
        }
        let mut i: usize = self.entries.len();
        while i > 0
            invariant
                i <= self.entries@.len(),
                self.entries@ == old(self).entries@,
                catalog_of(self.entries@) == old(self).catalog(),
                self.fetches as int == (if old(self).fetch_count() < u64::MAX {
                    old(self).fetch_count() + 1
                } else {
                    old(self).fetch_count() as int
                }),
                forall|j: int|
                    i <= j < self.entries@.len() ==> entry_key(#[trigger] self.entries@[j]) != (
                    name@,
                    version@,
                    ),
            decreases i,
        {
            i = i - 1;
            if self.entries[i].name == *name && self.entries[i].version == *version {
                proof {
                    lemma_catalog_of_found(self.entries@, i as int);
                    assert(entry_key(self.entries@[i as int]) == (name@, version@));
                }
                return Some(self.entries[i].clone());
            }
            proof {
                assert(entry_key(self.entries@[i as int]) != (name@, version@));
            }
        }
        proof {
            lemma_catalog_of_absent(self.entries@, (name@, version@));
        }
        None
    }
}

/// The reconstruction a remote registry client performs on a successful
/// response: each row is `(name, requirement, kind)`; a kind tag outside the
/// closed vocabulary fails the fetch.
pub fn metadata_from_response_rows(
    name: &CrateName,
    version: &CrateVersion,
    rows: &Vec<(String, String, String)>,
) -> (r: Result<CrateMetadata, String>)
    ensures
        r is Ok <==> all_tags_valid(rows@),
        r matches Ok(m) ==> (m@.name == name@ && m@.version == version@ && m@.deps.len()
            == rows@.len() && forall|i: int|
            0 <= i < rows@.len() ==> ((#[trigger] m@.deps[i]).name == rows@[i].0@
                && m@.deps[i].requirement == rows@[i].1@ && Some(m@.deps[i].kind)
                == crate::domain::CrateDependencyType::of_tag(rows@[i].2@))),
{
    match dependencies_from_rows(rows) {
        Ok(dependencies) => Ok(
            CrateMetadata { name: name.clone(), version: version.clone(), dependencies },
        ),
        Err(message) => Err(message),
    }
}

/// The relative path at which a package's dependencies are fetched:
/// `/api/v1/crates/{name}/{version}/dependencies`.
pub open spec fn dependencies_path(name: Seq<char>, version: Seq<char>) -> Seq<char> {
    "/api/v1/crates/"@ + name + "/"@ + version + "/dependencies"@
}

/// Renders the request address for a package's dependencies: the registry's
/// base address followed by the dependencies path of `(name, version)`.
pub fn dependencies_url(base_address: &str, name: &CrateName, version: &CrateVersion) -> (r:
    String)
    ensures
        r@ == base_address@ + dependencies_path(name@, version@),
{
    let mut url = base_address.to_owned();
    url.append("/api/v1/crates/");
    url.append(name.as_str());
    url.append("/");
    url.append(version.as_str());
    url.append("/dependencies");
    proof {
        assert(url@ =~= base_address@ + dependencies_path(name@, version@));
    }
    url
}

/// What a registry response's HTTP status means for a fetch.
#[derive(Clone, Copy, Debug, PartialEq, Eq, Structural)]
pub enum FetchStatus {
    /// The payload carries the package's dependencies.
    Success,
    /// The registry has no such package: a distinguished outcome, not an error.
    NotFound,
    /// Any other status is a protocol violation, fatal to the fetch.
    Unsupported,
}

/// Classifies a registry response status code: success, the distinguished
/// "no such package", or a fatal protocol violation.
pub fn classify_status(code: u16) -> (r: FetchStatus)
    ensures
        code == 200 ==> r == FetchStatus::Success,
        code == 404 ==> r == FetchStatus::NotFound,
        code != 200 && code != 404 ==> r == FetchStatus::Unsupported,
{
    if code == 200 {
        FetchStatus::Success
    } else if code == 404 {
        FetchStatus::NotFound
    } else {
        FetchStatus::Unsupported
    }
}

} // verus!
