//! The worklist-driven dependency-resolution engine and the two capabilities
//! it composes: a remote registry, and a persistent store read first as a
//! cache and repaired after a registry fetch.

use vstd::prelude::*;

use crate::decimal::version_seq;
use crate::domain::{CrateMetadata, CrateName, CrateVersion, DependencyView, MetadataView};
use crate::requirement::{has_numeric_overflow, minimum_triple_of};

verus! {

/// The composite identity `(name, version)` of a package.
pub type PackageKey = (Seq<char>, Seq<char>);

/// What the store holds for one package: the denormalized dependency count
/// and the dependency rows themselves. The two can disagree; that disagreement
/// is the corruption the read-side check detects.
pub ghost struct StoredRow {
    pub declared: nat,
    pub deps: Seq<DependencyView>,
}

/// A stored row passes the read-side consistency check.
pub open spec fn row_consistent(row: StoredRow) -> bool {
    row.declared == row.deps.len()
}

/// A remote, read-only source of package metadata.
pub trait Registry: Sized {
    /// The dependency lists the registry serves, keyed by package identity.
    /// The default, an empty catalog, is for implementations outside the
    /// verified world; a verified implementation says what it serves.
    open spec fn catalog(&self) -> Map<PackageKey, Seq<DependencyView>> {
        Map::empty()
    }

    /// One lookup. `None` exactly where the catalog has no such package; the
    /// catalog itself never changes under a lookup.
    fn get_crate_metadata(&mut self, name: &CrateName, version: &CrateVersion) -> (r: Option<
        CrateMetadata,
    >)
        ensures
            final(self).catalog() == old(self).catalog(),
            r is Some <==> old(self).catalog().contains_key((name@, version@)),
            r matches Some(m) ==> m@.name == name@ && m@.version == version@ && m@.deps == old(
                self,
            ).catalog()[(name@, version@)],
    ;
}

/// A persistent store of package metadata, consulted before the registry.
pub trait Database: Sized {
    /// The rows the store holds, keyed by package identity. The default, an
    /// empty store, is for implementations outside the verified world; a
    /// verified implementation says what it holds.
    open spec fn store(&self) -> Map<PackageKey, StoredRow> {
        Map::empty()
    }

    /// One read. A row whose declared dependency count disagrees with its
    /// dependency rows is corrupted and reported exactly like an absent one.
    fn get_crate_metadata(&mut self, name: &CrateName, version: &CrateVersion) -> (r: Option<
        CrateMetadata,
    >)
        ensures
            final(self).store() == old(self).store(),
            r is Some <==> (old(self).store().contains_key((name@, version@)) && row_consistent(
                old(self).store()[(name@, version@)],
            )),
            r matches Some(m) ==> m@.name == name@ && m@.version == version@ && m@.deps == old(
                self,
            ).store()[(name@, version@)].deps,
    ;

    /// An upsert: the row for the metadata's key is replaced whole — count and
    /// edge set together, no merge with what was there.
    fn put_crate_metadata(&mut self, metadata: &CrateMetadata)
        ensures
            final(self).store() == old(self).store().insert(
                (metadata@.name, metadata@.version),
                StoredRow { declared: metadata@.deps.len(), deps: metadata@.deps },
            ),
    ;
}

/// What a cache-aside lookup of `k` yields against store `st` with fallback
/// to catalog `cat`: the store row's edges on a consistent hit, the catalog's
/// on a miss or a corrupted row, nothing where both fail.
pub open spec fn resolved_deps(
    cat: Map<PackageKey, Seq<DependencyView>>,
    st: Map<PackageKey, StoredRow>,
    k: PackageKey,
) -> Option<Seq<DependencyView>> {
    if st.contains_key(k) && row_consistent(st[k]) {
        Some(st[k].deps)
    } else if cat.contains_key(k) {
        Some(cat[k])
    } else {
        None
    }
}

/// An edge whose requirement string yields a minimum version.
pub open spec fn edge_ok(d: DependencyView) -> bool {
    !has_numeric_overflow(d.requirement) && minimum_triple_of(d.requirement) is Some
}

/// The key an edge expands to: its target name, at the requirement's minimum
/// version. Meaningful only where `edge_ok` holds.
pub open spec fn edge_key(d: DependencyView) -> PackageKey {
    (
        d.name,
        match minimum_triple_of(d.requirement) {
            Some(t) => version_seq(t.0 as nat, t.1 as nat, t.2 as nat),
            None => Seq::empty(),
        },
    )
}

/// Whether some entry of the result carries the key `k`.
pub open spec fn result_has_key(v: Seq<MetadataView>, k: PackageKey) -> bool {
    exists|i: int| 0 <= i < v.len() && (#[trigger] v[i]).key() == k
}

/// The set of keys the result carries.
pub open spec fn result_key_set(v: Seq<MetadataView>) -> Set<PackageKey> {
    Set::new(|k: PackageKey| result_has_key(v, k))
}

/// Entry `i` of the result is some earlier entry's expanded edge.
pub open spec fn justified(v: Seq<MetadataView>, i: int) -> bool {
    exists|j: int, e: int|
        0 <= j < i && 0 <= e < v[j].deps.len() && edge_key(#[trigger] v[j].deps[e]) == v[i].key()
}

/// The returned graph is sound and complete for its root: the root comes
/// first, every entry is the cache-aside value of its key, every edge of an
/// entry expands to an entry, every entry after the root is some earlier
/// entry's edge (the sequence is in discovery order), and no key repeats.
pub open spec fn resolution_ok(
    cat: Map<PackageKey, Seq<DependencyView>>,
    st: Map<PackageKey, StoredRow>,
    root: PackageKey,
    v: Seq<MetadataView>,
) -> bool {
    &&& v.len() >= 1
    &&& v[0].key() == root
    &&& forall|i: int|
        0 <= i < v.len() ==> resolved_deps(cat, st, (#[trigger] v[i]).key()) == Some(v[i].deps)
    &&& forall|i: int, j: int| 0 <= i < j < v.len() ==> v[i].key() != v[j].key()
    &&& forall|i: int, e: int|
        0 <= i < v.len() && 0 <= e < v[i].deps.len() ==> edge_ok(#[trigger] v[i].deps[e])
            && result_has_key(v, edge_key(v[i].deps[e]))
    &&& forall|i: int| 1 <= i < v.len() ==> #[trigger] justified(v, i)
}

/// A path of package keys the resolution must walk: each node resolves and
/// hands an edge to the next.
pub open spec fn chain_to(
    cat: Map<PackageKey, Seq<DependencyView>>,
    st: Map<PackageKey, StoredRow>,
    root: PackageKey,
    c: Seq<PackageKey>,
) -> bool {
    &&& c.len() >= 1
    &&& c[0] == root
    &&& forall|i: int|
        0 <= i < c.len() - 1 ==> (resolved_deps(cat, st, #[trigger] c[i]) matches Some(deps)
            && exists|e: int|
            0 <= e < deps.len() && edge_ok(#[trigger] deps[e]) && edge_key(deps[e]) == c[i + 1])
}

/// `k` lies on the dependency graph walked from `root`.
pub open spec fn reachable(
    cat: Map<PackageKey, Seq<DependencyView>>,
    st: Map<PackageKey, StoredRow>,
    root: PackageKey,
    k: PackageKey,
) -> bool {
    exists|c: Seq<PackageKey>| chain_to(cat, st, root, c) && c.last() == k
}

/// The package at `k` stops a resolution: it resolves nowhere, or one of its
/// edges has no minimum version.
pub open spec fn node_fails(
    cat: Map<PackageKey, Seq<DependencyView>>,
    st: Map<PackageKey, StoredRow>,
    k: PackageKey,
) -> bool {
    match resolved_deps(cat, st, k) {
        None => true,
        Some(deps) => exists|e: int| 0 <= e < deps.len() && !edge_ok(#[trigger] deps[e]),
    }
}

/// Resolution of `root` cannot produce a full graph: some reachable package
/// stops it.
pub open spec fn resolution_fails(
    cat: Map<PackageKey, Seq<DependencyView>>,
    st: Map<PackageKey, StoredRow>,
    root: PackageKey,
) -> bool {
    exists|k: PackageKey| #[trigger] reachable(cat, st, root, k) && node_fails(cat, st, k)
}

/// After a successful resolution the store is repaired: every resolved key
/// holds a consistent row with that entry's edges, and no other key changed.
pub open spec fn store_repaired(
    st0: Map<PackageKey, StoredRow>,
    st_final: Map<PackageKey, StoredRow>,
    v: Seq<MetadataView>,
) -> bool {
    &&& forall|k: PackageKey|
        !result_has_key(v, k) ==> (#[trigger] st_final.contains_key(k) == st0.contains_key(k) && (
        st0.contains_key(k) ==> st_final[k] == st0[k]))
    &&& forall|i: int|
        0 <= i < v.len() ==> {
            let k = (#[trigger] v[i]).key();
            &&& st_final.contains_key(k)
            &&& row_consistent(st_final[k])
            &&& st_final[k].deps == v[i].deps
        }
}

/// Every key on a resolution chain from the root lands in a sound result:
/// walking any chain stays inside the returned graph.
pub proof fn lemma_chain_in_result(
    cat: Map<PackageKey, Seq<DependencyView>>,
    st: Map<PackageKey, StoredRow>,
    root: PackageKey,
    v: Seq<MetadataView>,
    c: Seq<PackageKey>,
    i: int,
)
    requires
        resolution_ok(cat, st, root, v),
        chain_to(cat, st, root, c),
        0 <= i < c.len(),
    ensures
        result_has_key(v, c[i]),
    decreases i,
{
    if i == 0 {
        assert(v[0].key() == c[0]);
    } else {
        lemma_chain_in_result(cat, st, root, v, c, i - 1);
        let j = choose|j: int| 0 <= j < v.len() && (#[trigger] v[j]).key() == c[i - 1];
        assert(resolved_deps(cat, st, c[i - 1]) matches Some(deps) && exists|e: int|
            0 <= e < deps.len() && edge_ok(#[trigger] deps[e]) && edge_key(deps[e]) == c[i]);
        assert(resolved_deps(cat, st, v[j].key()) == Some(v[j].deps));
        let e = choose|e: int|
            0 <= e < v[j].deps.len() && edge_ok(#[trigger] v[j].deps[e]) && edge_key(v[j].deps[e])
                == c[i];
        assert(result_has_key(v, edge_key(v[j].deps[e])));
    }
}

/// A sound and complete result refutes failure: no reachable package stops
/// the resolution. This is the all-or-nothing policy seen from the success
/// side; its contrapositive is that any reachable missing package forces the
/// whole resolution to yield no result.
pub proof fn lemma_resolution_ok_no_failure(
    cat: Map<PackageKey, Seq<DependencyView>>,
    st: Map<PackageKey, StoredRow>,
    root: PackageKey,
    v: Seq<MetadataView>,
)
    requires
        resolution_ok(cat, st, root, v),
    ensures
        !resolution_fails(cat, st, root),
{
    assert forall|k: PackageKey| #[trigger] reachable(cat, st, root, k) implies !node_fails(
        cat,
        st,
        k,
    ) by {
        let c = choose|c: Seq<PackageKey>| chain_to(cat, st, root, c) && c.last() == k;
        lemma_chain_in_result(cat, st, root, v, c, c.len() - 1);
        let j = choose|j: int| 0 <= j < v.len() && (#[trigger] v[j]).key() == k;
        assert(resolved_deps(cat, st, k) == Some(v[j].deps));
        assert(forall|e: int| 0 <= e < v[j].deps.len() ==> edge_ok(#[trigger] v[j].deps[e]));
    }
}

/// Every entry of a sound result is reachable from the root.
pub proof fn lemma_result_in_reachable(
    cat: Map<PackageKey, Seq<DependencyView>>,
    st: Map<PackageKey, StoredRow>,
    root: PackageKey,
    v: Seq<MetadataView>,
    i: int,
)
    requires
        resolution_ok(cat, st, root, v),
        0 <= i < v.len(),
    ensures
        reachable(cat, st, root, v[i].key()),
    decreases i,
{
    if i == 0 {
        let c = seq![root];
        assert(chain_to(cat, st, root, c));
        assert(c.last() == v[0].key());
    } else {
        assert(justified(v, i));
        let (j, e) = choose|j: int, e: int|
            0 <= j < i && 0 <= e < v[j].deps.len() && edge_key(#[trigger] v[j].deps[e]) == v[
            i].key();
        lemma_result_in_reachable(cat, st, root, v, j);
        let c = choose|c: Seq<PackageKey>| chain_to(cat, st, root, c) && c.last() == v[j].key();
        let c2 = c.push(v[i].key());
        assert(resolved_deps(cat, st, v[j].key()) == Some(v[j].deps));
        assert(edge_ok(v[j].deps[e]));
        assert forall|n: int| 0 <= n < c2.len() - 1 implies (resolved_deps(
            cat,
            st,
            #[trigger] c2[n],
        ) matches Some(deps) && exists|e2: int|
            0 <= e2 < deps.len() && edge_ok(#[trigger] deps[e2]) && edge_key(deps[e2]) == c2[n
                + 1]) by {
            if n < c.len() - 1 {
                assert(c2[n] == c[n] && c2[n + 1] == c[n + 1]);
                assert(resolved_deps(cat, st, c[n]) matches Some(deps) && exists|e2: int|
                    0 <= e2 < deps.len() && edge_ok(#[trigger] deps[e2]) && edge_key(deps[e2])
                        == c[n + 1]);
            } else {
                assert(c2[n] == v[j].key() && c2[n + 1] == v[i].key());
                let deps = v[j].deps;
                assert(0 <= e < deps.len() && edge_ok(deps[e]) && edge_key(deps[e]) == c2[n + 1]);
            }
        }
        assert(chain_to(cat, st, root, c2));
        assert(c2.last() == v[i].key());
    }
}

/// A sound result's key set is exactly the reachable set of its root: with
/// the no-repeats clause, the result's size is the number of distinct
/// reachable `(name, version)` pairs.
pub proof fn lemma_result_keys_are_reachable_set(
    cat: Map<PackageKey, Seq<DependencyView>>,
    st: Map<PackageKey, StoredRow>,
    root: PackageKey,
    v: Seq<MetadataView>,
)
    requires
        resolution_ok(cat, st, root, v),
    ensures
        forall|k: PackageKey| #[trigger] result_has_key(v, k) <==> reachable(cat, st, root, k),
{
    assert forall|k: PackageKey| #[trigger] result_has_key(v, k) implies reachable(
        cat,
        st,
        root,
        k,
    ) by {
        let i = choose|i: int| 0 <= i < v.len() && (#[trigger] v[i]).key() == k;
        lemma_result_in_reachable(cat, st, root, v, i);
    }
    assert forall|k: PackageKey| reachable(cat, st, root, k) implies result_has_key(v, k) by {
        let c = choose|c: Seq<PackageKey>| chain_to(cat, st, root, c) && c.last() == k;
        lemma_chain_in_result(cat, st, root, v, c, c.len() - 1);
    }
}

/// A root with no dependencies resolves to exactly one entry: its own
/// metadata, with an empty dependency list.
pub proof fn lemma_zero_dependencies(
    cat: Map<PackageKey, Seq<DependencyView>>,
    st: Map<PackageKey, StoredRow>,
    root: PackageKey,
    v: Seq<MetadataView>,
)
    requires
        resolution_ok(cat, st, root, v),
        resolved_deps(cat, st, root) == Some(Seq::<DependencyView>::empty()),
    ensures
        v.len() == 1,
        v[0].key() == root,
        v[0].deps.len() == 0,
{
    assert(resolved_deps(cat, st, v[0].key()) == Some(v[0].deps));
    if v.len() >= 2 {
        assert(justified(v, 1));
        let (j, e) = choose|j: int, e: int|
            0 <= j < 1 && 0 <= e < v[j].deps.len() && edge_key(#[trigger] v[j].deps[e]) == v[
            1].key();
        assert(false);
    }
}

/// Writing the same row twice leaves the store exactly as one write does:
/// the store's `put` is idempotent.
pub proof fn lemma_put_idempotent(
    st: Map<PackageKey, StoredRow>,
    k: PackageKey,
    row: StoredRow,
)
    ensures
        st.insert(k, row).insert(k, row) == st.insert(k, row),
{
    assert(st.insert(k, row).insert(k, row) =~= st.insert(k, row));
}


/// The views of a sequence of metadata values.
pub open spec fn views_of(s: Seq<CrateMetadata>) -> Seq<MetadataView> {
    s.map_values(|m: CrateMetadata| m@)
}

} // verus!

verus! {

use vstd::string::StrSliceExecFns;

/// The keys a worklist of `(name, version)` string pairs denotes.
pub open spec fn stack_keys(s: Seq<(String, String)>) -> Seq<PackageKey> {
    s.map_values(|p: (String, String)| (p.0@, p.1@))
}

/// Extending a chain by one usable edge of its resolved endpoint keeps it a
/// chain.
proof fn lemma_reachable_step(
    cat: Map<PackageKey, Seq<DependencyView>>,
    st: Map<PackageKey, StoredRow>,
    root: PackageKey,
    k: PackageKey,
    deps: Seq<DependencyView>,
    e: int,
)
    requires
        reachable(cat, st, root, k),
        resolved_deps(cat, st, k) == Some(deps),
        0 <= e < deps.len(),
        edge_ok(deps[e]),
    ensures
        reachable(cat, st, root, edge_key(deps[e])),
{
    let c = choose|c: Seq<PackageKey>| chain_to(cat, st, root, c) && c.last() == k;
    let c2 = c.push(edge_key(deps[e]));
    assert forall|n: int| 0 <= n < c2.len() - 1 implies (resolved_deps(
        cat,
        st,
        #[trigger] c2[n],
    ) matches Some(ds) && exists|e2: int|
        0 <= e2 < ds.len() && edge_ok(#[trigger] ds[e2]) && edge_key(ds[e2]) == c2[n + 1]) by {
        if n < c.len() - 1 {
            assert(c2[n] == c[n] && c2[n + 1] == c[n + 1]);
            assert(resolved_deps(cat, st, c[n]) matches Some(ds) && exists|e2: int|
                0 <= e2 < ds.len() && edge_ok(#[trigger] ds[e2]) && edge_key(ds[e2]) == c[n + 1]);
        } else {
            assert(c2[n] == k && c2[n + 1] == edge_key(deps[e]));
            assert(0 <= e < deps.len() && edge_ok(deps[e]) && edge_key(deps[e]) == c2[n + 1]);
        }
    }
    assert(chain_to(cat, st, root, c2));
    assert(c2.last() == edge_key(deps[e]));
}

/// The engine's state between worklist steps: the store is repaired for all
/// recorded entries and untouched elsewhere; recorded entries are sound,
/// distinct, root-first and justified in discovery order; every recorded edge
/// leads to a recorded entry or a pending worklist key; every pending key is
/// the root or a recorded entry's edge, and reachable from the root.
spec fn engine_inv(
    cat: Map<PackageKey, Seq<DependencyView>>,
    st0: Map<PackageKey, StoredRow>,
    st_now: Map<PackageKey, StoredRow>,
    root: PackageKey,
    v: Seq<MetadataView>,
    work: Seq<PackageKey>,
) -> bool {
    &&& store_repaired(st0, st_now, v)
    &&& forall|i: int|
        0 <= i < v.len() ==> resolved_deps(cat, st0, (#[trigger] v[i]).key()) == Some(v[i].deps)
    &&& forall|i: int, j: int| 0 <= i < j < v.len() ==> v[i].key() != v[j].key()
    &&& (v.len() >= 1 ==> v[0].key() == root)
    &&& (v.len() == 0 ==> work == seq![root])
    &&& forall|i: int| 1 <= i < v.len() ==> #[trigger] justified(v, i)
    &&& forall|i: int, e: int|
        0 <= i < v.len() && 0 <= e < v[i].deps.len() ==> edge_ok(#[trigger] v[i].deps[e]) && (
        result_has_key(v, edge_key(v[i].deps[e])) || work.contains(edge_key(v[i].deps[e])))
    &&& forall|wi: int|
        0 <= wi < work.len() ==> (#[trigger] work[wi] == root || exists|j: int, e: int|
            0 <= j < v.len() && 0 <= e < v[j].deps.len() && edge_key(#[trigger] v[j].deps[e])
                == work[wi])
    &&& forall|wi: int| 0 <= wi < work.len() ==> reachable(cat, st0, root, #[trigger] work[wi])
}

/// Whether the recorded results already hold an entry for `(name, version)`.
fn results_contain(out: &Vec<CrateMetadata>, name: &String, version: &String) -> (r: bool)
    ensures
        r == result_has_key(views_of(out@), (name@, version@)),
{
    let mut i: usize = 0;
    while i < out.len()
        invariant
            i <= out@.len(),
            forall|j: int|
                0 <= j < i ==> (#[trigger] views_of(out@)[j]).key() != (name@, version@),
        decreases out@.len() - i,
    {
        if out[i].name.is(name) && out[i].version.is(version) {
            proof {
                assert(views_of(out@)[i as int].key() == (name@, version@));
            }
            return true;
        }
        proof {
            assert(views_of(out@)[i as int].key() != (name@, version@));
        }
        i = i + 1;
    }
    proof {
        if result_has_key(views_of(out@), (name@, version@)) {
            let j = choose|j: int|
                0 <= j < views_of(out@).len() && (#[trigger] views_of(out@)[j]).key() == (
                name@,
                version@,
                );
        }
    }
    false
}

/// Converts each dependency edge into the `(name, minimum version)` pair the
/// worklist expands it to; `None` exactly where some requirement yields no
/// minimum version.
fn expand_edges(m: &CrateMetadata) -> (r: Option<Vec<(String, String)>>)
    ensures
        r matches Some(pairs) ==> (pairs@.len() == m@.deps.len() && forall|e: int|
            0 <= e < pairs@.len() ==> edge_ok(m@.deps[e]) && ((#[trigger] pairs@[e]).0@,
            pairs@[e].1@) == edge_key(m@.deps[e])),
        r is None <==> exists|e: int| 0 <= e < m@.deps.len() && !edge_ok(#[trigger] m@.deps[e]),
{
    let mut pairs: Vec<(String, String)> = Vec::new();
    let mut e: usize = 0;
    while e < m.dependencies.len()
        invariant
            e <= m.dependencies@.len(),
            m@.deps.len() == m.dependencies@.len(),
            pairs@.len() == e,
            forall|x: int| 0 <= x < e ==> edge_ok(#[trigger] m@.deps[x]),
            forall|x: int|
                0 <= x < e ==> ((#[trigger] pairs@[x]).0@, pairs@[x].1@) == edge_key(m@.deps[x]),
        decreases m.dependencies@.len() - e,
    {
        proof {
            assert(m@.deps[e as int] == m.dependencies@[e as int]@);
        }
        let dep = &m.dependencies[e];
        match dep.requirement.minimum_version() {
            Ok(version) => {
                let pair = (dep.name.as_str().to_owned(), version.as_str().to_owned());
                proof {
                    assert(edge_ok(m@.deps[e as int]));
                    assert((pair.0@, pair.1@) == edge_key(m@.deps[e as int]));
                }
                pairs.push(pair);
            },
            Err(_) => {
                proof {
                    assert(!edge_ok(m@.deps[e as int]));
                }
                return None;
            },
        }
        e = e + 1;
    }
    proof {
        assert(forall|e: int| 0 <= e < m@.deps.len() ==> edge_ok(#[trigger] m@.deps[e]));
    }
    Some(pairs)
}

} // verus!

verus! {

/// One worklist step that records a new entry: the invariant carries over to
/// the grown record, the shortened worklist plus the entry's expanded edges,
/// and the store as the step left it; and the number of unrecorded catalog or
/// store keys shrinks.
#[verifier::rlimit(30)]
proof fn lemma_step_record(
    cat: Map<PackageKey, Seq<DependencyView>>,
    st0: Map<PackageKey, StoredRow>,
    st_pre: Map<PackageKey, StoredRow>,
    st_now: Map<PackageKey, StoredRow>,
    root: PackageKey,
    v_pre: Seq<MetadataView>,
    work_pre: Seq<PackageKey>,
    mv: MetadataView,
    new_keys: Seq<PackageKey>,
)
    requires
        cat.dom().finite(),
        st0.dom().finite(),
        engine_inv(cat, st0, st_pre, root, v_pre, work_pre),
        work_pre.len() >= 1,
        work_pre.last() == mv.key(),
        !result_has_key(v_pre, mv.key()),
        resolved_deps(cat, st0, mv.key()) == Some(mv.deps),
        reachable(cat, st0, root, mv.key()),
        st_now == st_pre || st_now == st_pre.insert(
            mv.key(),
            StoredRow { declared: mv.deps.len(), deps: mv.deps },
        ),
        st_now.contains_key(mv.key()) && row_consistent(st_now[mv.key()]) && st_now[
            mv.key()].deps == mv.deps,
        new_keys.len() == mv.deps.len(),
        forall|e: int|
            0 <= e < new_keys.len() ==> edge_ok(#[trigger] mv.deps[e]) && new_keys[e] == edge_key(
                mv.deps[e],
            ),
    ensures
        engine_inv(
            cat,
            st0,
            st_now,
            root,
            v_pre.push(mv),
            work_pre.subrange(0, work_pre.len() - 1) + new_keys,
        ),
        (cat.dom() + st0.dom()).difference(result_key_set(v_pre.push(mv))).len() < (cat.dom()
            + st0.dom()).difference(result_key_set(v_pre)).len(),
{
    let k = mv.key();
    let v_new = v_pre.push(mv);
    let prefix = work_pre.subrange(0, work_pre.len() - 1);
    let work_new = prefix + new_keys;
    let n = v_pre.len() as int;
    assert(forall|i: int| 0 <= i < n ==> v_new[i] == v_pre[i]);
    assert(v_new[n] == mv);
    assert forall|kk: PackageKey| result_has_key(v_new, kk) <==> (result_has_key(v_pre, kk) || kk
        == k) by {
        if result_has_key(v_new, kk) {
            let x = choose|x: int| 0 <= x < v_new.len() && (#[trigger] v_new[x]).key() == kk;
            if x < n {
                assert(v_pre[x].key() == kk);
            }
        }
        if result_has_key(v_pre, kk) {
            let x = choose|x: int| 0 <= x < v_pre.len() && (#[trigger] v_pre[x]).key() == kk;
            assert(v_new[x].key() == kk);
        }
        if kk == k {
            assert(v_new[n].key() == kk);
        }
    }
    // the store stands repaired for the grown record
    assert forall|kk: PackageKey| !result_has_key(v_new, kk) implies (#[trigger]
    st_now.contains_key(kk) == st0.contains_key(kk) && (st0.contains_key(kk) ==> st_now[kk]
        == st0[kk])) by {
        assert(!result_has_key(v_pre, kk) && kk != k);
        assert(store_repaired(st0, st_pre, v_pre));
        assert(st_pre.contains_key(kk) == st0.contains_key(kk));
        assert(st0.contains_key(kk) ==> st_pre[kk] == st0[kk]);
    }
    assert forall|i: int| 0 <= i < v_new.len() implies {
        let kk = (#[trigger] v_new[i]).key();
        &&& st_now.contains_key(kk)
        &&& row_consistent(st_now[kk])
        &&& st_now[kk].deps == v_new[i].deps
    } by {
        if i < n {
            assert(v_new[i] == v_pre[i]);
            let kk = v_pre[i].key();
            assert(st_pre.contains_key(kk) && row_consistent(st_pre[kk]) && st_pre[kk].deps
                == v_pre[i].deps);
            assert(kk != k);
        }
    }
    // soundness and distinctness
    assert forall|i: int| 0 <= i < v_new.len() implies resolved_deps(
        cat,
        st0,
        (#[trigger] v_new[i]).key(),
    ) == Some(v_new[i].deps) by {
        if i < n {
            assert(v_new[i] == v_pre[i]);
        }
    }
    assert forall|i: int, j: int| 0 <= i < j < v_new.len() implies v_new[i].key()
        != v_new[j].key() by {
        if j == n {
            assert(v_new[i] == v_pre[i]);
            assert(!result_has_key(v_pre, k));
        }
    }
    // the root comes first
    if n >= 1 {
        assert(v_new[0] == v_pre[0]);
    } else {
        assert(work_pre == seq![root]);
        assert(work_pre.last() == root);
        assert(v_new[0].key() == root);
    }
    // justification of every entry after the root
    assert forall|i: int| 1 <= i < v_new.len() implies #[trigger] justified(v_new, i) by {
        if i < n {
            assert(justified(v_pre, i));
            let (j, e) = choose|j: int, e: int|
                0 <= j < i && 0 <= e < v_pre[j].deps.len() && edge_key(#[trigger] v_pre[j].deps[e])
                    == v_pre[i].key();
            assert(v_new[j] == v_pre[j] && v_new[i] == v_pre[i]);
            assert(0 <= j < i && 0 <= e < v_new[j].deps.len() && edge_key(v_new[j].deps[e])
                == v_new[i].key());
        } else {
            assert(n >= 1);
            assert(v_pre[0].key() == root);
            assert(k != root) by {
                if k == root {
                    assert(result_has_key(v_pre, k));
                }
            }
            assert(work_pre[work_pre.len() - 1] == k);
            let (j, e) = choose|j: int, e: int|
                0 <= j < v_pre.len() && 0 <= e < v_pre[j].deps.len() && edge_key(
                    #[trigger] v_pre[j].deps[e],
                ) == k;
            assert(v_new[j] == v_pre[j]);
            assert(0 <= j < i && 0 <= e < v_new[j].deps.len() && edge_key(v_new[j].deps[e])
                == v_new[i].key());
        }
    }
    // every recorded edge leads to a record or a worklist key
    assert forall|i: int, e: int|
        0 <= i < v_new.len() && 0 <= e < v_new[i].deps.len() implies edge_ok(
        #[trigger] v_new[i].deps[e],
    ) && (result_has_key(v_new, edge_key(v_new[i].deps[e])) || work_new.contains(
        edge_key(v_new[i].deps[e]),
    )) by {
        if i < n {
            assert(v_new[i] == v_pre[i]);
            let ek = edge_key(v_pre[i].deps[e]);
            assert(edge_ok(v_pre[i].deps[e]));
            if result_has_key(v_pre, ek) {
                assert(result_has_key(v_new, ek));
            } else {
                let wi = choose|wi: int| 0 <= wi < work_pre.len() && work_pre[wi] == ek;
                if wi == work_pre.len() - 1 {
                    assert(ek == k);
                    assert(result_has_key(v_new, ek));
                } else {
                    assert(work_new[wi] == ek);
                }
            }
        } else {
            assert(v_new[i] == mv);
            assert(edge_ok(mv.deps[e]));
            assert(work_new[prefix.len() + e] == new_keys[e]);
            assert(new_keys[e] == edge_key(mv.deps[e]));
        }
    }
    // every worklist key is justified and reachable
    assert forall|wi: int| 0 <= wi < work_new.len() implies (#[trigger] work_new[wi] == root
        || exists|j: int, e: int|
        0 <= j < v_new.len() && 0 <= e < v_new[j].deps.len() && edge_key(
            #[trigger] v_new[j].deps[e],
        ) == work_new[wi]) by {
        if wi < prefix.len() {
            assert(work_new[wi] == work_pre[wi]);
            if work_pre[wi] != root {
                let (j, e) = choose|j: int, e: int|
                    0 <= j < v_pre.len() && 0 <= e < v_pre[j].deps.len() && edge_key(
                        #[trigger] v_pre[j].deps[e],
                    ) == work_pre[wi];
                assert(v_new[j] == v_pre[j]);
                assert(0 <= j < v_new.len() && 0 <= e < v_new[j].deps.len() && edge_key(
                    v_new[j].deps[e],
                ) == work_new[wi]);
            }
        } else {
            let e = wi - prefix.len();
            assert(work_new[wi] == new_keys[e]);
            assert(edge_key(v_new[n].deps[e]) == work_new[wi]);
        }
    }
    assert forall|wi: int| 0 <= wi < work_new.len() implies reachable(
        cat,
        st0,
        root,
        #[trigger] work_new[wi],
    ) by {
        if wi < prefix.len() {
            assert(work_new[wi] == work_pre[wi]);
        } else {
            let e = wi - prefix.len();
            assert(work_new[wi] == edge_key(mv.deps[e]));
            assert(edge_ok(mv.deps[e]));
            lemma_reachable_step(cat, st0, root, k, mv.deps, e);
        }
    }
    assert(engine_inv(cat, st0, st_now, root, v_new, work_new));
    // one fewer unrecorded catalog or store key
    let u = cat.dom() + st0.dom();
    assert(result_key_set(v_new) =~= result_key_set(v_pre).insert(k));
    assert(u.contains(k)) by {
        assert(st0.contains_key(k) || cat.contains_key(k));
    }
    assert(!result_key_set(v_pre).contains(k));
    assert(u.difference(result_key_set(v_new)) =~= u.difference(result_key_set(v_pre)).remove(k));
    assert(u.finite());
    assert(u.difference(result_key_set(v_pre)).finite());
    assert(u.difference(result_key_set(v_pre)).contains(k));
}

/// The worklist traversal at the heart of the engine: resolves
/// `(name, version)` and every package reachable from it, consulting the
/// store first and the registry on a miss, writing fetched metadata back to
/// the store, and never recording a key twice. Returns the resolved metadata
/// in discovery order, or `None` exactly where some reachable package is
/// found nowhere or carries a requirement with no minimum version.
#[verifier::rlimit(50)]
pub(crate) fn resolve_graph<R: Registry, D: Database>(
    registry: &mut R,
    database: &mut D,
    name: &CrateName,
    version: &CrateVersion,
) -> (r: Option<Vec<CrateMetadata>>)
    requires
        old(registry).catalog().dom().finite(),
        old(database).store().dom().finite(),
    ensures
        final(registry).catalog() == old(registry).catalog(),
        r matches Some(v) ==> resolution_ok(
            old(registry).catalog(),
            old(database).store(),
            (name@, version@),
            views_of(v@),
        ),
        r matches Some(v) ==> store_repaired(
            old(database).store(),
            final(database).store(),
            views_of(v@),
        ),
        r is Some <==> !resolution_fails(
            old(registry).catalog(),
            old(database).store(),
            (name@, version@),
        ),
        forall|k: PackageKey| #[trigger]
            old(database).store().contains_key(k) ==> final(database).store().contains_key(k),
        forall|k: PackageKey| #[trigger]
            final(database).store().contains_key(k) ==> ((old(database).store().contains_key(k)
                && final(database).store()[k] == old(database).store()[k]) || row_consistent(
                final(database).store()[k],
            )),
        forall|k: PackageKey| #[trigger]
            final(database).store().contains_key(k) && !(old(database).store().contains_key(k)
                && final(database).store()[k] == old(database).store()[k]) ==> (old(
                registry,
            ).catalog().contains_key(k) && final(database).store()[k] == (StoredRow {
                declared: old(registry).catalog()[k].len(),
                deps: old(registry).catalog()[k],
            })),
{
    let ghost cat = registry.catalog();
    let ghost st0 = database.store();
    let ghost root: PackageKey = (name@, version@);
    let mut stack: Vec<(String, String)> = Vec::new();
    stack.push((name.as_str().to_owned(), version.as_str().to_owned()));
    let mut out: Vec<CrateMetadata> = Vec::new();
    proof {
        assert(stack_keys(stack@) =~= seq![root]);
        assert(chain_to(cat, st0, root, seq![root]));
        assert(seq![root].last() == root);
        assert(reachable(cat, st0, root, root));
        assert(views_of(out@).len() == 0);
    }
    while stack.len() > 0
        invariant
            cat == old(registry).catalog(),
            st0 == old(database).store(),
            root == (name@, version@),
            registry.catalog() == cat,
            cat.dom().finite(),
            st0.dom().finite(),
            engine_inv(cat, st0, database.store(), root, views_of(out@), stack_keys(stack@)),
        decreases (cat.dom() + st0.dom()).difference(result_key_set(views_of(out@))).len(),
            stack@.len(),
    {
        let ghost v_pre = views_of(out@);
        let ghost work_pre = stack_keys(stack@);
        let ghost st_pre = database.store();
        let popped = stack.pop().unwrap();
        let ghost k: PackageKey = (popped.0@, popped.1@);
        proof {
            assert(work_pre[work_pre.len() - 1] == k);
            assert(stack_keys(stack@) =~= work_pre.subrange(0, work_pre.len() - 1));
            assert(reachable(cat, st0, root, k));
        }
        if results_contain(&out, &popped.0, &popped.1) {
            proof {
                let work_now = stack_keys(stack@);
                assert(forall|wi: int|
                    0 <= wi < work_now.len() ==> #[trigger] work_now[wi] == work_pre[wi]);
                assert forall|i: int, e: int|
                    0 <= i < v_pre.len() && 0 <= e < v_pre[i].deps.len() implies edge_ok(
                    #[trigger] v_pre[i].deps[e],
                ) && (result_has_key(v_pre, edge_key(v_pre[i].deps[e])) || work_now.contains(
                    edge_key(v_pre[i].deps[e]),
                )) by {
                    let ek = edge_key(v_pre[i].deps[e]);
                    if !result_has_key(v_pre, ek) {
                        let wi = choose|wi: int| 0 <= wi < work_pre.len() && work_pre[wi] == ek;
                        if wi == work_pre.len() - 1 {
                            assert(ek == k);
                            assert(result_has_key(v_pre, k));
                        } else {
                            assert(work_now[wi] == ek);
                        }
                    }
                }
                assert(v_pre.len() >= 1);
                assert(store_repaired(st0, database.store(), v_pre));
                assert(forall|i: int|
                    0 <= i < v_pre.len() ==> resolved_deps(cat, st0, (#[trigger] v_pre[i]).key())
                        == Some(v_pre[i].deps));
                assert(forall|i: int, j: int|
                    0 <= i < j < v_pre.len() ==> v_pre[i].key() != v_pre[j].key());
                assert(v_pre[0].key() == root);
                assert(forall|i: int| 1 <= i < v_pre.len() ==> #[trigger] justified(v_pre, i));
                assert forall|wi: int|
                    0 <= wi < work_now.len() implies (#[trigger] work_now[wi] == root || exists|
                        j: int,
                        e: int,
                    |
                        0 <= j < v_pre.len() && 0 <= e < v_pre[j].deps.len() && edge_key(
                            #[trigger] v_pre[j].deps[e],
                        ) == work_now[wi]) by {
                    assert(work_now[wi] == work_pre[wi]);
                }
                assert forall|wi: int| 0 <= wi < work_now.len() implies reachable(
                    cat,
                    st0,
                    root,
                    #[trigger] work_now[wi],
                ) by {
                    assert(work_now[wi] == work_pre[wi]);
                }
                assert(engine_inv(cat, st0, database.store(), root, v_pre, work_now));
            }
        } else {
            let cur_name = CrateName::parse(popped.0.as_str()).unwrap();
            let cur_version = CrateVersion::parse(popped.1.as_str()).unwrap();
            proof {
                assert(!result_has_key(v_pre, k));
                assert(st_pre.contains_key(k) == st0.contains_key(k));
                assert(st0.contains_key(k) ==> st_pre[k] == st0[k]);
            }
            let from_store = database.get_crate_metadata(&cur_name, &cur_version);
            let fetched: CrateMetadata = match from_store {
                Some(m) => {
                    proof {
                        assert(resolved_deps(cat, st0, k) == Some(m@.deps));
                    }
                    m
                },
                None => {
                    let from_registry = registry.get_crate_metadata(&cur_name, &cur_version);
                    match from_registry {
                        Some(m) => {
                            proof {
                                assert(!(st0.contains_key(k) && row_consistent(st0[k])));
                                assert(resolved_deps(cat, st0, k) == Some(m@.deps));
                            }
                            database.put_crate_metadata(&m);
                            m
                        },
                        None => {
                            proof {
                                assert(!(st0.contains_key(k) && row_consistent(st0[k])));
                                assert(!cat.contains_key(k));
                                assert(resolved_deps(cat, st0, k) is None);
                                assert(node_fails(cat, st0, k));
                                assert(resolution_fails(cat, st0, root));
                                lemma_store_safety(cat, st0, database.store(), v_pre);
                            }
                            return None;
                        },
                    }
                },
            };
            let ghost mv = fetched@;
            let ghost st_now = database.store();
            proof {
                assert(mv.key() == k);
                assert(resolved_deps(cat, st0, k) == Some(mv.deps));
                assert(st_now.contains_key(k) && row_consistent(st_now[k]) && st_now[k].deps
                    == mv.deps) by {
                    if st_now == st_pre {
                        assert(st_pre.contains_key(k) == st0.contains_key(k));
                    }
                }
            }
            match expand_edges(&fetched) {
                None => {
                    proof {
                        assert(node_fails(cat, st0, k));
                        assert(resolution_fails(cat, st0, root));
                        // the store stands repaired for everything recorded so
                        // far plus the row this very step wrote
                        let v_partial = v_pre.push(mv);
                        assert(forall|i: int| 0 <= i < v_pre.len() ==> v_partial[i] == v_pre[i]);
                        assert(v_partial[v_pre.len() as int] == mv);
                        assert forall|kk: PackageKey| !result_has_key(v_partial, kk) implies (
                        #[trigger] st_now.contains_key(kk) == st0.contains_key(kk) && (
                        st0.contains_key(kk) ==> st_now[kk] == st0[kk])) by {
                            assert(!result_has_key(v_pre, kk)) by {
                                if result_has_key(v_pre, kk) {
                                    let i = choose|i: int|
                                        0 <= i < v_pre.len() && (#[trigger] v_pre[i]).key() == kk;
                                    assert(v_partial[i].key() == kk);
                                }
                            }
                            assert(kk != k);
                        }
                        assert forall|i: int| 0 <= i < v_partial.len() implies {
                            let kk = (#[trigger] v_partial[i]).key();
                            &&& st_now.contains_key(kk)
                            &&& row_consistent(st_now[kk])
                            &&& st_now[kk].deps == v_partial[i].deps
                        } by {
                            if i < v_pre.len() {
                                let kk = v_pre[i].key();
                                assert(st_pre.contains_key(kk) && row_consistent(st_pre[kk])
                                    && st_pre[kk].deps == v_pre[i].deps);
                                assert(kk != k);
                            }
                        }
                        assert(store_repaired(st0, st_now, v_partial));
                        assert forall|i: int| 0 <= i < v_partial.len() implies resolved_deps(
                            cat,
                            st0,
                            (#[trigger] v_partial[i]).key(),
                        ) == Some(v_partial[i].deps) by {
                            if i < v_pre.len() {
                                assert(v_partial[i] == v_pre[i]);
                            }
                        }
                        lemma_store_safety(cat, st0, st_now, v_partial);
                    }
                    return None;
                },
                Some(mut pairs) => {
                    let ghost pairs0 = pairs@;
                    proof {
                        assert(stack_keys(pairs0).len() == mv.deps.len());
                        assert(forall|e: int|
                            0 <= e < pairs0.len() ==> edge_ok(#[trigger] mv.deps[e])
                                && stack_keys(pairs0)[e] == edge_key(mv.deps[e]));
                        lemma_step_record(
                            cat,
                            st0,
                            st_pre,
                            st_now,
                            root,
                            v_pre,
                            work_pre,
                            mv,
                            stack_keys(pairs0),
                        );
                    }
                    out.push(fetched);
                    stack.append(&mut pairs);
                    proof {
                        assert(views_of(out@) =~= v_pre.push(mv)) by {
                            assert(out@.len() == v_pre.len() + 1);
                            assert(forall|i: int|
                                0 <= i < v_pre.len() ==> views_of(out@)[i] == v_pre[i]);
                            assert(views_of(out@)[v_pre.len() as int] == mv);
                        }
                        assert(stack_keys(stack@) =~= work_pre.subrange(0, work_pre.len() - 1)
                            + stack_keys(pairs0));
                    }
                },
            }
        }
    }
    proof {
        let v = views_of(out@);
        assert(stack_keys(stack@).len() == 0);
        assert(v.len() >= 1);
        assert forall|i: int, e: int|
            0 <= i < v.len() && 0 <= e < v[i].deps.len() implies edge_ok(#[trigger] v[i].deps[e])
            && result_has_key(v, edge_key(v[i].deps[e])) by {
            assert(!stack_keys(stack@).contains(edge_key(v[i].deps[e])));
        }
        assert(v[0].key() == root);
        assert(forall|i: int|
            0 <= i < v.len() ==> resolved_deps(cat, st0, (#[trigger] v[i]).key()) == Some(
                v[i].deps,
            ));
        assert(forall|i: int, j: int| 0 <= i < j < v.len() ==> v[i].key() != v[j].key());
        assert(forall|i: int| 1 <= i < v.len() ==> #[trigger] justified(v, i));
        assert(resolution_ok(cat, st0, root, v));
        lemma_resolution_ok_no_failure(cat, st0, root, v);
        lemma_store_safety(cat, st0, database.store(), v);
    }
    Some(out)
}

/// From a store repaired for sound entries: every initial row is still
/// present; every present row is either the initial one or consistent; and
/// every row that is new or changed holds exactly the catalog's value for its
/// key — fetched rows are written as fetched and never rolled back or made
/// up, on the failure path as much as on success.
proof fn lemma_store_safety(
    cat: Map<PackageKey, Seq<DependencyView>>,
    st0: Map<PackageKey, StoredRow>,
    st_now: Map<PackageKey, StoredRow>,
    v: Seq<MetadataView>,
)
    requires
        store_repaired(st0, st_now, v),
        forall|i: int|
            0 <= i < v.len() ==> resolved_deps(cat, st0, (#[trigger] v[i]).key()) == Some(
                v[i].deps,
            ),
    ensures
        forall|k: PackageKey| #[trigger]
            st0.contains_key(k) ==> st_now.contains_key(k),
        forall|k: PackageKey| #[trigger]
            st_now.contains_key(k) ==> ((st0.contains_key(k) && st_now[k] == st0[k])
                || row_consistent(st_now[k])),
        forall|k: PackageKey| #[trigger]
            st_now.contains_key(k) && !(st0.contains_key(k) && st_now[k] == st0[k]) ==> (
            cat.contains_key(k) && st_now[k] == StoredRow {
                declared: cat[k].len(),
                deps: cat[k],
            }),
{
    assert forall|k: PackageKey| #[trigger] st0.contains_key(k) implies st_now.contains_key(
        k,
    ) by {
        if result_has_key(v, k) {
            let i = choose|i: int| 0 <= i < v.len() && (#[trigger] v[i]).key() == k;
        }
    }
    assert forall|k: PackageKey|
        #[trigger] st_now.contains_key(k) && !(st0.contains_key(k) && st_now[k] == st0[k]) implies (
    cat.contains_key(k) && st_now[k] == StoredRow {
        declared: cat[k].len(),
        deps: cat[k],
    }) by {
        if result_has_key(v, k) {
            let i = choose|i: int| 0 <= i < v.len() && (#[trigger] v[i]).key() == k;
            assert(resolved_deps(cat, st0, k) == Some(v[i].deps));
            if st0.contains_key(k) && row_consistent(st0[k]) {
                // a consistent hit was kept: count and rows both agree
                assert(v[i].deps == st0[k].deps);
                assert(st_now[k].declared == st_now[k].deps.len());
                assert(st_now[k] == st0[k]);
            } else {
                assert(v[i].deps == cat[k]);
            }
        }
    }
    assert forall|k: PackageKey| #[trigger] st_now.contains_key(k) implies ((st0.contains_key(k)
        && st_now[k] == st0[k]) || row_consistent(st_now[k])) by {
        if result_has_key(v, k) {
            let i = choose|i: int| 0 <= i < v.len() && (#[trigger] v[i]).key() == k;
        }
    }
}

} // verus!

verus! {

/// A resolver that is aimed at one root package and then run against a
/// registry and a store.
pub trait DependencyResolver: Sized {
    /// The root the resolver is aimed at, if any.
    spec fn target(&self) -> Option<PackageKey>;

    /// A copy of the resolver aimed at `(name, version)`.
    fn resolve(&self, name: &CrateName, version: &CrateVersion) -> (r: Self)
        ensures
            r.target() == Some((name@, version@)),
    ;

    /// Resolves the full transitive graph of the target, cache-aside over the
    /// store with the registry as source of truth (see `resolution_ok`).
    fn execute<R: Registry, D: Database>(&self, registry: &mut R, database: &mut D) -> (r: Option<
        Vec<CrateMetadata>,
    >)
        requires
            self.target() is Some,
            old(registry).catalog().dom().finite(),
            old(database).store().dom().finite(),
        ensures
            final(registry).catalog() == old(registry).catalog(),
            self.target() matches Some(root) ==> {
                &&& (r matches Some(v) ==> resolution_ok(
                    old(registry).catalog(),
                    old(database).store(),
                    root,
                    views_of(v@),
                ))
                &&& (r matches Some(v) ==> store_repaired(
                    old(database).store(),
                    final(database).store(),
                    views_of(v@),
                ))
                &&& (r is Some <==> !resolution_fails(
                    old(registry).catalog(),
                    old(database).store(),
                    root,
                ))
            },
            forall|k: PackageKey| #[trigger]
                old(database).store().contains_key(k) ==> final(database).store().contains_key(k),
            forall|k: PackageKey| #[trigger]
                final(database).store().contains_key(k) ==> ((old(
                    database,
                ).store().contains_key(k) && final(database).store()[k] == old(
                    database,
                ).store()[k]) || row_consistent(final(database).store()[k])),
            forall|k: PackageKey| #[trigger]
                final(database).store().contains_key(k)
                    && !(old(database).store().contains_key(k) && final(database).store()[k]
                    == old(database).store()[k]) ==> (old(registry).catalog().contains_key(k)
                    && final(database).store()[k] == (StoredRow {
                    declared: old(registry).catalog()[k].len(),
                    deps: old(registry).catalog()[k],
                })),
    ;
}

/// The production resolver: expands every requirement to its minimum
/// satisfying version, lowest comparator bound first.
pub struct MinimumDependencyResolver {
    name: Option<CrateName>,
    version: Option<CrateVersion>,
}

impl MinimumDependencyResolver {
    /// A resolver not yet aimed at any package.
    pub fn new() -> (r: Self)
        ensures
            r.target() is None,
    {
        Self { name: None, version: None }
    }
}

impl DependencyResolver for MinimumDependencyResolver {
    closed spec fn target(&self) -> Option<PackageKey> {
        match (self.name, self.version) {
            (Some(name), Some(version)) => Some((name@, version@)),
            _ => None,
        }
    }

    fn resolve(&self, name: &CrateName, version: &CrateVersion) -> (r: Self) {
        Self { name: Some(name.clone()), version: Some(version.clone()) }
    }

    fn execute<R: Registry, D: Database>(&self, registry: &mut R, database: &mut D) -> (r: Option<
        Vec<CrateMetadata>,
    >) {
        let name = self.name.as_ref().unwrap();
        let version = self.version.as_ref().unwrap();
        resolve_graph(registry, database, name, version)
    }
}

} // verus!
