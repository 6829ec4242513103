//! Value types of the dependency-resolution domain: package names, version
//! strings, requirement strings, dependency kinds and the metadata aggregate.

use vstd::prelude::*;

verus! {

/// An opaque, exact-match package identifier.
#[derive(Debug)]
pub struct CrateName {
    value: String,
}

impl View for CrateName {
    type V = Seq<char>;

    closed spec fn view(&self) -> Seq<char> {
        self.value@
    }
}

impl CrateName {
    pub fn as_str(&self) -> (r: &str)
        ensures
            r@ == self@,
    {
        self.value.as_str()
    }

    /// Parsing is permissive: every string is a valid name.
    pub fn parse(value: &str) -> (r: Result<Self, String>)
        ensures
            r matches Ok(n) && n@ == value@,
    {
        Ok(Self { value: value.to_owned() })
    }

    pub fn clone(&self) -> (r: Self)
        ensures
            r@ == self@,
    {
        Self { value: self.value.clone() }
    }

    /// Exact string-value equality against a plain string.
    pub fn is(&self, other: &String) -> (r: bool)
        ensures
            r == (self@ == other@),
    {
        self.value == *other
    }
}

impl PartialEq for CrateName {
    fn eq(&self, other: &Self) -> (r: bool) {
        self.value == other.value
    }
}

impl vstd::std_specs::cmp::PartialEqSpecImpl for CrateName {
    open spec fn obeys_eq_spec() -> bool {
        true
    }

    open spec fn eq_spec(&self, other: &Self) -> bool {
        self@ == other@
    }
}

/// An opaque version string; compared only for identity, never ordered.
#[derive(Debug)]
pub struct CrateVersion {
    value: String,
}

impl View for CrateVersion {
    type V = Seq<char>;

    closed spec fn view(&self) -> Seq<char> {
        self.value@
    }
}

impl CrateVersion {
    pub fn as_str(&self) -> (r: &str)
        ensures
            r@ == self@,
    {
        self.value.as_str()
    }

    /// Parsing is permissive: every string is a valid version.
    pub fn parse(value: &str) -> (r: Result<Self, String>)
        ensures
            r matches Ok(v) && v@ == value@,
    {
        Ok(Self { value: value.to_owned() })
    }

    pub fn clone(&self) -> (r: Self)
        ensures
            r@ == self@,
    {
        Self { value: self.value.clone() }
    }

    /// Exact string-value equality against a plain string.
    pub fn is(&self, other: &String) -> (r: bool)
        ensures
            r == (self@ == other@),
    {
        self.value == *other
    }
}

impl PartialEq for CrateVersion {
    fn eq(&self, other: &Self) -> (r: bool) {
        self.value == other.value
    }
}

impl vstd::std_specs::cmp::PartialEqSpecImpl for CrateVersion {
    open spec fn obeys_eq_spec() -> bool {
        true
    }

    open spec fn eq_spec(&self, other: &Self) -> bool {
        self@ == other@
    }
}

/// A semver-style range expression, held verbatim.
#[derive(Debug)]
pub struct CrateRequirement {
    value: String,
}

impl View for CrateRequirement {
    type V = Seq<char>;

    closed spec fn view(&self) -> Seq<char> {
        self.value@
    }
}

impl CrateRequirement {
    pub fn as_str(&self) -> (r: &str)
        ensures
            r@ == self@,
    {
        self.value.as_str()
    }

    /// Parsing is permissive: validation happens in `minimum_version`.
    pub fn parse(value: &str) -> (r: Result<Self, String>)
        ensures
            r matches Ok(q) && q@ == value@,
    {
        Ok(Self { value: value.to_owned() })
    }

    pub fn clone(&self) -> (r: Self)
        ensures
            r@ == self@,
    {
        Self { value: self.value.clone() }
    }
}

impl PartialEq for CrateRequirement {
    fn eq(&self, other: &Self) -> (r: bool) {
        self.value == other.value
    }
}

impl vstd::std_specs::cmp::PartialEqSpecImpl for CrateRequirement {
    open spec fn obeys_eq_spec() -> bool {
        true
    }

    open spec fn eq_spec(&self, other: &Self) -> bool {
        self@ == other@
    }
}

/// The closed vocabulary of dependency kinds.
#[derive(Clone, Copy, Debug, PartialEq, Eq, Structural)]
pub enum CrateDependencyType {
    Build,
    Dev,
    Normal,
}

impl CrateDependencyType {
    pub fn as_str(&self) -> (r: &str)
        ensures
            *self == CrateDependencyType::Build ==> r@ == "build"@,
            *self == CrateDependencyType::Dev ==> r@ == "dev"@,
            *self == CrateDependencyType::Normal ==> r@ == "normal"@,
    {
        match self {
            CrateDependencyType::Build => "build",
            CrateDependencyType::Dev => "dev",
            CrateDependencyType::Normal => "normal",
        }
    }
}

/// The reduced dependency vocabulary used by an earlier API surface.
#[derive(Clone, Copy, Debug, PartialEq, Eq, Structural)]
pub enum CrateRelationship {
    Normal,
    Dev,
}

impl CrateRelationship {
    pub fn as_str(&self) -> (r: &str)
        ensures
            *self == CrateRelationship::Normal ==> r@ == "normal"@,
            *self == CrateRelationship::Dev ==> r@ == "dev"@,
    {
        match self {
            CrateRelationship::Normal => "normal",
            CrateRelationship::Dev => "dev",
        }
    }
}

/// Mathematical value of one dependency edge.
pub ghost struct DependencyView {
    pub name: Seq<char>,
    pub requirement: Seq<char>,
    pub kind: CrateDependencyType,
}

/// One typed edge of the dependency graph.
#[derive(Debug)]
pub struct CrateDependency {
    pub name: CrateName,
    pub requirement: CrateRequirement,
    pub type_: CrateDependencyType,
}

impl View for CrateDependency {
    type V = DependencyView;

    open spec fn view(&self) -> DependencyView {
        DependencyView { name: self.name@, requirement: self.requirement@, kind: self.type_ }
    }
}

impl CrateDependency {
    pub fn clone(&self) -> (r: Self)
        ensures
            r@ == self@,
    {
        Self {
            name: self.name.clone(),
            requirement: self.requirement.clone(),
            type_: self.type_,
        }
    }
}

impl PartialEq for CrateDependency {
    fn eq(&self, other: &Self) -> (r: bool) {
        self.name == other.name && self.requirement == other.requirement && self.type_
            == other.type_
    }
}

impl vstd::std_specs::cmp::PartialEqSpecImpl for CrateDependency {
    open spec fn obeys_eq_spec() -> bool {
        true
    }

    open spec fn eq_spec(&self, other: &Self) -> bool {
        self@ == other@
    }
}

/// Mathematical value of a package's metadata.
pub ghost struct MetadataView {
    pub name: Seq<char>,
    pub version: Seq<char>,
    pub deps: Seq<DependencyView>,
}

impl MetadataView {
    /// The composite identity of the package this metadata describes.
    pub open spec fn key(self) -> (Seq<char>, Seq<char>) {
        (self.name, self.version)
    }
}

/// A package's identity together with its ordered dependency edges.
#[derive(Debug)]
pub struct CrateMetadata {
    pub name: CrateName,
    pub version: CrateVersion,
    pub dependencies: Vec<CrateDependency>,
}

impl View for CrateMetadata {
    type V = MetadataView;

    open spec fn view(&self) -> MetadataView {
        MetadataView {
            name: self.name@,
            version: self.version@,
            deps: Seq::new(self.dependencies@.len(), |i: int| self.dependencies@[i]@),
        }
    }
}

impl CrateMetadata {
    pub fn clone(&self) -> (r: Self)
        ensures
            r@ == self@,
    {
        let mut deps: Vec<CrateDependency> = Vec::new();
        let mut i: usize = 0;
        while i < self.dependencies.len()
            invariant
                i <= self.dependencies.len(),
                deps@.len() == i as nat,
                forall|j: int| 0 <= j < i ==> deps@[j]@ == self.dependencies@[j]@,
            decreases self.dependencies.len() - i,
        {
            deps.push(self.dependencies[i].clone());
            i = i + 1;
        }
        let r = Self { name: self.name.clone(), version: self.version.clone(), dependencies: deps };
        proof {
            assert(r@.deps =~= self@.deps);
        }
        r
    }
}

impl PartialEq for CrateMetadata {
    fn eq(&self, other: &Self) -> (r: bool) {
        if !(self.name == other.name && self.version == other.version) {
            return false;
        }
        if self.dependencies.len() != other.dependencies.len() {
            proof {
                assert(self@.deps.len() != other@.deps.len());
            }
            return false;
        }
        let mut i: usize = 0;
        while i < self.dependencies.len()
            invariant
                i <= self.dependencies.len(),
                self.dependencies@.len() == other.dependencies@.len(),
                self@.name == other@.name,
                self@.version == other@.version,
                forall|j: int| 0 <= j < i ==> self.dependencies@[j]@ == other.dependencies@[j]@,
            decreases self.dependencies.len() - i,
        {
            if !(self.dependencies[i] == other.dependencies[i]) {
                proof {
                    assert(self@.deps[i as int] == self.dependencies@[i as int]@);
                    assert(other@.deps[i as int] == other.dependencies@[i as int]@);
                    assert(self@.deps != other@.deps);
                }
                return false;
            }
            i = i + 1;
        }
        proof {
            assert(self@.deps =~= other@.deps);
        }
        true
    }
}

impl vstd::std_specs::cmp::PartialEqSpecImpl for CrateMetadata {
    open spec fn obeys_eq_spec() -> bool {
        true
    }

    open spec fn eq_spec(&self, other: &Self) -> bool {
        self@ == other@
    }
}

} // verus!

verus! {

use vstd::string::StringExecFns;

/// Exact equality of two string slices, by value.
pub fn text_eq(a: &str, b: &str) -> (r: bool)
    ensures
        r == (a@ == b@),
{
    let a_owned = a.to_owned();
    let b_owned = b.to_owned();
    a_owned == b_owned
}

impl CrateDependencyType {
    /// The kind a tag string denotes, if any.
    pub open spec fn of_tag(s: Seq<char>) -> Option<CrateDependencyType> {
        if s == "build"@ {
            Some(CrateDependencyType::Build)
        } else if s == "dev"@ {
            Some(CrateDependencyType::Dev)
        } else if s == "normal"@ {
            Some(CrateDependencyType::Normal)
        } else {
            None
        }
    }

    /// Reads a dependency-kind tag; rejects anything outside the closed
    /// vocabulary, naming the offending tag.
    pub fn try_from(value: &str) -> (r: Result<Self, String>)
        ensures
            Self::of_tag(value@) matches Some(k) ==> r == Ok::<Self, String>(k),
            Self::of_tag(value@) is None ==> (r matches Err(e) && e@ == value@
                + " is not a supported relationship. Use either `build`, `dev` or `normal`."@),
    {
        if text_eq(value, "build") {
            Ok(CrateDependencyType::Build)
        } else if text_eq(value, "dev") {
            Ok(CrateDependencyType::Dev)
        } else if text_eq(value, "normal") {
            Ok(CrateDependencyType::Normal)
        } else {
            Err(
                value.to_owned().concat(
                    " is not a supported relationship. Use either `build`, `dev` or `normal`.",
                ),
            )
        }
    }
}

impl CrateRelationship {
    /// Reads a relationship tag of the reduced vocabulary.
    pub fn try_from(value: &str) -> (r: Result<Self, String>)
        ensures
            value@ == "normal"@ ==> r == Ok::<Self, String>(CrateRelationship::Normal),
            value@ != "normal"@ && value@ == "dev"@ ==> r == Ok::<Self, String>(
                CrateRelationship::Dev,
            ),
            value@ != "normal"@ && value@ != "dev"@ ==> (r matches Err(e) && e@ == value@
                + " is not a supported relationship. Use either `normal` or `dev`."@),
    {
        if text_eq(value, "normal") {
            Ok(CrateRelationship::Normal)
        } else if text_eq(value, "dev") {
            Ok(CrateRelationship::Dev)
        } else {
            Err(
                value.to_owned().concat(
                    " is not a supported relationship. Use either `normal` or `dev`.",
                ),
            )
        }
    }
}

/// Whether every row's kind tag is in the closed vocabulary.
pub open spec fn all_tags_valid(rows: Seq<(String, String, String)>) -> bool {
    forall|i: int|
        0 <= i < rows.len() ==> CrateDependencyType::of_tag((#[trigger] rows[i]).2@) is Some
}

/// Builds typed dependency edges from raw `(name, requirement, kind)` rows,
/// in row order; fails on the first kind tag outside the closed vocabulary.
pub fn dependencies_from_rows(rows: &Vec<(String, String, String)>) -> (r: Result<
    Vec<CrateDependency>,
    String,
>)
    ensures
        r is Ok <==> all_tags_valid(rows@),
        r matches Ok(deps) ==> (deps@.len() == rows@.len() && forall|i: int|
            0 <= i < deps@.len() ==> ((#[trigger] deps@[i]@).name == rows@[i].0@
                && deps@[i]@.requirement == rows@[i].1@ && Some(deps@[i]@.kind)
                == CrateDependencyType::of_tag(rows@[i].2@))),
{
    let mut deps: Vec<CrateDependency> = Vec::new();
    let mut i: usize = 0;
    while i < rows.len()
        invariant
            i <= rows@.len(),
            deps@.len() == i,
            forall|j: int|
                0 <= j < i ==> CrateDependencyType::of_tag((#[trigger] rows@[j]).2@) is Some,
            forall|j: int|
                0 <= j < i ==> ((#[trigger] deps@[j]@).name == rows@[j].0@ && deps@[j]@.requirement
                    == rows@[j].1@ && Some(deps@[j]@.kind) == CrateDependencyType::of_tag(
                    rows@[j].2@,
                )),
        decreases rows@.len() - i,
    {
        let row = &rows[i];
        let kind = match CrateDependencyType::try_from(row.2.as_str()) {
            Ok(kind) => kind,
            Err(message) => {
                proof {
                    assert(CrateDependencyType::of_tag(rows@[i as int].2@) is None);
                }
                return Err(message);
            },
        };
        let name = match CrateName::parse(row.0.as_str()) {
            Ok(name) => name,
            Err(message) => {
                return Err(message);
            },
        };
        let requirement = match CrateRequirement::parse(row.1.as_str()) {
            Ok(requirement) => requirement,
            Err(message) => {
                return Err(message);
            },
        };
        deps.push(CrateDependency { name, requirement, type_: kind });
        i = i + 1;
    }
    Ok(deps)
}

} // verus!

verus! {

/// A deep copy of a dependency list, edge by edge.
pub fn clone_dependencies(deps: &Vec<CrateDependency>) -> (r: Vec<CrateDependency>)
    ensures
        r@.len() == deps@.len(),
        forall|i: int| 0 <= i < deps@.len() ==> (#[trigger] r@[i])@ == deps@[i]@,
{
    let mut out: Vec<CrateDependency> = Vec::new();
    let mut i: usize = 0;
    while i < deps.len()
        invariant
            i <= deps@.len(),
            out@.len() == i,
            forall|j: int| 0 <= j < i ==> (#[trigger] out@[j])@ == deps@[j]@,
        decreases deps@.len() - i,
    {
        out.push(deps[i].clone());
        i = i + 1;
    }
    out
}

} // verus!
