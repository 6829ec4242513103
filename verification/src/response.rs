//! Shapes a resolved dependency graph into the nodes and edges the query
//! endpoint answers with.

use vstd::prelude::*;

use crate::domain::{CrateDependencyType, CrateMetadata, DependencyView, MetadataView};
use crate::requirement::MalformedRequirement;
use crate::resolver::{edge_key, edge_ok};

verus! {

/// The parameters of one dependency-graph query.
#[derive(Debug)]
pub struct Query {
    pub crate_name: String,
    pub crate_version: String,
}

/// The body of a successful dependency-graph answer.
#[derive(Debug)]
pub struct Response {
    pub data: Vec<Node>,
}

/// One resolved package with its outgoing edges.
#[derive(Debug)]
pub struct Node {
    pub name: String,
    pub version: String,
    pub edges: Vec<Edge>,
}

/// One typed edge to a related package.
#[derive(Debug)]
pub struct Edge {
    pub relationship: String,
    pub node: RelatedNode,
}

/// The target of an edge: the requirement as stated, and the minimum version
/// it resolves to.
#[derive(Debug)]
pub struct RelatedNode {
    pub name: String,
    pub minimum_version: String,
    pub requirement: String,
}

/// The relationship label of a dependency kind.
pub open spec fn relationship_tag(kind: CrateDependencyType) -> Seq<char> {
    match kind {
        CrateDependencyType::Build => "dependency.build"@,
        CrateDependencyType::Dev => "dependency.dev"@,
        CrateDependencyType::Normal => "dependency.normal"@,
    }
}

fn relationship_str(kind: CrateDependencyType) -> (r: &'static str)
    ensures
        r@ == relationship_tag(kind),
{
    match kind {
        CrateDependencyType::Build => "dependency.build",
        CrateDependencyType::Dev => "dependency.dev",
        CrateDependencyType::Normal => "dependency.normal",
    }
}

/// `ed` renders the dependency edge `d`.
pub open spec fn renders_edge(ed: Edge, d: DependencyView) -> bool {
    &&& ed.relationship@ == relationship_tag(d.kind)
    &&& ed.node.name@ == d.name
    &&& ed.node.requirement@ == d.requirement
    &&& edge_ok(d)
    &&& ed.node.minimum_version@ == edge_key(d).1
}

/// `n` renders the package `m` with all its edges, in order.
pub open spec fn renders_node(n: Node, m: MetadataView) -> bool {
    &&& n.name@ == m.name
    &&& n.version@ == m.version
    &&& n.edges@.len() == m.deps.len()
    &&& forall|e: int| 0 <= e < m.deps.len() ==> renders_edge(#[trigger] n.edges@[e], m.deps[e])
}

/// Renders a resolved graph, one node per entry in order, each edge carrying
/// its relationship label and the requirement's minimum version; fails with
/// `MalformedRequirement` exactly where some edge's requirement yields no
/// minimum version.
pub fn graph_response(results: &Vec<CrateMetadata>) -> (r: Result<Response, MalformedRequirement>)
    ensures
        r is Ok <==> (forall|i: int, e: int|
            0 <= i < results@.len() && 0 <= e < results@[i]@.deps.len() ==> edge_ok(
                #[trigger] results@[i]@.deps[e],
            )),
        r matches Ok(resp) ==> (resp.data@.len() == results@.len() && forall|i: int|
            0 <= i < results@.len() ==> renders_node(#[trigger] resp.data@[i], results@[i]@)),
{
    let mut data: Vec<Node> = Vec::new();
    let mut i: usize = 0;
    while i < results.len()
        invariant
            i <= results@.len(),
            data@.len() == i,
            forall|j: int|
                0 <= j < i ==> renders_node(#[trigger] data@[j], results@[j]@),
            forall|j: int, e: int|
                0 <= j < i && 0 <= e < results@[j]@.deps.len() ==> edge_ok(
                    #[trigger] results@[j]@.deps[e],
                ),
        decreases results@.len() - i,
    {
        let metadata = &results[i];
        let mut edges: Vec<Edge> = Vec::new();
        let mut e: usize = 0;
        while e < metadata.dependencies.len()
            invariant
                i < results@.len(),
                *metadata == results@[i as int],
                e <= metadata.dependencies@.len(),
                metadata@.deps.len() == metadata.dependencies@.len(),
                edges@.len() == e,
                forall|x: int|
                    0 <= x < e ==> renders_edge(#[trigger] edges@[x], metadata@.deps[x]),
                forall|x: int| 0 <= x < e ==> edge_ok(#[trigger] metadata@.deps[x]),
            decreases metadata.dependencies@.len() - e,
        {
            proof {
                assert(metadata@.deps[e as int] == metadata.dependencies@[e as int]@);
            }
            let dependency = &metadata.dependencies[e];
            let minimum = match dependency.requirement.minimum_version() {
                Ok(version) => version,
                Err(failure) => {
                    proof {
                        assert(!edge_ok(metadata@.deps[e as int]));
                    }
                    return Err(failure);
                },
            };
            let edge = Edge {
                relationship: relationship_str(dependency.type_).to_owned(),
                node: RelatedNode {
                    name: dependency.name.as_str().to_owned(),
                    minimum_version: minimum.as_str().to_owned(),
                    requirement: dependency.requirement.as_str().to_owned(),
                },
            };
            proof {
                assert(renders_edge(edge, metadata@.deps[e as int]));
            }
            edges.push(edge);
            e = e + 1;
        }
        let node = Node {
            name: metadata.name.as_str().to_owned(),
            version: metadata.version.as_str().to_owned(),
            edges,
        };
        proof {
            assert(renders_node(node, results@[i as int]@));
        }
        data.push(node);
        i = i + 1;
    }
    Ok(Response { data })
}

} // verus!
