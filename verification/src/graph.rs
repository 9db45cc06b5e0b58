//! The graph container that holds the physical topology, and what the rest of
//! the library relies on about it.
//!
//! The container is `petgraph::Graph`. Its contents are spoken of through
//! [`graph_nodes`] and [`graph_edges`]; the functions below call its methods
//! and say, over those two, what each does. Their contracts are taken from the
//! container's source and are not proved here.

use crate::physical_topology::{EdgeWeight, NodeWeight};
use vstd::prelude::*;

verus! {

/// `petgraph::Graph`, a graph in adjacency-list form. Nothing is known of a
/// value of it but what the functions of this library say.
#[verifier::external_type_specification]
#[verifier::external_body]
#[verifier::reject_recursive_types(N)]
#[verifier::reject_recursive_types(E)]
#[verifier::reject_recursive_types(Ty)]
#[verifier::reject_recursive_types(Ix)]
pub struct ExGraph<N, E, Ty, Ix>(petgraph::Graph<N, E, Ty, Ix>);

/// `petgraph::Undirected`, the marker of graphs whose edges have no
/// direction.
#[verifier::external_type_specification]
#[verifier::external_body]
pub struct ExUndirected(petgraph::Undirected);

/// `petgraph::graph::EdgeIndex`, the identifier of an edge. The library
/// only asks whether there is one.
#[verifier::external_type_specification]
#[verifier::external_body]
#[verifier::reject_recursive_types(Ix)]
pub struct ExEdgeIndex<Ix>(petgraph::graph::EdgeIndex<Ix>);

/// An edge as it is handed to the container: the two endpoints and the weight.
pub type EdgeEntry = (u32, u32, EdgeWeight);

/// The node weights of a graph, by node index.
pub uninterp spec fn graph_nodes(
    g: petgraph::Graph<NodeWeight, EdgeWeight, petgraph::Undirected, u32>,
) -> Seq<NodeWeight>;

/// The edges of a graph in the order of their indices, which is the order in
/// which they were added; each with its endpoints as they were given.
pub uninterp spec fn graph_edges(
    g: petgraph::Graph<NodeWeight, EdgeWeight, petgraph::Undirected, u32>,
) -> Seq<(u32, u32, EdgeWeight)>;

/// Whether `edge` links `a` and `b`, in either direction.
pub open spec fn links(edge: EdgeEntry, a: u32, b: u32) -> bool {
    (edge.0 == a && edge.1 == b) || (edge.0 == b && edge.1 == a)
}

/// Whether some edge of `edges` links `a` and `b`.
pub open spec fn adjacent(edges: Seq<EdgeEntry>, a: u32, b: u32) -> bool {
    exists|i: int| 0 <= i < edges.len() && links(#[trigger] edges[i], a, b)
}

/// The least number of nodes that a graph must have to hold `edges`: one more
/// than the largest endpoint, or none for no edges.
pub open spec fn nodes_spanned(edges: Seq<EdgeEntry>) -> nat
    decreases edges.len(),
{
    if edges.len() == 0 {
        0
    } else {
        let rest = nodes_spanned(edges.drop_last());
        let last = edges.last();
        let need = (if last.0 >= last.1 { last.0 } else { last.1 }) + 1;
        if rest >= need { rest } else { need as nat }
    }
}

/// `nodes`, followed by as many default nodes as it takes to reach `count`.
pub open spec fn padded_nodes(nodes: Seq<NodeWeight>, count: nat) -> Seq<NodeWeight> {
    if count <= nodes.len() {
        nodes
    } else {
        nodes + Seq::new((count - nodes.len()) as nat, |i: int| NodeWeight::spec_default())
    }
}

/// `petgraph::Graph::new_undirected`: the result has no node and no edge.
#[verifier::external_body]
pub(crate) fn new_undirected() -> (g: petgraph::Graph<
    NodeWeight,
    EdgeWeight,
    petgraph::Undirected,
    u32,
>)
    ensures
        graph_nodes(g) == Seq::<NodeWeight>::empty(),
        graph_edges(g) == Seq::<EdgeEntry>::empty(),
{
    petgraph::Graph::new_undirected()
}

/// `petgraph::Graph::extend_with_edges`: appends `edges` in their order,
/// after adding default nodes up to the largest endpoint named.
///
/// The container refuses (by panicking) a node index of `u32::MAX` and more
/// than `u32::MAX` edges, which the precondition leaves out.
#[verifier::external_body]
pub(crate) fn extend_with_edges(
    g: &mut petgraph::Graph<NodeWeight, EdgeWeight, petgraph::Undirected, u32>,
    edges: Vec<EdgeEntry>,
)
    requires
        nodes_spanned(edges@) <= u32::MAX,
        graph_edges(*old(g)).len() + edges@.len() <= u32::MAX,
    ensures
        graph_nodes(*final(g)) == padded_nodes(graph_nodes(*old(g)), nodes_spanned(edges@)),
        graph_edges(*final(g)) == graph_edges(*old(g)) + edges@,
{
    g.extend_with_edges(edges)
}

/// `petgraph::Graph::node_count`: the number of nodes.
#[verifier::external_body]
pub(crate) fn node_count(
    g: &petgraph::Graph<NodeWeight, EdgeWeight, petgraph::Undirected, u32>,
) -> (n: usize)
    ensures
        n == graph_nodes(*g).len(),
{
    g.node_count()
}

/// `petgraph::Graph::node_weight`: the weight of node `a`, if there is such a
/// node.
#[verifier::external_body]
pub(crate) fn node_weight(
    g: &petgraph::Graph<NodeWeight, EdgeWeight, petgraph::Undirected, u32>,
    a: u32,
) -> (w: Option<&NodeWeight>)
    ensures
        a < graph_nodes(*g).len() ==> w == Some(&graph_nodes(*g)[a as int]),
        a >= graph_nodes(*g).len() ==> w.is_none(),
{
    g.node_weight(a.into())
}

/// `petgraph::Graph::node_weight_mut`: access to the weight of node `a`, if
/// there is such a node. Nothing else of the graph can change through it.
#[verifier::external_body]
pub(crate) fn node_weight_mut(
    g: &mut petgraph::Graph<NodeWeight, EdgeWeight, petgraph::Undirected, u32>,
    a: u32,
) -> (w: Option<&mut NodeWeight>)
    ensures
        graph_edges(*final(g)) == graph_edges(*old(g)),
        match w {
            Some(r) => {
                &&& a < graph_nodes(*old(g)).len()
                &&& *r == graph_nodes(*old(g))[a as int]
                &&& graph_nodes(*final(g)) == graph_nodes(*old(g)).update(a as int, *final(r))
            },
            None => {
                &&& a >= graph_nodes(*old(g)).len()
                &&& graph_nodes(*final(g)) == graph_nodes(*old(g))
            },
        },
{
    g.node_weight_mut(a.into())
}

/// `petgraph::Graph::find_edge` on an undirected graph: an edge is found
/// exactly when one links `a` and `b`, in either direction.
#[verifier::external_body]
pub(crate) fn find_edge(
    g: &petgraph::Graph<NodeWeight, EdgeWeight, petgraph::Undirected, u32>,
    a: u32,
    b: u32,
) -> (e: Option<petgraph::graph::EdgeIndex<u32>>)
    ensures
        e.is_some() <==> adjacent(graph_edges(*g), a, b),
{
    g.find_edge(a.into(), b.into())
}

} // verus!
