//! The logical topology: the links along which EPR pairs are generated.
//!
//! It comes as a directed `petgraph::Graph` whose edges run from the master
//! to the slave of a link. The library reads it and never changes it.

use crate::scalar::Scalar;
use petgraph::visit::EdgeRef;
use vstd::prelude::*;

verus! {

/// `petgraph::Directed`, the marker of graphs whose edges have a direction.
#[verifier::external_type_specification]
#[verifier::external_body]
pub struct ExDirected(petgraph::Directed);

/// What an edge of the logical topology carries.
#[derive(Clone, Copy, Debug, PartialEq, Eq, Structural)]
pub struct LogicalEdgeWeight {
    /// Number of memory qubits of the NICs at both ends.
    pub memory_qubits: u32,
    /// The node that generates the EPR pairs of the link.
    pub tx: u32,
    /// Rate at which EPR pairs are generated, in Hz.
    pub capacity: Scalar,
}

/// A logical link: an edge of the logical topology with its endpoints.
#[derive(Clone, Copy, Debug, PartialEq, Eq, Structural)]
pub struct LogicalLink {
    /// The node at the master end.
    pub master: u32,
    /// The node at the slave end.
    pub slave: u32,
    /// The node that generates the EPR pairs of the link.
    pub tx: u32,
    /// Number of memory qubits of the NICs at both ends.
    pub memory_qubits: u32,
    /// Rate at which EPR pairs are generated, in Hz.
    pub capacity: Scalar,
}

/// The number of nodes of a logical graph.
pub uninterp spec fn logical_node_count(
    g: petgraph::Graph<(), LogicalEdgeWeight, petgraph::Directed, u32>,
) -> nat;

/// The links of a logical graph, in the order of their edge indices.
pub uninterp spec fn logical_links(
    g: petgraph::Graph<(), LogicalEdgeWeight, petgraph::Directed, u32>,
) -> Seq<LogicalLink>;

/// `petgraph::Graph::node_count`: the number of nodes.
#[verifier::external_body]
fn graph_node_count(g: &petgraph::Graph<(), LogicalEdgeWeight, petgraph::Directed, u32>) -> (n:
    usize)
    ensures
        n == logical_node_count(*g),
{
    g.node_count()
}

/// `petgraph::Graph::edge_references`: the edges in the order of their
/// indices, each handed out as a link from its source to its target.
#[verifier::external_body]
fn graph_links(g: &petgraph::Graph<(), LogicalEdgeWeight, petgraph::Directed, u32>) -> (links: Vec<
    LogicalLink,
>)
    ensures
        links@ == logical_links(*g),
{
    g.edge_references().map(
        |e|
            LogicalLink {
                master: e.source().index() as u32,
                slave: e.target().index() as u32,
                tx: e.weight().tx,
                memory_qubits: e.weight().memory_qubits,
                capacity: e.weight().capacity,
            },
    ).collect()
}

/// Whether `link` joins `a` and `b`, whichever of them is the master.
pub open spec fn joins(link: LogicalLink, a: u32, b: u32) -> bool {
    (link.master == a && link.slave == b) || (link.master == b && link.slave == a)
}

/// Whether the links can be set up on `node_count` nodes: both ends of each
/// link are nodes, and different ones, and no two links join the same two
/// nodes.
pub open spec fn links_are_simple(node_count: nat, links: Seq<LogicalLink>) -> bool {
    &&& forall|k: int|
        0 <= k < links.len() ==> {
            &&& (#[trigger] links[k]).master < node_count
            &&& links[k].slave < node_count
            &&& links[k].master != links[k].slave
        }
    &&& forall|i: int, j: int|
        0 <= i < j < links.len() ==> !joins(
            #[trigger] links[j],
            (#[trigger] links[i]).master,
            links[i].slave,
        )
}

/// The logical topology of the network.
#[derive(Debug)]
pub struct LogicalTopology {
    graph: petgraph::Graph<(), LogicalEdgeWeight, petgraph::Directed, u32>,
}

impl LogicalTopology {
    /// The number of nodes.
    pub closed spec fn spec_node_count(&self) -> nat {
        logical_node_count(self.graph)
    }

    /// The links, in the order of their edge indices.
    pub closed spec fn spec_links(&self) -> Seq<LogicalLink> {
        logical_links(self.graph)
    }

    /// Whether a network can be set up on this topology.
    pub open spec fn spec_is_simple(&self) -> bool {
        links_are_simple(self.spec_node_count(), self.spec_links())
    }

    /// The logical topology that `graph` describes.
    pub fn new(graph: petgraph::Graph<(), LogicalEdgeWeight, petgraph::Directed, u32>) -> (t: Self)
        ensures
            t.spec_node_count() == logical_node_count(graph),
            t.spec_links() == logical_links(graph),
    {
        LogicalTopology { graph }
    }

    /// The graph that describes the topology.
    pub fn graph(&self) -> (g: &petgraph::Graph<(), LogicalEdgeWeight, petgraph::Directed, u32>)
        ensures
            logical_node_count(*g) == self.spec_node_count(),
            logical_links(*g) == self.spec_links(),
    {
        &self.graph
    }

    /// The number of nodes.
    pub fn node_count(&self) -> (n: usize)
        ensures
            n == self.spec_node_count(),
    {
        graph_node_count(&self.graph)
    }

    /// The links, in the order of their edge indices.
    pub fn links(&self) -> (links: Vec<LogicalLink>)
        ensures
            links@ == self.spec_links(),
    {
        graph_links(&self.graph)
    }

    /// Whether a network can be set up on this topology: both ends of each
    /// link are nodes, and different ones, and no two links join the same two
    /// nodes.
    #[verifier::when_used_as_spec(spec_is_simple)]
    pub fn is_simple(&self) -> (b: bool)
        ensures
            b == self.spec_is_simple(),
    {
        let n = graph_node_count(&self.graph);
        let links = graph_links(&self.graph);
        links_simple(n, &links)
    }
}

/// Whether the links can be set up on `node_count` nodes.
pub fn links_simple(node_count: usize, links: &Vec<LogicalLink>) -> (b: bool)
    ensures
        b == links_are_simple(node_count as nat, links@),
{
    let mut j: usize = 0;
    while j < links.len()
        invariant
            j <= links@.len(),
            links_are_simple(node_count as nat, links@.take(j as int)),
        decreases links@.len() - j,
    {
        let link = links[j];
        if link.master as usize >= node_count || link.slave as usize >= node_count || link.master
            == link.slave {
            return false;
        }
        let mut i: usize = 0;
        while i < j
            invariant
                i <= j < links@.len(),
                link == links@[j as int],
                forall|k: int|
                    0 <= k < i ==> !joins(link, (#[trigger] links@[k]).master, links@[k].slave),
            decreases j - i,
        {
            let earlier = links[i];
            if (link.master == earlier.master && link.slave == earlier.slave) || (link.master
                == earlier.slave && link.slave == earlier.master) {
                assert(joins(links@[j as int], links@[i as int].master, links@[i as int].slave));
                return false;
            }
            i += 1;
        }
        j += 1;
        assert(links_are_simple(node_count as nat, links@.take(j as int))) by {
            let head = links@.take(j as int);
            assert forall|a: int, b: int| 0 <= a < b < head.len() implies !joins(
                #[trigger] head[b],
                (#[trigger] head[a]).master,
                head[a].slave,
            ) by {
                if b < j - 1 {
                    let prev = links@.take(j - 1);
                    assert(!joins(prev[b], prev[a].master, prev[a].slave));
                }
            }
            assert forall|k: int| 0 <= k < head.len() implies {
                &&& (#[trigger] head[k]).master < node_count
                &&& head[k].slave < node_count
                &&& head[k].master != head[k].slave
            } by {
                if k < j - 1 {
                    let prev = links@.take(j - 1);
                    assert(prev[k].master < node_count);
                }
            }
        }
    }
    assert(links@.take(j as int) =~= links@);
    true
}

} // verus!
