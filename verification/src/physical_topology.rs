//! The physical topology: which nodes can reach one another, how far apart
//! they are, and how good the EPR pairs are that a transmitter delivers to two
//! of them.

use crate::graph::{
    adjacent, extend_with_edges, find_edge, graph_edges, graph_nodes, new_undirected, node_count,
    node_weight, node_weight_mut, nodes_spanned, EdgeEntry,
};
use crate::scalar::Scalar;
use std::collections::HashMap;
use vstd::prelude::*;

verus! {

broadcast use vstd::std_specs::hash::group_hash_axioms;

/// The two kinds of node.
#[allow(clippy::upper_case_acronyms)]
#[derive(Clone, Copy, Debug, PartialEq, Eq, Structural)]
pub enum NodeType {
    /// Satellite node.
    SAT,
    /// On ground station.
    OGS,
}

impl NodeType {
    /// The name of the kind, as it is written out.
    pub open spec fn name(&self) -> Seq<char> {
        match self {
            NodeType::SAT => "SAT"@,
            NodeType::OGS => "OGS"@,
        }
    }

    /// The name of the kind: `SAT` or `OGS`.
    pub fn to_string(&self) -> (s: String)
        ensures
            s@ == self.name(),
    {
        match self {
            NodeType::SAT => "SAT".to_owned(),
            NodeType::OGS => "OGS".to_owned(),
        }
    }
}

/// Attributes of a node of the physical topology.
#[derive(Clone, Copy, Debug)]
pub struct NodeWeight {
    /// Node type.
    pub node_type: NodeType,
    /// Number of memory qubits.
    pub memory_qubits: u32,
    /// Fidelity decay rate of a qubit in memory.
    pub decay_rate: Scalar,
    /// Entanglement swapping success probability.
    pub swapping_success_prob: Scalar,
    /// Number of detectors.
    pub detectors: u32,
    /// Number of transmitters, i.e., entangled photon source generators.
    pub transmitters: u32,
    /// Capacity of transmitters, i.e., rate at which they generate EPR pairs.
    pub capacity: Scalar,
}

impl NodeWeight {
    /// The attributes of a node that nothing was said about: a satellite with
    /// one memory qubit, one detector and one transmitter of unit capacity, no
    /// decay, and swapping that always succeeds.
    pub open spec fn spec_default() -> NodeWeight {
        NodeWeight {
            node_type: NodeType::SAT,
            memory_qubits: 1,
            decay_rate: Scalar::spec_zero(),
            swapping_success_prob: Scalar::spec_one(),
            detectors: 1,
            transmitters: 1,
            capacity: Scalar::spec_one(),
        }
    }

    /// A node is written out as its kind.
    pub fn to_string(&self) -> (s: String)
        ensures
            s@ == self.node_type.name(),
    {
        self.node_type.to_string()
    }

    /// Only satellites carry transmitters.
    pub open spec fn spec_is_consistent(&self) -> bool {
        self.transmitters > 0 ==> self.node_type == NodeType::SAT
    }

    /// Whether the node is a satellite, or else has no transmitter.
    #[verifier::when_used_as_spec(spec_is_consistent)]
    pub fn is_consistent(&self) -> (b: bool)
        ensures
            b == self.spec_is_consistent(),
    {
        match self.node_type {
            NodeType::SAT => true,
            NodeType::OGS => self.transmitters == 0,
        }
    }
}

impl Default for NodeWeight {
    fn default() -> (w: NodeWeight)
        ensures
            w == NodeWeight::spec_default(),
    {
        NodeWeight {
            node_type: NodeType::SAT,
            memory_qubits: 1,
            decay_rate: Scalar::zero(),
            swapping_success_prob: Scalar::one(),
            detectors: 1,
            transmitters: 1,
            capacity: Scalar::one(),
        }
    }
}

/// Attributes of an edge of the physical topology.
#[derive(Clone, Copy, Debug, PartialEq, Eq, Structural)]
pub struct EdgeWeight {
    /// Distance between two nodes, in m.
    pub distance: Scalar,
}

/// The fidelities of freshly generated EPR pairs. They depend only on the
/// number of hops and on the kinds of the two receivers.
#[derive(Clone, Copy, Debug, PartialEq, Eq, Structural)]
pub struct StaticFidelities {
    /// One hop, orbit-to-orbit.
    pub f_o: Scalar,
    /// One hop, orbit-to-ground.
    pub f_g: Scalar,
    /// Two hops, orbit-to-orbit.
    pub f_oo: Scalar,
    /// Two hops, orbit-to-ground.
    pub f_og: Scalar,
    /// Two hops, ground-to-ground.
    pub f_gg: Scalar,
}

impl StaticFidelities {
    /// Perfect pairs in every configuration.
    pub open spec fn spec_default() -> StaticFidelities {
        StaticFidelities {
            f_o: Scalar::spec_one(),
            f_g: Scalar::spec_one(),
            f_oo: Scalar::spec_one(),
            f_og: Scalar::spec_one(),
            f_gg: Scalar::spec_one(),
        }
    }

    /// Whether `f` is one of the five fidelities.
    pub open spec fn lists(&self, f: Scalar) -> bool {
        f == self.f_o || f == self.f_g || f == self.f_oo || f == self.f_og || f == self.f_gg
    }

    /// The fidelity when the transmitter is itself a receiver and the other
    /// receiver is of kind `rx`.
    pub open spec fn one_hop(&self, rx: NodeType) -> Scalar {
        match rx {
            NodeType::SAT => self.f_o,
            NodeType::OGS => self.f_g,
        }
    }

    /// The fidelity when the transmitter serves two other nodes, of kinds `a`
    /// and `b`.
    pub open spec fn two_hops(&self, a: NodeType, b: NodeType) -> Scalar {
        if a == NodeType::SAT && b == NodeType::SAT {
            self.f_oo
        } else if a == NodeType::OGS && b == NodeType::OGS {
            self.f_gg
        } else {
            self.f_og
        }
    }
}

impl Default for StaticFidelities {
    fn default() -> (f: StaticFidelities)
        ensures
            f == StaticFidelities::spec_default(),
    {
        StaticFidelities {
            f_o: Scalar::one(),
            f_g: Scalar::one(),
            f_oo: Scalar::one(),
            f_og: Scalar::one(),
            f_gg: Scalar::one(),
        }
    }
}

/// Why the topology cannot answer a query.
#[derive(Clone, Copy, Debug, PartialEq, Eq, Structural)]
pub enum TopologyError {
    /// There is no such node.
    UnknownNode(u32),
    /// The node has no transmitter on board.
    NotATransmitter(u32),
    /// The node is an on ground station and cannot transmit.
    NotASatellite(u32),
    /// The two receivers are the same node.
    SameReceiver(u32),
    /// There is no edge between the two nodes.
    MissingEdge(u32, u32),
    /// There is no path from the first node to the second.
    Disconnected(u32, u32),
    /// The shortest paths from the node do not exist: a cycle of negative
    /// length can be reached from it.
    NegativeCycle(u32),
}

/// The first check on a fidelity query `(tx, u, v)` that fails, if any does.
///
/// In this order: the three nodes exist; `tx` has a transmitter; `tx` is a
/// satellite; the receivers differ; an edge links `tx` to each receiver other
/// than itself, `u` before `v`.
pub open spec fn fidelity_refusal(
    nodes: Seq<NodeWeight>,
    edges: Seq<EdgeEntry>,
    tx: u32,
    u: u32,
    v: u32,
) -> Option<TopologyError> {
    if tx >= nodes.len() {
        Some(TopologyError::UnknownNode(tx))
    } else if u >= nodes.len() {
        Some(TopologyError::UnknownNode(u))
    } else if v >= nodes.len() {
        Some(TopologyError::UnknownNode(v))
    } else if nodes[tx as int].transmitters == 0 {
        Some(TopologyError::NotATransmitter(tx))
    } else if nodes[tx as int].node_type != NodeType::SAT {
        Some(TopologyError::NotASatellite(tx))
    } else if u == v {
        Some(TopologyError::SameReceiver(u))
    } else if tx != u && !adjacent(edges, tx, u) {
        Some(TopologyError::MissingEdge(tx, u))
    } else if tx != v && !adjacent(edges, tx, v) {
        Some(TopologyError::MissingEdge(tx, v))
    } else {
        None
    }
}

/// The fidelity of the pairs that `tx` delivers to `u` and `v`, for a query
/// that passes every check.
pub open spec fn fidelity_granted(
    nodes: Seq<NodeWeight>,
    fidelities: StaticFidelities,
    tx: u32,
    u: u32,
    v: u32,
) -> Scalar {
    if tx == u {
        fidelities.one_hop(nodes[v as int].node_type)
    } else if tx == v {
        fidelities.one_hop(nodes[u as int].node_type)
    } else {
        fidelities.two_hops(nodes[u as int].node_type, nodes[v as int].node_type)
    }
}

/// A single-source shortest-path computation reports a cycle of negative
/// length.
#[derive(Clone, Copy, Debug, PartialEq, Eq, Structural)]
pub struct NegativeCycle;

/// The shortest paths from one node to every node of the graph, as a
/// single-source computation reports them.
#[derive(Debug)]
pub struct Paths {
    /// For each node, the length of the shortest path to it.
    pub distances: Vec<Scalar>,
    /// For each node, the node before it on the shortest path, if there is a
    /// path and the node is not the source.
    pub predecessors: Vec<Option<u32>>,
}

impl Paths {
    /// Whether the table covers a graph of `node_count` nodes and puts
    /// `source` at distance zero from itself.
    pub open spec fn spec_describes(&self, source: u32, node_count: nat) -> bool {
        &&& self.distances@.len() == node_count
        &&& self.predecessors@.len() == node_count
        &&& source < node_count
        &&& self.distances@[source as int] == Scalar::spec_zero()
    }

    /// Whether the table covers a graph of `node_count` nodes and puts
    /// `source` at distance zero from itself.
    pub fn describes(&self, source: u32, node_count: usize) -> (b: bool)
        ensures
            b == self.spec_describes(source, node_count as nat),
    {
        self.distances.len() == node_count && self.predecessors.len() == node_count
            && (source as usize) < node_count && self.distances[source as usize].bits
            == Scalar::zero().bits
    }
}

/// What a distance query finds.
#[derive(Clone, Copy, Debug, PartialEq, Eq, Structural)]
pub enum Distance {
    /// The distance, in m.
    Known(Scalar),
    /// The shortest paths from the first node of the query have not been
    /// recorded yet.
    PathsNeeded,
}

/// What a distance query `(u, v)` returns, given the node count and the
/// recorded shortest paths.
///
/// Both nodes must exist. The answer is read from the paths recorded for `u`:
/// the distance to `v`, unless no predecessor is recorded for `v` and `v` is
/// not `u` itself, in which case there is no path.
pub open spec fn distance_found(node_count: nat, paths: Map<u32, Paths>, u: u32, v: u32) -> Result<
    Distance,
    TopologyError,
> {
    if u >= node_count {
        Err(TopologyError::UnknownNode(u))
    } else if v >= node_count {
        Err(TopologyError::UnknownNode(v))
    } else if !paths.contains_key(u) {
        Ok(Distance::PathsNeeded)
    } else if paths[u].predecessors@[v as int].is_none() && u != v {
        Err(TopologyError::Disconnected(u, v))
    } else {
        Ok(Distance::Known(paths[u].distances@[v as int]))
    }
}

/// The edges of a list of `(node, node, distance)` triples.
pub open spec fn edge_entries(edges: Seq<(u32, u32, Scalar)>) -> Seq<EdgeEntry> {
    Seq::new(edges.len(), |i: int| (edges[i].0, edges[i].1, EdgeWeight { distance: edges[i].2 }))
}

/// Undirected graph representing the physical topology of the network.
///
/// An edge is present if two nodes can establish a quantum/classical link
/// with one another.
///
/// A simple fidelity model for the EPR pairs generated is used, with fixed
/// values depending only on whether the generation is one or two hops and
/// on the kinds of the receivers.
#[derive(Debug)]
pub struct PhysicalTopology {
    graph: petgraph::Graph<NodeWeight, EdgeWeight, petgraph::Undirected, u32>,
    fidelities: StaticFidelities,
    paths: HashMap<u32, Paths>,
}

impl PhysicalTopology {
    /// The node attributes, by node identifier.
    pub closed spec fn nodes(&self) -> Seq<NodeWeight> {
        graph_nodes(self.graph)
    }

    /// The edges, in the order in which they were added.
    pub closed spec fn edges(&self) -> Seq<EdgeEntry> {
        graph_edges(self.graph)
    }

    /// The fidelity table.
    pub closed spec fn fidelities(&self) -> StaticFidelities {
        self.fidelities
    }

    /// The shortest paths recorded so far, by source node.
    pub closed spec fn paths(&self) -> Map<u32, Paths> {
        self.paths@
    }

    /// Every table of shortest paths that is recorded fits the graph.
    pub closed spec fn wf(&self) -> bool {
        forall|u: u32| #[trigger]
            self.paths@.contains_key(u) ==> self.paths@[u].spec_describes(
                u,
                graph_nodes(self.graph).len(),
            )
    }

    /// What a distance query returns.
    pub open spec fn spec_distance(&self, u: u32, v: u32) -> Result<Distance, TopologyError> {
        distance_found(self.nodes().len(), self.paths(), u, v)
    }

    /// What a fidelity query returns.
    pub open spec fn spec_fidelity(&self, tx: u32, u: u32, v: u32) -> Result<
        Scalar,
        TopologyError,
    > {
        match fidelity_refusal(self.nodes(), self.edges(), tx, u, v) {
            Some(e) => Err(e),
            None => Ok(fidelity_granted(self.nodes(), self.fidelities(), tx, u, v)),
        }
    }

    /// Return the initial fidelity of the EPR pairs generated by the given
    /// transmitter towards the two nodes specified. Return an error if `tx`
    /// cannot transmit or there is no edge between `tx` and `u` or `v`.
    ///
    /// Parameters:
    /// - `tx`: the node that generates EPR pairs
    /// - `u`: one of the nodes that receives one photon of the EPR pairs
    /// - `v`: the other one
    pub fn fidelity(&self, tx: u32, u: u32, v: u32) -> (r: Result<Scalar, TopologyError>)
        ensures
            r == self.spec_fidelity(tx, u, v),
            r matches Ok(f) ==> self.fidelities().lists(f),
    {
        let tx_type = match node_weight(&self.graph, tx) {
            None => {
                return Err(TopologyError::UnknownNode(tx));
            },
            Some(w) => {
                if node_weight(&self.graph, u).is_none() {
                    return Err(TopologyError::UnknownNode(u));
                }
                if node_weight(&self.graph, v).is_none() {
                    return Err(TopologyError::UnknownNode(v));
                }
                if w.transmitters == 0 {
                    return Err(TopologyError::NotATransmitter(tx));
                }
                w.node_type
            },
        };
        match tx_type {
            NodeType::OGS => {
                return Err(TopologyError::NotASatellite(tx));
            },
            NodeType::SAT => {},
        }
        if u == v {
            return Err(TopologyError::SameReceiver(u));
        }
        if tx == u {
            if find_edge(&self.graph, tx, v).is_none() {
                return Err(TopologyError::MissingEdge(tx, v));
            }
            match self.node_type(v) {
                NodeType::SAT => Ok(self.fidelities.f_o),
                NodeType::OGS => Ok(self.fidelities.f_g),
            }
        } else if tx == v {
            if find_edge(&self.graph, tx, u).is_none() {
                return Err(TopologyError::MissingEdge(tx, u));
            }
            match self.node_type(u) {
                NodeType::SAT => Ok(self.fidelities.f_o),
                NodeType::OGS => Ok(self.fidelities.f_g),
            }
        } else {
            if find_edge(&self.graph, tx, u).is_none() {
                return Err(TopologyError::MissingEdge(tx, u));
            }
            if find_edge(&self.graph, tx, v).is_none() {
                return Err(TopologyError::MissingEdge(tx, v));
            }
            match self.node_type(u) {
                NodeType::SAT => match self.node_type(v) {
                    NodeType::SAT => Ok(self.fidelities.f_oo),
                    NodeType::OGS => Ok(self.fidelities.f_og),
                },
                NodeType::OGS => match self.node_type(v) {
                    NodeType::SAT => Ok(self.fidelities.f_og),
                    NodeType::OGS => Ok(self.fidelities.f_gg),
                },
            }
        }
    }

    /// The topology that `graph` describes, with the fidelities given and no
    /// shortest paths recorded.
    pub fn new(
        graph: petgraph::Graph<NodeWeight, EdgeWeight, petgraph::Undirected, u32>,
        fidelities: StaticFidelities,
    ) -> (t: Self)
        ensures
            t.wf(),
            t.nodes() == graph_nodes(graph),
            t.edges() == graph_edges(graph),
            t.fidelities() == fidelities,
            t.paths() == Map::<u32, Paths>::empty(),
    {
        PhysicalTopology { graph, fidelities, paths: HashMap::new() }
    }

    /// Create a topology of default nodes with given distances: as many nodes
    /// as the largest identifier named calls for, and one edge per triple.
    ///
    /// Node identifiers stop short of `u32::MAX`, and so does the number of
    /// edges.
    pub fn from_distances(edges: Vec<(u32, u32, Scalar)>, fidelities: StaticFidelities) -> (t: Self)
        requires
            edges@.len() <= u32::MAX,
            forall|i: int|
                0 <= i < edges@.len() ==> (#[trigger] edges@[i]).0 < u32::MAX && edges@[i].1
                    < u32::MAX,
        ensures
            t.wf(),
            t.edges() == edge_entries(edges@),
            t.nodes().len() == nodes_spanned(edge_entries(edges@)),
            forall|i: int|
                0 <= i < t.nodes().len() ==> #[trigger] t.nodes()[i] == NodeWeight::spec_default(),
            t.fidelities() == fidelities,
            t.paths() == Map::<u32, Paths>::empty(),
    {
        let mut entries: Vec<EdgeEntry> = Vec::new();
        let mut i: usize = 0;
        while i < edges.len()
            invariant
                i <= edges@.len(),
                entries@ == edge_entries(edges@).take(i as int),
            decreases edges@.len() - i,
        {
            let (u, v, distance) = edges[i];
            entries.push((u, v, EdgeWeight { distance }));
            i += 1;
            assert(entries@ =~= edge_entries(edges@).take(i as int));
        }
        assert(entries@ =~= edge_entries(edges@));
        proof {
            lemma_nodes_spanned_bound(entries@);
        }
        let mut graph = new_undirected();
        extend_with_edges(&mut graph, entries);
        assert(graph_edges(graph) =~= edge_entries(edges@));
        PhysicalTopology { graph, fidelities, paths: HashMap::new() }
    }

    /// The number of nodes.
    pub fn node_count(&self) -> (n: usize)
        ensures
            n == self.nodes().len(),
    {
        node_count(&self.graph)
    }

    /// The attributes of a node, if it exists.
    pub fn node_weight(&self, node: u32) -> (w: Option<NodeWeight>)
        ensures
            w == if node < self.nodes().len() {
                Some(self.nodes()[node as int])
            } else {
                None
            },
    {
        match node_weight(&self.graph, node) {
            Some(w) => Some(*w),
            None => None,
        }
    }

    /// Make an existing node a satellite or an on ground station. Its other
    /// attributes, the other nodes, the edges and the recorded paths stay as
    /// they are.
    pub fn set_node_type(&mut self, node: u32, node_type: NodeType) -> (r: Result<
        (),
        TopologyError,
    >)
        requires
            old(self).wf(),
        ensures
            final(self).wf(),
            final(self).edges() == old(self).edges(),
            final(self).fidelities() == old(self).fidelities(),
            final(self).paths() == old(self).paths(),
            node < old(self).nodes().len() ==> r == Ok::<(), TopologyError>(())
                && final(self).nodes() == old(self).nodes().update(
                node as int,
                NodeWeight { node_type, ..old(self).nodes()[node as int] },
            ),
            node >= old(self).nodes().len() ==> r == Err::<(), TopologyError>(
                TopologyError::UnknownNode(node),
            ) && final(self).nodes() == old(self).nodes(),
    {
        match node_weight_mut(&mut self.graph, node) {
            Some(w) => {
                w.node_type = node_type;
                Ok(())
            },
            None => Err(TopologyError::UnknownNode(node)),
        }
    }

    /// Replace the attributes of an existing node. The other nodes, the edges
    /// and the recorded paths stay as they are.
    pub fn set_node_weight(&mut self, node: u32, weight: NodeWeight) -> (r: Result<
        (),
        TopologyError,
    >)
        requires
            old(self).wf(),
        ensures
            final(self).wf(),
            final(self).edges() == old(self).edges(),
            final(self).fidelities() == old(self).fidelities(),
            final(self).paths() == old(self).paths(),
            node < old(self).nodes().len() ==> r == Ok::<(), TopologyError>(())
                && final(self).nodes() == old(self).nodes().update(node as int, weight),
            node >= old(self).nodes().len() ==> r == Err::<(), TopologyError>(
                TopologyError::UnknownNode(node),
            ) && final(self).nodes() == old(self).nodes(),
    {
        match node_weight_mut(&mut self.graph, node) {
            Some(w) => {
                *w = weight;
                Ok(())
            },
            None => Err(TopologyError::UnknownNode(node)),
        }
    }

    /// The container that holds the nodes and edges, for algorithms that run on
    /// it directly.
    pub fn graph(&self) -> (g: &petgraph::Graph<
        NodeWeight,
        EdgeWeight,
        petgraph::Undirected,
        u32,
    >)
        ensures
            graph_nodes(*g) == self.nodes(),
            graph_edges(*g) == self.edges(),
    {
        &self.graph
    }

    /// Return the distance from node `u` to node `v`, in m, read from the
    /// shortest paths recorded for `u`; or say that those are still to be
    /// computed and recorded.
    pub fn distance(&self, u: u32, v: u32) -> (r: Result<Distance, TopologyError>)
        requires
            self.wf(),
        ensures
            r == self.spec_distance(u, v),
    {
        let n = node_count(&self.graph);
        if u as usize >= n {
            return Err(TopologyError::UnknownNode(u));
        }
        if v as usize >= n {
            return Err(TopologyError::UnknownNode(v));
        }
        match self.paths.get(&u) {
            Some(paths) => {
                assert(self.paths@.contains_key(u));
                if paths.predecessors[v as usize].is_none() && u != v {
                    Err(TopologyError::Disconnected(u, v))
                } else {
                    Ok(Distance::Known(paths.distances[v as usize]))
                }
            },
            None => Ok(Distance::PathsNeeded),
        }
    }

    /// Record the outcome of computing the shortest paths from `source`.
    ///
    /// Paths are recorded once: those already held for a node stay. A negative
    /// cycle is reported as an error and nothing is recorded. The paths handed
    /// in must fit the graph.
    pub fn record_paths(&mut self, source: u32, outcome: Result<Paths, NegativeCycle>) -> (r:
        Result<(), TopologyError>)
        requires
            old(self).wf(),
            outcome matches Ok(p) ==> p.spec_describes(source, old(self).nodes().len()),
        ensures
            final(self).wf(),
            final(self).nodes() == old(self).nodes(),
            final(self).edges() == old(self).edges(),
            final(self).fidelities() == old(self).fidelities(),
            r == paths_recorded(old(self).nodes().len(), source, outcome),
            final(self).paths() == match outcome {
                Ok(p) if source < old(self).nodes().len() && !old(self).paths().contains_key(
                    source,
                ) => old(self).paths().insert(source, p),
                _ => old(self).paths(),
            },
    {
        if source as usize >= node_count(&self.graph) {
            return Err(TopologyError::UnknownNode(source));
        }
        match outcome {
            Err(_) => Err(TopologyError::NegativeCycle(source)),
            Ok(paths) => {
                if !self.paths.contains_key(&source) {
                    self.paths.insert(source, paths);
                }
                Ok(())
            },
        }
    }

    /// Whether the shortest paths from `source` are recorded.
    pub fn has_paths(&self, source: u32) -> (b: bool)
        ensures
            b == self.paths().contains_key(source),
    {
        self.paths.contains_key(&source)
    }

    /// A node is at distance zero from itself, once the shortest paths from
    /// it are recorded.
    pub proof fn lemma_distance_to_self(&self, u: u32)
        requires
            self.wf(),
            u < self.nodes().len(),
            self.paths().contains_key(u),
        ensures
            self.spec_distance(u, u) == Ok::<Distance, TopologyError>(
                Distance::Known(Scalar::spec_zero()),
            ),
    {
    }

    /// The kind of an existing node.
    fn node_type(&self, node: u32) -> (t: NodeType)
        requires
            node < self.nodes().len(),
        ensures
            t == self.nodes()[node as int].node_type,
    {
        node_weight(&self.graph, node).unwrap().node_type
    }
}

impl Default for PhysicalTopology {
    /// The topology without nodes, where every pair would be perfect.
    fn default() -> (t: PhysicalTopology)
        ensures
            t.wf(),
            t.nodes() == Seq::<NodeWeight>::empty(),
            t.edges() == Seq::<EdgeEntry>::empty(),
            t.fidelities() == StaticFidelities::spec_default(),
            t.paths() == Map::<u32, Paths>::empty(),
    {
        PhysicalTopology::new(new_undirected(), StaticFidelities::default())
    }
}

/// What recording the outcome of a shortest-path computation from `source`
/// returns: the node must exist, and a negative cycle is an error.
pub open spec fn paths_recorded(
    node_count: nat,
    source: u32,
    outcome: Result<Paths, NegativeCycle>,
) -> Result<(), TopologyError> {
    if source >= node_count {
        Err(TopologyError::UnknownNode(source))
    } else if outcome.is_err() {
        Err(TopologyError::NegativeCycle(source))
    } else {
        Ok(())
    }
}

/// Endpoints below `u32::MAX` call for at most `u32::MAX` nodes.
proof fn lemma_nodes_spanned_bound(edges: Seq<EdgeEntry>)
    requires
        forall|i: int|
            0 <= i < edges.len() ==> (#[trigger] edges[i]).0 < u32::MAX && edges[i].1 < u32::MAX,
    ensures
        nodes_spanned(edges) <= u32::MAX,
    decreases edges.len(),
{
    if edges.len() > 0 {
        lemma_nodes_spanned_bound(edges.drop_last());
    }
}

} // verus!
