//! The quantum network: the nodes, the EPR pair generators of the logical
//! links, the register of the pairs and the physical topology, and how they
//! react to the events of the simulation.

use crate::engine::{
    lemma_absorbed_occurrences, lemma_drop_first_occurrences, occurrences, EngineView,
};
use crate::epr_register::{EprPair, EprRegister};
use crate::event::{EprGeneratedData, EprNotifiedData, Event, EventType};
use crate::logical_topology::{joins, links_are_simple, LogicalLink, LogicalTopology};
use crate::nic::{recorded, NicView, Role};
use crate::node::{Node, NodeView};
use crate::output::{Sample, SampleKind};
use crate::physical_topology::{PhysicalTopology, TopologyError};
use crate::scalar::Scalar;
use vstd::prelude::*;

verus! {

/// The source of the EPR pairs of one logical link.
///
/// The times between two pairs are drawn from an exponential distribution of
/// rate `capacity`, by a pseudo-random number generator seeded with `seed`.
/// The draws are made outside this library, which is handed each one as a
/// number of ns.
#[derive(Clone, Copy, Debug, PartialEq, Eq, Structural)]
pub struct EprGenerator {
    pub tx_node_id: u32,
    pub master_node_id: u32,
    pub slave_node_id: u32,
    /// Rate at which EPR pairs are generated, in Hz.
    pub capacity: Scalar,
    /// Seed of the pseudo-random number generator.
    pub seed: u64,
}

impl EprGenerator {
    /// The link that the generator serves, as an event names it.
    pub open spec fn link(&self) -> EprGeneratedData {
        EprGeneratedData {
            tx_node_id: self.tx_node_id,
            master_node_id: self.master_node_id,
            slave_node_id: self.slave_node_id,
        }
    }

    /// The event of the next pair, `next_epr_generation` ns from now.
    pub open spec fn spec_handle(&self, next_epr_generation: u64) -> Event {
        Event { time: next_epr_generation, event_type: EventType::EprGenerated(self.link()) }
    }

    /// Schedule the next EPR generation, `next_epr_generation` ns from now.
    #[verifier::when_used_as_spec(spec_handle)]
    pub fn handle(&self, next_epr_generation: u64) -> (event: Event)
        ensures
            event == self.spec_handle(next_epr_generation),
    {
        Event::new(
            next_epr_generation,
            EventType::EprGenerated(
                EprGeneratedData {
                    tx_node_id: self.tx_node_id,
                    master_node_id: self.master_node_id,
                    slave_node_id: self.slave_node_id,
                },
            ),
        )
    }
}

/// The generators of `links`, one per link and in their order. The seed of
/// the `k`-th is `init_seed + k`.
pub open spec fn generators_of(links: Seq<LogicalLink>, init_seed: u64) -> Seq<EprGenerator> {
    Seq::new(
        links.len(),
        |k: int|
            EprGenerator {
                tx_node_id: links[k].tx,
                master_node_id: links[k].master,
                slave_node_id: links[k].slave,
                capacity: links[k].capacity,
                seed: (init_seed + k) as u64,
            },
    )
}

/// The NIC that a node gets for a link that it plays `role` on.
pub open spec fn fresh_nic(role: Role, link: LogicalLink) -> NicView {
    NicView { role, num_qubits: link.memory_qubits, established_pairs: Seq::empty() }
}

/// The NICs that `links` call for at node `a`, by peer: one towards the slave
/// of each link that `a` is the master of, and one towards the master of each
/// link that `a` is the slave of.
pub open spec fn nics_of(links: Seq<LogicalLink>, a: u32) -> Map<u32, NicView>
    decreases links.len(),
{
    if links.len() == 0 {
        Map::empty()
    } else {
        let rest = nics_of(links.drop_last(), a);
        let link = links.last();
        if link.master == a {
            rest.insert(link.slave, fresh_nic(Role::Master, link))
        } else if link.slave == a {
            rest.insert(link.master, fresh_nic(Role::Slave, link))
        } else {
            rest
        }
    }
}

/// The nodes that `links` call for: `node_count` of them, numbered from 0.
pub open spec fn nodes_of(node_count: nat, links: Seq<LogicalLink>) -> Seq<NodeView> {
    Seq::new(node_count, |a: int| NodeView { node_id: a as u32, nics: nics_of(links, a as u32) })
}

/// Whether the two ends of every NIC agree: where `a` has a NIC towards `b`,
/// `b` is a node and has a NIC towards `a`, in the opposite role and with as
/// many qubits.
pub open spec fn roles_mirrored(nodes: Seq<NodeView>) -> bool {
    forall|a: int, b: u32|
        0 <= a < nodes.len() && #[trigger] nodes[a].nics.contains_key(b) ==> {
            &&& b < nodes.len()
            &&& a <= u32::MAX
            &&& nodes[b as int].nics.contains_key(a as u32)
            &&& nodes[b as int].nics[a as u32].role == nodes[a].nics[b].role.spec_opposite()
            &&& nodes[b as int].nics[a as u32].num_qubits == nodes[a].nics[b].num_qubits
        }
}

/// Whether the master of the link that `generator` serves has a NIC towards
/// the slave, as master.
pub open spec fn generator_wired(nodes: Seq<NodeView>, generator: EprGenerator) -> bool {
    &&& generator.master_node_id < nodes.len()
    &&& nodes[generator.master_node_id as int].nics.contains_key(generator.slave_node_id)
    &&& nodes[generator.master_node_id as int].nics[generator.slave_node_id].role == Role::Master
}

/// In simple links, the NIC of `a` towards `b` is there exactly when a link
/// joins the two, and it is the one that this link calls for.
pub proof fn lemma_nics_of(node_count: nat, links: Seq<LogicalLink>, a: u32, b: u32)
    requires
        links_are_simple(node_count, links),
    ensures
        nics_of(links, a).contains_key(b) <==> exists|k: int|
            0 <= k < links.len() && joins(#[trigger] links[k], a, b),
        forall|k: int|
            0 <= k < links.len() && joins(#[trigger] links[k], a, b) ==> nics_of(links, a)[b]
                == fresh_nic(if links[k].master == a { Role::Master } else { Role::Slave }, links[k]),
    decreases links.len(),
{
    if links.len() > 0 {
        let head = links.drop_last();
        let last = links.last();
        assert(links_are_simple(node_count, head)) by {
            assert forall|i: int, j: int| 0 <= i < j < head.len() implies !joins(
                #[trigger] head[j],
                (#[trigger] head[i]).master,
                head[i].slave,
            ) by {
                assert(!joins(links[j], links[i].master, links[i].slave));
            }
            assert forall|k: int| 0 <= k < head.len() implies {
                &&& (#[trigger] head[k]).master < node_count
                &&& head[k].slave < node_count
                &&& head[k].master != head[k].slave
            } by {
                assert(links[k].master < node_count);
            }
        }
        lemma_nics_of(node_count, head, a, b);
        assert(links[links.len() - 1] == last);
        if nics_of(links, a).contains_key(b) {
            if joins(last, a, b) {
            } else {
                assert(nics_of(head, a).contains_key(b));
                let k = choose|k: int| 0 <= k < head.len() && joins(#[trigger] head[k], a, b);
                assert(joins(links[k], a, b));
            }
        }
        assert forall|k: int| 0 <= k < links.len() && joins(#[trigger] links[k], a, b) implies {
            &&& nics_of(links, a).contains_key(b)
            &&& nics_of(links, a)[b] == fresh_nic(
                if links[k].master == a {
                    Role::Master
                } else {
                    Role::Slave
                },
                links[k],
            )
        } by {
            if k < head.len() {
                assert(joins(head[k], a, b));
                assert(!joins(links[links.len() - 1], links[k].master, links[k].slave));
            }
        }
    }
}

/// The nodes that simple links call for have their roles mirrored.
pub proof fn lemma_nodes_of_mirrored(node_count: nat, links: Seq<LogicalLink>)
    requires
        links_are_simple(node_count, links),
        node_count <= u32::MAX,
    ensures
        roles_mirrored(nodes_of(node_count, links)),
{
    let nodes = nodes_of(node_count, links);
    assert forall|a: int, b: u32|
        0 <= a < nodes.len() && #[trigger] nodes[a].nics.contains_key(b) implies {
        &&& b < nodes.len()
        &&& a <= u32::MAX
        &&& nodes[b as int].nics.contains_key(a as u32)
        &&& nodes[b as int].nics[a as u32].role == nodes[a].nics[b].role.spec_opposite()
        &&& nodes[b as int].nics[a as u32].num_qubits == nodes[a].nics[b].num_qubits
    } by {
        lemma_nics_of(node_count, links, a as u32, b);
        let k = choose|k: int| 0 <= k < links.len() && joins(#[trigger] links[k], a as u32, b);
        assert(joins(links[k], b, a as u32));
        lemma_nics_of(node_count, links, b, a as u32);
    }
}

/// The master of every generator of simple links has its NIC towards the
/// slave.
pub proof fn lemma_generators_wired(
    node_count: nat,
    links: Seq<LogicalLink>,
    init_seed: u64,
    k: int,
)
    requires
        links_are_simple(node_count, links),
        0 <= k < links.len(),
    ensures
        generator_wired(nodes_of(node_count, links), generators_of(links, init_seed)[k]),
{
    assert(joins(links[k], links[k].master, links[k].slave));
    lemma_nics_of(node_count, links, links[k].master, links[k].slave);
}

/// The events and samples that follow the generation of a pair on the link
/// `data` at time `now`, where `fidelity` is what the physical topology says
/// of the link, `pair_id` the next free pair identifier, and the next pair is
/// due `next_epr_generation` ns later.
///
/// With a fidelity, the master and the slave are each notified of the new
/// pair, at once, and the pair is sampled. Without one there is no pair. In
/// both cases the next generation is scheduled.
pub open spec fn generation_outcome(
    fidelity: Result<Scalar, TopologyError>,
    pair_id: u64,
    now: u64,
    data: EprGeneratedData,
    next_epr_generation: u64,
) -> (Seq<Event>, Seq<Sample>) {
    let rearm = Event { time: next_epr_generation, event_type: EventType::EprGenerated(data) };
    match fidelity {
        Ok(f) => (
            seq![
                notification(data.master_node_id, data.slave_node_id, Role::Master, pair_id),
                notification(data.slave_node_id, data.master_node_id, Role::Slave, pair_id),
                rearm,
            ],
            seq![
                Sample {
                    time_ns: now,
                    kind: SampleKind::PairCreated {
                        pair_id,
                        tx_node_id: data.tx_node_id,
                        master_node_id: data.master_node_id,
                        slave_node_id: data.slave_node_id,
                        fidelity: f,
                    },
                },
            ],
        ),
        Err(_) => (seq![rearm], Seq::empty()),
    }
}

/// The event that tells `this_node_id`, at once, that it shares the pair
/// `epr_pair_id` with `peer_node_id`.
pub open spec fn notification(
    this_node_id: u32,
    peer_node_id: u32,
    role: Role,
    epr_pair_id: u64,
) -> Event {
    Event {
        time: 0,
        event_type: EventType::EprNotified(
            EprNotifiedData { this_node_id, peer_node_id, role, epr_pair_id },
        ),
    }
}

/// The register after the generation of a pair on the link `data` at time
/// `now`: with a fidelity the pair is added, without one nothing changes.
pub open spec fn register_after(
    register: Seq<EprPair>,
    fidelity: Result<Scalar, TopologyError>,
    now: u64,
    data: EprGeneratedData,
) -> Seq<EprPair> {
    match fidelity {
        Ok(f) => register.push(
            EprPair {
                pair_id: register.len() as u64,
                master_node_id: data.master_node_id,
                slave_node_id: data.slave_node_id,
                birth_time_ns: now,
                initial_fidelity: f,
            },
        ),
        Err(_) => register,
    }
}

/// The nodes after `data.this_node_id` was told at time `now` of a pair: the
/// NIC towards the peer holds the pair, and nothing else differs.
pub open spec fn nodes_after(nodes: Seq<NodeView>, now: u64, data: EprNotifiedData) -> Seq<
    NodeView,
> {
    let node = nodes[data.this_node_id as int];
    let nic = node.nics[data.peer_node_id];
    nodes.update(
        data.this_node_id as int,
        NodeView {
            nics: node.nics.insert(
                data.peer_node_id,
                NicView {
                    established_pairs: recorded(nic.established_pairs, (now, data.epr_pair_id)),
                    ..nic
                },
            ),
            ..node
        },
    )
}

/// What a network holds.
pub struct NetworkView {
    /// The nodes, by identifier.
    pub nodes: Seq<NodeView>,
    /// The EPR pair generators, in the order of the logical links.
    pub generators: Seq<EprGenerator>,
    /// The records of the EPR pairs generated so far.
    pub register: Seq<EprPair>,
    /// The physical topology.
    pub topology: PhysicalTopology,
}

/// The network `view` after it handled `event`, with the events and the
/// samples that it returns: for the generation of a pair, those of
/// [`generation_outcome`], with the pair in the register if it has a
/// fidelity; for a notification, the pair in the NIC of the node told, and
/// nothing returned.
pub open spec fn handled(view: NetworkView, event: Event, next_epr_generation: u64) -> (
    NetworkView,
    Seq<Event>,
    Seq<Sample>,
) {
    match event.event_type {
        EventType::EprGenerated(data) => {
            let fidelity = view.topology.spec_fidelity(
                data.tx_node_id,
                data.master_node_id,
                data.slave_node_id,
            );
            let outcome = generation_outcome(
                fidelity,
                view.register.len() as u64,
                event.time,
                data,
                next_epr_generation,
            );
            (
                NetworkView {
                    register: register_after(view.register, fidelity, event.time, data),
                    ..view
                },
                outcome.0,
                outcome.1,
            )
        },
        EventType::EprNotified(data) => (
            NetworkView { nodes: nodes_after(view.nodes, event.time, data), ..view },
            Seq::empty(),
            Seq::empty(),
        ),
        _ => (view, Seq::empty(), Seq::empty()),
    }
}

/// A quantum network is made of a collection of nodes.
#[derive(Debug)]
pub struct Network {
    /// The network nodes, with compact identifiers from 0.
    nodes: Vec<Node>,
    /// The EPR pair generators, in the order of the logical links.
    epr_generators: Vec<EprGenerator>,
    /// The EPR register.
    epr_register: EprRegister,
    /// The physical topology.
    physical_topology: PhysicalTopology,
}

impl View for Network {
    type V = NetworkView;

    closed spec fn view(&self) -> NetworkView {
        NetworkView {
            nodes: Seq::new(self.nodes@.len(), |a: int| self.nodes@[a]@),
            generators: self.epr_generators@,
            register: self.epr_register@,
            topology: self.physical_topology,
        }
    }
}

impl Network {
    /// The parts of the network are sound and fit together: the nodes are
    /// numbered from 0, the two ends of every NIC agree, and every generator
    /// serves a link whose NICs are there.
    pub closed spec fn wf(&self) -> bool {
        &&& self.nodes@.len() <= u32::MAX
        &&& forall|a: int| 0 <= a < self.nodes@.len() ==> (#[trigger] self.nodes@[a]).wf()
        &&& forall|a: int| 0 <= a < self.nodes@.len() ==> (#[trigger] self.nodes@[a])@.node_id == a
        &&& self.epr_register.wf()
        &&& self.physical_topology.wf()
        &&& roles_mirrored(self@.nodes)
        &&& forall|k: int|
            0 <= k < self.epr_generators@.len() ==> generator_wired(
                self@.nodes,
                #[trigger] self.epr_generators@[k],
            )
    }

    /// Whether a generator serves the link `data`.
    pub open spec fn has_generator(&self, data: EprGeneratedData) -> bool {
        exists|k: int|
            0 <= k < self@.generators.len() && (#[trigger] self@.generators[k]).link() == data
    }

    /// Whether the node `data.this_node_id` can be told of the pair: it and
    /// the peer are nodes, and it has a NIC towards the peer in the role
    /// named.
    pub open spec fn takes_notification(&self, data: EprNotifiedData) -> bool {
        &&& data.this_node_id < self@.nodes.len()
        &&& data.peer_node_id < self@.nodes.len()
        &&& self@.nodes[data.this_node_id as int].nics.contains_key(data.peer_node_id)
        &&& self@.nodes[data.this_node_id as int].nics[data.peer_node_id].role == data.role
    }

    /// Whether the network handles `event`: the generation of a pair on a
    /// link that it has a generator for, while pair identifiers last, or a
    /// notification that the addressed node can take.
    pub open spec fn spec_accepts(&self, event: Event) -> bool {
        match event.event_type {
            EventType::EprGenerated(data) => self.has_generator(data) && self@.register.len()
                < u64::MAX,
            EventType::EprNotified(data) => self.takes_notification(data),
            _ => false,
        }
    }

    /// Create a network from the logical topology.
    ///
    /// There is one node per node of the logical topology. Each link gives a
    /// NIC to its master and one to its slave, and has a generator of its
    /// own; the pseudo-random number generator of the `k`-th link is seeded
    /// with `init_seed + k`, which must be a `u64`. The logical topology must
    /// be simple, and its nodes must be numbered in `u32`.
    pub fn new(
        logical_topology: &LogicalTopology,
        physical_topology: PhysicalTopology,
        init_seed: u64,
    ) -> (network: Self)
        requires
            logical_topology.spec_is_simple(),
            logical_topology.spec_node_count() <= u32::MAX,
            init_seed + logical_topology.spec_links().len() <= u64::MAX,
            physical_topology.wf(),
        ensures
            network.wf(),
            network@.nodes == nodes_of(
                logical_topology.spec_node_count(),
                logical_topology.spec_links(),
            ),
            network@.generators == generators_of(logical_topology.spec_links(), init_seed),
            network@.register == Seq::<EprPair>::empty(),
            network@.topology == physical_topology,
    {
        let node_count = logical_topology.node_count();
        let links = logical_topology.links();

        // Create the nodes.
        let mut nodes: Vec<Node> = Vec::new();
        let mut node_id: usize = 0;
        while node_id < node_count
            invariant
                node_id <= node_count <= u32::MAX,
                nodes@.len() == node_id,
                forall|a: int| 0 <= a < nodes@.len() ==> (#[trigger] nodes@[a]).wf(),
                forall|a: int|
                    0 <= a < nodes@.len() ==> (#[trigger] nodes@[a])@ == (NodeView {
                        node_id: a as u32,
                        nics: Map::empty(),
                    }),
            decreases node_count - node_id,
        {
            nodes.push(Node::new(node_id as u32));
            node_id += 1;
        }

        // Add the NICs and EPR generators.
        let mut epr_generators: Vec<EprGenerator> = Vec::new();
        let mut cnt: usize = 0;
        while cnt < links.len()
            invariant
                cnt <= links@.len(),
                links_are_simple(node_count as nat, links@),
                node_count <= u32::MAX,
                init_seed + links@.len() <= u64::MAX,
                nodes@.len() == node_count,
                forall|a: int| 0 <= a < nodes@.len() ==> (#[trigger] nodes@[a]).wf(),
                forall|a: int|
                    0 <= a < nodes@.len() ==> (#[trigger] nodes@[a])@ == (NodeView {
                        node_id: a as u32,
                        nics: nics_of(links@.take(cnt as int), a as u32),
                    }),
                epr_generators@ == generators_of(links@, init_seed).take(cnt as int),
            decreases links@.len() - cnt,
        {
            let link = links[cnt];
            let master_node_id = link.master;
            let slave_node_id = link.slave;
            let num_qubits = link.memory_qubits;
            proof {
                let done = links@.take(cnt as int);
                let next = links@.take(cnt + 1);
                assert(next.drop_last() =~= done);
                assert(next.last() == link);
                lemma_take_simple(node_count as nat, links@, cnt as int);
                lemma_nics_of(node_count as nat, done, master_node_id, slave_node_id);
                lemma_nics_of(node_count as nat, done, slave_node_id, master_node_id);
                if nics_of(done, master_node_id).contains_key(slave_node_id) || nics_of(
                    done,
                    slave_node_id,
                ).contains_key(master_node_id) {
                    let k = choose|k: int|
                        0 <= k < done.len() && joins(
                            #[trigger] done[k],
                            master_node_id,
                            slave_node_id,
                        );
                    assert(joins(links@[cnt as int], links@[k].master, links@[k].slave));
                }
            }

            nodes[master_node_id as usize].add_nic(slave_node_id, Role::Master, num_qubits);
            nodes[slave_node_id as usize].add_nic(master_node_id, Role::Slave, num_qubits);

            epr_generators.push(
                EprGenerator {
                    tx_node_id: link.tx,
                    master_node_id,
                    slave_node_id,
                    capacity: link.capacity,
                    seed: init_seed + cnt as u64,
                },
            );
            cnt += 1;
            assert(epr_generators@ =~= generators_of(links@, init_seed).take(cnt as int));
            assert forall|a: int| 0 <= a < nodes@.len() implies (#[trigger] nodes@[a])@ == (NodeView {
                node_id: a as u32,
                nics: nics_of(links@.take(cnt as int), a as u32),
            }) by {
                let next = links@.take(cnt as int);
                assert(next.drop_last() =~= links@.take(cnt - 1));
                assert(next.last() == link);
            }
        }
        assert(links@.take(cnt as int) =~= links@);
        assert(epr_generators@ =~= generators_of(links@, init_seed));

        let epr_register = EprRegister::new();
        let network = Self { nodes, epr_generators, epr_register, physical_topology };
        proof {
            assert(network@.nodes =~= nodes_of(node_count as nat, links@));
            lemma_nodes_of_mirrored(node_count as nat, links@);
            assert forall|k: int| 0 <= k < network.epr_generators@.len() implies generator_wired(
                network@.nodes,
                #[trigger] network.epr_generators@[k],
            ) by {
                lemma_generators_wired(node_count as nat, links@, init_seed, k);
            }
        }
        network
    }

    /// Role consistency: in a sound network the nodes are numbered from 0 and
    /// the two ends of every NIC agree.
    pub proof fn lemma_roles_consistent(&self)
        requires
            self.wf(),
        ensures
            roles_mirrored(self@.nodes),
            forall|a: int| 0 <= a < self@.nodes.len() ==> (#[trigger] self@.nodes[a]).node_id == a,
            forall|k: int|
                0 <= k < self@.generators.len() ==> generator_wired(
                    self@.nodes,
                    #[trigger] self@.generators[k],
                ),
    {
    }

    /// The two notifications that follow the generation of a pair are ones
    /// that the network takes: the master has its NIC towards the slave, and
    /// the slave its NIC towards the master.
    pub proof fn lemma_notifications_taken(&self, data: EprGeneratedData, pair_id: u64)
        requires
            self.wf(),
            self.has_generator(data),
        ensures
            self.takes_notification(
                EprNotifiedData {
                    this_node_id: data.master_node_id,
                    peer_node_id: data.slave_node_id,
                    role: Role::Master,
                    epr_pair_id: pair_id,
                },
            ),
            self.takes_notification(
                EprNotifiedData {
                    this_node_id: data.slave_node_id,
                    peer_node_id: data.master_node_id,
                    role: Role::Slave,
                    epr_pair_id: pair_id,
                },
            ),
    {
        let k = choose|k: int|
            0 <= k < self@.generators.len() && (#[trigger] self@.generators[k]).link() == data;
        assert(generator_wired(self@.nodes, self.epr_generators@[k]));
        assert(self@.nodes[data.master_node_id as int].nics.contains_key(data.slave_node_id));
    }

    /// The nodes, by identifier.
    pub fn nodes(&self) -> (nodes: &Vec<Node>)
        ensures
            nodes@.len() == self@.nodes.len(),
            forall|a: int| 0 <= a < nodes@.len() ==> (#[trigger] nodes@[a])@ == self@.nodes[a],
    {
        &self.nodes
    }

    /// The EPR pair generators, in the order of the logical links.
    pub fn epr_generators(&self) -> (generators: &Vec<EprGenerator>)
        ensures
            generators@ == self@.generators,
    {
        &self.epr_generators
    }

    /// The EPR register.
    pub fn epr_register(&self) -> (register: &EprRegister)
        requires
            self.wf(),
        ensures
            register@ == self@.register,
            register.wf(),
    {
        &self.epr_register
    }

    /// The physical topology.
    pub fn physical_topology(&self) -> (topology: &PhysicalTopology)
        requires
            self.wf(),
        ensures
            *topology == self@.topology,
            topology.wf(),
    {
        &self.physical_topology
    }

    /// The position of the first generator that serves the link `data`, if
    /// there is one.
    pub fn find_generator(&self, data: &EprGeneratedData) -> (found: Option<usize>)
        ensures
            match found {
                Some(k) => {
                    &&& k < self@.generators.len()
                    &&& self@.generators[k as int].link() == *data
                    &&& forall|j: int|
                        0 <= j < k ==> (#[trigger] self@.generators[j]).link() != *data
                },
                None => !self.has_generator(*data),
            },
    {
        let mut k: usize = 0;
        while k < self.epr_generators.len()
            invariant
                k <= self.epr_generators@.len(),
                forall|j: int| 0 <= j < k ==> (#[trigger] self.epr_generators@[j]).link() != *data,
            decreases self.epr_generators@.len() - k,
        {
            let generator = &self.epr_generators[k];
            if generator.tx_node_id == data.tx_node_id && generator.master_node_id
                == data.master_node_id && generator.slave_node_id == data.slave_node_id {
                return Some(k);
            }
            k += 1;
        }
        None
    }

    /// Whether the node `data.this_node_id` can be told of the pair.
    pub fn can_notify(&self, data: &EprNotifiedData) -> (b: bool)
        ensures
            b == self.takes_notification(*data),
    {
        if data.this_node_id as usize >= self.nodes.len() || data.peer_node_id as usize
            >= self.nodes.len() {
            return false;
        }
        match self.nodes[data.this_node_id as usize].nic(data.peer_node_id) {
            Some(nic) => match (nic.role(), data.role) {
                (Role::Master, Role::Master) => true,
                (Role::Slave, Role::Slave) => true,
                _ => false,
            },
            None => false,
        }
    }

    /// Whether the network handles `event`.
    #[verifier::when_used_as_spec(spec_accepts)]
    pub fn accepts(&self, event: Event) -> (b: bool)
        requires
            self.wf(),
        ensures
            b == self.spec_accepts(event),
    {
        match event.event_type {
            EventType::EprGenerated(data) => self.find_generator(&data).is_some()
                && self.epr_register.next_pair_id() < u64::MAX,
            EventType::EprNotified(data) => self.can_notify(&data),
            _ => false,
        }
    }

    /// A transmitter has generated an EPR pair on the link `data` at time
    /// `now`; the next one is due `next_epr_generation` ns later.
    ///
    /// If the physical topology gives the link a fidelity, the pair is
    /// registered and both ends are notified at once. If not, the pair is
    /// dropped. The generator is re-armed in both cases.
    pub fn handle_epr_generated(
        &mut self,
        now: u64,
        data: EprGeneratedData,
        next_epr_generation: u64,
    ) -> (out: (Vec<Event>, Vec<Sample>))
        requires
            old(self).wf(),
            old(self).has_generator(data),
            old(self)@.register.len() < u64::MAX,
        ensures
            final(self).wf(),
            final(self)@ == (NetworkView {
                register: register_after(
                    old(self)@.register,
                    old(self)@.topology.spec_fidelity(
                        data.tx_node_id,
                        data.master_node_id,
                        data.slave_node_id,
                    ),
                    now,
                    data,
                ),
                ..old(self)@
            }),
            (out.0@, out.1@) == generation_outcome(
                old(self)@.topology.spec_fidelity(
                    data.tx_node_id,
                    data.master_node_id,
                    data.slave_node_id,
                ),
                old(self)@.register.len() as u64,
                now,
                data,
                next_epr_generation,
            ),
    {
        let found = self.find_generator(&data);
        let k = found.unwrap();
        let mut events: Vec<Event> = Vec::new();
        let mut samples: Vec<Sample> = Vec::new();

        // Create a new EPR pair.
        match self.physical_topology.fidelity(
            data.tx_node_id,
            data.master_node_id,
            data.slave_node_id,
        ) {
            Ok(fidelity) => {
                let epr_pair_id = self.epr_register.new_epr_pair(
                    data.master_node_id,
                    data.slave_node_id,
                    now,
                    fidelity,
                );

                // Add events notifying the creation of the EPR pair
                // on the master/slave nodes.
                events.push(
                    Event::new(
                        0,
                        EventType::EprNotified(
                            EprNotifiedData {
                                this_node_id: data.master_node_id,
                                peer_node_id: data.slave_node_id,
                                role: Role::Master,
                                epr_pair_id,
                            },
                        ),
                    ),
                );
                events.push(
                    Event::new(
                        0,
                        EventType::EprNotified(
                            EprNotifiedData {
                                this_node_id: data.slave_node_id,
                                peer_node_id: data.master_node_id,
                                role: Role::Slave,
                                epr_pair_id,
                            },
                        ),
                    ),
                );
                samples.push(
                    Sample {
                        time_ns: now,
                        kind: SampleKind::PairCreated {
                            pair_id: epr_pair_id,
                            tx_node_id: data.tx_node_id,
                            master_node_id: data.master_node_id,
                            slave_node_id: data.slave_node_id,
                            fidelity,
                        },
                    },
                );
            },
            Err(_) => {},
        }

        // Add event to generate another EPR pair in the future.
        events.push(self.epr_generators[k].handle(next_epr_generation));

        proof {
            assert(self@.nodes =~= old(self)@.nodes);
            let outcome = generation_outcome(
                old(self)@.topology.spec_fidelity(
                    data.tx_node_id,
                    data.master_node_id,
                    data.slave_node_id,
                ),
                old(self)@.register.len() as u64,
                now,
                data,
                next_epr_generation,
            );
            assert(events@ =~= outcome.0);
            assert(samples@ =~= outcome.1);
        }
        (events, samples)
    }

    /// The node `data.this_node_id` is told at time `now` that it shares a
    /// pair with `data.peer_node_id`: the NIC towards the peer records the
    /// pair. No event follows.
    pub fn handle_epr_notified(&mut self, now: u64, data: EprNotifiedData) -> (events: Vec<Event>)
        requires
            old(self).wf(),
            old(self).takes_notification(data),
        ensures
            final(self).wf(),
            final(self)@ == (NetworkView {
                nodes: nodes_after(old(self)@.nodes, now, data),
                ..old(self)@
            }),
            events@ == Seq::<Event>::empty(),
    {
        self.nodes[data.this_node_id as usize].epr_established(
            now,
            data.peer_node_id,
            data.role,
            data.epr_pair_id,
        );
        proof {
            let before = old(self)@.nodes;
            let after = nodes_after(before, now, data);
            assert(self@.nodes =~= after);
            assert(roles_mirrored(after)) by {
                assert forall|a: int, b: u32|
                    0 <= a < after.len() && #[trigger] after[a].nics.contains_key(b) implies {
                    &&& b < after.len()
                    &&& a <= u32::MAX
                    &&& after[b as int].nics.contains_key(a as u32)
                    &&& after[b as int].nics[a as u32].role == after[a].nics[b].role.spec_opposite()
                    &&& after[b as int].nics[a as u32].num_qubits == after[a].nics[b].num_qubits
                } by {
                    assert(before[a].nics.contains_key(b));
                }
            }
            assert forall|k: int| 0 <= k < self.epr_generators@.len() implies generator_wired(
                after,
                #[trigger] self.epr_generators@[k],
            ) by {
                assert(generator_wired(before, old(self).epr_generators@[k]));
            }
        }
        Vec::new()
    }

    /// React to `event`, which must be the generation of a pair or a
    /// notification; `next_epr_generation` is the time to the next pair of
    /// the link, in ns, and counts only for a generation.
    ///
    /// What the network becomes and what it returns depend on nothing but
    /// the network, the event and that time.
    pub fn handle(&mut self, event: Event, next_epr_generation: u64) -> (out: (
        Vec<Event>,
        Vec<Sample>,
    ))
        requires
            old(self).wf(),
            old(self).spec_accepts(event),
        ensures
            final(self).wf(),
            (final(self)@, out.0@, out.1@) == handled(old(self)@, event, next_epr_generation),
    {
        let now = event.time();
        match event.event_type {
            EventType::EprGenerated(data) => self.handle_epr_generated(
                now,
                data,
                next_epr_generation,
            ),
            EventType::EprNotified(data) => (self.handle_epr_notified(now, data), Vec::new()),
            _ => (Vec::new(), Vec::new()),
        }
    }

    /// Kick start all the EPR generators: the first pair of the `k`-th is due
    /// `delays[k]` ns from now.
    pub fn initial(&self, delays: &Vec<u64>) -> (events: Vec<Event>)
        requires
            delays@.len() == self@.generators.len(),
        ensures
            events@ == Seq::new(
                self@.generators.len(),
                |k: int| self@.generators[k].spec_handle(delays@[k]),
            ),
    {
        let mut events: Vec<Event> = Vec::new();
        let mut k: usize = 0;
        while k < self.epr_generators.len()
            invariant
                k <= self.epr_generators@.len(),
                delays@.len() == self.epr_generators@.len(),
                events@ == Seq::new(
                    k as nat,
                    |j: int| self.epr_generators@[j].spec_handle(delays@[j]),
                ),
            decreases self.epr_generators@.len() - k,
        {
            events.push(self.epr_generators[k].handle(delays[k]));
            k += 1;
            assert(events@ =~= Seq::new(
                k as nat,
                |j: int| self.epr_generators@[j].spec_handle(delays@[j]),
            ));
        }
        events
    }
}

/// Symmetric notification: a generated pair that has a fidelity makes exactly
/// two notifications, one to the master as master and one to the slave as
/// slave. Both name the same pair and are due at once.
pub proof fn lemma_symmetric_notification(
    fidelity: Result<Scalar, TopologyError>,
    pair_id: u64,
    now: u64,
    data: EprGeneratedData,
    next_epr_generation: u64,
)
    requires
        fidelity.is_ok(),
    ensures
        ({
            let events = generation_outcome(fidelity, pair_id, now, data, next_epr_generation).0;
            &&& events.len() == 3
            &&& events[0] == notification(
                data.master_node_id,
                data.slave_node_id,
                Role::Master,
                pair_id,
            )
            &&& events[1] == notification(
                data.slave_node_id,
                data.master_node_id,
                Role::Slave,
                pair_id,
            )
            &&& events[0].time == events[1].time == 0
            &&& !(events[2].event_type is EprNotified)
        }),
{
}

/// Without a fidelity there is no notification.
pub proof fn lemma_no_fidelity_no_notification(
    fidelity: Result<Scalar, TopologyError>,
    pair_id: u64,
    now: u64,
    data: EprGeneratedData,
    next_epr_generation: u64,
)
    requires
        fidelity.is_err(),
    ensures
        ({
            let outcome = generation_outcome(fidelity, pair_id, now, data, next_epr_generation);
            &&& forall|i: int|
                0 <= i < outcome.0.len() ==> !(outcome.0[i].event_type is EprNotified)
            &&& outcome.1.len() == 0
        }),
        forall|register: Seq<EprPair>| #[trigger]
            register_after(register, fidelity, now, data) == register,
{
}

/// Self-rearming: the generation of a pair schedules exactly one further
/// generation, on the same link, whether or not the pair has a fidelity.
pub proof fn lemma_rearms_once(
    fidelity: Result<Scalar, TopologyError>,
    pair_id: u64,
    now: u64,
    data: EprGeneratedData,
    next_epr_generation: u64,
)
    ensures
        ({
            let events = generation_outcome(fidelity, pair_id, now, data, next_epr_generation).0;
            &&& events.len() > 0
            &&& events.last() == (Event {
                time: next_epr_generation,
                event_type: EventType::EprGenerated(data),
            })
            &&& forall|i: int|
                0 <= i < events.len() - 1 ==> !(events[i].event_type is EprGenerated)
        }),
{
}

/// Self-rearming, in the queue of the engine: once the generation of a pair
/// has been taken out of the queue and what the network returns for it has
/// been taken in, as many generations on that link wait as did before.
pub proof fn lemma_generation_stays_scheduled(
    view: EngineView,
    fidelity: Result<Scalar, TopologyError>,
    pair_id: u64,
    data: EprGeneratedData,
    next_epr_generation: u64,
)
    requires
        view.queue.len() > 0,
        view.queue[0].event_type == EventType::EprGenerated(data),
    ensures
        ({
            let outcome = generation_outcome(
                fidelity,
                pair_id,
                view.queue[0].time,
                data,
                next_epr_generation,
            );
            view.popped().absorbed(outcome.0, outcome.1) matches Ok(after) ==> occurrences(
                after.queue,
                EventType::EprGenerated(data),
            ) == occurrences(view.queue, EventType::EprGenerated(data))
        }),
{
    let event_type = EventType::EprGenerated(data);
    let outcome = generation_outcome(
        fidelity,
        pair_id,
        view.queue[0].time,
        data,
        next_epr_generation,
    );
    lemma_drop_first_occurrences(view.queue, event_type);
    lemma_absorbed_occurrences(view.popped(), outcome.0, outcome.1, event_type);
    assert(occurrences(outcome.0, event_type) == 1) by {
        reveal_with_fuel(occurrences, 4);
        let events = outcome.0;
        if fidelity.is_ok() {
            assert(events.drop_last().len() == 2);
            assert(events.drop_last().drop_last().len() == 1);
            assert(events.drop_last().drop_last().drop_last().len() == 0);
        } else {
            assert(events.drop_last().len() == 0);
        }
    }
}

/// Telling a node of a pair leaves every NIC where it is, in its role and
/// with its qubits.
pub proof fn lemma_notification_keeps_nics(
    nodes: Seq<NodeView>,
    now: u64,
    data: EprNotifiedData,
    a: int,
    b: u32,
)
    requires
        data.this_node_id < nodes.len(),
        nodes[data.this_node_id as int].nics.contains_key(data.peer_node_id),
        0 <= a < nodes.len(),
    ensures
        nodes_after(nodes, now, data).len() == nodes.len(),
        nodes_after(nodes, now, data)[a].node_id == nodes[a].node_id,
        nodes_after(nodes, now, data)[a].nics.contains_key(b) == nodes[a].nics.contains_key(b),
        nodes[a].nics.contains_key(b) ==> {
            &&& nodes_after(nodes, now, data)[a].nics[b].role == nodes[a].nics[b].role
            &&& nodes_after(nodes, now, data)[a].nics[b].num_qubits == nodes[a].nics[b].num_qubits
        },
{
}

/// Role consistency at set-up: each link gives its master a NIC towards its
/// slave and its slave a NIC towards its master, in these roles and with the
/// qubits of the link.
pub proof fn lemma_link_has_both_nics(node_count: nat, links: Seq<LogicalLink>, k: int)
    requires
        links_are_simple(node_count, links),
        0 <= k < links.len(),
    ensures
        ({
            let nodes = nodes_of(node_count, links);
            let link = links[k];
            &&& nodes[link.master as int].nics.contains_key(link.slave)
            &&& nodes[link.master as int].nics[link.slave] == fresh_nic(Role::Master, link)
            &&& nodes[link.slave as int].nics.contains_key(link.master)
            &&& nodes[link.slave as int].nics[link.master] == fresh_nic(Role::Slave, link)
        }),
{
    let link = links[k];
    assert(joins(link, link.master, link.slave));
    assert(joins(link, link.slave, link.master));
    lemma_nics_of(node_count, links, link.master, link.slave);
    lemma_nics_of(node_count, links, link.slave, link.master);
}

/// The first links of simple links are simple.
proof fn lemma_take_simple(node_count: nat, links: Seq<LogicalLink>, n: int)
    requires
        links_are_simple(node_count, links),
        0 <= n <= links.len(),
    ensures
        links_are_simple(node_count, links.take(n)),
{
    let head = links.take(n);
    assert forall|i: int, j: int| 0 <= i < j < head.len() implies !joins(
        #[trigger] head[j],
        (#[trigger] head[i]).master,
        head[i].slave,
    ) by {
        assert(!joins(links[j], links[i].master, links[i].slave));
    }
    assert forall|k: int| 0 <= k < head.len() implies {
        &&& (#[trigger] head[k]).master < node_count
        &&& head[k].slave < node_count
        &&& head[k].master != head[k].slave
    } by {
        assert(links[k].master < node_count);
    }
}

} // verus!