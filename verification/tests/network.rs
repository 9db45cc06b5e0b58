use epr_sim::engine::{Engine, Stop};
use epr_sim::epr_register::EprPair;
use epr_sim::event::{EprGeneratedData, EprNotifiedData, Event, EventHandler, EventType};
use epr_sim::logical_topology::{links_simple, LogicalEdgeWeight, LogicalLink, LogicalTopology};
use epr_sim::network::{EprGenerator, Network};
use epr_sim::nic::Role;
use epr_sim::output::{Sample, SampleKind};
use epr_sim::physical_topology::{NodeType, PhysicalTopology, StaticFidelities};
use epr_sim::scalar::Scalar;
use rand::SeedableRng;
use rand_distr::Distribution;

fn scalar(x: f64) -> Scalar {
    Scalar::from_bits(x.to_bits())
}

fn value(s: Scalar) -> f64 {
    f64::from_bits(s.to_bits())
}

fn to_nanoseconds(seconds: f64) -> u64 {
    assert!(seconds >= 0.0);
    (seconds * 1e9) as u64
}

fn physical(edges: &[(u32, u32)], fidelities: StaticFidelities) -> PhysicalTopology {
    let edges: Vec<(u32, u32, Scalar)> = edges.iter().map(|e| (e.0, e.1, scalar(1.0))).collect();
    PhysicalTopology::from_distances(edges, fidelities)
}

/// A logical topology of `node_count` nodes with links
/// `(master, slave, tx, memory_qubits, capacity)`.
fn logical(node_count: usize, links: &[(u32, u32, u32, u32, f64)]) -> LogicalTopology {
    let mut graph = petgraph::Graph::<(), LogicalEdgeWeight, petgraph::Directed, u32>::new();
    for _ in 0..node_count {
        graph.add_node(());
    }
    for (master, slave, tx, memory_qubits, capacity) in links {
        graph.add_edge(
            petgraph::graph::NodeIndex::new(*master as usize),
            petgraph::graph::NodeIndex::new(*slave as usize),
            LogicalEdgeWeight { memory_qubits: *memory_qubits, tx: *tx, capacity: scalar(*capacity) },
        );
    }
    LogicalTopology::new(graph)
}

fn network(logical: &LogicalTopology, physical: PhysicalTopology, init_seed: u64) -> Network {
    assert!(logical.is_simple());
    assert!(logical.node_count() <= u32::MAX as usize);
    assert!(init_seed.checked_add(logical.links().len() as u64).is_some());
    Network::new(logical, physical, init_seed)
}

/// Two orbits of two satellites each, and six on ground stations.
fn logical_topology_2_2() -> (PhysicalTopology, LogicalTopology) {
    let mut physical = physical(
        &[
            (0, 1),
            (2, 3),
            (0, 2),
            (1, 3),
            (0, 4),
            (0, 5),
            (1, 6),
            (2, 7),
            (3, 8),
            (3, 9),
        ],
        StaticFidelities::default(),
    );
    for ogs in 4..10 {
        physical.set_node_type(ogs, NodeType::OGS).unwrap();
    }
    let logical = logical(
        10,
        &[
            (0, 1, 0, 2, 1.0),
            (2, 3, 2, 2, 1.0),
            (4, 5, 0, 1, 2.0),
            (8, 9, 3, 1, 2.0),
            (0, 2, 0, 4, 1.0),
            (1, 6, 1, 1, 0.5),
            (7, 3, 2, 1, 0.5),
        ],
    );
    (physical, logical)
}

fn one_link() -> Network {
    let physical = physical(&[(0, 1)], StaticFidelities::default());
    let logical = logical(2, &[(0, 1, 0, 1, 1.0)]);
    network(&logical, physical, 0)
}

#[test]
fn test_network_from_logical_topology() {
    let (physical_topology, logical_topology) = logical_topology_2_2();
    let network = network(&logical_topology, physical_topology, 42);
    assert_eq!(10, network.nodes().len());
}

#[test]
fn test_expo_rv() {
    let draw = || {
        let mut rng = rand::rngs::StdRng::seed_from_u64(42);
        let rv = rand_distr::Exp::new(10.0).unwrap();
        let mut samples = vec![];
        for _ in 0..10 {
            let x: f64 = rv.sample(&mut rng);
            println!("{}", x);
            samples.push(x);
        }
        samples
    };
    let first = draw();
    let second = draw();
    assert_eq!(first.len(), 10);
    assert!(first.iter().all(|x| *x >= 0.0));
    assert_eq!(
        first.iter().map(|x| x.to_bits()).collect::<Vec<u64>>(),
        second.iter().map(|x| x.to_bits()).collect::<Vec<u64>>()
    );
}

#[test]
fn nodes_are_numbered_and_roles_mirrored() {
    let (physical_topology, logical_topology) = logical_topology_2_2();
    let links = logical_topology.links();
    let network = network(&logical_topology, physical_topology, 42);
    let nodes = network.nodes();
    for (id, node) in nodes.iter().enumerate() {
        assert_eq!(node.node_id() as usize, id);
    }
    for link in &links {
        let at_master = nodes[link.master as usize].nic(link.slave).unwrap();
        let at_slave = nodes[link.slave as usize].nic(link.master).unwrap();
        assert_eq!(at_master.role(), Role::Master);
        assert_eq!(at_slave.role(), Role::Slave);
        assert_eq!(at_master.role().opposite(), at_slave.role());
        assert_eq!(at_master.num_qubits(), link.memory_qubits);
        assert_eq!(at_slave.num_qubits(), link.memory_qubits);
        assert!(at_master.established_pairs().is_empty());
        assert!(at_slave.established_pairs().is_empty());
    }
    // No NIC without a link.
    for a in 0..10u32 {
        for b in 0..10u32 {
            let linked = links
                .iter()
                .any(|l| (l.master == a && l.slave == b) || (l.master == b && l.slave == a));
            assert_eq!(nodes[a as usize].nic(b).is_some(), linked);
        }
    }
}

#[test]
fn generators_follow_the_links_with_consecutive_seeds() {
    let (physical_topology, logical_topology) = logical_topology_2_2();
    let network = network(&logical_topology, physical_topology, 42);
    let generators = network.epr_generators();
    assert_eq!(generators.len(), 7);
    assert_eq!(
        generators[0],
        EprGenerator {
            tx_node_id: 0,
            master_node_id: 0,
            slave_node_id: 1,
            capacity: scalar(1.0),
            seed: 42
        }
    );
    assert_eq!(
        generators[6],
        EprGenerator {
            tx_node_id: 2,
            master_node_id: 7,
            slave_node_id: 3,
            capacity: scalar(0.5),
            seed: 48
        }
    );
    for (k, generator) in generators.iter().enumerate() {
        assert_eq!(generator.seed, 42 + k as u64);
    }
    assert_eq!(network.epr_register().next_pair_id(), 0);
    assert_eq!(network.physical_topology().node_count(), 10);
}

#[test]
fn generator_event() {
    let generator = EprGenerator {
        tx_node_id: 3,
        master_node_id: 8,
        slave_node_id: 9,
        capacity: scalar(2.0),
        seed: 5,
    };
    let event = generator.handle(123);
    assert_eq!(event.time(), 123);
    assert_eq!(
        event.event_type,
        EventType::EprGenerated(EprGeneratedData {
            tx_node_id: 3,
            master_node_id: 8,
            slave_node_id: 9
        })
    );
}

#[test]
fn simple_topologies() {
    let link = |master, slave| LogicalLink {
        master,
        slave,
        tx: master,
        memory_qubits: 1,
        capacity: scalar(1.0),
    };
    assert!(links_simple(3, &vec![]));
    assert!(links_simple(3, &vec![link(0, 1), link(1, 2), link(2, 0)]));
    // An end that is no node.
    assert!(!links_simple(3, &vec![link(0, 3)]));
    assert!(!links_simple(3, &vec![link(3, 0)]));
    // A link from a node to itself.
    assert!(!links_simple(3, &vec![link(1, 1)]));
    // Two links between the same two nodes.
    assert!(!links_simple(3, &vec![link(0, 1), link(0, 1)]));
    assert!(!links_simple(3, &vec![link(0, 1), link(1, 2), link(1, 0)]));

    assert!(logical(2, &[(0, 1, 0, 1, 1.0)]).is_simple());
    assert!(!logical(2, &[(0, 1, 0, 1, 1.0), (1, 0, 1, 1, 1.0)]).is_simple());
    let topology = logical(4, &[(2, 3, 1, 5, 0.25)]);
    assert_eq!(topology.node_count(), 4);
    assert_eq!(topology.graph().edge_count(), 1);
    assert_eq!(
        topology.links(),
        vec![LogicalLink { master: 2, slave: 3, tx: 1, memory_qubits: 5, capacity: scalar(0.25) }]
    );
}

#[test]
fn initial_events() {
    let (physical_topology, logical_topology) = logical_topology_2_2();
    let network = network(&logical_topology, physical_topology, 42);
    let delays: Vec<u64> = (0..7).map(|k| 100 + k).collect();
    let events = network.initial(&delays);
    assert_eq!(events.len(), 7);
    for (k, event) in events.iter().enumerate() {
        assert_eq!(*event, network.epr_generators()[k].handle(100 + k as u64));
    }
}

#[test]
fn generation_with_fidelity() {
    let fidelities = StaticFidelities {
        f_o: scalar(0.6),
        f_g: scalar(0.7),
        f_oo: scalar(0.8),
        f_og: scalar(0.9),
        f_gg: scalar(1.0),
    };
    let physical = physical(&[(0, 1), (0, 2)], fidelities);
    let logical = logical(3, &[(1, 2, 0, 1, 1.0)]);
    let mut network = network(&logical, physical, 0);
    let data = EprGeneratedData { tx_node_id: 0, master_node_id: 1, slave_node_id: 2 };
    let event = Event::new(500, EventType::EprGenerated(data));
    assert!(network.accepts(event));
    let (events, samples) = network.handle(event, 77);

    // Symmetric notification, then the generator re-arms itself.
    assert_eq!(
        events,
        vec![
            Event::new(
                0,
                EventType::EprNotified(EprNotifiedData {
                    this_node_id: 1,
                    peer_node_id: 2,
                    role: Role::Master,
                    epr_pair_id: 0
                })
            ),
            Event::new(
                0,
                EventType::EprNotified(EprNotifiedData {
                    this_node_id: 2,
                    peer_node_id: 1,
                    role: Role::Slave,
                    epr_pair_id: 0
                })
            ),
            Event::new(77, EventType::EprGenerated(data)),
        ]
    );
    assert_eq!(
        samples,
        vec![Sample {
            time_ns: 500,
            kind: SampleKind::PairCreated {
                pair_id: 0,
                tx_node_id: 0,
                master_node_id: 1,
                slave_node_id: 2,
                fidelity: scalar(0.8)
            }
        }]
    );
    assert_eq!(
        network.epr_register().pair(0),
        Some(EprPair {
            pair_id: 0,
            master_node_id: 1,
            slave_node_id: 2,
            birth_time_ns: 500,
            initial_fidelity: scalar(0.8)
        })
    );
    assert_eq!(value(network.epr_register().pair(0).unwrap().initial_fidelity), 0.8);
    assert_eq!(network.epr_register().next_pair_id(), 1);

    // The notifications are events that the network takes.
    for notification in &events[0..2] {
        assert!(network.accepts(*notification));
        let mut at = *notification;
        at.advance(500);
        let (more, none) = network.handle(at, 0);
        assert!(more.is_empty());
        assert!(none.is_empty());
    }
    assert_eq!(network.nodes()[1].nic(2).unwrap().established_pairs(), &vec![(500, 0)]);
    assert_eq!(network.nodes()[2].nic(1).unwrap().established_pairs(), &vec![(500, 0)]);

    // The next pair gets the next identifier.
    let (events, _) = network.handle_epr_generated(900, data, 5);
    match events[0].event_type {
        EventType::EprNotified(note) => assert_eq!(note.epr_pair_id, 1),
        _ => panic!("a notification was expected"),
    }
}

#[test]
fn generation_without_fidelity() {
    // Node 0 transmits for the link between 1 and 2, but has no edge to 2.
    let physical = physical(&[(0, 1), (1, 2)], StaticFidelities::default());
    let logical = logical(3, &[(1, 2, 0, 1, 1.0)]);
    let mut network = network(&logical, physical, 0);
    assert!(network.physical_topology().fidelity(0, 1, 2).is_err());
    let data = EprGeneratedData { tx_node_id: 0, master_node_id: 1, slave_node_id: 2 };
    let event = Event::new(500, EventType::EprGenerated(data));
    assert!(network.accepts(event));
    let (events, samples) = network.handle(event, 77);
    assert_eq!(events, vec![Event::new(77, EventType::EprGenerated(data))]);
    assert!(samples.is_empty());
    assert_eq!(network.epr_register().next_pair_id(), 0);
    assert_eq!(network.epr_register().pair(0), None);
    assert!(network.nodes()[1].nic(2).unwrap().established_pairs().is_empty());
    assert!(network.nodes()[2].nic(1).unwrap().established_pairs().is_empty());
}

#[test]
fn events_that_the_network_refuses() {
    let network = one_link();
    let generated = |tx, master, slave| {
        Event::new(
            0,
            EventType::EprGenerated(EprGeneratedData {
                tx_node_id: tx,
                master_node_id: master,
                slave_node_id: slave,
            }),
        )
    };
    let notified = |this, peer, role| {
        Event::new(
            0,
            EventType::EprNotified(EprNotifiedData {
                this_node_id: this,
                peer_node_id: peer,
                role,
                epr_pair_id: 0,
            }),
        )
    };
    assert!(network.accepts(generated(0, 0, 1)));
    assert!(!network.accepts(generated(1, 0, 1)));
    assert!(!network.accepts(generated(0, 1, 0)));
    assert!(!network.accepts(generated(0, 0, 2)));
    assert_eq!(
        network.find_generator(&EprGeneratedData {
            tx_node_id: 0,
            master_node_id: 0,
            slave_node_id: 1
        }),
        Some(0)
    );
    assert_eq!(
        network.find_generator(&EprGeneratedData {
            tx_node_id: 1,
            master_node_id: 0,
            slave_node_id: 1
        }),
        None
    );

    assert!(network.accepts(notified(0, 1, Role::Master)));
    assert!(network.accepts(notified(1, 0, Role::Slave)));
    // The role does not match.
    assert!(!network.accepts(notified(0, 1, Role::Slave)));
    assert!(!network.accepts(notified(1, 0, Role::Master)));
    // No such node, or no NIC towards the peer.
    assert!(!network.accepts(notified(2, 0, Role::Master)));
    assert!(!network.accepts(notified(0, 2, Role::Master)));
    assert!(!network.accepts(notified(0, 0, Role::Master)));

    assert!(!network.accepts(Event::new(0, EventType::WarmupPeriodEnd)));
    assert!(!network.accepts(Event::new(0, EventType::ExperimentEnd)));
    assert!(!network.accepts(Event::new(0, EventType::Progress(10))));
}

/// A network whose generators draw the times between pairs at random.
struct RandomNetwork {
    network: Network,
    rngs: Vec<rand::rngs::StdRng>,
    rvs: Vec<rand_distr::Exp<f64>>,
    generated: u64,
    notified: u64,
}

impl RandomNetwork {
    fn new(network: Network) -> Self {
        let rngs = network
            .epr_generators()
            .iter()
            .map(|g| rand::rngs::StdRng::seed_from_u64(g.seed))
            .collect();
        let rvs = network
            .epr_generators()
            .iter()
            .map(|g| rand_distr::Exp::new(value(g.capacity)).unwrap())
            .collect();
        Self { network, rngs, rvs, generated: 0, notified: 0 }
    }

    fn draw(&mut self, k: usize) -> u64 {
        to_nanoseconds(self.rvs[k].sample(&mut self.rngs[k]))
    }
}

impl EventHandler for RandomNetwork {
    fn handle(&mut self, event: Event) -> (Vec<Event>, Vec<Sample>) {
        assert!(self.network.accepts(event));
        let delay = match event.event_type {
            EventType::EprGenerated(data) => {
                self.generated += 1;
                let k = self.network.find_generator(&data).unwrap();
                self.draw(k)
            }
            _ => {
                self.notified += 1;
                0
            }
        };
        self.network.handle(event, delay)
    }

    fn initial(&mut self) -> Vec<Event> {
        let delays: Vec<u64> = (0..self.rngs.len()).map(|k| self.draw(k)).collect();
        self.network.initial(&delays)
    }
}

fn run_one_link(seed: u64, until_ns: u64) -> (RandomNetwork, Engine) {
    let physical = physical(&[(0, 1)], StaticFidelities::default());
    let logical = logical(2, &[(0, 1, 0, 1, 1.0)]);
    let mut handler = RandomNetwork::new(network(&logical, physical, seed));
    let mut engine = Engine::new(0);
    engine.register(&mut handler).unwrap();
    let stop = engine.run(&mut handler, until_ns, u64::MAX).unwrap();
    assert_eq!(stop, Stop::Idle);
    (handler, engine)
}

#[test]
fn end_to_end_pair_flow() {
    // With a rate of 1 Hz few pairs are generated in one second: run ten
    // seconds as well, so that some are.
    for until_ns in [1_000_000_000u64, 10_000_000_000u64] {
        let (handler, engine) = run_one_link(0, until_ns);
        let pairs = handler.network.epr_register().next_pair_id();
        assert_eq!(handler.generated, pairs);
        assert_eq!(handler.notified, 2 * pairs);
        if until_ns > 1_000_000_000 {
            assert!(pairs > 0);
        }

        let at_master = handler.network.nodes()[0].nic(1).unwrap();
        let at_slave = handler.network.nodes()[1].nic(0).unwrap();
        assert_eq!(at_master.role(), Role::Master);
        assert_eq!(at_slave.role(), Role::Slave);
        assert_eq!(at_master.established_pairs().len() as u64, pairs);
        assert_eq!(at_slave.established_pairs().len() as u64, pairs);
        for pair_id in 0..pairs {
            let birth = handler.network.epr_register().pair(pair_id).unwrap().birth_time_ns;
            assert_eq!(at_master.established_pairs()[pair_id as usize], (birth, pair_id));
            assert_eq!(at_slave.established_pairs()[pair_id as usize], (birth, pair_id));
            assert!(birth <= until_ns);
        }

        // One generation is pending when the run ends, later than the limit.
        assert_eq!(engine.queue().len(), 1);
        let pending = engine.queue().peek().unwrap();
        assert!(pending.time() > until_ns);
        assert_eq!(
            pending.event_type,
            EventType::EprGenerated(EprGeneratedData {
                tx_node_id: 0,
                master_node_id: 0,
                slave_node_id: 1
            })
        );

        // One sample per pair, at the time of its birth.
        assert_eq!(engine.samples().len() as u64, pairs);
        for (pair_id, sample) in engine.samples().iter().enumerate() {
            let record = handler.network.epr_register().pair(pair_id as u64).unwrap();
            assert_eq!(sample.time_ns, record.birth_time_ns);
            assert_eq!(
                sample.kind,
                SampleKind::PairCreated {
                    pair_id: pair_id as u64,
                    tx_node_id: 0,
                    master_node_id: 0,
                    slave_node_id: 1,
                    fidelity: scalar(1.0)
                }
            );
        }
    }
}

#[test]
fn deterministic_under_seed() {
    let (_, first) = run_one_link(7, 20_000_000_000);
    let (_, second) = run_one_link(7, 20_000_000_000);
    assert!(!first.samples().is_empty());
    assert_eq!(first.samples(), second.samples());
    let (_, other) = run_one_link(8, 20_000_000_000);
    assert_ne!(first.samples(), other.samples());
}

#[test]
fn end_to_end_on_ten_nodes() {
    let (physical_topology, logical_topology) = logical_topology_2_2();
    let mut handler = RandomNetwork::new(network(&logical_topology, physical_topology, 42));
    let mut engine = Engine::new(1_000_000_000);
    engine.register(&mut handler).unwrap();
    engine.schedule_absolute(EventType::ExperimentEnd, 5_000_000_000).unwrap();
    let stop = engine.run(&mut handler, u64::MAX, u64::MAX).unwrap();
    assert_eq!(stop, Stop::Ended);
    assert_eq!(engine.now(), 5_000_000_000);

    // Every generator has one generation pending.
    assert_eq!(engine.queue().len(), 7);
    for generator in handler.network.epr_generators() {
        let pending = (0..7)
            .filter(|i| engine.queue().get(*i).unwrap() == generator.handle(engine.queue().get(*i).unwrap().time()))
            .count();
        assert_eq!(pending, 1);
    }

    // The link between the on ground stations 8 and 9 is served by satellite
    // 3, which reaches both: its pairs have the ground-to-ground fidelity.
    let pairs = handler.network.epr_register().next_pair_id();
    assert!(pairs > 0);
    assert_eq!(handler.notified, 2 * pairs);
    // Samples of the warm-up period are dropped, the others are kept.
    let late = (0..pairs)
        .filter(|id| {
            handler.network.epr_register().pair(*id).unwrap().birth_time_ns >= 1_000_000_000
        })
        .count();
    assert!(late < pairs as usize);
    assert_eq!(engine.samples().len(), late);
    assert!(engine.samples().iter().all(|s| s.time_ns >= 1_000_000_000));
}
