use epr_sim::physical_topology::{
    Distance, NegativeCycle, NodeType, NodeWeight, Paths, PhysicalTopology, StaticFidelities,
    TopologyError,
};
use epr_sim::scalar::Scalar;

fn scalar(x: f64) -> Scalar {
    Scalar::from_bits(x.to_bits())
}

fn value(s: Scalar) -> f64 {
    f64::from_bits(s.to_bits())
}

fn topology(edges: &[(u32, u32, f64)], fidelities: StaticFidelities) -> PhysicalTopology {
    let edges: Vec<(u32, u32, Scalar)> = edges.iter().map(|e| (e.0, e.1, scalar(e.2))).collect();
    assert!(edges.len() <= u32::MAX as usize);
    assert!(edges.iter().all(|e| e.0 < u32::MAX && e.1 < u32::MAX));
    PhysicalTopology::from_distances(edges, fidelities)
}

/// The shortest paths from `source`, computed on the distances of the edges.
fn shortest_paths(topo: &PhysicalTopology, source: u32) -> Result<Paths, NegativeCycle> {
    let graph = topo.graph().map(|_, _| (), |_, e| value(e.distance));
    match petgraph::algo::bellman_ford(&graph, petgraph::graph::NodeIndex::new(source as usize)) {
        Ok(paths) => Ok(Paths {
            distances: paths.distances.iter().map(|d| scalar(*d)).collect(),
            predecessors: paths
                .predecessors
                .iter()
                .map(|p| p.map(|n| n.index() as u32))
                .collect(),
        }),
        Err(_) => Err(NegativeCycle),
    }
}

/// The distance from `u` to `v`, with the shortest paths computed when the
/// topology asks for them.
fn distance(topo: &mut PhysicalTopology, u: u32, v: u32) -> Result<f64, TopologyError> {
    match topo.distance(u, v)? {
        Distance::Known(d) => Ok(value(d)),
        Distance::PathsNeeded => {
            let outcome = shortest_paths(topo, u);
            if let Ok(paths) = &outcome {
                assert!(paths.describes(u, topo.node_count()));
            }
            topo.record_paths(u, outcome)?;
            match topo.distance(u, v)? {
                Distance::Known(d) => Ok(value(d)),
                Distance::PathsNeeded => unreachable!(),
            }
        }
    }
}

fn test_graph() -> PhysicalTopology {
    //
    //                +---+        +---+
    //         100    |   |  100   |   |   100
    //       +--------+ 1 +--------+ 2 +--------+
    //       |        |   |        |   |        |
    //       |        +-+-+        +-+-+        |
    //     +-+-+        |            |        +-+-+
    //     |   |        |            |        |   |
    //     | 0 |        |150         |150     | 5 |
    //     |   |        |            |        |   |
    //     +-+-+        |            |        +-+-+
    //       |        +-+-+        +-+-+        |
    //       |  100   |   |  100   |   |  100   |
    //       +--------+ 3 +--------+ 4 +--------+
    //                |   |        |   |
    //                +---+        +---+
    //
    topology(
        &[
            (0, 1, 100.0),
            (1, 2, 100.0),
            (2, 5, 100.0),
            (0, 3, 100.0),
            (3, 4, 100.0),
            (4, 5, 100.0),
            (1, 3, 150.0),
            (2, 4, 150.0),
        ],
        StaticFidelities::default(),
    )
}

fn near(a: f64, b: f64) -> bool {
    (a - b).abs() <= f64::EPSILON * a.abs().max(b.abs())
}

#[test]
fn test_physical_topology_distance() {
    let mut graph = test_graph();

    assert!(near(distance(&mut graph, 0, 1).unwrap(), 100.0));
    assert!(near(distance(&mut graph, 0, 2).unwrap(), 200.0));
    assert!(near(distance(&mut graph, 0, 5).unwrap(), 300.0));
    assert!(near(distance(&mut graph, 1, 3).unwrap(), 150.0));
    assert!(near(distance(&mut graph, 3, 1).unwrap(), 150.0));

    assert!(distance(&mut graph, 0, 99).is_err());
    assert!(distance(&mut graph, 99, 0).is_err());
    assert!(distance(&mut graph, 99, 99).is_err());
}

#[test]
fn test_physical_topology_fidelities() {
    let fidelities = StaticFidelities {
        f_o: scalar(0.6),
        f_g: scalar(0.7),
        f_oo: scalar(0.8),
        f_og: scalar(0.9),
        f_gg: scalar(1.0),
    };

    let mut topo = topology(
        &[(0, 1, 1.0), (0, 2, 1.0), (0, 3, 1.0), (0, 4, 1.0), (4, 5, 1.0)],
        fidelities,
    );

    topo.set_node_type(0, NodeType::SAT).unwrap();
    topo.set_node_type(1, NodeType::OGS).unwrap();
    topo.set_node_type(2, NodeType::OGS).unwrap();
    topo.set_node_type(3, NodeType::SAT).unwrap();
    topo.set_node_type(4, NodeType::SAT).unwrap();
    topo.set_node_type(5, NodeType::SAT).unwrap();

    assert_eq!(value(fidelities.f_o), value(topo.fidelity(0, 0, 3).unwrap()));
    assert_eq!(value(fidelities.f_o), value(topo.fidelity(0, 3, 0).unwrap()));
    assert_eq!(value(fidelities.f_g), value(topo.fidelity(0, 0, 1).unwrap()));
    assert_eq!(value(fidelities.f_g), value(topo.fidelity(0, 1, 0).unwrap()));
    assert_eq!(value(fidelities.f_oo), value(topo.fidelity(0, 3, 4).unwrap()));
    assert_eq!(value(fidelities.f_og), value(topo.fidelity(0, 1, 3).unwrap()));
    assert_eq!(value(fidelities.f_gg), value(topo.fidelity(0, 1, 2).unwrap()));

    assert!(topo.fidelity(0, 0, 5).is_err());
    assert!(topo.fidelity(0, 5, 0).is_err());
    assert!(topo.fidelity(0, 1, 5).is_err());
    assert!(topo.fidelity(0, 1, 1).is_err());
    assert!(topo.fidelity(0, 0, 0).is_err());
    assert!(topo.fidelity(0, 99, 1).is_err());
    assert!(topo.fidelity(99, 1, 2).is_err());
}

#[test]
fn fidelity_table_exact_values() {
    let fidelities = StaticFidelities {
        f_o: scalar(0.6),
        f_g: scalar(0.7),
        f_oo: scalar(0.8),
        f_og: scalar(0.9),
        f_gg: scalar(1.0),
    };
    let mut topo = topology(
        &[(0, 1, 1.0), (0, 2, 1.0), (0, 3, 1.0), (0, 4, 1.0), (4, 5, 1.0)],
        fidelities,
    );
    topo.set_node_type(1, NodeType::OGS).unwrap();
    topo.set_node_type(2, NodeType::OGS).unwrap();

    assert_eq!(value(topo.fidelity(0, 0, 3).unwrap()), 0.6);
    assert_eq!(value(topo.fidelity(0, 0, 1).unwrap()), 0.7);
    assert_eq!(value(topo.fidelity(0, 3, 4).unwrap()), 0.8);
    assert_eq!(value(topo.fidelity(0, 1, 3).unwrap()), 0.9);
    assert_eq!(value(topo.fidelity(0, 3, 1).unwrap()), 0.9);
    assert_eq!(value(topo.fidelity(0, 1, 2).unwrap()), 1.0);
}

#[test]
fn fidelity_is_always_from_the_table() {
    let fidelities = StaticFidelities {
        f_o: scalar(0.6),
        f_g: scalar(0.7),
        f_oo: scalar(0.8),
        f_og: scalar(0.9),
        f_gg: scalar(1.0),
    };
    let mut topo = topology(
        &[(0, 1, 1.0), (0, 2, 1.0), (1, 2, 1.0), (2, 3, 1.0)],
        fidelities,
    );
    topo.set_node_type(3, NodeType::OGS).unwrap();
    let table = [0.6, 0.7, 0.8, 0.9, 1.0];
    for tx in 0..5 {
        for u in 0..5 {
            for v in 0..5 {
                if let Ok(f) = topo.fidelity(tx, u, v) {
                    assert!(table.contains(&value(f)));
                    assert!(u != v);
                }
            }
        }
    }
}

#[test]
fn fidelity_errors_in_order() {
    let mut topo = topology(&[(0, 1, 1.0), (1, 2, 1.0), (2, 3, 1.0)], StaticFidelities::default());
    assert_eq!(topo.node_count(), 4);

    // Unknown nodes are reported first: the transmitter, then the receivers.
    assert_eq!(topo.fidelity(9, 8, 7), Err(TopologyError::UnknownNode(9)));
    assert_eq!(topo.fidelity(0, 8, 7), Err(TopologyError::UnknownNode(8)));
    assert_eq!(topo.fidelity(0, 1, 7), Err(TopologyError::UnknownNode(7)));

    // A node without transmitters.
    let mut bare = topo.node_weight(1).unwrap();
    bare.transmitters = 0;
    topo.set_node_weight(1, bare).unwrap();
    assert_eq!(topo.fidelity(1, 0, 2), Err(TopologyError::NotATransmitter(1)));
    assert_eq!(topo.fidelity(1, 0, 0), Err(TopologyError::NotATransmitter(1)));

    // An on ground station with a transmitter on board.
    topo.set_node_type(2, NodeType::OGS).unwrap();
    assert_eq!(topo.fidelity(2, 1, 3), Err(TopologyError::NotASatellite(2)));
    assert_eq!(topo.fidelity(2, 1, 1), Err(TopologyError::NotASatellite(2)));

    // The same receiver twice.
    assert_eq!(topo.fidelity(0, 1, 1), Err(TopologyError::SameReceiver(1)));
    assert_eq!(topo.fidelity(0, 0, 0), Err(TopologyError::SameReceiver(0)));

    // Missing edges: towards `u` is reported before towards `v`.
    assert_eq!(topo.fidelity(0, 0, 2), Err(TopologyError::MissingEdge(0, 2)));
    assert_eq!(topo.fidelity(0, 2, 0), Err(TopologyError::MissingEdge(0, 2)));
    assert_eq!(topo.fidelity(0, 2, 3), Err(TopologyError::MissingEdge(0, 2)));
    assert_eq!(topo.fidelity(0, 1, 3), Err(TopologyError::MissingEdge(0, 3)));
    assert_eq!(topo.fidelity(3, 2, 0), Err(TopologyError::MissingEdge(3, 0)));
}

#[test]
fn edges_are_undirected() {
    let topo = topology(&[(1, 0, 1.0)], StaticFidelities::default());
    assert!(topo.fidelity(0, 0, 1).is_ok());
    assert!(topo.fidelity(1, 1, 0).is_ok());
    assert!(topo.fidelity(0, 1, 0).is_ok());
}

#[test]
fn from_distances_makes_default_nodes() {
    let topo = topology(&[(0, 3, 5.0), (1, 0, 7.0)], StaticFidelities::default());
    assert_eq!(topo.node_count(), 4);
    for node in 0..4 {
        let w: NodeWeight = topo.node_weight(node).unwrap();
        assert_eq!(w.node_type, NodeType::SAT);
        assert_eq!(w.memory_qubits, 1);
        assert_eq!(value(w.decay_rate), 0.0);
        assert_eq!(value(w.swapping_success_prob), 1.0);
        assert_eq!(w.detectors, 1);
        assert_eq!(w.transmitters, 1);
        assert_eq!(value(w.capacity), 1.0);
        assert!(w.is_consistent());
    }
    assert!(topo.node_weight(4).is_none());
    assert_eq!(topo.graph().edge_count(), 2);
    let empty = topology(&[], StaticFidelities::default());
    assert_eq!(empty.node_count(), 0);
}

#[test]
fn default_values() {
    let f = StaticFidelities::default();
    for x in [f.f_o, f.f_g, f.f_oo, f.f_og, f.f_gg] {
        assert_eq!(value(x), 1.0);
    }
    assert_eq!(value(Scalar::zero()), 0.0);
    assert_eq!(value(Scalar::one()), 1.0);
    assert_eq!(Scalar::from_bits(7).to_bits(), 7);
    let w = NodeWeight::default();
    assert_eq!(w.to_string(), "SAT");
    assert_eq!(NodeType::SAT.to_string(), "SAT");
    assert_eq!(NodeType::OGS.to_string(), "OGS");
}

#[test]
fn set_node_type_changes_one_node() {
    let mut topo = topology(&[(0, 1, 1.0)], StaticFidelities::default());
    assert_eq!(topo.set_node_type(1, NodeType::OGS), Ok(()));
    assert_eq!(topo.node_weight(1).unwrap().node_type, NodeType::OGS);
    assert_eq!(topo.node_weight(1).unwrap().transmitters, 1);
    assert!(!topo.node_weight(1).unwrap().is_consistent());
    assert_eq!(topo.node_weight(0).unwrap().node_type, NodeType::SAT);
    assert_eq!(topo.set_node_type(2, NodeType::OGS), Err(TopologyError::UnknownNode(2)));
    assert_eq!(
        topo.set_node_weight(2, NodeWeight::default()),
        Err(TopologyError::UnknownNode(2))
    );
}

#[test]
fn distance_asks_for_paths_once() {
    let mut topo = test_graph();
    assert!(!topo.has_paths(0));
    assert_eq!(topo.distance(0, 1), Ok(Distance::PathsNeeded));
    assert_eq!(topo.distance(0, 6), Err(TopologyError::UnknownNode(6)));
    assert_eq!(topo.distance(6, 0), Err(TopologyError::UnknownNode(6)));
    assert_eq!(topo.distance(7, 6), Err(TopologyError::UnknownNode(7)));

    let outcome = shortest_paths(&topo, 0);
    assert_eq!(topo.record_paths(0, outcome), Ok(()));
    assert!(topo.has_paths(0));
    assert!(!topo.has_paths(1));
    assert_eq!(topo.distance(0, 4), Ok(Distance::Known(scalar(200.0))));
    assert_eq!(topo.distance(1, 4), Ok(Distance::PathsNeeded));

    // Paths that are recorded stay.
    let other = Paths {
        distances: vec![scalar(0.0); 6],
        predecessors: vec![None; 6],
    };
    assert!(other.describes(0, 6));
    assert_eq!(topo.record_paths(0, Ok(other)), Ok(()));
    assert_eq!(topo.distance(0, 4), Ok(Distance::Known(scalar(200.0))));
}

#[test]
fn distance_to_self_is_zero() {
    let mut topo = test_graph();
    for u in 0..6 {
        assert_eq!(distance(&mut topo, u, u), Ok(0.0));
        assert_eq!(topo.distance(u, u), Ok(Distance::Known(Scalar::zero())));
    }
}

#[test]
fn distance_is_a_metric_on_the_ring() {
    let mut topo = test_graph();
    for u in 0..6 {
        for v in 0..6 {
            let uv = distance(&mut topo, u, v).unwrap();
            assert_eq!(uv, distance(&mut topo, v, u).unwrap());
            for w in 0..6 {
                let uw = distance(&mut topo, u, w).unwrap();
                let vw = distance(&mut topo, v, w).unwrap();
                assert!(uw <= uv + vw);
            }
        }
    }
}

#[test]
fn distance_between_components() {
    let mut topo = topology(&[(0, 1, 10.0), (2, 3, 20.0)], StaticFidelities::default());
    assert_eq!(distance(&mut topo, 0, 1), Ok(10.0));
    assert_eq!(distance(&mut topo, 0, 2), Err(TopologyError::Disconnected(0, 2)));
    assert_eq!(distance(&mut topo, 3, 1), Err(TopologyError::Disconnected(3, 1)));
    assert_eq!(distance(&mut topo, 3, 2), Ok(20.0));
}

#[test]
fn negative_cycle_is_an_error() {
    let mut topo = topology(&[(0, 1, -1.0), (1, 2, 1.0)], StaticFidelities::default());
    assert_eq!(distance(&mut topo, 0, 2), Err(TopologyError::NegativeCycle(0)));
    assert!(!topo.has_paths(0));
    assert_eq!(topo.record_paths(5, Err(NegativeCycle)), Err(TopologyError::UnknownNode(5)));
}

#[test]
fn paths_must_fit_the_graph() {
    let short = Paths { distances: vec![scalar(0.0)], predecessors: vec![None] };
    assert!(short.describes(0, 1));
    assert!(!short.describes(0, 2));
    assert!(!short.describes(1, 1));
    let uneven = Paths { distances: vec![scalar(0.0); 2], predecessors: vec![None] };
    assert!(!uneven.describes(0, 2));
    let off = Paths { distances: vec![scalar(1.0), scalar(0.0)], predecessors: vec![None, None] };
    assert!(!off.describes(0, 2));
    assert!(off.describes(1, 2));
}

#[test]
fn test_physical_topology_dot() {
    let graph: PhysicalTopology = test_graph();
    let labelled = graph.graph().map(|_, node| node.to_string(), |_, edge| value(edge.distance));
    let dot = format!("{}", petgraph::dot::Dot::new(&labelled));
    println!("{}", dot);
    assert!(dot.starts_with("graph {"));
    assert_eq!(dot.matches("\"SAT\"").count(), 6);
    assert_eq!(dot.matches(" -- ").count(), 8);
    assert_eq!(dot.matches("\"100\"").count(), 6);
    assert_eq!(dot.matches("\"150\"").count(), 2);
}
