//! The samples that a simulation records.
//!
//! An EPR pair is sampled once, when it is generated and registered. The
//! notifications that follow at the two ends of the link are not sampled.

use crate::scalar::Scalar;
use vstd::prelude::*;

verus! {

/// What a sample reports.
#[derive(Clone, Copy, Debug, PartialEq, Eq, Structural)]
pub enum SampleKind {
    /// An EPR pair was generated and registered.
    PairCreated {
        pair_id: u64,
        tx_node_id: u32,
        master_node_id: u32,
        slave_node_id: u32,
        fidelity: Scalar,
    },
    /// The simulation has reached this percentage of its duration.
    Progress(u16),
}

/// One observation, taken at a time of the simulation.
#[derive(Clone, Copy, Debug, PartialEq, Eq, Structural)]
pub struct Sample {
    /// The time of the observation, in ns.
    pub time_ns: u64,
    /// What was observed.
    pub kind: SampleKind,
}

} // verus!
