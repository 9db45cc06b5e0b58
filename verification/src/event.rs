//! Simulation events.

use crate::nic::Role;
use crate::output::Sample;
use std::cmp::Ordering;
use vstd::prelude::*;
use vstd::std_specs::cmp::PartialOrdSpecImpl;

verus! {

/// A transmitter has generated an EPR pair for a logical link.
#[derive(Clone, Copy, Debug, PartialEq, Eq, Structural)]
pub struct EprGeneratedData {
    pub tx_node_id: u32,
    pub master_node_id: u32,
    pub slave_node_id: u32,
}

/// A node is told that it now shares an EPR pair with a peer.
#[derive(Clone, Copy, Debug, PartialEq, Eq, Structural)]
pub struct EprNotifiedData {
    pub this_node_id: u32,
    pub peer_node_id: u32,
    pub role: Role,
    pub epr_pair_id: u64,
}

/// What happens in an event.
#[derive(Clone, Copy, Debug, PartialEq, Eq, Structural)]
pub enum EventType {
    /// The warm-up period expires.
    WarmupPeriodEnd,
    /// The simulation ends.
    ExperimentEnd,
    /// Print progress.
    Progress(u16),
    /// New EPR generated by a tx.
    EprGenerated(EprGeneratedData),
    /// EPR pair notified at a node.
    EprNotified(EprNotifiedData),
}

/// A simulation event: something that happens at a time, in ns.
///
/// The time of an event in the queue of the engine counts from the start of
/// the simulation. The time of an event that a handler returns counts from
/// the event that was handled.
#[derive(Clone, Copy, Debug, PartialEq, Eq, Structural)]
pub struct Event {
    pub time: u64,
    pub event_type: EventType,
}

impl Event {
    /// The time of the event, in ns.
    pub open spec fn spec_time(&self) -> u64 {
        self.time
    }

    /// The event of type `event_type` at `time` ns.
    pub fn new(time: u64, event_type: EventType) -> (event: Event)
        ensures
            event == (Event { time, event_type }),
    {
        Self { time, event_type }
    }

    /// The time of the event, in ns.
    #[verifier::when_used_as_spec(spec_time)]
    pub fn time(&self) -> (time: u64)
        ensures
            time == self.spec_time(),
    {
        self.time
    }

    /// Move the event `advance_time` ns into the future. The new time must be
    /// a `u64`.
    pub fn advance(&mut self, advance_time: u64)
        requires
            old(self).time + advance_time <= u64::MAX,
        ensures
            *final(self) == (Event { time: (old(self).time + advance_time) as u64, ..*old(self) }),
    {
        self.time += advance_time
    }
}

/// Events are ordered by urgency: the earlier of two events is the greater.
/// Events at the same time are equally urgent, whatever happens in them.
impl PartialOrd for Event {
    fn partial_cmp(&self, other: &Self) -> (r: Option<Ordering>) {
        other.time.partial_cmp(&self.time)
    }
}

impl PartialOrdSpecImpl for Event {
    open spec fn obeys_partial_cmp_spec() -> bool {
        true
    }

    open spec fn partial_cmp_spec(&self, other: &Self) -> Option<Ordering> {
        if other.time < self.time {
            Some(Ordering::Less)
        } else if other.time == self.time {
            Some(Ordering::Equal)
        } else {
            Some(Ordering::Greater)
        }
    }
}

/// What reacts to the events of a simulation.
///
/// The events that a handler returns carry times that count from the event
/// handled; the engine turns them into times of the simulation.
pub trait EventHandler {
    /// React to `event`: return the events that follow from it and the samples
    /// to record.
    fn handle(&mut self, event: Event) -> (Vec<Event>, Vec<Sample>);

    /// The events that start the handler off.
    fn initial(&mut self) -> Vec<Event>;
}

} // verus!
