//! Core of a discrete-event simulator for satellite-based quantum networks
//! that entangle distant nodes by distributing EPR pairs.

pub mod engine;
pub mod epr_register;
pub mod event;
pub mod graph;
pub mod logical_topology;
pub mod network;
pub mod nic;
pub mod node;
pub mod output;
pub mod physical_topology;
pub mod scalar;
