//! A network node: one NIC per peer that it shares a logical link with.

use crate::nic::{ascending, recorded, Nic, NicView, Role};
use std::collections::HashMap;
use vstd::prelude::*;

verus! {

broadcast use vstd::std_specs::hash::group_hash_axioms;

/// What a node holds.
pub struct NodeView {
    /// The identifier of the node.
    pub node_id: u32,
    /// The NICs, by the identifier of the peer.
    pub nics: Map<u32, NicView>,
}

/// A node of the quantum network.
#[derive(Debug)]
pub struct Node {
    node_id: u32,
    nics: HashMap<u32, Nic>,
}

impl View for Node {
    type V = NodeView;

    closed spec fn view(&self) -> NodeView {
        NodeView { node_id: self.node_id, nics: self.nics@.map_values(|nic: Nic| nic@) }
    }
}

impl Node {
    /// Every NIC keeps its established pairs as an ordered set.
    pub open spec fn wf(&self) -> bool {
        forall|peer: u32| #[trigger]
            self@.nics.contains_key(peer) ==> ascending(self@.nics[peer].established_pairs)
    }

    /// A node without NICs.
    pub fn new(node_id: u32) -> (node: Node)
        ensures
            node.wf(),
            node@ == (NodeView { node_id, nics: Map::empty() }),
    {
        let node = Node { node_id, nics: HashMap::new() };
        assert(node@.nics =~= Map::empty());
        node
    }

    /// The identifier of the node.
    pub fn node_id(&self) -> (id: u32)
        ensures
            id == self@.node_id,
    {
        self.node_id
    }

    /// The NIC towards `peer_id`, if there is one.
    pub fn nic(&self, peer_id: u32) -> (nic: Option<&Nic>)
        ensures
            match nic {
                Some(n) => self@.nics.contains_key(peer_id) && n@ == self@.nics[peer_id],
                None => !self@.nics.contains_key(peer_id),
            },
    {
        self.nics.get(&peer_id)
    }

    /// Add the NIC towards `peer_id`. A node has one NIC per peer: there must
    /// be none towards `peer_id` yet.
    pub fn add_nic(&mut self, peer_id: u32, role: Role, num_qubits: u32)
        requires
            old(self).wf(),
            !old(self)@.nics.contains_key(peer_id),
        ensures
            final(self).wf(),
            final(self)@ == (NodeView {
                nics: old(self)@.nics.insert(
                    peer_id,
                    NicView { role, num_qubits, established_pairs: Seq::empty() },
                ),
                ..old(self)@
            }),
    {
        let nic = Nic::new(role, num_qubits);
        self.nics.insert(peer_id, nic);
        assert(self@.nics =~= old(self)@.nics.insert(peer_id, nic@));
    }

    /// Record that the pair `pair_id` was established with `peer_id` at time
    /// `now`. The node must have a NIC towards that peer, in the role given.
    #[allow(unused_variables)]
    pub fn epr_established(&mut self, now: u64, peer_id: u32, role: Role, pair_id: u64)
        requires
            old(self).wf(),
            old(self)@.nics.contains_key(peer_id),
            old(self)@.nics[peer_id].role == role,
        ensures
            final(self).wf(),
            final(self)@ == (NodeView {
                nics: old(self)@.nics.insert(
                    peer_id,
                    NicView {
                        established_pairs: recorded(
                            old(self)@.nics[peer_id].established_pairs,
                            (now, pair_id),
                        ),
                        ..old(self)@.nics[peer_id]
                    },
                ),
                ..old(self)@
            }),
    {
        let mut nic = self.nics.remove(&peer_id).unwrap();
        assert(nic@ == old(self)@.nics[peer_id]);
        nic.epr_established(now, pair_id);
        let ghost after = nic@;
        self.nics.insert(peer_id, nic);
        assert(self@.nics =~= old(self)@.nics.insert(peer_id, after));
    }
}

} // verus!
