//! The register of EPR pairs: it hands out the pair identifiers and keeps a
//! record of every pair.

use crate::scalar::Scalar;
use vstd::prelude::*;

verus! {

/// The record of one EPR pair.
#[derive(Clone, Copy, Debug, PartialEq, Eq, Structural)]
pub struct EprPair {
    /// The identifier of the pair.
    pub pair_id: u64,
    /// The node that received one photon as master.
    pub master_node_id: u32,
    /// The node that received the other photon as slave.
    pub slave_node_id: u32,
    /// The time at which the pair was generated, in ns.
    pub birth_time_ns: u64,
    /// The fidelity of the pair when it was generated.
    pub initial_fidelity: Scalar,
}

/// Whether the records are those of pairs numbered from 0 in the order of
/// issue.
pub open spec fn numbered_in_order(pairs: Seq<EprPair>) -> bool {
    forall|i: int| 0 <= i < pairs.len() ==> (#[trigger] pairs[i]).pair_id == i
}

/// The register `pairs` after a pair between `master_node_id` and
/// `slave_node_id` was registered at time `now` with fidelity `fidelity`, and
/// the identifier of that pair: the number of pairs registered before it.
pub open spec fn registered(
    pairs: Seq<EprPair>,
    master_node_id: u32,
    slave_node_id: u32,
    now: u64,
    fidelity: Scalar,
) -> (Seq<EprPair>, u64) {
    let pair_id = pairs.len() as u64;
    (
        pairs.push(
            EprPair {
                pair_id,
                master_node_id,
                slave_node_id,
                birth_time_ns: now,
                initial_fidelity: fidelity,
            },
        ),
        pair_id,
    )
}

/// Identifier uniqueness: of two pairs that one register takes in, with any
/// number of pairs taken in between, the later has the larger identifier.
pub proof fn lemma_later_pair_has_larger_identifier(
    pairs: Seq<EprPair>,
    first: EprPair,
    between: Seq<EprPair>,
    second: EprPair,
)
    requires
        pairs.len() + between.len() + 1 < u64::MAX,
    ensures
        ({
            let (after_first, first_id) = registered(
                pairs,
                first.master_node_id,
                first.slave_node_id,
                first.birth_time_ns,
                first.initial_fidelity,
            );
            let (_, second_id) = registered(
                after_first + between,
                second.master_node_id,
                second.slave_node_id,
                second.birth_time_ns,
                second.initial_fidelity,
            );
            first_id < second_id
        }),
{
}

/// The register of the EPR pairs generated so far.
///
/// Its view is the sequence of the records, in the order of issue. The next
/// identifier to be issued is the number of records.
#[derive(Debug)]
pub struct EprRegister {
    next_pair_id: u64,
    pairs: Vec<EprPair>,
}

impl View for EprRegister {
    type V = Seq<EprPair>;

    closed spec fn view(&self) -> Seq<EprPair> {
        self.pairs@
    }
}

impl Default for EprRegister {
    /// A register with no pair.
    fn default() -> (register: EprRegister)
        ensures
            register.wf(),
            register@ == Seq::<EprPair>::empty(),
    {
        EprRegister::new()
    }
}

impl EprRegister {
    /// The counter and the records agree, and the records are numbered from 0
    /// in the order of issue.
    pub closed spec fn wf(&self) -> bool {
        &&& self.next_pair_id == self.pairs@.len()
        &&& numbered_in_order(self.pairs@)
    }

    /// A register with no pair.
    pub fn new() -> (register: EprRegister)
        ensures
            register.wf(),
            register@ == Seq::<EprPair>::empty(),
    {
        EprRegister { next_pair_id: 0, pairs: Vec::new() }
    }

    /// The identifier that the next pair will get.
    pub fn next_pair_id(&self) -> (id: u64)
        requires
            self.wf(),
        ensures
            id == self@.len(),
    {
        self.next_pair_id
    }

    /// The record of the pair `pair_id`, if it was issued.
    pub fn pair(&self, pair_id: u64) -> (pair: Option<EprPair>)
        requires
            self.wf(),
        ensures
            pair == if pair_id < self@.len() {
                Some(self@[pair_id as int])
            } else {
                None
            },
            pair matches Some(p) ==> p.pair_id == pair_id,
    {
        let issued = self.pairs.len();
        if pair_id < self.next_pair_id {
            assert(pair_id < issued);
            Some(self.pairs[pair_id as usize])
        } else {
            None
        }
    }

    /// Register a new EPR pair between `master_node_id` and `slave_node_id`,
    /// generated at time `now` with fidelity `fidelity`, and return its
    /// identifier: the number of pairs registered before it.
    ///
    /// The identifiers run out at `u64::MAX`.
    pub fn new_epr_pair(
        &mut self,
        master_node_id: u32,
        slave_node_id: u32,
        now: u64,
        fidelity: Scalar,
    ) -> (pair_id: u64)
        requires
            old(self).wf(),
            old(self)@.len() < u64::MAX,
        ensures
            final(self).wf(),
            (final(self)@, pair_id) == registered(
                old(self)@,
                master_node_id,
                slave_node_id,
                now,
                fidelity,
            ),
    {
        let pair_id = self.next_pair_id;
        self.pairs.push(
            EprPair {
                pair_id,
                master_node_id,
                slave_node_id,
                birth_time_ns: now,
                initial_fidelity: fidelity,
            },
        );
        self.next_pair_id = pair_id + 1;
        pair_id
    }

    /// The identifiers issued are 0, 1, 2, ... in the order of issue: the
    /// record of the `i`-th pair carries the identifier `i`, which is what
    /// `new_epr_pair` returned for it.
    pub proof fn lemma_identifiers_count_up(&self, i: int)
        requires
            self.wf(),
            0 <= i < self@.len(),
        ensures
            self@[i].pair_id == i,
    {
    }

    /// Two pairs issued by one register have different identifiers, and the
    /// later one has the larger.
    pub proof fn lemma_identifiers_differ(&self, i: int, j: int)
        requires
            self.wf(),
            0 <= i < j < self@.len(),
        ensures
            self@[i].pair_id < self@[j].pair_id,
    {
    }
}

} // verus!
