//! The quantum-memory interface that a node keeps towards one peer.

use vstd::prelude::*;

verus! {

/// The part that a node plays on a logical link. It is fixed when the link is
/// set up.
#[derive(Clone, Copy, Debug, PartialEq, Eq, Structural)]
pub enum Role {
    Master,
    Slave,
}

impl Role {
    /// The role of the node at the other end of the link.
    pub open spec fn spec_opposite(self) -> Role {
        match self {
            Role::Master => Role::Slave,
            Role::Slave => Role::Master,
        }
    }

    /// The role of the node at the other end of the link.
    #[verifier::when_used_as_spec(spec_opposite)]
    pub fn opposite(self) -> (r: Role)
        ensures
            r == self.spec_opposite(),
    {
        match self {
            Role::Master => Role::Slave,
            Role::Slave => Role::Master,
        }
    }
}

/// An established pair as a NIC records it: the time it was established at,
/// in ns, and the pair identifier.
pub type PairRecord = (u64, u64);

/// The order of pair records: by time, then by pair identifier.
pub open spec fn record_lt(a: PairRecord, b: PairRecord) -> bool {
    a.0 < b.0 || (a.0 == b.0 && a.1 < b.1)
}

/// Whether the records ascend strictly, so that none occurs twice.
pub open spec fn ascending(s: Seq<PairRecord>) -> bool {
    forall|i: int, j: int| 0 <= i < j < s.len() ==> record_lt(#[trigger] s[i], #[trigger] s[j])
}

/// The records `s` with `x` put in its place, unless it is there already.
pub open spec fn recorded(s: Seq<PairRecord>, x: PairRecord) -> Seq<PairRecord>
    decreases s.len(),
{
    if s.len() == 0 {
        seq![x]
    } else if record_lt(s.last(), x) {
        s.push(x)
    } else if s.last() == x {
        s
    } else {
        recorded(s.drop_last(), x).push(s.last())
    }
}

/// Putting a record into ascending records leaves them ascending, and adds
/// that record and no other.
pub proof fn lemma_recorded(s: Seq<PairRecord>, x: PairRecord)
    requires
        ascending(s),
    ensures
        ascending(recorded(s, x)),
        forall|y: PairRecord|
            #![trigger recorded(s, x).contains(y)]
            #![trigger s.contains(y)]
            recorded(s, x).contains(y) <==> (y == x || s.contains(y)),
        recorded(s, x).len() == if s.contains(x) { s.len() } else { s.len() + 1 },
    decreases s.len(),
{
    let r = recorded(s, x);
    if s.len() == 0 {
        assert(r[0] == x);
        assert forall|y: PairRecord| r.contains(y) <==> (y == x || s.contains(y)) by {}
    } else if record_lt(s.last(), x) {
        assert(r.last() == x);
        assert forall|y: PairRecord| r.contains(y) <==> (y == x || s.contains(y)) by {
            if s.contains(y) {
                let i = choose|i: int| 0 <= i < s.len() && s[i] == y;
                assert(r[i] == y);
            }
        }
        assert(!s.contains(x)) by {
            if s.contains(x) {
                let i = choose|i: int| 0 <= i < s.len() && s[i] == x;
                assert(i == s.len() - 1 || record_lt(s[i], s[s.len() - 1]));
            }
        }
    } else if s.last() == x {
        assert(s[s.len() - 1] == x);
    } else {
        let head = s.drop_last();
        let inner = recorded(head, x);
        assert(ascending(head));
        lemma_recorded(head, x);
        assert(r == inner.push(s.last()));
        assert forall|y: PairRecord| r.contains(y) <==> (y == x || s.contains(y)) by {
            if r.contains(y) {
                let i = choose|i: int| 0 <= i < r.len() && r[i] == y;
                if i < inner.len() {
                    assert(inner[i] == y);
                    assert(inner.contains(y));
                    if y != x {
                        let k = choose|k: int| 0 <= k < head.len() && head[k] == y;
                        assert(s[k] == y);
                    }
                } else {
                    assert(y == s[s.len() - 1]);
                }
            }
            if y == x {
                assert(inner.contains(x));
                let i = choose|i: int| 0 <= i < inner.len() && inner[i] == x;
                assert(r[i] == x);
            } else if s.contains(y) {
                let k = choose|k: int| 0 <= k < s.len() && s[k] == y;
                if k < head.len() {
                    assert(head[k] == y);
                    assert(inner.contains(y));
                    let i = choose|i: int| 0 <= i < inner.len() && inner[i] == y;
                    assert(r[i] == y);
                } else {
                    assert(r[r.len() - 1] == y);
                }
            }
        }
        assert(ascending(r)) by {
            assert forall|i: int, j: int| 0 <= i < j < r.len() implies record_lt(r[i], r[j]) by {
                if j < inner.len() {
                    assert(record_lt(inner[i], inner[j]));
                } else {
                    assert(r[j] == s.last());
                    assert(inner.contains(inner[i]));
                    if inner[i] != x {
                        let k = choose|k: int| 0 <= k < head.len() && head[k] == inner[i];
                        assert(record_lt(s[k], s[s.len() - 1]));
                    }
                }
            }
        }
        assert(head.contains(x) <==> s.contains(x)) by {
            if head.contains(x) {
                let k = choose|k: int| 0 <= k < head.len() && head[k] == x;
                assert(s[k] == x);
            }
            if s.contains(x) {
                let k = choose|k: int| 0 <= k < s.len() && s[k] == x;
                assert(head[k] == x);
            }
        }
    }
}

/// What a NIC holds.
pub struct NicView {
    /// The role of the node that owns the NIC.
    pub role: Role,
    /// The number of memory qubits.
    pub num_qubits: u32,
    /// The established pairs, ascending by time and pair identifier.
    pub established_pairs: Seq<PairRecord>,
}

/// The interface of a node towards one peer: a bank of memory qubits, and the
/// pairs established with that peer.
#[derive(Debug)]
pub struct Nic {
    role: Role,
    num_qubits: u32,
    established_pairs: Vec<PairRecord>,
}

impl View for Nic {
    type V = NicView;

    closed spec fn view(&self) -> NicView {
        NicView {
            role: self.role,
            num_qubits: self.num_qubits,
            established_pairs: self.established_pairs@,
        }
    }
}

impl Nic {
    /// The established pairs are kept as an ordered set.
    pub open spec fn wf(&self) -> bool {
        ascending(self@.established_pairs)
    }

    /// A NIC with no pair established.
    pub fn new(role: Role, num_qubits: u32) -> (nic: Nic)
        ensures
            nic.wf(),
            nic@ == (NicView { role, num_qubits, established_pairs: Seq::empty() }),
    {
        Nic { role, num_qubits, established_pairs: Vec::new() }
    }

    /// The role of the node that owns the NIC.
    pub fn role(&self) -> (r: Role)
        ensures
            r == self@.role,
    {
        self.role
    }

    /// The number of memory qubits.
    pub fn num_qubits(&self) -> (n: u32)
        ensures
            n == self@.num_qubits,
    {
        self.num_qubits
    }

    /// The established pairs, ascending by time and pair identifier.
    pub fn established_pairs(&self) -> (pairs: &Vec<PairRecord>)
        ensures
            pairs@ == self@.established_pairs,
    {
        &self.established_pairs
    }

    /// Record that the pair `pair_id` was established at time `now`.
    pub fn epr_established(&mut self, now: u64, pair_id: u64)
        requires
            old(self).wf(),
        ensures
            final(self).wf(),
            final(self)@ == (NicView {
                established_pairs: recorded(old(self)@.established_pairs, (now, pair_id)),
                ..old(self)@
            }),
    {
        let ghost before = self.established_pairs@;
        let mut k: usize = self.established_pairs.len();
        assert(before.take(k as int) + before.skip(k as int) =~= before);
        assert(before.take(k as int) =~= before);
        assert(recorded(before, (now, pair_id)) + before.skip(k as int) =~= recorded(
            before,
            (now, pair_id),
        ));
        while k > 0 && (self.established_pairs[k - 1].0 > now || (self.established_pairs[k - 1].0
            == now && self.established_pairs[k - 1].1 > pair_id))
            invariant
                k <= before.len(),
                self.established_pairs@ == before,
                recorded(before, (now, pair_id)) == recorded(before.take(k as int), (now, pair_id))
                    + before.skip(k as int),
            decreases k,
        {
            proof {
                let head = before.take(k as int);
                assert(head.last() == before[k - 1]);
                assert(head.drop_last() =~= before.take(k - 1));
                assert(recorded(head, (now, pair_id)) == recorded(
                    before.take(k - 1),
                    (now, pair_id),
                ).push(before[k - 1]));
                assert(recorded(before.take(k - 1), (now, pair_id)).push(before[k - 1])
                    + before.skip(k as int) =~= recorded(before.take(k - 1), (now, pair_id))
                    + before.skip(k - 1));
            }
            k -= 1;
        }
        proof {
            lemma_recorded(before, (now, pair_id));
            let head = before.take(k as int);
            if k > 0 {
                assert(head.last() == before[k - 1]);
            }
        }
        if k > 0 && self.established_pairs[k - 1].0 == now && self.established_pairs[k - 1].1
            == pair_id {
            assert(before.take(k as int) + before.skip(k as int) =~= before);
        } else {
            self.established_pairs.insert(k, (now, pair_id));
            assert(self.established_pairs@ =~= recorded(before, (now, pair_id))) by {
                let head = before.take(k as int);
                if k > 0 {
                    assert(record_lt(head.last(), (now, pair_id)));
                }
                assert(recorded(head, (now, pair_id)) =~= head.push((now, pair_id)));
            }
        }
    }
}

} // verus!
