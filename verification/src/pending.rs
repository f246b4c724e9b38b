//! The pending-proposal table: in-flight consensus rounds, keyed by the
//! digest of the proposal payload.
//!
//! Two invariants guard the table.  Every entry's proposal id is the SHA-256
//! digest of its payload bytes, and both proposal ids and circuit ids are
//! unique across entries, so at most one proposal per circuit is in flight.

use vstd::prelude::*;
use crate::codec::parse_payload;
use crate::digest::sha256_of;
use crate::messages::{bytes_eq, str_eq, CircuitManagementPayloadView};

verus! {

/// A consensus proposal: the digest identifying it, the hash the proposer
/// declared, and the encoded list of verifiers that must concur.
pub struct Proposal {
    pub id: Vec<u8>,
    pub summary: Vec<u8>,
    pub consensus_data: Vec<u8>,
}

pub struct ProposalView {
    pub id: Seq<u8>,
    pub summary: Seq<u8>,
    pub consensus_data: Seq<u8>,
}

impl View for Proposal {
    type V = ProposalView;

    open spec fn view(&self) -> ProposalView {
        ProposalView { id: self.id@, summary: self.summary@, consensus_data: self.consensus_data@ }
    }
}

impl Clone for Proposal {
    fn clone(&self) -> (r: Self)
        ensures
            r@ == self@,
    {
        Proposal {
            id: self.id.clone(),
            summary: self.summary.clone(),
            consensus_data: self.consensus_data.clone(),
        }
    }
}

/// The circuit carried by a payload, when the payload is a canonical
/// circuit creation request.
pub open spec fn payload_circuit(b: Seq<u8>) -> Option<crate::messages::CircuitView> {
    match parse_payload(b, 0) {
        Some((p, j)) => {
            if j == b.len() {
                match p {
                    CircuitManagementPayloadView::CircuitCreateRequest(c) => Some(c),
                    CircuitManagementPayloadView::CircuitProposalVote(_) => None,
                }
            } else {
                None
            }
        },
        None => None,
    }
}

/// The circuit id named by a payload, when the payload is a canonical
/// circuit creation request.
pub open spec fn payload_circuit_id(b: Seq<u8>) -> Option<Seq<char>> {
    match payload_circuit(b) {
        Some(c) => Some(c.circuit_id),
        None => None,
    }
}

/// A pending proposal together with the raw payload it was computed from,
/// kept verbatim so the commit step replays exactly what was proposed.
pub struct PendingEntry {
    pub proposal: Proposal,
    pub payload: Vec<u8>,
    pub circuit_id: Option<String>,
}

pub struct PendingEntryView {
    pub proposal: ProposalView,
    pub payload: Seq<u8>,
    pub circuit_id: Option<Seq<char>>,
}

impl View for PendingEntry {
    type V = PendingEntryView;

    open spec fn view(&self) -> PendingEntryView {
        PendingEntryView {
            proposal: self.proposal@,
            payload: self.payload@,
            circuit_id: match self.circuit_id {
                Some(ref c) => Some(c@),
                None => None,
            },
        }
    }
}

pub open spec fn entries_view(l: Seq<PendingEntry>) -> Seq<PendingEntryView> {
    Seq::new(l.len(), |i: int| l[i]@)
}

/// Every in-flight entry is keyed by the digest of its payload: the stored
/// proposal id equals the SHA-256 of the payload bytes.
pub proof fn lemma_pending_id_is_digest(t: PendingProposalTable, i: int)
    requires
        t.wf(),
        0 <= i < t@.len(),
    ensures
        t@[i].proposal.id == sha256_of(t@[i].payload),
{
}

pub struct PendingProposalTable {
    pub entries: Vec<PendingEntry>,
}

impl View for PendingProposalTable {
    type V = Seq<PendingEntryView>;

    open spec fn view(&self) -> Seq<PendingEntryView> {
        entries_view(self.entries@)
    }
}

impl PendingProposalTable {
    /// Every entry's id is the digest of its payload, its cached circuit id
    /// is the one its payload names, and ids and circuit ids are unique.
    pub open spec fn wf(self) -> bool {
        &&& forall|i: int|
            0 <= i < self@.len() ==> (#[trigger] self@[i]).proposal.id == sha256_of(
                self@[i].payload,
            )
        &&& forall|i: int|
            0 <= i < self@.len() ==> (#[trigger] self@[i]).circuit_id == payload_circuit_id(
                self@[i].payload,
            )
        &&& forall|i: int, j: int|
            0 <= i < j < self@.len() ==> (#[trigger] self@[i]).proposal.id != (
            #[trigger] self@[j]).proposal.id
        &&& forall|i: int, j: int|
            0 <= i < j < self@.len() && (#[trigger] self@[i]).circuit_id is Some ==> self@[i].circuit_id
                != (#[trigger] self@[j]).circuit_id
    }

    pub open spec fn has_id(self, id: Seq<u8>) -> bool {
        exists|i: int| 0 <= i < self@.len() && (#[trigger] self@[i]).proposal.id == id
    }

    /// The entry pending under `id`; meaningful when `has_id` holds, and
    /// unique then because ids are unique.
    pub open spec fn entry_of(self, id: Seq<u8>) -> PendingEntryView
        recommends
            self.has_id(id),
    {
        self@[choose|i: int| 0 <= i < self@.len() && (#[trigger] self@[i]).proposal.id == id]
    }

    pub open spec fn has_circuit(self, cid: Seq<char>) -> bool {
        exists|i: int| 0 <= i < self@.len() && (#[trigger] self@[i]).circuit_id == Some(cid)
    }

    pub fn new() -> (r: Self)
        ensures
            r@ == Seq::<PendingEntryView>::empty(),
            r.wf(),
    {
        let r = PendingProposalTable { entries: Vec::new() };
        proof {
            assert(r@ =~= Seq::<PendingEntryView>::empty());
        }
        r
    }

    pub fn contains_id(&self, id: &Vec<u8>) -> (r: bool)
        ensures
            r == self.has_id(id@),
    {
        let mut i: usize = 0;
        while i < self.entries.len()
            invariant
                i <= self.entries@.len(),
                forall|k: int| 0 <= k < i ==> (#[trigger] self@[k]).proposal.id != id@,
            decreases self.entries@.len() - i,
        {
            if bytes_eq(&self.entries[i].proposal.id, id) {
                proof {
                    assert(self@[i as int].proposal.id == id@);
                }
                return true;
            }
            i = i + 1;
        }
        false
    }

    pub fn contains_circuit(&self, cid: &str) -> (r: bool)
        ensures
            r == self.has_circuit(cid@),
    {
        let mut i: usize = 0;
        while i < self.entries.len()
            invariant
                i <= self.entries@.len(),
                forall|k: int| 0 <= k < i ==> (#[trigger] self@[k]).circuit_id != Some(cid@),
            decreases self.entries@.len() - i,
        {
            let hit = match &self.entries[i].circuit_id {
                Some(c) => str_eq(c.as_str(), cid),
                None => false,
            };
            if hit {
                proof {
                    assert(self@[i as int].circuit_id == Some(cid@));
                }
                return true;
            }
            i = i + 1;
        }
        false
    }

    /// Records a new in-flight proposal.  The caller supplies the digest
    /// invariant and the cached circuit id; insertion refuses duplicates by
    /// precondition.
    pub fn insert(&mut self, proposal: Proposal, payload: Vec<u8>, circuit_id: Option<String>)
        requires
            old(self).wf(),
            proposal@.id == sha256_of(payload@),
            (match circuit_id {
                Some(ref c) => payload_circuit_id(payload@) == Some(c@),
                None => payload_circuit_id(payload@) is None,
            }),
            !old(self).has_id(proposal@.id),
            (match circuit_id {
                Some(ref c) => !old(self).has_circuit(c@),
                None => true,
            }),
        ensures
            final(self).wf(),
            final(self)@ == old(self)@.push(
                PendingEntryView {
                    proposal: proposal@,
                    payload: payload@,
                    circuit_id: match circuit_id {
                        Some(ref c) => Some(c@),
                        None => None,
                    },
                },
            ),
    {
        let ghost oldv = self@;
        self.entries.push(PendingEntry { proposal, payload, circuit_id });
        proof {
            let n = self@.len() as int;
            assert(self@ =~= oldv.push(self@[n - 1]));
        }
    }

    /// The pending entry for `id`, if one is in flight.
    pub fn get(&self, id: &Vec<u8>) -> (r: Option<&PendingEntry>)
        requires
            self.wf(),
        ensures
            (match r {
                Some(e) => {
                    &&& self.has_id(id@)
                    &&& e@.proposal.id == id@
                    &&& e@ == self.entry_of(id@)
                },
                None => !self.has_id(id@),
            }),
    {
        let mut i: usize = 0;
        while i < self.entries.len()
            invariant
                self.wf(),
                i <= self.entries@.len(),
                forall|k: int| 0 <= k < i ==> (#[trigger] self@[k]).proposal.id != id@,
            decreases self.entries@.len() - i,
        {
            if bytes_eq(&self.entries[i].proposal.id, id) {
                proof {
                    assert(self@[i as int].proposal.id == id@);
                    assert(self.has_id(id@));
                    let c = choose|i: int|
                        0 <= i < self@.len() && (#[trigger] self@[i]).proposal.id == id@;
                    if c != i as int {
                        assert(self@[c].proposal.id != self@[i as int].proposal.id);
                    }
                    assert(self.entry_of(id@) == self@[i as int]);
                }
                return Some(&self.entries[i]);
            }
            i = i + 1;
        }
        None
    }

    /// Removes and returns the entry for `id`, if one is pending.
    #[verifier::rlimit(50)]
    pub fn take(&mut self, id: &Vec<u8>) -> (r: Option<PendingEntry>)
        requires
            old(self).wf(),
        ensures
            final(self).wf(),
            (match r {
                Some(e) => {
                    &&& old(self).has_id(id@)
                    &&& e@.proposal.id == id@
                    &&& e@ == old(self).entry_of(id@)
                    &&& e@.proposal.id == sha256_of(e@.payload)
                    &&& e@.circuit_id == payload_circuit_id(e@.payload)
                    &&& exists|idx: int|
                        0 <= idx < old(self)@.len() && old(self)@[idx] == e@ && final(self)@ == old(
                            self,
                        )@.remove(idx)
                    &&& !final(self).has_id(id@)
                },
                None => !old(self).has_id(id@) && *final(self) == *old(self),
            }),
    {
        let ghost oldv = self@;
        let mut i: usize = 0;
        while i < self.entries.len()
            invariant
                i <= self.entries@.len(),
                self@ == oldv,
                *self == *old(self),
                old(self).wf(),
                self.wf(),
                forall|k: int| 0 <= k < i ==> (#[trigger] self@[k]).proposal.id != id@,
            decreases self.entries@.len() - i,
        {
            if bytes_eq(&self.entries[i].proposal.id, id) {
                let e = self.entries.remove(i);
                proof {
                    assert(oldv[i as int] == e@);
                    assert(old(self).has_id(id@));
                    let c = choose|i: int|
                        0 <= i < oldv.len() && (#[trigger] oldv[i]).proposal.id == id@;
                    if c != i as int {
                        assert(oldv[c].proposal.id != oldv[i as int].proposal.id);
                    }
                    assert(old(self).entry_of(id@) == oldv[i as int]);
                    assert(self@ =~= oldv.remove(i as int));
                    assert forall|w: int|
                        0 <= w < self@.len() implies (#[trigger] self@[w]).proposal.id != id@ by {
                        if w < i {
                            assert(self@[w] == oldv[w]);
                        } else {
                            assert(self@[w] == oldv[w + 1]);
                            assert(oldv[i as int].proposal.id == id@);
                        }
                    }
                }
                return Some(e);
            }
            i = i + 1;
        }
        None
    }
}

} // verus!
