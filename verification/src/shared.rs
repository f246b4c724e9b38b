//! The admin shared state: the serialized guardian of the pending-proposal
//! table, the authorization tracker, the subscriber registry, the circuit
//! directory, and the network-sender handle.
//!
//! Outbound traffic is modelled as queues.  The network sender records the
//! envelopes enqueued for peers, the consensus update queue records what the
//! admin hands its consensus engine, and the started-service list records
//! the orchestration requests; the surrounding runtime drains all three.

use vstd::prelude::*;
use vstd::utf8::encode_utf8;
use crate::codec::{
    enc_admin, enc_bytes_list, enc_payload, emit_bytes_list, encode_admin_message, encode_payload,
    lemma_payload_round_trip,
};
use crate::digest::{sha256_of, sha256_raw};
use crate::directory::CircuitDirectory;
use crate::messages::{
    byte_vecs_view, bytes_eq, nodes_view, str_eq, AdminError, AdminMessage, AdminMessageView,
    Circuit, CircuitManagementPayload, CircuitManagementPayloadView, CircuitProposalVote,
    CircuitView, SplinterNode, SplinterNodeView, SplinterServiceView,
};
use crate::pending::{
    payload_circuit, payload_circuit_id, PendingEntryView, PendingProposalTable, Proposal,
    ProposalView,
};
use crate::registry::{
    broadcast_spec, AdminEvent, AdminEventKind, SubscriberRegistry,
};
use crate::tracker::{find_state, AuthorizationTracker, PeerAuthorizationState, PeerEntryView};

verus! {

/// The admin service identifier of a node: `admin::` followed by its id.
pub open spec fn admin_id_of(node: Seq<char>) -> Seq<char> {
    "admin::"@ + node
}

/// An envelope enqueued on the network sender.
pub struct Envelope {
    pub recipient: String,
    pub bytes: Vec<u8>,
}

pub struct EnvelopeView {
    pub recipient: Seq<char>,
    pub bytes: Seq<u8>,
}

impl View for Envelope {
    type V = EnvelopeView;

    open spec fn view(&self) -> EnvelopeView {
        EnvelopeView { recipient: self.recipient@, bytes: self.bytes@ }
    }
}

pub open spec fn sends_view(l: Seq<Envelope>) -> Seq<EnvelopeView> {
    Seq::new(l.len(), |i: int| l[i]@)
}

/// The handle obtained from the network registry while the service is
/// started: a non-blocking queue of outbound envelopes that the runtime
/// drains onto the wire.
pub struct NetworkSender {
    pub sent: Vec<Envelope>,
}

impl NetworkSender {
    pub fn new() -> (r: Self)
        ensures
            sends_view(r.sent@) == Seq::<EnvelopeView>::empty(),
    {
        let r = NetworkSender { sent: Vec::new() };
        proof {
            assert(sends_view(r.sent@) =~= Seq::<EnvelopeView>::empty());
        }
        r
    }
}

/// A broadcast held back because its peer is not yet authorized.
pub struct QueuedSend {
    pub peer_id: String,
    pub envelope: Envelope,
}

pub struct QueuedSendView {
    pub peer_id: Seq<char>,
    pub envelope: EnvelopeView,
}

impl View for QueuedSend {
    type V = QueuedSendView;

    open spec fn view(&self) -> QueuedSendView {
        QueuedSendView { peer_id: self.peer_id@, envelope: self.envelope@ }
    }
}

pub open spec fn queued_view(l: Seq<QueuedSend>) -> Seq<QueuedSendView> {
    Seq::new(l.len(), |i: int| l[i]@)
}

/// An update handed to the consensus engine.
pub enum ProposalUpdate {
    ProposalReceived(Proposal, Vec<u8>),
    ProposalAccepted(Vec<u8>),
    ProposalRejected(Vec<u8>),
    ConsensusMessage(Vec<u8>),
}

pub enum ProposalUpdateView {
    ProposalReceived(ProposalView, Seq<u8>),
    ProposalAccepted(Seq<u8>),
    ProposalRejected(Seq<u8>),
    ConsensusMessage(Seq<u8>),
}

impl View for ProposalUpdate {
    type V = ProposalUpdateView;

    open spec fn view(&self) -> ProposalUpdateView {
        match self {
            ProposalUpdate::ProposalReceived(p, f) => ProposalUpdateView::ProposalReceived(
                p@,
                f@,
            ),
            ProposalUpdate::ProposalAccepted(i) => ProposalUpdateView::ProposalAccepted(i@),
            ProposalUpdate::ProposalRejected(i) => ProposalUpdateView::ProposalRejected(i@),
            ProposalUpdate::ConsensusMessage(b) => ProposalUpdateView::ConsensusMessage(b@),
        }
    }
}

pub open spec fn updates_view(l: Seq<ProposalUpdate>) -> Seq<ProposalUpdateView> {
    Seq::new(l.len(), |i: int| l[i]@)
}

// ---------------------------------------------------------------------------
// Circuit validity
// ---------------------------------------------------------------------------

pub open spec fn member_ids_contain(ms: Seq<SplinterNodeView>, id: Seq<char>) -> bool {
    exists|i: int| 0 <= i < ms.len() && (#[trigger] ms[i]).node_id == id
}

pub open spec fn members_unique(ms: Seq<SplinterNodeView>) -> bool {
    forall|i: int, j: int|
        0 <= i < j < ms.len() ==> (#[trigger] ms[i]).node_id != (#[trigger] ms[j]).node_id
}

pub open spec fn roster_unique(rs: Seq<SplinterServiceView>) -> bool {
    forall|i: int, j: int|
        0 <= i < j < rs.len() ==> (#[trigger] rs[i]).service_id != (#[trigger] rs[j]).service_id
}

pub open spec fn allowed_ok(rs: Seq<SplinterServiceView>, ms: Seq<SplinterNodeView>) -> bool {
    forall|i: int, k: int|
        #![auto]
        0 <= i < rs.len() && 0 <= k < rs[i].allowed_nodes.len() ==> member_ids_contain(
            ms,
            rs[i].allowed_nodes[k],
        )
}

/// The validity rules a proposed circuit must meet: a named circuit with at
/// least two distinct members, a roster of distinct services, and every
/// allowed node drawn from the membership.
pub open spec fn circuit_valid(c: CircuitView) -> bool {
    &&& c.circuit_id.len() > 0
    &&& c.members.len() >= 2
    &&& members_unique(c.members)
    &&& roster_unique(c.roster)
    &&& allowed_ok(c.roster, c.members)
}

fn contains_member_id(members: &Vec<SplinterNode>, id: &str) -> (r: bool)
    ensures
        r == member_ids_contain(nodes_view(members@), id@),
{
    let mut i: usize = 0;
    while i < members.len()
        invariant
            i <= members@.len(),
            forall|k: int|
                0 <= k < i ==> (#[trigger] nodes_view(members@)[k]).node_id != id@,
        decreases members@.len() - i,
    {
        if str_eq(members[i].node_id.as_str(), id) {
            proof {
                assert(nodes_view(members@)[i as int].node_id == id@);
            }
            return true;
        }
        i = i + 1;
    }
    false
}

/// Checks every validity rule of `circuit_valid` on an actual circuit.
pub fn validate_circuit(c: &Circuit) -> (r: bool)
    ensures
        r == circuit_valid(c@),
{
    if c.circuit_id.as_str().is_empty() {
        return false;
    }
    if c.members.len() < 2 {
        return false;
    }
    let ghost ms = nodes_view(c.members@);
    let ghost rs = crate::messages::services_view(c.roster@);
    let mut j: usize = 1;
    while j < c.members.len()
        invariant
            1 <= j <= c.members@.len(),
            ms == nodes_view(c.members@),
            forall|a: int, b: int|
                0 <= a < b < j ==> (#[trigger] ms[a]).node_id != (#[trigger] ms[b]).node_id,
        decreases c.members@.len() - j,
    {
        let mut i: usize = 0;
        while i < j
            invariant
                0 <= i <= j < c.members@.len(),
                ms == nodes_view(c.members@),
                forall|a: int| 0 <= a < i ==> (#[trigger] ms[a]).node_id != ms[j as int].node_id,
            decreases j - i,
        {
            if str_eq(c.members[i].node_id.as_str(), c.members[j].node_id.as_str()) {
                proof {
                    assert(ms[i as int].node_id == ms[j as int].node_id);
                }
                return false;
            }
            i = i + 1;
        }
        j = j + 1;
    }
    let mut j: usize = 1;
    while j < c.roster.len()
        invariant
            c.roster@.len() > 0 ==> 1 <= j,
            j <= c.roster@.len() || c.roster@.len() == 0,
            rs == crate::messages::services_view(c.roster@),
            forall|a: int, b: int|
                0 <= a < b < j ==> (#[trigger] rs[a]).service_id != (#[trigger] rs[b]).service_id,
        decreases c.roster@.len() - j,
    {
        let mut i: usize = 0;
        while i < j
            invariant
                0 <= i <= j < c.roster@.len(),
                rs == crate::messages::services_view(c.roster@),
                forall|a: int| 0 <= a < i ==> (#[trigger] rs[a]).service_id != rs[j as int].service_id,
            decreases j - i,
        {
            if str_eq(c.roster[i].service_id.as_str(), c.roster[j].service_id.as_str()) {
                proof {
                    assert(rs[i as int].service_id == rs[j as int].service_id);
                }
                return false;
            }
            i = i + 1;
        }
        j = j + 1;
    }
    let mut i: usize = 0;
    while i < c.roster.len()
        invariant
            i <= c.roster@.len(),
            ms == nodes_view(c.members@),
            rs == crate::messages::services_view(c.roster@),
            forall|a: int, k: int|
                #![auto]
                0 <= a < i && 0 <= k < rs[a].allowed_nodes.len() ==> member_ids_contain(
                    ms,
                    rs[a].allowed_nodes[k],
                ),
        decreases c.roster@.len() - i,
    {
        let mut k: usize = 0;
        while k < c.roster[i].allowed_nodes.len()
            invariant
                i < c.roster@.len(),
                k <= c.roster@[i as int].allowed_nodes@.len(),
                ms == nodes_view(c.members@),
                rs == crate::messages::services_view(c.roster@),
                forall|a: int, kk: int|
                    #![auto]
                    0 <= a < i && 0 <= kk < rs[a].allowed_nodes.len() ==> member_ids_contain(
                        ms,
                        rs[a].allowed_nodes[kk],
                    ),
                forall|kk: int|
                    #![auto]
                    0 <= kk < k ==> member_ids_contain(ms, rs[i as int].allowed_nodes[kk]),
            decreases c.roster@[i as int].allowed_nodes@.len() - k,
        {
            if !contains_member_id(&c.members, c.roster[i].allowed_nodes[k].as_str()) {
                proof {
                    assert(rs[i as int].allowed_nodes[k as int] == c.roster@[i as int].allowed_nodes@[k as int]@);
                }
                return false;
            }
            k = k + 1;
        }
        i = i + 1;
    }
    true
}

// ---------------------------------------------------------------------------
// What a proposal broadcast produces
// ---------------------------------------------------------------------------

/// The verifier ids of a proposal: the members other than the local node,
/// as their UTF-8 node ids, in membership order.
pub open spec fn verifier_ids(ms: Seq<SplinterNodeView>, local: Seq<char>) -> Seq<Seq<u8>>
    decreases ms.len(),
{
    if ms.len() == 0 {
        Seq::empty()
    } else {
        let rest = verifier_ids(ms.drop_first(), local);
        if ms[0].node_id != local {
            seq![encode_utf8(ms[0].node_id)] + rest
        } else {
            rest
        }
    }
}

/// The envelopes sent at once: one per non-local member that is already
/// authorized, in membership order.
pub open spec fn envelopes_for(
    ms: Seq<SplinterNodeView>,
    local: Seq<char>,
    tracker: Seq<PeerEntryView>,
    bytes: Seq<u8>,
) -> Seq<EnvelopeView>
    decreases ms.len(),
{
    if ms.len() == 0 {
        Seq::empty()
    } else {
        let rest = envelopes_for(ms.drop_first(), local, tracker, bytes);
        if ms[0].node_id != local && find_state(tracker, ms[0].node_id)
            == PeerAuthorizationState::Authorized {
            seq![EnvelopeView { recipient: admin_id_of(ms[0].node_id), bytes }] + rest
        } else {
            rest
        }
    }
}

/// The broadcasts held back: one per non-local member not yet authorized,
/// keyed by the unsatisfied peer.
pub open spec fn queued_for(
    ms: Seq<SplinterNodeView>,
    local: Seq<char>,
    tracker: Seq<PeerEntryView>,
    bytes: Seq<u8>,
) -> Seq<QueuedSendView>
    decreases ms.len(),
{
    if ms.len() == 0 {
        Seq::empty()
    } else {
        let rest = queued_for(ms.drop_first(), local, tracker, bytes);
        if ms[0].node_id != local && find_state(tracker, ms[0].node_id)
            != PeerAuthorizationState::Authorized {
            seq![
                QueuedSendView {
                    peer_id: ms[0].node_id,
                    envelope: EnvelopeView { recipient: admin_id_of(ms[0].node_id), bytes },
                },
            ] + rest
        } else {
            rest
        }
    }
}

proof fn lemma_verifier_ids_push(ms: Seq<SplinterNodeView>, v: SplinterNodeView, local: Seq<char>)
    ensures
        verifier_ids(ms.push(v), local) == verifier_ids(ms, local) + (if v.node_id != local {
            seq![encode_utf8(v.node_id)]
        } else {
            Seq::<Seq<u8>>::empty()
        }),
    decreases ms.len(),
{
    let tail: Seq<Seq<u8>> = if v.node_id != local {
        seq![encode_utf8(v.node_id)]
    } else {
        Seq::empty()
    };
    if ms.len() == 0 {
        assert(ms.push(v)[0] == v);
        assert(ms.push(v).drop_first() =~= Seq::<SplinterNodeView>::empty());
        assert(verifier_ids(Seq::<SplinterNodeView>::empty(), local) == Seq::<Seq<u8>>::empty());
        assert(ms =~= Seq::<SplinterNodeView>::empty());
        assert(verifier_ids(ms, local) + tail =~= tail);
        assert(tail + Seq::<Seq<u8>>::empty() =~= tail);
    } else {
        assert(ms.push(v)[0] == ms[0]);
        assert(ms.push(v).drop_first() =~= ms.drop_first().push(v));
        lemma_verifier_ids_push(ms.drop_first(), v, local);
        let rest = verifier_ids(ms.drop_first(), local);
        if ms[0].node_id != local {
            assert(seq![encode_utf8(ms[0].node_id)] + (rest + tail) =~= (seq![
                encode_utf8(ms[0].node_id),
            ] + rest) + tail);
        }
    }
}

proof fn lemma_envelopes_for_push(
    ms: Seq<SplinterNodeView>,
    v: SplinterNodeView,
    local: Seq<char>,
    tracker: Seq<PeerEntryView>,
    bytes: Seq<u8>,
)
    ensures
        envelopes_for(ms.push(v), local, tracker, bytes) == envelopes_for(ms, local, tracker, bytes)
            + (if v.node_id != local && find_state(tracker, v.node_id)
            == PeerAuthorizationState::Authorized {
            seq![EnvelopeView { recipient: admin_id_of(v.node_id), bytes }]
        } else {
            Seq::<EnvelopeView>::empty()
        }),
    decreases ms.len(),
{
    let tail: Seq<EnvelopeView> = if v.node_id != local && find_state(tracker, v.node_id)
        == PeerAuthorizationState::Authorized {
        seq![EnvelopeView { recipient: admin_id_of(v.node_id), bytes }]
    } else {
        Seq::empty()
    };
    if ms.len() == 0 {
        assert(ms.push(v)[0] == v);
        assert(ms.push(v).drop_first() =~= Seq::<SplinterNodeView>::empty());
        assert(envelopes_for(Seq::<SplinterNodeView>::empty(), local, tracker, bytes)
            == Seq::<EnvelopeView>::empty());
        assert(ms =~= Seq::<SplinterNodeView>::empty());
        assert(envelopes_for(ms, local, tracker, bytes) + tail =~= tail);
        assert(tail + Seq::<EnvelopeView>::empty() =~= tail);
    } else {
        assert(ms.push(v)[0] == ms[0]);
        assert(ms.push(v).drop_first() =~= ms.drop_first().push(v));
        lemma_envelopes_for_push(ms.drop_first(), v, local, tracker, bytes);
        let rest = envelopes_for(ms.drop_first(), local, tracker, bytes);
        if ms[0].node_id != local && find_state(tracker, ms[0].node_id)
            == PeerAuthorizationState::Authorized {
            let head = seq![EnvelopeView { recipient: admin_id_of(ms[0].node_id), bytes }];
            assert(head + (rest + tail) =~= (head + rest) + tail);
        }
    }
}

proof fn lemma_queued_for_push(
    ms: Seq<SplinterNodeView>,
    v: SplinterNodeView,
    local: Seq<char>,
    tracker: Seq<PeerEntryView>,
    bytes: Seq<u8>,
)
    ensures
        queued_for(ms.push(v), local, tracker, bytes) == queued_for(ms, local, tracker, bytes) + (
        if v.node_id != local && find_state(tracker, v.node_id)
            != PeerAuthorizationState::Authorized {
            seq![
                QueuedSendView {
                    peer_id: v.node_id,
                    envelope: EnvelopeView { recipient: admin_id_of(v.node_id), bytes },
                },
            ]
        } else {
            Seq::<QueuedSendView>::empty()
        }),
    decreases ms.len(),
{
    let tail: Seq<QueuedSendView> = if v.node_id != local && find_state(tracker, v.node_id)
        != PeerAuthorizationState::Authorized {
        seq![
            QueuedSendView {
                peer_id: v.node_id,
                envelope: EnvelopeView { recipient: admin_id_of(v.node_id), bytes },
            },
        ]
    } else {
        Seq::empty()
    };
    if ms.len() == 0 {
        assert(ms.push(v)[0] == v);
        assert(ms.push(v).drop_first() =~= Seq::<SplinterNodeView>::empty());
        assert(queued_for(Seq::<SplinterNodeView>::empty(), local, tracker, bytes)
            == Seq::<QueuedSendView>::empty());
        assert(ms =~= Seq::<SplinterNodeView>::empty());
        assert(queued_for(ms, local, tracker, bytes) + tail =~= tail);
        assert(tail + Seq::<QueuedSendView>::empty() =~= tail);
    } else {
        assert(ms.push(v)[0] == ms[0]);
        assert(ms.push(v).drop_first() =~= ms.drop_first().push(v));
        lemma_queued_for_push(ms.drop_first(), v, local, tracker, bytes);
        let rest = queued_for(ms.drop_first(), local, tracker, bytes);
        if ms[0].node_id != local && find_state(tracker, ms[0].node_id)
            != PeerAuthorizationState::Authorized {
            let head = seq![
                QueuedSendView {
                    peer_id: ms[0].node_id,
                    envelope: EnvelopeView { recipient: admin_id_of(ms[0].node_id), bytes },
                },
            ];
            assert(head + (rest + tail) =~= (head + rest) + tail);
        }
    }
}

} // verus!

verus! {

/// Whether any of the strings equals `s`.
pub open spec fn strings_contain(l: Seq<Seq<char>>, s: Seq<char>) -> bool {
    exists|i: int| 0 <= i < l.len() && #[trigger] l[i] == s
}

fn contains_str(l: &Vec<String>, s: &str) -> (r: bool)
    ensures
        r == strings_contain(crate::messages::strings_view(l@), s@),
{
    let mut i: usize = 0;
    while i < l.len()
        invariant
            i <= l@.len(),
            forall|k: int|
                0 <= k < i ==> #[trigger] crate::messages::strings_view(l@)[k] != s@,
        decreases l@.len() - i,
    {
        if str_eq(l[i].as_str(), s) {
            proof {
                assert(crate::messages::strings_view(l@)[i as int] == s@);
            }
            return true;
        }
        i = i + 1;
    }
    false
}

/// The roster services the local node must run: those whose allowed nodes
/// include it, in roster order.
pub open spec fn local_roster(rs: Seq<SplinterServiceView>, node: Seq<char>) -> Seq<
    SplinterServiceView,
>
    decreases rs.len(),
{
    if rs.len() == 0 {
        Seq::empty()
    } else {
        let rest = local_roster(rs.drop_first(), node);
        if strings_contain(rs[0].allowed_nodes, node) {
            seq![rs[0]] + rest
        } else {
            rest
        }
    }
}

proof fn lemma_local_roster_push(rs: Seq<SplinterServiceView>, v: SplinterServiceView, node: Seq<char>)
    ensures
        local_roster(rs.push(v), node) == local_roster(rs, node) + (if strings_contain(
            v.allowed_nodes,
            node,
        ) {
            seq![v]
        } else {
            Seq::<SplinterServiceView>::empty()
        }),
    decreases rs.len(),
{
    let tail: Seq<SplinterServiceView> = if strings_contain(v.allowed_nodes, node) {
        seq![v]
    } else {
        Seq::empty()
    };
    if rs.len() == 0 {
        assert(rs.push(v)[0] == v);
        assert(rs.push(v).drop_first() =~= Seq::<SplinterServiceView>::empty());
        assert(local_roster(Seq::<SplinterServiceView>::empty(), node)
            == Seq::<SplinterServiceView>::empty());
        assert(rs =~= Seq::<SplinterServiceView>::empty());
        assert(local_roster(rs, node) + tail =~= tail);
        assert(tail + Seq::<SplinterServiceView>::empty() =~= tail);
    } else {
        assert(rs.push(v)[0] == rs[0]);
        assert(rs.push(v).drop_first() =~= rs.drop_first().push(v));
        lemma_local_roster_push(rs.drop_first(), v, node);
        let rest = local_roster(rs.drop_first(), node);
        if strings_contain(rs[0].allowed_nodes, node) {
            assert(seq![rs[0]] + (rest + tail) =~= (seq![rs[0]] + rest) + tail);
        }
    }
}

/// The envelopes released when a peer becomes authorized: everything queued
/// for that peer, in queue order.
pub open spec fn released_for(q: Seq<QueuedSendView>, p: Seq<char>) -> Seq<EnvelopeView>
    decreases q.len(),
{
    if q.len() == 0 {
        Seq::empty()
    } else {
        let rest = released_for(q.drop_first(), p);
        if q[0].peer_id == p {
            seq![q[0].envelope] + rest
        } else {
            rest
        }
    }
}

/// What stays queued when a peer becomes authorized: everything waiting on
/// some other peer, in queue order.
pub open spec fn kept_for(q: Seq<QueuedSendView>, p: Seq<char>) -> Seq<QueuedSendView>
    decreases q.len(),
{
    if q.len() == 0 {
        Seq::empty()
    } else {
        let rest = kept_for(q.drop_first(), p);
        if q[0].peer_id == p {
            rest
        } else {
            seq![q[0]] + rest
        }
    }
}

proof fn lemma_released_kept_push(q: Seq<QueuedSendView>, v: QueuedSendView, p: Seq<char>)
    ensures
        released_for(q.push(v), p) == released_for(q, p) + (if v.peer_id == p {
            seq![v.envelope]
        } else {
            Seq::<EnvelopeView>::empty()
        }),
        kept_for(q.push(v), p) == kept_for(q, p) + (if v.peer_id == p {
            Seq::<QueuedSendView>::empty()
        } else {
            seq![v]
        }),
    decreases q.len(),
{
    let rtail: Seq<EnvelopeView> = if v.peer_id == p {
        seq![v.envelope]
    } else {
        Seq::empty()
    };
    let ktail: Seq<QueuedSendView> = if v.peer_id == p {
        Seq::empty()
    } else {
        seq![v]
    };
    if q.len() == 0 {
        assert(q.push(v)[0] == v);
        assert(q.push(v).drop_first() =~= Seq::<QueuedSendView>::empty());
        assert(released_for(Seq::<QueuedSendView>::empty(), p) == Seq::<EnvelopeView>::empty());
        assert(kept_for(Seq::<QueuedSendView>::empty(), p) == Seq::<QueuedSendView>::empty());
        assert(q =~= Seq::<QueuedSendView>::empty());
        assert(released_for(q, p) + rtail =~= rtail);
        assert(rtail + Seq::<EnvelopeView>::empty() =~= rtail);
        assert(kept_for(q, p) + ktail =~= ktail);
        assert(ktail + Seq::<QueuedSendView>::empty() =~= ktail);
    } else {
        assert(q.push(v)[0] == q[0]);
        assert(q.push(v).drop_first() =~= q.drop_first().push(v));
        lemma_released_kept_push(q.drop_first(), v, p);
        let rrest = released_for(q.drop_first(), p);
        let krest = kept_for(q.drop_first(), p);
        if q[0].peer_id == p {
            assert(seq![q[0].envelope] + (rrest + rtail) =~= (seq![q[0].envelope] + rrest)
                + rtail);
        } else {
            assert(seq![q[0]] + (krest + ktail) =~= (seq![q[0]] + krest) + ktail);
        }
    }
}

// ---------------------------------------------------------------------------
// The shared state itself
// ---------------------------------------------------------------------------

/// The payload bytes a proposal for this circuit serializes to.
pub open spec fn proposal_payload(c: CircuitView) -> Seq<u8> {
    enc_payload(CircuitManagementPayloadView::CircuitCreateRequest(c))
}

/// The proposal id: the SHA-256 digest of the canonical payload.
pub open spec fn proposal_digest(c: CircuitView) -> Seq<u8> {
    sha256_of(proposal_payload(c))
}

/// The envelope broadcast to each peer for this proposal.
pub open spec fn proposal_envelope(c: CircuitView, local: Seq<char>) -> Seq<u8> {
    enc_admin(
        AdminMessageView::ProposedCircuit {
            expected_hash: proposal_digest(c),
            circuit_payload: proposal_payload(c),
            required_verifiers: verifier_ids(c.members, local),
        },
    )
}

/// The pending entry a local proposal records: keyed by the payload
/// digest, which is also the declared expected hash.
pub open spec fn proposed_entry(c: CircuitView, local: Seq<char>) -> PendingEntryView {
    PendingEntryView {
        proposal: ProposalView {
            id: proposal_digest(c),
            summary: proposal_digest(c),
            consensus_data: enc_bytes_list(verifier_ids(c.members, local)),
        },
        payload: proposal_payload(c),
        circuit_id: Some(c.circuit_id),
    }
}

/// The serialized guardian of all admin state.
pub struct AdminServiceShared {
    pub node_id: String,
    pub network_sender: Option<NetworkSender>,
    pub pending: PendingProposalTable,
    pub auth: AuthorizationTracker,
    pub unauthorized: Vec<QueuedSend>,
    pub subscribers: SubscriberRegistry,
    pub directory: CircuitDirectory,
    pub consensus_updates: Vec<ProposalUpdate>,
    pub started_services: Vec<crate::messages::SplinterService>,
}

impl AdminServiceShared {
    pub open spec fn wf(self) -> bool {
        self.pending.wf()
    }

    /// Why a proposal is refused, or `None` where it is accepted: the
    /// service must be started, no proposal for the circuit may be in
    /// flight, the circuit must be valid and new to the directory, and its
    /// digest must not collide with a pending id.
    pub open spec fn propose_outcome(self, c: CircuitView) -> Option<AdminError> {
        if self.network_sender is None {
            Some(AdminError::NotStarted)
        } else if self.pending.has_circuit(c.circuit_id) {
            Some(AdminError::AlreadyPending)
        } else if !(circuit_valid(c) && !self.directory.has_circuit(c.circuit_id)) {
            Some(AdminError::InvalidCircuit)
        } else if self.pending.has_id(proposal_digest(c)) {
            Some(AdminError::AlreadyPending)
        } else {
            None
        }
    }

    pub fn new(node_id: String) -> (r: Self)
        ensures
            r.wf(),
            r.node_id == node_id,
            r.network_sender is None,
            r.pending@ == Seq::<PendingEntryView>::empty(),
            r.auth@.len() == 0,
            forall|p: Seq<char>| r.auth.state_of(p) == PeerAuthorizationState::Unknown,
            queued_view(r.unauthorized@) == Seq::<QueuedSendView>::empty(),
            r.subscribers@ == Seq::<crate::registry::SubscriberView>::empty(),
            r.directory@ == Seq::<CircuitView>::empty(),
            updates_view(r.consensus_updates@) == Seq::<ProposalUpdateView>::empty(),
            crate::messages::services_view(r.started_services@) == Seq::<
                SplinterServiceView,
            >::empty(),
    {
        let r = AdminServiceShared {
            node_id,
            network_sender: None,
            pending: PendingProposalTable::new(),
            auth: AuthorizationTracker::new(),
            unauthorized: Vec::new(),
            subscribers: SubscriberRegistry::new(),
            directory: CircuitDirectory::new(),
            consensus_updates: Vec::new(),
            started_services: Vec::new(),
        };
        proof {
            assert(queued_view(r.unauthorized@) =~= Seq::<QueuedSendView>::empty());
            assert(updates_view(r.consensus_updates@) =~= Seq::<ProposalUpdateView>::empty());
            assert(crate::messages::services_view(r.started_services@) =~= Seq::<
                SplinterServiceView,
            >::empty());
        }
        r
    }

    /// Validates and records a circuit proposal, broadcasts the proposal
    /// envelope to every authorized non-local member, holds the broadcast
    /// back for members not yet authorized, and hands the proposal to the
    /// consensus engine.
    #[verifier::rlimit(100)]
    pub fn propose_circuit(&mut self, circuit: Circuit) -> (r: Result<(), AdminError>)
        requires
            old(self).wf(),
        ensures
            final(self).wf(),
            final(self).node_id == old(self).node_id,
            final(self).auth == old(self).auth,
            final(self).directory == old(self).directory,
            final(self).subscribers == old(self).subscribers,
            final(self).started_services == old(self).started_services,
            (match old(self).propose_outcome(circuit@) {
                Some(e) => r == Err::<(), AdminError>(e) && *final(self) == *old(self),
                None => ({
                    let pv = proposal_payload(circuit@);
                    let pid = proposal_digest(circuit@);
                    let vids = verifier_ids(circuit@.members, old(self).node_id@);
                    let env = proposal_envelope(circuit@, old(self).node_id@);
                    &&& r is Ok
                    &&& final(self).pending@ == old(self).pending@.push(
                        (PendingEntryView {
                            proposal: (ProposalView {
                                id: pid,
                                summary: pid,
                                consensus_data: enc_bytes_list(vids),
                            }),
                            payload: pv,
                            circuit_id: Some(circuit@.circuit_id),
                        }),
                    )
                    &&& (match (old(self).network_sender, final(self).network_sender) {
                        (Some(o), Some(n)) => sends_view(n.sent@) == sends_view(o.sent@)
                            + envelopes_for(
                            circuit@.members,
                            old(self).node_id@,
                            old(self).auth@,
                            env,
                        ),
                        _ => false,
                    })
                    &&& queued_view(final(self).unauthorized@) == queued_view(
                        old(self).unauthorized@,
                    ) + queued_for(circuit@.members, old(self).node_id@, old(self).auth@, env)
                    &&& updates_view(final(self).consensus_updates@) == updates_view(
                        old(self).consensus_updates@,
                    ).push(
                        ProposalUpdateView::ProposalReceived(
                            (ProposalView {
                                id: pid,
                                summary: pid,
                                consensus_data: enc_bytes_list(vids),
                            }),
                            encode_utf8(admin_id_of(old(self).node_id@)),
                        ),
                    )
                }),
            }),
    {
        if self.network_sender.is_none() {
            return Err(AdminError::NotStarted);
        }
        if self.pending.contains_circuit(circuit.circuit_id.as_str()) {
            return Err(AdminError::AlreadyPending);
        }
        let valid = validate_circuit(&circuit);
        let dir_hit = match self.directory.lookup(circuit.circuit_id.as_str()) {
            Some(_) => true,
            None => false,
        };
        if !valid || dir_hit {
            return Err(AdminError::InvalidCircuit);
        }
        let pm = CircuitManagementPayload::CircuitCreateRequest(circuit.clone());
        let payload = encode_payload(&pm);
        let id = sha256_raw(payload.as_slice());
        if self.pending.contains_id(&id) {
            return Err(AdminError::AlreadyPending);
        }
        let ghost node = self.node_id@;
        let ghost cv = circuit@;
        let ghost tracker0 = self.auth@;

        // the verifier ids: every member but the local node
        let mut verifiers: Vec<Vec<u8>> = Vec::new();
        let mut i: usize = 0;
        proof {
            assert(byte_vecs_view(verifiers@) =~= Seq::<Seq<u8>>::empty());
            assert(cv.members.take(0) =~= Seq::<SplinterNodeView>::empty());
            assert(verifier_ids(cv.members.take(0), node) == Seq::<Seq<u8>>::empty());
            assert(byte_vecs_view(verifiers@) =~= verifier_ids(cv.members.take(0), node));
        }
        while i < circuit.members.len()
            invariant
                i <= circuit.members@.len(),
                cv == circuit@,
                node == self.node_id@,
                cv.members.len() == circuit.members@.len(),
                byte_vecs_view(verifiers@) == verifier_ids(cv.members.take(i as int), node),
            decreases circuit.members@.len() - i,
        {
            let ghost previds = byte_vecs_view(verifiers@);
            if !str_eq(circuit.members[i].node_id.as_str(), self.node_id.as_str()) {
                verifiers.push(circuit.members[i].node_id.as_str().as_bytes_vec());
            }
            proof {
                lemma_verifier_ids_push(cv.members.take(i as int), cv.members[i as int], node);
                assert(cv.members.take(i + 1) =~= cv.members.take(i as int).push(
                    cv.members[i as int],
                ));
                if cv.members[i as int].node_id != node {
                    assert(byte_vecs_view(verifiers@) =~= previds.push(
                        encode_utf8(cv.members[i as int].node_id),
                    ));
                    assert(previds.push(encode_utf8(cv.members[i as int].node_id)) =~= previds
                        + seq![encode_utf8(cv.members[i as int].node_id)]);
                }
            }
            i = i + 1;
        }
        proof {
            assert(cv.members.take(cv.members.len() as int) =~= cv.members);
        }
        let mut consensus_data: Vec<u8> = Vec::new();
        emit_bytes_list(&mut consensus_data, &verifiers);
        proof {
            assert(Seq::<u8>::empty() + enc_bytes_list(byte_vecs_view(verifiers@))
                =~= enc_bytes_list(byte_vecs_view(verifiers@)));
        }
        let msg = AdminMessage::ProposedCircuit {
            expected_hash: id.clone(),
            circuit_payload: payload.clone(),
            required_verifiers: verifiers,
        };
        let env_bytes = encode_admin_message(&msg);
        proof {
            assert(env_bytes@ == proposal_envelope(cv, node));
        }

        // broadcast to authorized members; queue the rest
        let mut outgoing: Vec<Envelope> = Vec::new();
        let ghost queued0 = queued_view(self.unauthorized@);
        let mut k: usize = 0;
        proof {
            assert(sends_view(outgoing@) =~= Seq::<EnvelopeView>::empty());
            assert(cv.members.take(0) =~= Seq::<SplinterNodeView>::empty());
            assert(sends_view(outgoing@) =~= envelopes_for(
                cv.members.take(0),
                node,
                tracker0,
                env_bytes@,
            ));
            assert(queued_view(self.unauthorized@) =~= queued0 + queued_for(
                cv.members.take(0),
                node,
                tracker0,
                env_bytes@,
            ));
        }
        while k < circuit.members.len()
            invariant
                k <= circuit.members@.len(),
                cv == circuit@,
                node == self.node_id@,
                tracker0 == self.auth@,
                cv.members.len() == circuit.members@.len(),
                self.network_sender == old(self).network_sender,
                self.pending == old(self).pending,
                self.directory == old(self).directory,
                self.subscribers == old(self).subscribers,
                self.consensus_updates == old(self).consensus_updates,
                self.started_services == old(self).started_services,
                self.node_id == old(self).node_id,
                self.auth == old(self).auth,
                queued0 == queued_view(old(self).unauthorized@),
                sends_view(outgoing@) == envelopes_for(
                    cv.members.take(k as int),
                    node,
                    tracker0,
                    env_bytes@,
                ),
                queued_view(self.unauthorized@) == queued0 + queued_for(
                    cv.members.take(k as int),
                    node,
                    tracker0,
                    env_bytes@,
                ),
            decreases circuit.members@.len() - k,
        {
            let ghost prevout = sends_view(outgoing@);
            let ghost prevq = queued_view(self.unauthorized@);
            if !str_eq(circuit.members[k].node_id.as_str(), self.node_id.as_str()) {
                let recip = crate::admin_service_id(circuit.members[k].node_id.as_str());
                if self.auth.is_authorized(circuit.members[k].node_id.as_str()) {
                    outgoing.push(Envelope { recipient: recip, bytes: env_bytes.clone() });
                    proof {
                        assert(sends_view(outgoing@) =~= prevout.push(
                            (EnvelopeView {
                                recipient: admin_id_of(cv.members[k as int].node_id),
                                bytes: env_bytes@,
                            }),
                        ));
                    }
                } else {
                    self.unauthorized.push(
                        QueuedSend {
                            peer_id: circuit.members[k].node_id.clone(),
                            envelope: Envelope { recipient: recip, bytes: env_bytes.clone() },
                        },
                    );
                    proof {
                        assert(queued_view(self.unauthorized@) =~= prevq.push(
                            (QueuedSendView {
                                peer_id: cv.members[k as int].node_id,
                                envelope: (EnvelopeView {
                                    recipient: admin_id_of(cv.members[k as int].node_id),
                                    bytes: env_bytes@,
                                }),
                            }),
                        ));
                    }
                }
            }
            proof {
                lemma_envelopes_for_push(
                    cv.members.take(k as int),
                    cv.members[k as int],
                    node,
                    tracker0,
                    env_bytes@,
                );
                lemma_queued_for_push(
                    cv.members.take(k as int),
                    cv.members[k as int],
                    node,
                    tracker0,
                    env_bytes@,
                );
                assert(cv.members.take(k + 1) =~= cv.members.take(k as int).push(
                    cv.members[k as int],
                ));
                assert(sends_view(outgoing@) =~= envelopes_for(
                    cv.members.take(k + 1),
                    node,
                    tracker0,
                    env_bytes@,
                ));
                assert(queued_view(self.unauthorized@) =~= queued0 + queued_for(
                    cv.members.take(k + 1),
                    node,
                    tracker0,
                    env_bytes@,
                ));
            }
            k = k + 1;
        }
        proof {
            assert(cv.members.take(cv.members.len() as int) =~= cv.members);
        }
        let ghost outv = sends_view(outgoing@);
        match &mut self.network_sender {
            Some(ns) => {
                let ghost sent0 = sends_view(ns.sent@);
                ns.sent.append(&mut outgoing);
                proof {
                    assert(sends_view(ns.sent@) =~= sent0 + outv);
                }
            },
            None => {
                proof {
                    assert(false);
                }
            },
        }

        // record the pending proposal and hand it to consensus
        let proposal = Proposal { id: id.clone(), summary: id.clone(), consensus_data };
        proof {
            lemma_payload_round_trip(CircuitManagementPayloadView::CircuitCreateRequest(cv));
            assert(payload_circuit_id(payload@) == Some(cv.circuit_id));
        }
        self.pending.insert(
            proposal.clone(),
            payload.clone(),
            Some(circuit.circuit_id.clone()),
        );
        let ghost updates0 = updates_view(self.consensus_updates@);
        let own_id = crate::admin_service_id(self.node_id.as_str());
        self.consensus_updates.push(
            ProposalUpdate::ProposalReceived(proposal, own_id.as_str().as_bytes_vec()),
        );
        proof {
            assert(updates_view(self.consensus_updates@) =~= updates0.push(
                updates_view(self.consensus_updates@).last(),
            ));
        }
        Ok(())
    }
}

} // verus!

verus! {

impl Clone for Envelope {
    fn clone(&self) -> (r: Self)
        ensures
            r@ == self@,
    {
        Envelope { recipient: self.recipient.clone(), bytes: self.bytes.clone() }
    }
}

impl Clone for QueuedSend {
    fn clone(&self) -> (r: Self)
        ensures
            r@ == self@,
    {
        QueuedSend { peer_id: self.peer_id.clone(), envelope: self.envelope.clone() }
    }
}

impl AdminServiceShared {
    /// Records a proposal that a peer originated.  Identical re-delivery is
    /// idempotent; a different payload under the same id, or a second
    /// circuit id collision, is refused.
    pub fn add_pending_consensus_proposal(
        &mut self,
        proposal: Proposal,
        payload: Vec<u8>,
    ) -> (r: Result<(), AdminError>)
        requires
            old(self).wf(),
            proposal@.id == sha256_of(payload@),
        ensures
            final(self).wf(),
            final(self).node_id == old(self).node_id,
            final(self).network_sender == old(self).network_sender,
            final(self).auth == old(self).auth,
            final(self).unauthorized == old(self).unauthorized,
            final(self).subscribers == old(self).subscribers,
            final(self).directory == old(self).directory,
            final(self).consensus_updates == old(self).consensus_updates,
            final(self).started_services == old(self).started_services,
            (if old(self).pending.has_id(proposal@.id) {
                &&& *final(self) == *old(self)
                &&& (r is Ok <==> old(self).pending.entry_of(proposal@.id).payload == payload@)
                &&& (r is Err ==> r == Err::<(), AdminError>(AdminError::UnableToHandleMessage))
            } else if (match payload_circuit_id(payload@) {
                Some(cid) => old(self).pending.has_circuit(cid),
                None => false,
            }) {
                r == Err::<(), AdminError>(AdminError::AlreadyPending) && *final(self) == *old(self)
            } else {
                &&& r is Ok
                &&& final(self).pending@ == old(self).pending@.push(
                    (PendingEntryView {
                        proposal: proposal@,
                        payload: payload@,
                        circuit_id: payload_circuit_id(payload@),
                    }),
                )
            }),
    {
        let dup = match self.pending.get(&proposal.id) {
            Some(e) => Some(bytes_eq(&e.payload, &payload)),
            None => None,
        };
        match dup {
            Some(true) => {
                return Ok(());
            },
            Some(false) => {
                return Err(AdminError::UnableToHandleMessage);
            },
            None => {},
        }
        let cid: Option<String> = match crate::codec::decode_payload(payload.as_slice()) {
            Ok(CircuitManagementPayload::CircuitCreateRequest(c)) => Some(c.circuit_id),
            Ok(CircuitManagementPayload::CircuitProposalVote(_)) => None,
            Err(_) => None,
        };
        proof {
            match cid {
                Some(ref c) => {
                    assert(payload_circuit_id(payload@) == Some(c@));
                },
                None => {
                    assert(payload_circuit_id(payload@) is None);
                },
            }
        }
        let collision = match &cid {
            Some(c) => self.pending.contains_circuit(c.as_str()),
            None => false,
        };
        if collision {
            return Err(AdminError::AlreadyPending);
        }
        self.pending.insert(proposal, payload, cid);
        Ok(())
    }

    /// Updates the tracked authorization state of a peer; on a transition
    /// to authorized while started, releases every broadcast queued on that
    /// peer, in queue order.
    pub fn on_authorization_change(&mut self, peer_id: &str, state: PeerAuthorizationState)
        requires
            old(self).wf(),
        ensures
            final(self).wf(),
            final(self).node_id == old(self).node_id,
            final(self).pending == old(self).pending,
            final(self).subscribers == old(self).subscribers,
            final(self).directory == old(self).directory,
            final(self).consensus_updates == old(self).consensus_updates,
            final(self).started_services == old(self).started_services,
            final(self).auth.state_of(peer_id@) == state,
            forall|q: Seq<char>|
                q != peer_id@ ==> final(self).auth.state_of(q) == old(self).auth.state_of(q),
            (if state == PeerAuthorizationState::Authorized && old(self).network_sender is Some {
                &&& (match (old(self).network_sender, final(self).network_sender) {
                    (Some(o), Some(n)) => sends_view(n.sent@) == sends_view(o.sent@)
                        + released_for(queued_view(old(self).unauthorized@), peer_id@),
                    _ => false,
                })
                &&& queued_view(final(self).unauthorized@) == kept_for(
                    queued_view(old(self).unauthorized@),
                    peer_id@,
                )
            } else {
                final(self).network_sender == old(self).network_sender && final(self).unauthorized
                    == old(self).unauthorized
            }),
    {
        self.auth.set_state(peer_id, state);
        let ghost auth1 = self.auth;
        let authorized = matches!(state, PeerAuthorizationState::Authorized);
        if authorized && self.network_sender.is_some() {
            let mut work: Vec<QueuedSend> = Vec::new();
            work.append(&mut self.unauthorized);
            let ghost wv = queued_view(work@);
            proof {
                assert(wv =~= queued_view(old(self).unauthorized@));
                assert(queued_view(self.unauthorized@) =~= Seq::<QueuedSendView>::empty());
                assert(wv.take(0) =~= Seq::<QueuedSendView>::empty());
                assert(released_for(wv.take(0), peer_id@) == Seq::<EnvelopeView>::empty());
                assert(kept_for(wv.take(0), peer_id@) == Seq::<QueuedSendView>::empty());
                assert(sends_view(Seq::<Envelope>::empty()) =~= Seq::<EnvelopeView>::empty());
            }
            let mut released: Vec<Envelope> = Vec::new();
            proof {
                assert(sends_view(released@) =~= released_for(wv.take(0), peer_id@));
                assert(queued_view(self.unauthorized@) =~= kept_for(wv.take(0), peer_id@));
            }
            let mut t: usize = 0;
            while t < work.len()
                invariant
                    t <= work@.len(),
                    wv == queued_view(work@),
                    self.network_sender == old(self).network_sender,
                    self.node_id == old(self).node_id,
                    self.pending == old(self).pending,
                    self.auth == auth1,
                    self.subscribers == old(self).subscribers,
                    self.directory == old(self).directory,
                    self.consensus_updates == old(self).consensus_updates,
                    self.started_services == old(self).started_services,
                    sends_view(released@) == released_for(wv.take(t as int), peer_id@),
                    queued_view(self.unauthorized@) == kept_for(wv.take(t as int), peer_id@),
                decreases work@.len() - t,
            {
                let ghost prevrel = sends_view(released@);
                let ghost prevkept = queued_view(self.unauthorized@);
                if str_eq(work[t].peer_id.as_str(), peer_id) {
                    released.push(work[t].envelope.clone());
                    proof {
                        assert(sends_view(released@) =~= prevrel.push(wv[t as int].envelope));
                    }
                } else {
                    self.unauthorized.push(work[t].clone());
                    proof {
                        assert(queued_view(self.unauthorized@) =~= prevkept.push(wv[t as int]));
                    }
                }
                proof {
                    lemma_released_kept_push(wv.take(t as int), wv[t as int], peer_id@);
                    assert(wv.take(t + 1) =~= wv.take(t as int).push(wv[t as int]));
                    assert(sends_view(released@) =~= released_for(wv.take(t + 1), peer_id@));
                    assert(queued_view(self.unauthorized@) =~= kept_for(
                        wv.take(t + 1),
                        peer_id@,
                    ));
                }
                t = t + 1;
            }
            proof {
                assert(wv.take(wv.len() as int) =~= wv);
            }
            let ghost relv = sends_view(released@);
            match &mut self.network_sender {
                Some(ns) => {
                    let ghost sent0 = sends_view(ns.sent@);
                    ns.sent.append(&mut released);
                    proof {
                        assert(sends_view(ns.sent@) =~= sent0 + relv);
                    }
                },
                None => {
                    proof {
                        assert(false);
                    }
                },
            }
        }
    }

    /// Commits an accepted proposal: replays its circuit into the
    /// directory, requests the start of every local roster service,
    /// notifies the subscribers of its management type, and drops the
    /// pending entry.  A failed directory write retains the entry.
    #[verifier::rlimit(100)]
    pub fn on_proposal_accepted(&mut self, id: &Vec<u8>) -> (r: Result<(), AdminError>)
        requires
            old(self).wf(),
        ensures
            final(self).wf(),
            final(self).node_id == old(self).node_id,
            final(self).network_sender == old(self).network_sender,
            final(self).auth == old(self).auth,
            final(self).unauthorized == old(self).unauthorized,
            final(self).consensus_updates == old(self).consensus_updates,
            r is Ok ==> !final(self).pending.has_id(id@),
            (if !old(self).pending.has_id(id@) {
                r == Err::<(), AdminError>(AdminError::UnableToHandleMessage) && *final(self)
                    == *old(self)
            } else {
                match payload_circuit(old(self).pending.entry_of(id@).payload) {
                    None => r == Err::<(), AdminError>(AdminError::InvalidMessageFormat) && *final(self) == *old(self),
                    Some(c) => {
                        if old(self).directory.has_circuit(c.circuit_id) {
                            r == Err::<(), AdminError>(AdminError::DirectoryError) && *final(self)
                                == *old(self)
                        } else {
                            &&& r is Ok
                            &&& final(self).directory@ == old(self).directory@.push(c)
                            &&& final(self).directory.has_circuit(c.circuit_id)
                            &&& crate::directory::find_circuit(final(self).directory@, c.circuit_id)
                                == Some(c)
                            &&& exists|idx: int|
                                0 <= idx < old(self).pending@.len() && (#[trigger] old(self).pending@[idx]).proposal.id == id@ && final(self).pending@ == old(self).pending@.remove(idx)
                            &&& crate::messages::services_view(final(self).started_services@)
                                == crate::messages::services_view(old(self).started_services@)
                                + local_roster(c.roster, old(self).node_id@)
                            &&& final(self).subscribers@ == broadcast_spec(
                                old(self).subscribers@,
                                c.circuit_management_type,
                                (crate::registry::AdminEventView {
                                    kind: AdminEventKind::CircuitReady,
                                    proposal_id: id@,
                                    circuit_id: Some(c.circuit_id),
                                    service_id: None,
                                }),
                            )
                        }
                    },
                }
            }),
    {
        let decoded: Option<Circuit> = match self.pending.get(id) {
            None => {
                return Err(AdminError::UnableToHandleMessage);
            },
            Some(e) => {
                match crate::codec::decode_payload(e.payload.as_slice()) {
                    Ok(CircuitManagementPayload::CircuitCreateRequest(c)) => Some(c),
                    Ok(CircuitManagementPayload::CircuitProposalVote(_)) => None,
                    Err(_) => None,
                }
            },
        };
        proof {
            match decoded {
                Some(ref c) => {
                    assert(payload_circuit(old(self).pending.entry_of(id@).payload) == Some(c@));
                },
                None => {
                    assert(payload_circuit(old(self).pending.entry_of(id@).payload) is None);
                },
            }
        }
        let c = match decoded {
            None => {
                return Err(AdminError::InvalidMessageFormat);
            },
            Some(c) => c,
        };
        let dir_hit = match self.directory.lookup(c.circuit_id.as_str()) {
            Some(_) => true,
            None => false,
        };
        if dir_hit {
            return Err(AdminError::DirectoryError);
        }
        match self.pending.take(id) {
            Some(_) => {},
            None => {
                proof {
                    assert(false);
                }
            },
        }
        let ghost cv = c@;
        self.directory.commit(c.clone());
        let ghost pend1 = self.pending;
        let ghost dir1 = self.directory;

        // ask the orchestrator to start the local members of the roster
        let ghost started0 = crate::messages::services_view(self.started_services@);
        let ghost rsv = cv.roster;
        let mut i: usize = 0;
        proof {
            assert(rsv.take(0) =~= Seq::<SplinterServiceView>::empty());
            assert(local_roster(rsv.take(0), self.node_id@) == Seq::<SplinterServiceView>::empty());
            assert(started0 + local_roster(rsv.take(0), self.node_id@) =~= started0);
        }
        while i < c.roster.len()
            invariant
                i <= c.roster@.len(),
                cv == c@,
                rsv == cv.roster,
                rsv.len() == c.roster@.len(),
                self.node_id == old(self).node_id,
                self.pending == pend1,
                self.directory == dir1,
                self.network_sender == old(self).network_sender,
                self.auth == old(self).auth,
                self.unauthorized == old(self).unauthorized,
                self.subscribers == old(self).subscribers,
                self.consensus_updates == old(self).consensus_updates,
                crate::messages::services_view(self.started_services@) == started0 + local_roster(
                    rsv.take(i as int),
                    self.node_id@,
                ),
            decreases c.roster@.len() - i,
        {
            let ghost prevstarted = crate::messages::services_view(self.started_services@);
            if contains_str(&c.roster[i].allowed_nodes, self.node_id.as_str()) {
                self.started_services.push(c.roster[i].clone());
                proof {
                    assert(crate::messages::services_view(self.started_services@)
                        =~= prevstarted.push(rsv[i as int]));
                }
            }
            proof {
                lemma_local_roster_push(rsv.take(i as int), rsv[i as int], self.node_id@);
                assert(rsv.take(i + 1) =~= rsv.take(i as int).push(rsv[i as int]));
                assert(crate::messages::services_view(self.started_services@) =~= started0
                    + local_roster(rsv.take(i + 1), self.node_id@));
            }
            i = i + 1;
        }
        proof {
            assert(rsv.take(rsv.len() as int) =~= rsv);
        }

        // notify the subscribers of this management type
        let event = AdminEvent {
            kind: AdminEventKind::CircuitReady,
            proposal_id: id.clone(),
            circuit_id: Some(c.circuit_id.clone()),
            service_id: None,
        };
        self.subscribers.broadcast(c.circuit_management_type.as_str(), &event);
        Ok(())
    }

    /// Drops the pending entry of a rejected proposal and notifies the
    /// subscribers of its management type; the directory is untouched.
    #[verifier::rlimit(100)]
    pub fn on_proposal_rejected(&mut self, id: &Vec<u8>) -> (r: Result<(), AdminError>)
        requires
            old(self).wf(),
        ensures
            final(self).wf(),
            final(self).node_id == old(self).node_id,
            final(self).network_sender == old(self).network_sender,
            final(self).auth == old(self).auth,
            final(self).unauthorized == old(self).unauthorized,
            final(self).consensus_updates == old(self).consensus_updates,
            final(self).started_services == old(self).started_services,
            final(self).directory == old(self).directory,
            !final(self).pending.has_id(id@),
            (if !old(self).pending.has_id(id@) {
                r == Err::<(), AdminError>(AdminError::UnableToHandleMessage) && *final(self)
                    == *old(self)
            } else {
                &&& r is Ok
                &&& exists|idx: int|
                    0 <= idx < old(self).pending@.len() && (#[trigger] old(self).pending@[idx]).proposal.id == id@ && final(self).pending@ == old(self).pending@.remove(idx)
                &&& (match payload_circuit(old(self).pending.entry_of(id@).payload) {
                    Some(c) => final(self).subscribers@ == broadcast_spec(
                        old(self).subscribers@,
                        c.circuit_management_type,
                        (crate::registry::AdminEventView {
                            kind: AdminEventKind::CircuitRejected,
                            proposal_id: id@,
                            circuit_id: Some(c.circuit_id),
                            service_id: None,
                        }),
                    ),
                    None => final(self).subscribers == old(self).subscribers,
                })
            }),
    {
        let e = match self.pending.take(id) {
            None => {
                return Err(AdminError::UnableToHandleMessage);
            },
            Some(e) => e,
        };
        let decoded: Option<Circuit> = match crate::codec::decode_payload(e.payload.as_slice()) {
            Ok(CircuitManagementPayload::CircuitCreateRequest(c)) => Some(c),
            Ok(CircuitManagementPayload::CircuitProposalVote(_)) => None,
            Err(_) => None,
        };
        match decoded {
            Some(c) => {
                let event = AdminEvent {
                    kind: AdminEventKind::CircuitRejected,
                    proposal_id: id.clone(),
                    circuit_id: Some(c.circuit_id.clone()),
                    service_id: None,
                };
                self.subscribers.broadcast(c.circuit_management_type.as_str(), &event);
            },
            None => {},
        }
        Ok(())
    }

    /// Registers a subscriber for circuit-lifecycle events of one
    /// management type.
    pub fn add_subscriber(&mut self, management_type: String) -> (r: usize)
        requires
            old(self).wf(),
        ensures
            final(self).wf(),
            final(self).node_id == old(self).node_id,
            final(self).network_sender == old(self).network_sender,
            final(self).pending == old(self).pending,
            final(self).auth == old(self).auth,
            final(self).unauthorized == old(self).unauthorized,
            final(self).directory == old(self).directory,
            final(self).consensus_updates == old(self).consensus_updates,
            final(self).started_services == old(self).started_services,
            final(self).subscribers@ == old(self).subscribers@.push(
                (crate::registry::SubscriberView {
                    management_type: management_type@,
                    queue: Seq::<crate::registry::AdminEventView>::empty(),
                }),
            ),
            r == old(self).subscribers@.len(),
    {
        self.subscribers.add_subscriber(management_type)
    }

    /// Publishes a commit-time orchestrator failure: the circuit stays
    /// committed, and the subscribers of its management type are told which
    /// roster service could not be started.
    pub fn publish_service_start_failure(
        &mut self,
        management_type: &str,
        circuit_id: &str,
        service_id: &str,
    )
        requires
            old(self).wf(),
        ensures
            final(self).wf(),
            final(self).node_id == old(self).node_id,
            final(self).network_sender == old(self).network_sender,
            final(self).pending == old(self).pending,
            final(self).auth == old(self).auth,
            final(self).unauthorized == old(self).unauthorized,
            final(self).directory == old(self).directory,
            final(self).consensus_updates == old(self).consensus_updates,
            final(self).started_services == old(self).started_services,
            final(self).subscribers@ == broadcast_spec(
                old(self).subscribers@,
                management_type@,
                (crate::registry::AdminEventView {
                    kind: AdminEventKind::ServiceStartFailed,
                    proposal_id: Seq::<u8>::empty(),
                    circuit_id: Some(circuit_id@),
                    service_id: Some(service_id@),
                }),
            ),
    {
        let event = AdminEvent {
            kind: AdminEventKind::ServiceStartFailed,
            proposal_id: Vec::new(),
            circuit_id: Some(String::from_str(circuit_id)),
            service_id: Some(String::from_str(service_id)),
        };
        proof {
            assert(event@.proposal_id =~= Seq::<u8>::empty());
        }
        self.subscribers.broadcast(management_type, &event);
    }

    /// Routes a client's vote on a pending proposal to the consensus
    /// engine as an encoded consensus message.
    pub fn submit_vote(&mut self, vote: CircuitProposalVote) -> (r: Result<(), AdminError>)
        requires
            old(self).wf(),
        ensures
            final(self).wf(),
            (match old(self).network_sender {
                None => r == Err::<(), AdminError>(AdminError::NotStarted) && *final(self) == *old(self),
                Some(_) => {
                    &&& r is Ok
                    &&& final(self).node_id == old(self).node_id
                    &&& final(self).network_sender == old(self).network_sender
                    &&& final(self).pending == old(self).pending
                    &&& final(self).auth == old(self).auth
                    &&& final(self).unauthorized == old(self).unauthorized
                    &&& final(self).subscribers == old(self).subscribers
                    &&& final(self).directory == old(self).directory
                    &&& final(self).started_services == old(self).started_services
                    &&& updates_view(final(self).consensus_updates@) == updates_view(
                        old(self).consensus_updates@,
                    ).push(
                        ProposalUpdateView::ConsensusMessage(
                            enc_payload(CircuitManagementPayloadView::CircuitProposalVote(vote@)),
                        ),
                    )
                },
            }),
    {
        if self.network_sender.is_none() {
            return Err(AdminError::NotStarted);
        }
        let ghost updates0 = updates_view(self.consensus_updates@);
        let bytes = encode_payload(&CircuitManagementPayload::CircuitProposalVote(vote));
        self.consensus_updates.push(ProposalUpdate::ConsensusMessage(bytes));
        proof {
            assert(updates_view(self.consensus_updates@) =~= updates0.push(
                updates_view(self.consensus_updates@).last(),
            ));
        }
        Ok(())
    }

    /// Hands an opaque inbound consensus message to the consensus engine.
    pub fn forward_consensus_message(&mut self, bytes: Vec<u8>)
        requires
            old(self).wf(),
        ensures
            final(self).wf(),
            final(self).node_id == old(self).node_id,
            final(self).network_sender == old(self).network_sender,
            final(self).pending == old(self).pending,
            final(self).auth == old(self).auth,
            final(self).unauthorized == old(self).unauthorized,
            final(self).subscribers == old(self).subscribers,
            final(self).directory == old(self).directory,
            final(self).started_services == old(self).started_services,
            updates_view(final(self).consensus_updates@) == updates_view(
                old(self).consensus_updates@,
            ).push(ProposalUpdateView::ConsensusMessage(bytes@)),
    {
        let ghost updates0 = updates_view(self.consensus_updates@);
        self.consensus_updates.push(ProposalUpdate::ConsensusMessage(bytes));
        proof {
            assert(updates_view(self.consensus_updates@) =~= updates0.push(
                updates_view(self.consensus_updates@).last(),
            ));
        }
    }

    /// Hands a peer-received proposal to the consensus engine, after its
    /// pending entry is recorded.
    pub fn forward_proposal_received(&mut self, proposal: Proposal, from: Vec<u8>)
        requires
            old(self).wf(),
        ensures
            final(self).wf(),
            final(self).node_id == old(self).node_id,
            final(self).network_sender == old(self).network_sender,
            final(self).pending == old(self).pending,
            final(self).auth == old(self).auth,
            final(self).unauthorized == old(self).unauthorized,
            final(self).subscribers == old(self).subscribers,
            final(self).directory == old(self).directory,
            final(self).started_services == old(self).started_services,
            updates_view(final(self).consensus_updates@) == updates_view(
                old(self).consensus_updates@,
            ).push(ProposalUpdateView::ProposalReceived(proposal@, from@)),
    {
        let ghost updates0 = updates_view(self.consensus_updates@);
        self.consensus_updates.push(ProposalUpdate::ProposalReceived(proposal, from));
        proof {
            assert(updates_view(self.consensus_updates@) =~= updates0.push(
                updates_view(self.consensus_updates@).last(),
            ));
        }
    }
}

/// While a proposal for a circuit id is in flight, a second proposal for
/// the same circuit id is refused as already pending; the refusal leaves
/// the shared state untouched.
pub proof fn lemma_duplicate_proposal_refused(s: AdminServiceShared, c: CircuitView)
    requires
        s.network_sender is Some,
        s.pending.has_circuit(c.circuit_id),
    ensures
        s.propose_outcome(c) == Some(AdminError::AlreadyPending),
{
}


} // verus!
