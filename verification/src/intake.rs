//! The intake surface: validated payloads routed into the shared state,
//! and the status codes the HTTP layer answers with.  A decode or
//! validation failure is the client's fault; an operation attempted in the
//! wrong lifecycle state is the service's.

use vstd::prelude::*;
use crate::codec::{decode_payload, parse_payload};
use crate::messages::{AdminError, CircuitManagementPayload, CircuitManagementPayloadView};
use crate::shared::{proposed_entry, updates_view, AdminServiceShared, ProposalUpdateView};
use crate::registry::{AdminEventView, SubscriberView};

verus! {

pub const STATUS_ACCEPTED: u16 = 202;
pub const STATUS_BAD_REQUEST: u16 = 400;
pub const STATUS_INTERNAL_ERROR: u16 = 500;
pub const STATUS_SWITCHING_PROTOCOLS: u16 = 101;

/// Handles a POST of a circuit creation payload: accepted submissions
/// answer 202 with the proposal recorded.  Anything that does not decode
/// to a creation request, or breaks a validation rule, is the client's
/// fault and answers 400 unchanged; a submission while the service is not
/// started is a state error and answers 500 unchanged.
pub fn submit_circuit_payload(shared: &mut AdminServiceShared, body: &[u8]) -> (r: u16)
    requires
        old(shared).wf(),
    ensures
        final(shared).wf(),
        (match parse_payload(body@, 0) {
            Some((pv, j)) => {
                if j == body@.len() {
                    match pv {
                        CircuitManagementPayloadView::CircuitCreateRequest(c) => {
                            match old(shared).propose_outcome(c) {
                                Some(e) => (if e == AdminError::NotStarted {
                                    r == STATUS_INTERNAL_ERROR
                                } else {
                                    r == STATUS_BAD_REQUEST
                                }) && *final(shared) == *old(shared),
                                None => r == STATUS_ACCEPTED && final(shared).pending@ == old(
                                    shared,
                                ).pending@.push(proposed_entry(c, old(shared).node_id@)),
                            }
                        },
                        CircuitManagementPayloadView::CircuitProposalVote(_) => r
                            == STATUS_BAD_REQUEST && *final(shared) == *old(shared),
                    }
                } else {
                    r == STATUS_BAD_REQUEST && *final(shared) == *old(shared)
                }
            },
            None => r == STATUS_BAD_REQUEST && *final(shared) == *old(shared),
        }),
{
    match decode_payload(body) {
        Ok(CircuitManagementPayload::CircuitCreateRequest(circuit)) => {
            match shared.propose_circuit(circuit) {
                Ok(()) => STATUS_ACCEPTED,
                Err(AdminError::NotStarted) => STATUS_INTERNAL_ERROR,
                Err(_) => STATUS_BAD_REQUEST,
            }
        },
        Ok(CircuitManagementPayload::CircuitProposalVote(_)) => STATUS_BAD_REQUEST,
        Err(_) => STATUS_BAD_REQUEST,
    }
}

/// Handles a POST of a vote payload: a decoded vote is routed to the
/// consensus engine and answered 202; a vote submitted while the service
/// is not started is a state error; anything else is the client's fault.
pub fn submit_vote_payload(shared: &mut AdminServiceShared, body: &[u8]) -> (r: u16)
    requires
        old(shared).wf(),
    ensures
        final(shared).wf(),
        (match parse_payload(body@, 0) {
            Some((pv, j)) => {
                if j == body@.len() {
                    match pv {
                        CircuitManagementPayloadView::CircuitProposalVote(v) => {
                            if old(shared).network_sender is None {
                                r == STATUS_INTERNAL_ERROR && *final(shared) == *old(shared)
                            } else {
                                r == STATUS_ACCEPTED && updates_view(
                                    final(shared).consensus_updates@,
                                ) == updates_view(old(shared).consensus_updates@).push(
                                    ProposalUpdateView::ConsensusMessage(
                                        crate::codec::enc_payload(
                                            CircuitManagementPayloadView::CircuitProposalVote(v),
                                        ),
                                    ),
                                )
                            }
                        },
                        CircuitManagementPayloadView::CircuitCreateRequest(_) => r
                            == STATUS_BAD_REQUEST && *final(shared) == *old(shared),
                    }
                } else {
                    r == STATUS_BAD_REQUEST && *final(shared) == *old(shared)
                }
            },
            None => r == STATUS_BAD_REQUEST && *final(shared) == *old(shared),
        }),
{
    match decode_payload(body) {
        Ok(CircuitManagementPayload::CircuitProposalVote(vote)) => {
            match shared.submit_vote(vote) {
                Ok(()) => STATUS_ACCEPTED,
                Err(AdminError::NotStarted) => STATUS_INTERNAL_ERROR,
                Err(_) => STATUS_INTERNAL_ERROR,
            }
        },
        Ok(CircuitManagementPayload::CircuitCreateRequest(_)) => STATUS_BAD_REQUEST,
        Err(_) => STATUS_BAD_REQUEST,
    }
}

/// Handles a subscription upgrade for one management type: the client is
/// registered and the handshake accepted; the returned index names its
/// event buffer.
pub fn register_subscriber(shared: &mut AdminServiceShared, management_type: &str) -> (r: (
    u16,
    usize,
))
    requires
        old(shared).wf(),
    ensures
        final(shared).wf(),
        r.0 == STATUS_SWITCHING_PROTOCOLS,
        r.1 == old(shared).subscribers@.len(),
        final(shared).subscribers@ == old(shared).subscribers@.push(
            (SubscriberView {
                management_type: management_type@,
                queue: Seq::<AdminEventView>::empty(),
            }),
        ),
{
    let id = shared.add_subscriber(String::from_str(management_type));
    (STATUS_SWITCHING_PROTOCOLS, id)
}

} // verus!
