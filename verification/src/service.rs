//! The admin service lifecycle: registration under the well-known admin
//! identifier, start/stop/destroy transitions, and inbound message
//! dispatch.
//!
//! The service holds the network sender exactly while it is started; that
//! invariant is part of `wf` and every transition preserves it.

use vstd::prelude::*;
use crate::codec::{enc_bytes_list, parse_admin};
use crate::digest::{sha256_of, sha256_raw};
use crate::messages::{
    byte_vecs_view, services_view, AdminError, AdminMessage, AdminMessageView,
    SplinterServiceView,
};
use crate::pending::{payload_circuit_id, PendingEntryView, Proposal, ProposalView};
use crate::shared::{
    admin_id_of, queued_view, sends_view, updates_view, AdminServiceShared, EnvelopeView,
    NetworkSender, ProposalUpdateView, QueuedSendView,
};
use crate::registry::SubscriberView;
use crate::tracker::PeerAuthorizationState;
use vstd::utf8::encode_utf8;

verus! {

#[derive(Clone, Copy, PartialEq, Eq, Structural, Debug)]
pub enum ServiceState {
    Created,
    Started,
    Stopped,
}

/// The node-local admin service: one per node, registered under
/// `admin::<node_id>`.
pub struct AdminService {
    pub service_id: String,
    pub state: ServiceState,
    pub shared: AdminServiceShared,
}

impl AdminService {
    /// The service identifier matches the node id, and the network sender
    /// is held exactly while the service is started.
    pub open spec fn wf(self) -> bool {
        &&& self.shared.wf()
        &&& self.service_id@ == admin_id_of(self.shared.node_id@)
        &&& (self.shared.network_sender is Some <==> self.state == ServiceState::Started)
    }

    pub fn new(node_id: &str) -> (r: Self)
        ensures
            r.wf(),
            r.state == ServiceState::Created,
            r.shared.node_id@ == node_id@,
            r.service_id@ == admin_id_of(node_id@),
            r.shared.network_sender is None,
            r.shared.pending@ == Seq::<PendingEntryView>::empty(),
            r.shared.directory@ == Seq::<crate::messages::CircuitView>::empty(),
            updates_view(r.shared.consensus_updates@) == Seq::<ProposalUpdateView>::empty(),
            forall|p: Seq<char>|
                r.shared.auth.state_of(p) == PeerAuthorizationState::Unknown,
            queued_view(r.shared.unauthorized@) == Seq::<QueuedSendView>::empty(),
            r.shared.subscribers@ == Seq::<SubscriberView>::empty(),
            services_view(r.shared.started_services@) == Seq::<SplinterServiceView>::empty(),
    {
        AdminService {
            service_id: crate::admin_service_id(node_id),
            state: ServiceState::Created,
            shared: AdminServiceShared::new(String::from_str(node_id)),
        }
    }

    pub fn service_id(&self) -> (r: &str)
        ensures
            r@ == self.service_id@,
    {
        self.service_id.as_str()
    }

    pub fn service_type(&self) -> (r: &str)
        ensures
            r@ == "admin"@,
    {
        "admin"
    }

    /// A started service addresses itself as `admin::` + node id: the
    /// well-known identifier every peer derives the same way.
    pub proof fn lemma_service_id_format(self)
        requires
            self.wf(),
        ensures
            self.service_id@ == "admin::"@ + self.shared.node_id@,
    {
    }

    /// Connects to the network and starts consensus.  Allowed from
    /// `Created` or `Stopped`; a second start is refused.
    pub fn start(&mut self) -> (r: Result<(), AdminError>)
        requires
            old(self).wf(),
        ensures
            final(self).wf(),
            (match old(self).state {
                ServiceState::Started => r == Err::<(), AdminError>(AdminError::AlreadyStarted)
                    && *final(self) == *old(self),
                _ => {
                    &&& r is Ok
                    &&& final(self).state == ServiceState::Started
                    &&& final(self).service_id == old(self).service_id
                    &&& (match final(self).shared.network_sender {
                        Some(n) => sends_view(n.sent@) == Seq::<EnvelopeView>::empty(),
                        None => false,
                    })
                    &&& final(self).shared.node_id == old(self).shared.node_id
                    &&& final(self).shared.pending == old(self).shared.pending
                    &&& final(self).shared.auth == old(self).shared.auth
                    &&& final(self).shared.unauthorized == old(self).shared.unauthorized
                    &&& final(self).shared.subscribers == old(self).shared.subscribers
                    &&& final(self).shared.directory == old(self).shared.directory
                    &&& final(self).shared.consensus_updates == old(self).shared.consensus_updates
                    &&& final(self).shared.started_services == old(self).shared.started_services
                },
            }),
    {
        if matches!(self.state, ServiceState::Started) {
            return Err(AdminError::AlreadyStarted);
        }
        self.shared.network_sender = Some(NetworkSender::new());
        self.state = ServiceState::Started;
        Ok(())
    }

    /// Disconnects from the network, stops consensus, and clears the
    /// network sender.  Only a started service can stop.
    pub fn stop(&mut self) -> (r: Result<(), AdminError>)
        requires
            old(self).wf(),
        ensures
            final(self).wf(),
            (match old(self).state {
                ServiceState::Started => {
                    &&& r is Ok
                    &&& final(self).state == ServiceState::Stopped
                    &&& final(self).service_id == old(self).service_id
                    &&& final(self).shared.network_sender is None
                    &&& final(self).shared.node_id == old(self).shared.node_id
                    &&& final(self).shared.pending == old(self).shared.pending
                    &&& final(self).shared.auth == old(self).shared.auth
                    &&& final(self).shared.unauthorized == old(self).shared.unauthorized
                    &&& final(self).shared.subscribers == old(self).shared.subscribers
                    &&& final(self).shared.directory == old(self).shared.directory
                    &&& final(self).shared.consensus_updates == old(self).shared.consensus_updates
                    &&& final(self).shared.started_services == old(self).shared.started_services
                },
                _ => r == Err::<(), AdminError>(AdminError::NotStarted) && *final(self) == *old(self),
            }),
    {
        if !matches!(self.state, ServiceState::Started) {
            return Err(AdminError::NotStarted);
        }
        self.shared.network_sender = None;
        self.state = ServiceState::Stopped;
        Ok(())
    }

    /// Tears the service down.  Only a stopped service may be destroyed;
    /// the caller drops it after a successful call.
    pub fn destroy(&self) -> (r: Result<(), AdminError>)
        ensures
            r is Ok <==> self.state == ServiceState::Stopped,
            r is Err ==> r == Err::<(), AdminError>(AdminError::NotStopped),
    {
        if matches!(self.state, ServiceState::Stopped) {
            Ok(())
        } else {
            Err(AdminError::NotStopped)
        }
    }

    /// Dispatches an inbound admin envelope.  Consensus traffic goes to
    /// the engine; a proposed circuit is recorded as pending — its id the
    /// digest of the payload — and then handed to the engine tagged with
    /// its sender.  Outside `Started` nothing is handled.
    pub fn handle_message(&mut self, message_bytes: &[u8], sender: &str) -> (r: Result<
        (),
        AdminError,
    >)
        requires
            old(self).wf(),
        ensures
            final(self).wf(),
            final(self).state == old(self).state,
            final(self).service_id == old(self).service_id,
            final(self).shared.node_id == old(self).shared.node_id,
            final(self).shared.network_sender == old(self).shared.network_sender,
            final(self).shared.auth == old(self).shared.auth,
            final(self).shared.unauthorized == old(self).shared.unauthorized,
            final(self).shared.subscribers == old(self).shared.subscribers,
            final(self).shared.directory == old(self).shared.directory,
            final(self).shared.started_services == old(self).shared.started_services,
            (if old(self).state != ServiceState::Started {
                r == Err::<(), AdminError>(AdminError::NotStarted) && *final(self) == *old(self)
            } else {
                match parse_admin(message_bytes@, 0) {
                    Some((m, n)) => {
                        if n != message_bytes@.len() {
                            r == Err::<(), AdminError>(AdminError::InvalidMessageFormat) && *final(self) == *old(self)
                        } else {
                            match m {
                                AdminMessageView::ConsensusMessage(b) => {
                                    &&& r is Ok
                                    &&& final(self).shared.pending == old(self).shared.pending
                                    &&& updates_view(final(self).shared.consensus_updates@)
                                        == updates_view(old(self).shared.consensus_updates@).push(
                                        ProposalUpdateView::ConsensusMessage(b),
                                    )
                                },
                                AdminMessageView::ProposedCircuit {
                                    expected_hash,
                                    circuit_payload,
                                    required_verifiers,
                                } => ({
                                    let pid = sha256_of(circuit_payload);
                                    let prop = (ProposalView {
                                        id: pid,
                                        summary: expected_hash,
                                        consensus_data: enc_bytes_list(required_verifiers),
                                    });
                                    if old(self).shared.pending.has_id(pid) {
                                        if old(self).shared.pending.entry_of(pid).payload
                                            == circuit_payload {
                                            &&& r is Ok
                                            &&& final(self).shared.pending == old(self).shared.pending
                                            &&& updates_view(
                                                final(self).shared.consensus_updates@,
                                            ) == updates_view(
                                                old(self).shared.consensus_updates@,
                                            ).push(
                                                ProposalUpdateView::ProposalReceived(
                                                    prop,
                                                    encode_utf8(sender@),
                                                ),
                                            )
                                        } else {
                                            r == Err::<(), AdminError>(
                                                AdminError::UnableToHandleMessage,
                                            ) && *final(self) == *old(self)
                                        }
                                    } else if (match payload_circuit_id(circuit_payload) {
                                        Some(cid) => old(self).shared.pending.has_circuit(cid),
                                        None => false,
                                    }) {
                                        r == Err::<(), AdminError>(AdminError::AlreadyPending)
                                            && *final(self) == *old(self)
                                    } else {
                                        &&& r is Ok
                                        &&& final(self).shared.pending@ == old(self).shared.pending@.push(
                                            (PendingEntryView {
                                                proposal: prop,
                                                payload: circuit_payload,
                                                circuit_id: payload_circuit_id(circuit_payload),
                                            }),
                                        )
                                        &&& updates_view(final(self).shared.consensus_updates@)
                                            == updates_view(
                                            old(self).shared.consensus_updates@,
                                        ).push(
                                            ProposalUpdateView::ProposalReceived(
                                                prop,
                                                encode_utf8(sender@),
                                            ),
                                        )
                                    }
                                }),
                            }
                        }
                    },
                    None => r == Err::<(), AdminError>(AdminError::InvalidMessageFormat) && *final(self) == *old(self),
                }
            }),
    {
        if !matches!(self.state, ServiceState::Started) {
            return Err(AdminError::NotStarted);
        }
        match crate::codec::decode_admin_message(message_bytes) {
            Err(_) => Err(AdminError::InvalidMessageFormat),
            Ok(AdminMessage::ConsensusMessage(b)) => {
                self.shared.forward_consensus_message(b);
                Ok(())
            },
            Ok(
                AdminMessage::ProposedCircuit { expected_hash, circuit_payload, required_verifiers },
            ) => {
                let id = sha256_raw(circuit_payload.as_slice());
                let mut consensus_data: Vec<u8> = Vec::new();
                crate::codec::emit_bytes_list(&mut consensus_data, &required_verifiers);
                proof {
                    assert(Seq::<u8>::empty() + enc_bytes_list(byte_vecs_view(required_verifiers@))
                        =~= enc_bytes_list(byte_vecs_view(required_verifiers@)));
                }
                let proposal = Proposal { id, summary: expected_hash, consensus_data };
                match self.shared.add_pending_consensus_proposal(
                    proposal.clone(),
                    circuit_payload,
                ) {
                    Ok(()) => {
                        self.shared.forward_proposal_received(
                            proposal,
                            sender.as_bytes_vec(),
                        );
                        Ok(())
                    },
                    Err(e) => Err(e),
                }
            },
        }
    }
}

} // verus!
