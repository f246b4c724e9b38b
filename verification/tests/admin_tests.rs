use splinter_admin::admin_service_id;
use splinter_admin::codec::{decode_admin_message, decode_payload, encode_admin_message, encode_payload};
use splinter_admin::digest::{sha256, sha256_raw, to_hex};
use splinter_admin::messages::{
    AdminError, AdminMessage, AuthorizationType, Circuit, CircuitManagementPayload,
    CircuitProposalVote, DurabilityType, PersistenceType, RouteType, SplinterNode,
    SplinterService, Vote,
};
use splinter_admin::registry::AdminEventKind;
use splinter_admin::service::{AdminService, ServiceState};
use splinter_admin::shared::ProposalUpdate;
use splinter_admin::tracker::PeerAuthorizationState;

fn splinter_node(node_id: &str, endpoint: &str) -> SplinterNode {
    SplinterNode { node_id: node_id.to_string(), endpoint: endpoint.to_string() }
}

fn splinter_service(service_id: &str, service_type: &str) -> SplinterService {
    SplinterService {
        service_id: service_id.to_string(),
        service_type: service_type.to_string(),
        allowed_nodes: Vec::new(),
    }
}

fn proposed_circuit() -> Circuit {
    Circuit {
        circuit_id: "test_propose_circuit".to_string(),
        authorization_type: AuthorizationType::Trust,
        persistence: PersistenceType::Any,
        routes: RouteType::Any,
        durability: DurabilityType::NoDurability,
        circuit_management_type: "test app auth handler".to_string(),
        members: vec![
            splinter_node("test-node", "tcp://someplace:8000"),
            splinter_node("other-node", "tcp://otherplace:8000"),
        ],
        roster: vec![splinter_service("service-a", "sabre"), splinter_service("service-b", "sabre")],
    }
}

fn started_service(node_id: &str) -> AdminService {
    let mut admin_service = AdminService::new(node_id);
    admin_service.start().expect("Service should have started correctly");
    admin_service
}

/// Test that a circuit creation creates the correct connections and sends the appropriate
/// messages.
#[test]
fn test_propose_circuit() {
    let mut admin_service = AdminService::new("test-node");
    admin_service.start().expect("Service should have started correctly");
    admin_service
        .shared
        .on_authorization_change("other-node", PeerAuthorizationState::Authorized);

    let proposed_circuit = proposed_circuit();

    admin_service
        .shared
        .propose_circuit(proposed_circuit.clone())
        .expect("The proposal was not handled correctly");

    let sender = admin_service.shared.network_sender.as_ref().unwrap();
    assert_eq!(1, sender.sent.len());
    let (recipient, message) = (
        sender.sent[0].recipient.clone(),
        sender.sent[0].bytes.clone(),
    );

    assert_eq!("admin::other-node".to_string(), recipient);

    let admin_envelope =
        decode_admin_message(&message).expect("The message could not be parsed");

    match admin_envelope {
        AdminMessage::ProposedCircuit { circuit_payload, .. } => {
            let expected = encode_payload(&CircuitManagementPayload::CircuitCreateRequest(
                proposed_circuit.clone(),
            ));
            assert_eq!(expected, circuit_payload);
            match decode_payload(&circuit_payload).expect("The payload could not be parsed") {
                CircuitManagementPayload::CircuitCreateRequest(c) => {
                    assert_eq!(proposed_circuit.circuit_id, c.circuit_id);
                    assert_eq!(2, c.members.len());
                    assert_eq!("test-node", c.members[0].node_id);
                    assert_eq!("tcp://someplace:8000", c.members[0].endpoint);
                    assert_eq!("other-node", c.members[1].node_id);
                    assert_eq!("service-a", c.roster[0].service_id);
                    assert_eq!("sabre", c.roster[0].service_type);
                    assert_eq!("service-b", c.roster[1].service_id);
                    assert_eq!(proposed_circuit.circuit_management_type, c.circuit_management_type);
                }
                _ => panic!("The payload was not a circuit creation request"),
            }
        }
        _ => panic!("The envelope was not a proposed circuit"),
    }
}

#[test]
fn duplicate_proposal_is_already_pending() {
    let mut admin_service = started_service("test-node");
    admin_service
        .shared
        .on_authorization_change("other-node", PeerAuthorizationState::Authorized);
    let circuit = proposed_circuit();
    admin_service
        .shared
        .propose_circuit(circuit.clone())
        .expect("first proposal should be accepted");
    let second = admin_service.shared.propose_circuit(circuit);
    assert_eq!(Err(AdminError::AlreadyPending), second);
    assert_eq!(1, admin_service.shared.pending.entries.len());
    assert_eq!(
        1,
        admin_service.shared.network_sender.as_ref().unwrap().sent.len()
    );
}

#[test]
fn peer_originated_proposal_is_recorded_then_forwarded() {
    let mut admin_service = started_service("test-node");
    let payload = encode_payload(&CircuitManagementPayload::CircuitCreateRequest(
        proposed_circuit(),
    ));
    let expected_hash = b"expected-hash".to_vec();
    let verifiers = vec![b"test-node".to_vec()];
    let envelope = encode_admin_message(&AdminMessage::ProposedCircuit {
        expected_hash: expected_hash.clone(),
        circuit_payload: payload.clone(),
        required_verifiers: verifiers.clone(),
    });

    admin_service
        .handle_message(&envelope, "admin::p")
        .expect("the proposed circuit should be handled");

    let id = sha256_raw(&payload);
    assert_eq!(1, admin_service.shared.pending.entries.len());
    assert_eq!(id, admin_service.shared.pending.entries[0].proposal.id);
    assert_eq!(payload, admin_service.shared.pending.entries[0].payload);

    assert_eq!(1, admin_service.shared.consensus_updates.len());
    match &admin_service.shared.consensus_updates[0] {
        ProposalUpdate::ProposalReceived(proposal, from) => {
            assert_eq!(id, proposal.id);
            assert_eq!(expected_hash, proposal.summary);
            let mut expected_data = Vec::new();
            splinter_admin::codec::emit_bytes_list(&mut expected_data, &verifiers);
            assert_eq!(expected_data, proposal.consensus_data);
            assert_eq!(b"admin::p".to_vec(), *from);
        }
        _ => panic!("the consensus engine did not receive the proposal"),
    }
}

#[test]
fn authorization_gating_holds_back_broadcast() {
    let mut admin_service = started_service("test-node");
    let circuit = proposed_circuit();
    admin_service
        .shared
        .propose_circuit(circuit)
        .expect("the proposal should be accepted");
    assert_eq!(
        0,
        admin_service.shared.network_sender.as_ref().unwrap().sent.len()
    );
    assert_eq!(1, admin_service.shared.unauthorized.len());

    admin_service
        .shared
        .on_authorization_change("other-node", PeerAuthorizationState::Authorized);

    let sender = admin_service.shared.network_sender.as_ref().unwrap();
    assert_eq!(1, sender.sent.len());
    assert_eq!("admin::other-node", sender.sent[0].recipient);
    assert_eq!(0, admin_service.shared.unauthorized.len());
}

#[test]
fn lifecycle_guard() {
    let mut admin_service = started_service("test-node");
    assert_eq!(Err(AdminError::AlreadyStarted), admin_service.start());
    assert_eq!(Err(AdminError::NotStopped), admin_service.destroy());
    admin_service.stop().expect("stop should succeed while started");
    assert_eq!(ServiceState::Stopped, admin_service.state);
    admin_service.destroy().expect("destroy should succeed once stopped");
}

#[test]
fn handle_message_requires_started() {
    let consensus = encode_admin_message(&AdminMessage::ConsensusMessage(b"round-1".to_vec()));

    let mut admin_service = AdminService::new("test-node");
    assert_eq!(
        Err(AdminError::NotStarted),
        admin_service.handle_message(&consensus, "admin::p")
    );

    admin_service.start().expect("Service should have started correctly");
    admin_service
        .handle_message(&consensus, "admin::p")
        .expect("a started service should dispatch");
    match &admin_service.shared.consensus_updates[0] {
        ProposalUpdate::ConsensusMessage(b) => assert_eq!(b"round-1".to_vec(), *b),
        _ => panic!("the consensus bytes were not forwarded"),
    }

    admin_service.stop().expect("stop should succeed");
    assert_eq!(
        Err(AdminError::NotStarted),
        admin_service.handle_message(&consensus, "admin::p")
    );
}

#[test]
fn commit_on_accept() {
    let mut admin_service = started_service("test-node");
    admin_service
        .shared
        .on_authorization_change("other-node", PeerAuthorizationState::Authorized);
    let sub = admin_service
        .shared
        .add_subscriber("test app auth handler".to_string());

    let mut circuit = proposed_circuit();
    circuit.roster[0].allowed_nodes = vec!["test-node".to_string()];
    circuit.roster[1].allowed_nodes = vec!["other-node".to_string()];
    admin_service
        .shared
        .propose_circuit(circuit.clone())
        .expect("the proposal should be accepted");

    let id = admin_service.shared.pending.entries[0].proposal.id.clone();
    admin_service
        .shared
        .on_proposal_accepted(&id)
        .expect("the accepted proposal should commit");

    let committed = admin_service
        .shared
        .directory
        .lookup("test_propose_circuit")
        .expect("the circuit should be in the directory");
    assert_eq!(circuit.circuit_id, committed.circuit_id);

    assert_eq!(1, admin_service.shared.started_services.len());
    assert_eq!("service-a", admin_service.shared.started_services[0].service_id);

    assert_eq!(0, admin_service.shared.pending.entries.len());

    let events = admin_service.shared.subscribers.take_events(sub);
    assert_eq!(1, events.len());
    assert_eq!(AdminEventKind::CircuitReady, events[0].kind);
    assert_eq!(Some("test_propose_circuit".to_string()), events[0].circuit_id);
}

#[test]
fn reject_drops_pending_and_leaves_directory() {
    let mut admin_service = started_service("test-node");
    admin_service
        .shared
        .on_authorization_change("other-node", PeerAuthorizationState::Authorized);
    let sub = admin_service
        .shared
        .add_subscriber("test app auth handler".to_string());
    admin_service
        .shared
        .propose_circuit(proposed_circuit())
        .expect("the proposal should be accepted");

    let id = admin_service.shared.pending.entries[0].proposal.id.clone();
    admin_service
        .shared
        .on_proposal_rejected(&id)
        .expect("the rejected proposal should be dropped");

    assert_eq!(0, admin_service.shared.pending.entries.len());
    assert!(admin_service.shared.directory.lookup("test_propose_circuit").is_none());

    let events = admin_service.shared.subscribers.take_events(sub);
    assert_eq!(1, events.len());
    assert_eq!(AdminEventKind::CircuitRejected, events[0].kind);
}

#[test]
fn admin_message_round_trip() {
    let consensus = AdminMessage::ConsensusMessage(b"opaque consensus bytes".to_vec());
    let encoded = encode_admin_message(&consensus);
    match decode_admin_message(&encoded).expect("the envelope should decode") {
        AdminMessage::ConsensusMessage(b) => assert_eq!(b"opaque consensus bytes".to_vec(), b),
        _ => panic!("wrong variant"),
    }

    let proposed = AdminMessage::ProposedCircuit {
        expected_hash: vec![1, 2, 3],
        circuit_payload: vec![9, 8, 7, 6],
        required_verifiers: vec![b"alpha".to_vec(), b"beta".to_vec()],
    };
    let encoded = encode_admin_message(&proposed);
    match decode_admin_message(&encoded).expect("the envelope should decode") {
        AdminMessage::ProposedCircuit { expected_hash, circuit_payload, required_verifiers } => {
            assert_eq!(vec![1, 2, 3], expected_hash);
            assert_eq!(vec![9, 8, 7, 6], circuit_payload);
            assert_eq!(vec![b"alpha".to_vec(), b"beta".to_vec()], required_verifiers);
        }
        _ => panic!("wrong variant"),
    }
}

#[test]
fn payload_round_trip() {
    let create = CircuitManagementPayload::CircuitCreateRequest(proposed_circuit());
    let encoded = encode_payload(&create);
    let decoded = decode_payload(&encoded).expect("the payload should decode");
    assert_eq!(encoded, encode_payload(&decoded));

    let vote = CircuitManagementPayload::CircuitProposalVote(CircuitProposalVote {
        proposal_id: vec![0xab; 32],
        vote: Vote::Accept,
    });
    let encoded = encode_payload(&vote);
    match decode_payload(&encoded).expect("the vote payload should decode") {
        CircuitManagementPayload::CircuitProposalVote(v) => {
            assert_eq!(vec![0xab; 32], v.proposal_id);
            assert_eq!(Vote::Accept, v.vote);
        }
        _ => panic!("wrong variant"),
    }
}

#[test]
fn decode_rejects_unset_and_garbage() {
    assert!(matches!(
        decode_admin_message(&[0u8, 1, 2, 3]),
        Err(AdminError::InvalidMessageFormat)
    ));
    assert!(matches!(decode_admin_message(&[]), Err(AdminError::InvalidMessageFormat)));
    let mut encoded = encode_admin_message(&AdminMessage::ConsensusMessage(vec![5, 5]));
    encoded.push(0);
    assert!(matches!(decode_admin_message(&encoded), Err(AdminError::InvalidMessageFormat)));
}

#[test]
fn digest_is_deterministic_and_zero_padded() {
    assert_eq!(
        "ba7816bf8f01cfea414140de5dae2223b00361a396177a9cb410ff61f20015ad",
        sha256(b"abc")
    );
    let payload = encode_payload(&CircuitManagementPayload::CircuitCreateRequest(
        proposed_circuit(),
    ));
    let payload_again = encode_payload(&CircuitManagementPayload::CircuitCreateRequest(
        proposed_circuit(),
    ));
    assert_eq!(payload, payload_again);
    assert_eq!(sha256(&payload), sha256(&payload_again));
    assert_eq!(sha256_raw(&payload), sha256_raw(&payload_again));
    assert_eq!("000fa5", to_hex(&[0x00, 0x0f, 0xa5]));
}

#[test]
fn service_id_has_admin_prefix() {
    assert_eq!("admin::test-node", admin_service_id("test-node"));
    let admin_service = AdminService::new("test-node");
    assert_eq!("admin::test-node", admin_service.service_id());
    assert_eq!("admin", admin_service.service_type());
}

#[test]
fn propose_requires_started_and_valid_circuit() {
    let mut admin_service = AdminService::new("test-node");
    assert_eq!(
        Err(AdminError::NotStarted),
        admin_service.shared.propose_circuit(proposed_circuit())
    );

    admin_service.start().expect("Service should have started correctly");
    let mut one_member = proposed_circuit();
    one_member.members.truncate(1);
    assert_eq!(
        Err(AdminError::InvalidCircuit),
        admin_service.shared.propose_circuit(one_member)
    );

    let mut dup_members = proposed_circuit();
    dup_members.members[1].node_id = "test-node".to_string();
    assert_eq!(
        Err(AdminError::InvalidCircuit),
        admin_service.shared.propose_circuit(dup_members)
    );

    let mut unknown_allowed = proposed_circuit();
    unknown_allowed.roster[0].allowed_nodes = vec!["stranger".to_string()];
    assert_eq!(
        Err(AdminError::InvalidCircuit),
        admin_service.shared.propose_circuit(unknown_allowed)
    );
}

#[test]
fn accept_of_unknown_or_committed_proposal_fails() {
    let mut admin_service = started_service("test-node");
    assert_eq!(
        Err(AdminError::UnableToHandleMessage),
        admin_service.shared.on_proposal_accepted(&vec![1, 2, 3])
    );
    assert_eq!(
        Err(AdminError::UnableToHandleMessage),
        admin_service.shared.on_proposal_rejected(&vec![1, 2, 3])
    );

    admin_service
        .shared
        .on_authorization_change("other-node", PeerAuthorizationState::Authorized);
    admin_service
        .shared
        .propose_circuit(proposed_circuit())
        .expect("the proposal should be accepted");
    let id = admin_service.shared.pending.entries[0].proposal.id.clone();
    admin_service
        .shared
        .on_proposal_accepted(&id)
        .expect("the accepted proposal should commit");

    // a peer proposes the committed circuit again; the commit then fails
    let payload = encode_payload(&CircuitManagementPayload::CircuitCreateRequest(
        proposed_circuit(),
    ));
    let envelope = encode_admin_message(&AdminMessage::ProposedCircuit {
        expected_hash: b"h".to_vec(),
        circuit_payload: payload.clone(),
        required_verifiers: vec![],
    });
    admin_service
        .handle_message(&envelope, "admin::p")
        .expect("the peer proposal should be recorded");
    let id = sha256_raw(&payload);
    assert_eq!(
        Err(AdminError::DirectoryError),
        admin_service.shared.on_proposal_accepted(&id)
    );
    assert_eq!(1, admin_service.shared.pending.entries.len());
}

#[test]
fn vote_submission_is_routed_to_consensus() {
    let mut admin_service = AdminService::new("test-node");
    let vote = CircuitProposalVote { proposal_id: vec![7; 32], vote: Vote::Reject };
    assert_eq!(
        Err(AdminError::NotStarted),
        admin_service.shared.submit_vote(CircuitProposalVote {
            proposal_id: vote.proposal_id.clone(),
            vote: vote.vote,
        })
    );

    admin_service.start().expect("Service should have started correctly");
    admin_service
        .shared
        .submit_vote(CircuitProposalVote { proposal_id: vote.proposal_id.clone(), vote: vote.vote })
        .expect("the vote should be routed");
    let expected = encode_payload(&CircuitManagementPayload::CircuitProposalVote(vote));
    match &admin_service.shared.consensus_updates[0] {
        ProposalUpdate::ConsensusMessage(b) => assert_eq!(expected, *b),
        _ => panic!("the vote was not routed to consensus"),
    }
}

#[test]
fn identical_peer_proposal_is_idempotent() {
    let mut admin_service = started_service("test-node");
    let payload = encode_payload(&CircuitManagementPayload::CircuitCreateRequest(
        proposed_circuit(),
    ));
    let envelope = encode_admin_message(&AdminMessage::ProposedCircuit {
        expected_hash: b"h".to_vec(),
        circuit_payload: payload.clone(),
        required_verifiers: vec![],
    });
    admin_service
        .handle_message(&envelope, "admin::p")
        .expect("the first delivery should be recorded");
    admin_service
        .handle_message(&envelope, "admin::p")
        .expect("an identical re-delivery is idempotent");
    assert_eq!(1, admin_service.shared.pending.entries.len());
}

#[test]
fn intake_status_codes() {
    let mut admin_service = started_service("test-node");
    admin_service
        .shared
        .on_authorization_change("other-node", PeerAuthorizationState::Authorized);

    let body = encode_payload(&CircuitManagementPayload::CircuitCreateRequest(
        proposed_circuit(),
    ));
    assert_eq!(
        202,
        splinter_admin::intake::submit_circuit_payload(&mut admin_service.shared, &body)
    );
    // a second submission of the same circuit is refused
    assert_eq!(
        400,
        splinter_admin::intake::submit_circuit_payload(&mut admin_service.shared, &body)
    );
    // garbage does not decode
    assert_eq!(
        400,
        splinter_admin::intake::submit_circuit_payload(&mut admin_service.shared, &[3, 1, 4])
    );

    let vote_body = encode_payload(&CircuitManagementPayload::CircuitProposalVote(
        CircuitProposalVote { proposal_id: vec![1; 32], vote: Vote::Accept },
    ));
    assert_eq!(
        202,
        splinter_admin::intake::submit_vote_payload(&mut admin_service.shared, &vote_body)
    );
    // a vote posted to the circuit endpoint is the client's mistake
    assert_eq!(
        400,
        splinter_admin::intake::submit_circuit_payload(&mut admin_service.shared, &vote_body)
    );

    let (status, id) =
        splinter_admin::intake::register_subscriber(&mut admin_service.shared, "mgmt");
    assert_eq!(101, status);
    assert_eq!(0, id);

    admin_service.stop().expect("stop should succeed");
    assert_eq!(
        500,
        splinter_admin::intake::submit_vote_payload(&mut admin_service.shared, &vote_body)
    );
}

#[test]
fn circuit_intake_maps_state_error_to_500() {
    let mut admin_service = AdminService::new("test-node");
    let body = encode_payload(&CircuitManagementPayload::CircuitCreateRequest(
        proposed_circuit(),
    ));
    assert_eq!(
        500,
        splinter_admin::intake::submit_circuit_payload(&mut admin_service.shared, &body)
    );
    assert_eq!(0, admin_service.shared.pending.entries.len());
    assert_eq!(0, admin_service.shared.unauthorized.len());

    admin_service.start().expect("Service should have started correctly");
    admin_service
        .shared
        .on_authorization_change("other-node", PeerAuthorizationState::Authorized);
    assert_eq!(
        202,
        splinter_admin::intake::submit_circuit_payload(&mut admin_service.shared, &body)
    );
    let mut invalid = proposed_circuit();
    invalid.circuit_id = "another_circuit".to_string();
    invalid.members.truncate(1);
    let invalid_body = encode_payload(&CircuitManagementPayload::CircuitCreateRequest(invalid));
    assert_eq!(
        400,
        splinter_admin::intake::submit_circuit_payload(&mut admin_service.shared, &invalid_body)
    );
}

#[test]
fn orchestrator_failure_is_published_to_subscribers() {
    let mut admin_service = started_service("test-node");
    let sub = admin_service
        .shared
        .add_subscriber("test app auth handler".to_string());
    let other = admin_service.shared.add_subscriber("unrelated".to_string());

    admin_service.shared.publish_service_start_failure(
        "test app auth handler",
        "test_propose_circuit",
        "service-a",
    );

    let events = admin_service.shared.subscribers.take_events(sub);
    assert_eq!(1, events.len());
    assert_eq!(AdminEventKind::ServiceStartFailed, events[0].kind);
    assert_eq!(Some("test_propose_circuit".to_string()), events[0].circuit_id);
    assert_eq!(Some("service-a".to_string()), events[0].service_id);
    assert!(events[0].proposal_id.is_empty());

    let unrelated_events = admin_service.shared.subscribers.take_events(other);
    assert_eq!(0, unrelated_events.len());
}
