//! Data model of the admin control plane: circuit descriptions, the
//! management payloads that propose them, and the admin wire envelope.

use vstd::prelude::*;

verus! {

/// The routing address of a circuit member.
pub struct SplinterNode {
    pub node_id: String,
    pub endpoint: String,
}

pub struct SplinterNodeView {
    pub node_id: Seq<char>,
    pub endpoint: Seq<char>,
}

impl View for SplinterNode {
    type V = SplinterNodeView;

    open spec fn view(&self) -> SplinterNodeView {
        SplinterNodeView { node_id: self.node_id@, endpoint: self.endpoint@ }
    }
}

impl Clone for SplinterNode {
    fn clone(&self) -> (r: Self)
        ensures
            r@ == self@,
    {
        SplinterNode { node_id: self.node_id.clone(), endpoint: self.endpoint.clone() }
    }
}

/// The element-wise view of a list of node descriptions.
pub open spec fn nodes_view(l: Seq<SplinterNode>) -> Seq<SplinterNodeView> {
    Seq::new(l.len(), |i: int| l[i]@)
}

/// The element-wise view of a list of service descriptions.
pub open spec fn services_view(l: Seq<SplinterService>) -> Seq<SplinterServiceView> {
    Seq::new(l.len(), |i: int| l[i]@)
}

/// The element-wise view of a list of strings.
pub open spec fn strings_view(l: Seq<String>) -> Seq<Seq<char>> {
    Seq::new(l.len(), |i: int| l[i]@)
}

/// The element-wise view of a list of byte strings.
pub open spec fn byte_vecs_view(l: Seq<Vec<u8>>) -> Seq<Seq<u8>> {
    Seq::new(l.len(), |i: int| l[i]@)
}

/// A role within a circuit, pinned to the members allowed to run it.
pub struct SplinterService {
    pub service_id: String,
    pub service_type: String,
    pub allowed_nodes: Vec<String>,
}

pub struct SplinterServiceView {
    pub service_id: Seq<char>,
    pub service_type: Seq<char>,
    pub allowed_nodes: Seq<Seq<char>>,
}

impl View for SplinterService {
    type V = SplinterServiceView;

    open spec fn view(&self) -> SplinterServiceView {
        SplinterServiceView {
            service_id: self.service_id@,
            service_type: self.service_type@,
            allowed_nodes: strings_view(self.allowed_nodes@),
        }
    }
}

impl Clone for SplinterService {
    fn clone(&self) -> (r: Self)
        ensures
            r@ == self@,
    {
        let mut allowed: Vec<String> = Vec::new();
        let mut i: usize = 0;
        while i < self.allowed_nodes.len()
            invariant
                i <= self.allowed_nodes@.len(),
                allowed@.len() == i,
                forall|k: int| 0 <= k < i ==> allowed@[k]@ == self.allowed_nodes@[k]@,
            decreases self.allowed_nodes@.len() - i,
        {
            allowed.push(self.allowed_nodes[i].clone());
            i = i + 1;
        }
        let r = SplinterService {
            service_id: self.service_id.clone(),
            service_type: self.service_type.clone(),
            allowed_nodes: allowed,
        };
        proof {
            assert(r@.allowed_nodes =~= self@.allowed_nodes);
        }
        r
    }
}

#[derive(Clone, Copy, PartialEq, Eq, Structural, Debug)]
pub enum AuthorizationType {
    Trust,
    Challenge,
}

#[derive(Clone, Copy, PartialEq, Eq, Structural, Debug)]
pub enum PersistenceType {
    Any,
    Memory,
}

#[derive(Clone, Copy, PartialEq, Eq, Structural, Debug)]
pub enum RouteType {
    Any,
    Direct,
}

#[derive(Clone, Copy, PartialEq, Eq, Structural, Debug)]
pub enum DurabilityType {
    NoDurability,
    Durable,
}

/// A named, authenticated overlay across a set of member nodes with a fixed
/// service roster.
pub struct Circuit {
    pub circuit_id: String,
    pub authorization_type: AuthorizationType,
    pub persistence: PersistenceType,
    pub routes: RouteType,
    pub durability: DurabilityType,
    pub circuit_management_type: String,
    pub members: Vec<SplinterNode>,
    pub roster: Vec<SplinterService>,
}

pub struct CircuitView {
    pub circuit_id: Seq<char>,
    pub authorization_type: AuthorizationType,
    pub persistence: PersistenceType,
    pub routes: RouteType,
    pub durability: DurabilityType,
    pub circuit_management_type: Seq<char>,
    pub members: Seq<SplinterNodeView>,
    pub roster: Seq<SplinterServiceView>,
}

impl View for Circuit {
    type V = CircuitView;

    open spec fn view(&self) -> CircuitView {
        CircuitView {
            circuit_id: self.circuit_id@,
            authorization_type: self.authorization_type,
            persistence: self.persistence,
            routes: self.routes,
            durability: self.durability,
            circuit_management_type: self.circuit_management_type@,
            members: nodes_view(self.members@),
            roster: services_view(self.roster@),
        }
    }
}

impl Clone for Circuit {
    fn clone(&self) -> (r: Self)
        ensures
            r@ == self@,
    {
        let mut members: Vec<SplinterNode> = Vec::new();
        let mut i: usize = 0;
        while i < self.members.len()
            invariant
                i <= self.members@.len(),
                members@.len() == i,
                forall|k: int| 0 <= k < i ==> members@[k]@ == self.members@[k]@,
            decreases self.members@.len() - i,
        {
            members.push(self.members[i].clone());
            i = i + 1;
        }
        let mut roster: Vec<SplinterService> = Vec::new();
        let mut j: usize = 0;
        while j < self.roster.len()
            invariant
                j <= self.roster@.len(),
                roster@.len() == j,
                forall|k: int| 0 <= k < j ==> roster@[k]@ == self.roster@[k]@,
            decreases self.roster@.len() - j,
        {
            roster.push(self.roster[j].clone());
            j = j + 1;
        }
        let r = Circuit {
            circuit_id: self.circuit_id.clone(),
            authorization_type: self.authorization_type,
            persistence: self.persistence,
            routes: self.routes,
            durability: self.durability,
            circuit_management_type: self.circuit_management_type.clone(),
            members,
            roster,
        };
        proof {
            assert(r@.members =~= self@.members);
            assert(r@.roster =~= self@.roster);
        }
        r
    }
}

#[derive(Clone, Copy, PartialEq, Eq, Structural, Debug)]
pub enum Vote {
    Accept,
    Reject,
}

/// A client's vote on a pending proposal, identified by the proposal id.
pub struct CircuitProposalVote {
    pub proposal_id: Vec<u8>,
    pub vote: Vote,
}

pub struct CircuitProposalVoteView {
    pub proposal_id: Seq<u8>,
    pub vote: Vote,
}

impl View for CircuitProposalVote {
    type V = CircuitProposalVoteView;

    open spec fn view(&self) -> CircuitProposalVoteView {
        CircuitProposalVoteView { proposal_id: self.proposal_id@, vote: self.vote }
    }
}

/// The management action carried inside a proposal payload.
pub enum CircuitManagementPayload {
    CircuitCreateRequest(Circuit),
    CircuitProposalVote(CircuitProposalVote),
}

pub enum CircuitManagementPayloadView {
    CircuitCreateRequest(CircuitView),
    CircuitProposalVote(CircuitProposalVoteView),
}

impl View for CircuitManagementPayload {
    type V = CircuitManagementPayloadView;

    open spec fn view(&self) -> CircuitManagementPayloadView {
        match self {
            CircuitManagementPayload::CircuitCreateRequest(c) => {
                CircuitManagementPayloadView::CircuitCreateRequest(c@)
            },
            CircuitManagementPayload::CircuitProposalVote(v) => {
                CircuitManagementPayloadView::CircuitProposalVote(v@)
            },
        }
    }
}

/// The envelope exchanged between peer admin services.  An envelope whose
/// type field is unset is rejected on decode, so no variant stands for it.
pub enum AdminMessage {
    ConsensusMessage(Vec<u8>),
    ProposedCircuit {
        expected_hash: Vec<u8>,
        circuit_payload: Vec<u8>,
        required_verifiers: Vec<Vec<u8>>,
    },
}

pub enum AdminMessageView {
    ConsensusMessage(Seq<u8>),
    ProposedCircuit {
        expected_hash: Seq<u8>,
        circuit_payload: Seq<u8>,
        required_verifiers: Seq<Seq<u8>>,
    },
}

impl View for AdminMessage {
    type V = AdminMessageView;

    open spec fn view(&self) -> AdminMessageView {
        match self {
            AdminMessage::ConsensusMessage(b) => AdminMessageView::ConsensusMessage(b@),
            AdminMessage::ProposedCircuit { expected_hash, circuit_payload, required_verifiers } => {
                AdminMessageView::ProposedCircuit {
                    expected_hash: expected_hash@,
                    circuit_payload: circuit_payload@,
                    required_verifiers: byte_vecs_view(required_verifiers@),
                }
            },
        }
    }
}

/// Relies on str's equality: two string slices compare equal exactly when
/// they hold the same characters.
#[verifier::external_body]
pub(crate) fn str_eq(a: &str, b: &str) -> (r: bool)
    ensures
        r == (a@ == b@),
{
    a == b
}

/// Relies on Vec<u8>'s equality: two byte vectors compare equal exactly when
/// they hold the same bytes.
#[verifier::external_body]
pub(crate) fn bytes_eq(a: &Vec<u8>, b: &Vec<u8>) -> (r: bool)
    ensures
        r == (a@ == b@),
{
    a == b
}

/// The errors the admin service reports.
#[derive(Clone, Copy, PartialEq, Eq, Structural, Debug)]
pub enum AdminError {
    /// An inbound envelope or payload did not decode, or its type was unset.
    InvalidMessageFormat,
    /// An operation that needs the network sender ran outside `Started`.
    NotStarted,
    /// `start` was called while the service was already started.
    AlreadyStarted,
    /// `destroy` was called before the service was stopped.
    NotStopped,
    /// A proposed circuit broke a validity rule.
    InvalidCircuit,
    /// A proposal for the same circuit id is already in flight.
    AlreadyPending,
    /// An inbound message was understood but could not be acted on.
    UnableToHandleMessage,
    /// A commit could not be written because the circuit already exists.
    DirectoryError,
}

} // verus!
