//! Administrative circuit service: the control plane through which nodes of a
//! splinter network propose, agree on, and commit named circuits.
//!
//! The library is organised around a serialized shared state that guards the
//! pending-proposal table, the peer authorization tracker, the subscriber
//! registry, and the circuit directory.  A thin service wrapper adds the
//! lifecycle (created, started, stopped, destroyed) and inbound message
//! dispatch.  Outbound network sends, consensus updates and orchestration
//! requests are recorded in queues that the surrounding runtime drains.

use vstd::prelude::*;

pub mod digest;
pub mod directory;
pub mod registry;
pub mod codec;
pub mod intake;
pub mod messages;
pub mod pending;
pub mod service;
pub mod shared;
pub mod tracker;

verus! {

/// Builds the well-known identifier of a node's admin service.
///
/// Every node's admin service is addressed as `admin::<node_id>`, and the
/// format must match byte for byte across nodes.
pub fn admin_service_id(node_id: &str) -> (r: String)
    ensures
        r@ == "admin::"@ + node_id@,
{
    let mut s = String::new();
    s.append("admin::");
    s.append(node_id);
    s
}

} // verus!
