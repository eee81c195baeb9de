//! Verified core of a sharded game world: the slot table that maps the
//! world grid onto compute nodes, the per-user queue of step requests,
//! node identifiers packed from IPv4 socket addresses, the replicated
//! state machine and raft log kept by every node, and the retry policy of
//! raft connections.
use vstd::prelude::*;

pub mod compute;
pub mod network;
pub mod node;
pub mod request;
pub mod socket_id;
pub mod store;
pub mod user;
pub mod slot;

verus! {

/// Number of slots that the world may be split into.
pub const SLOT_NUMBER: usize = 10000;

/// Raft node identifier: a packed IPv4 socket address.
pub type NodeId = u64;

} // verus!
