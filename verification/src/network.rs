//! The decisions of the node's network layer: where a raft message goes, and
//! when an unreachable member is dropped from the cluster.
pub mod api;
pub mod raft_network_impl;
