//! The replicated state: the raft log a node keeps and the state machine
//! that the committed entries drive.
pub mod log;
pub mod snapshot;
pub mod state_machine;
