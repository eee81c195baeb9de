//! Node identifiers: an IPv4 socket address packed into a `u64`.
pub mod error;
pub mod ipv4;
