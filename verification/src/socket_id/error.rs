use vstd::prelude::*;

verus! {

/// Why a node address could not be turned into an identifier.
#[derive(Debug)]
pub enum Error {
    /// An I/O failure, with its message.
    IO(String),
    /// The address is an IPv6 address where an IPv4 one was expected.
    InvalidIpv6Addr,
    /// The address does not parse, with the parser's message.
    InvalidAddr(String),
}

/// HTTP status answered for an I/O failure or an IPv6 address.
pub const INTERNAL_SERVER_ERROR: u16 = 500;

/// HTTP status answered for an address that does not parse.
pub const BAD_REQUEST: u16 = 400;

impl Error {
    /// The HTTP status code with which a request that failed with this error
    /// is answered: a malformed address is the client's fault, the rest is
    /// the server's.
    pub fn status_code(&self) -> (res: u16)
        ensures
            res == (match self {
                Error::InvalidAddr(_) => BAD_REQUEST,
                _ => INTERNAL_SERVER_ERROR,
            }),
    {
        match self {
            Error::IO(_) | Error::InvalidIpv6Addr => INTERNAL_SERVER_ERROR,
            Error::InvalidAddr(_) => BAD_REQUEST,
        }
    }
}

} // verus!
