use vstd::prelude::*;

use crate::socket_id::error::Error;

verus! {

/// An IPv4 socket address: the four octets of the address, most significant
/// first, and the port.
#[derive(Debug, Clone, Copy, PartialEq, Eq)]
pub struct Ipv4Socket {
    pub ip: [u8; 4],
    pub port: u16,
}

/// The identifier of a socket: the 32 bits of the address followed by the 16
/// bits of the port, in the low 48 bits of a `u64`.
pub open spec fn socket_id(ip: Seq<u8>, port: u16) -> int {
    ip[0] * 0x100_0000_0000 + ip[1] * 0x1_0000_0000 + ip[2] * 0x100_0000 + ip[3] * 0x1_0000
        + port
}

/// Packs a socket address into its identifier.
pub fn into_u64(socket: &Ipv4Socket) -> (res: u64)
    ensures
        res == socket_id(socket.ip@, socket.port),
        res < 0x1_0000_0000_0000,
{
    let a: u64 = socket.ip[0] as u64;
    let b: u64 = socket.ip[1] as u64;
    let c: u64 = socket.ip[2] as u64;
    let d: u64 = socket.ip[3] as u64;
    let port: u64 = socket.port as u64;
    let mut ipv4_u64: u64 = 0;
    ipv4_u64 = ipv4_u64 << 8 | a;
    ipv4_u64 = ipv4_u64 << 8 | b;
    ipv4_u64 = ipv4_u64 << 8 | c;
    ipv4_u64 = ipv4_u64 << 8 | d;
    let res: u64 = ipv4_u64 << 16 | port;
    assert(res == a * 0x100_0000_0000 + b * 0x1_0000_0000 + c * 0x100_0000 + d * 0x1_0000 + port
        && res < 0x1_0000_0000_0000) by (bit_vector)
        requires
            a < 256,
            b < 256,
            c < 256,
            d < 256,
            port < 0x1_0000,
            res == ((((((0u64 << 8 | a) << 8 | b) << 8 | c) << 8 | d) << 16) | port),
    ;
    res
}

/// Unpacks an identifier into a socket address: the port from the low 16
/// bits, the address from the 32 bits above them. The top 16 bits are
/// ignored.
pub fn from_u64(ipv4_u64: u64) -> (res: Result<Ipv4Socket, Error>)
    ensures
        res is Ok,
        socket_id(res->Ok_0.ip@, res->Ok_0.port) == ipv4_u64 % 0x1_0000_0000_0000,
{
    let ip_u32: u32 = ((ipv4_u64 & 0xffff_ffff_ffff_0000u64) >> 16) as u32;
    let port: u16 = (ipv4_u64 & 0xffff) as u16;
    let a: u8 = ((ip_u32 & 0xff00_0000u32) >> 24) as u8;
    let b: u8 = ((ip_u32 & 0xff_0000u32) >> 16) as u8;
    let c: u8 = ((ip_u32 & 0xff00u32) >> 8) as u8;
    let d: u8 = (ip_u32 & 0xffu32) as u8;
    assert(a * 0x100_0000_0000 + b * 0x1_0000_0000 + c * 0x100_0000 + d * 0x1_0000 + port
        == ipv4_u64 % 0x1_0000_0000_0000) by (bit_vector)
        requires
            ip_u32 == ((ipv4_u64 & 0xffff_ffff_ffff_0000u64) >> 16) as u32,
            port == (ipv4_u64 & 0xffff) as u16,
            a == ((ip_u32 & 0xff00_0000u32) >> 24) as u8,
            b == ((ip_u32 & 0xff_0000u32) >> 16) as u8,
            c == ((ip_u32 & 0xff00u32) >> 8) as u8,
            d == (ip_u32 & 0xffu32) as u8,
    ;
    let socket = Ipv4Socket { ip: [a, b, c, d], port };
    assert(socket.ip@ =~= seq![a, b, c, d]);
    Ok(socket)
}

/// Packing and unpacking agree: the identifier of a socket address unpacks
/// to that same address.
pub proof fn law_socket_id_roundtrip(ip: Seq<u8>, port: u16, ip2: Seq<u8>, port2: u16)
    requires
        ip.len() == 4,
        ip2.len() == 4,
        socket_id(ip2, port2) == socket_id(ip, port) % 0x1_0000_0000_0000,
    ensures
        ip2 == ip,
        port2 == port,
{
    let (a, b, c, d) = (ip[0], ip[1], ip[2], ip[3]);
    let (a2, b2, c2, d2) = (ip2[0], ip2[1], ip2[2], ip2[3]);
    assert(a2 == a && b2 == b && c2 == c && d2 == d && port2 == port) by (bit_vector)
        requires
            a2 * 0x100_0000_0000 + b2 * 0x1_0000_0000 + c2 * 0x100_0000 + d2 * 0x1_0000 + port2
                == (a * 0x100_0000_0000 + b * 0x1_0000_0000 + c * 0x100_0000 + d * 0x1_0000
                + port) % 0x1_0000_0000_0000,
    ;
    assert(ip2 =~= ip);
}

/// Distinct socket addresses have distinct identifiers.
pub proof fn law_socket_id_injective(ip: Seq<u8>, port: u16, ip2: Seq<u8>, port2: u16)
    requires
        ip.len() == 4,
        ip2.len() == 4,
        socket_id(ip, port) == socket_id(ip2, port2),
    ensures
        ip == ip2,
        port == port2,
{
    let (a, b, c, d) = (ip[0], ip[1], ip[2], ip[3]);
    let v = socket_id(ip, port);
    assert(v == a * 0x100_0000_0000 + b * 0x1_0000_0000 + c * 0x100_0000 + d * 0x1_0000 + port);
    assert((a * 0x100_0000_0000 + b * 0x1_0000_0000 + c * 0x100_0000 + d * 0x1_0000 + port)
        % 0x1_0000_0000_0000 == a * 0x100_0000_0000 + b * 0x1_0000_0000 + c * 0x100_0000 + d
        * 0x1_0000 + port) by (bit_vector);
    law_socket_id_roundtrip(ip2, port2, ip, port);
}

/// The identifier is the four octets in order, most significant first,
/// followed by the port: `a.b.c.d:p` is `a<<40 | b<<32 | c<<24 | d<<16 | p`.
pub proof fn law_socket_id_layout(ip: Seq<u8>, port: u16)
    requires
        ip.len() == 4,
    ensures
        socket_id(ip, port) == (((ip[0] * 256 + ip[1]) * 256 + ip[2]) * 256 + ip[3]) * 65536
            + port,
        socket_id(ip, port) / 0x100_0000_0000 == ip[0],
        socket_id(ip, port) % 0x1_0000 == port,
{
    let (a, b, c, d) = (ip[0] as int, ip[1] as int, ip[2] as int, ip[3] as int);
    let p = port as int;
    let v = socket_id(ip, port);
    assert(v == (((a * 256 + b) * 256 + c) * 256 + d) * 65536 + p);
    assert(0 <= b * 0x1_0000_0000 + c * 0x100_0000 + d * 0x1_0000 + p < 0x100_0000_0000) by (nonlinear_arith)
        requires
            0 <= b < 256,
            0 <= c < 256,
            0 <= d < 256,
            0 <= p < 0x1_0000,
    ;
    assert(v / 0x100_0000_0000 == a) by (nonlinear_arith)
        requires
            v == a * 0x100_0000_0000 + (b * 0x1_0000_0000 + c * 0x100_0000 + d * 0x1_0000 + p),
            0 <= b * 0x1_0000_0000 + c * 0x100_0000 + d * 0x1_0000 + p < 0x100_0000_0000,
    ;
    assert(v % 0x1_0000 == p) by (nonlinear_arith)
        requires
            v == (a * 0x100_0000 + b * 0x1_0000 + c * 0x100 + d) * 0x1_0000 + p,
            0 <= p < 0x1_0000,
    ;
}

} // verus!
