use game_world::socket_id::error::Error;
use game_world::socket_id::ipv4::{from_u64, into_u64, Ipv4Socket};

#[test]
fn ipv4_to_u64() {
    let socket = Ipv4Socket { ip: [255, 254, 253, 252], port: 65535 };
    let ipv4_u64 = into_u64(&socket);
    let ip = from_u64(ipv4_u64).ok().unwrap();
    assert_eq!(ip, socket)
}

#[test]
fn socket_id_layout() {
    let socket = Ipv4Socket { ip: [127, 0, 0, 1], port: 8080 };
    assert_eq!(0x7f00_0001_1f90, into_u64(&socket));
    let back = from_u64(0xabcd_7f00_0001_1f90).ok().unwrap();
    assert_eq!(socket, back);
}

#[test]
fn status_codes() {
    assert_eq!(400, Error::InvalidAddr("bad".to_string()).status_code());
    assert_eq!(500, Error::InvalidIpv6Addr.status_code());
    assert_eq!(500, Error::IO("down".to_string()).status_code());
}
