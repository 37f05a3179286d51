use btcdk::error::{Error, IoKind};
use btcdk::netaddr::{NetAddress, SocketAddress};

#[test]
fn ipv4_address_text() {
    let a = NetAddress::new(&SocketAddress::V4 { ip: [127, 0, 0, 1], port: 18333 });
    assert_eq!(a.address, [0, 0, 0, 0, 0, 0xffff, 0x7f00, 0x0001]);
    assert_eq!(a.to_string().unwrap(), "127.0.0.1:18333");
    let b = NetAddress::new(&SocketAddress::V4 { ip: [10, 0, 0, 10], port: 18333 });
    assert_eq!(b.to_string().unwrap(), "10.0.0.10:18333");
}

#[test]
fn ipv4_round_trip_through_net_address() {
    let s = SocketAddress::V4 { ip: [192, 168, 1, 254], port: 8333 };
    let a = NetAddress::new(&s);
    assert_eq!(a.socket_address().unwrap(), s);
}

#[test]
fn ipv6_address_text_compresses_longest_zero_run() {
    let a = NetAddress::new(&SocketAddress::V6 { ip: [0x2001, 0xdb8, 0, 0, 0, 0, 0, 1], port: 8333 });
    assert_eq!(a.to_string().unwrap(), "[2001:db8::1]:8333");
    let b = NetAddress::new(&SocketAddress::V6 { ip: [0x2001, 0, 0, 1, 0, 0, 0, 0xabcd], port: 1 });
    assert_eq!(b.to_string().unwrap(), "[2001:0:0:1::abcd]:1");
    let c = NetAddress::new(&SocketAddress::V6 { ip: [0x2001, 0, 0, 1, 0, 0, 2, 3], port: 80 });
    assert_eq!(c.to_string().unwrap(), "[2001::1:0:0:2:3]:80");
    let d = NetAddress::new(&SocketAddress::V6 { ip: [0xfe80, 1, 2, 3, 4, 5, 6, 7], port: 65535 });
    assert_eq!(d.to_string().unwrap(), "[fe80:1:2:3:4:5:6:7]:65535");
    let e = NetAddress::new(&SocketAddress::V6 { ip: [1, 0, 2, 3, 4, 5, 6, 7], port: 0 });
    assert_eq!(e.to_string().unwrap(), "[1:0:2:3:4:5:6:7]:0");
}

#[test]
fn ipv4_compatible_address_reads_as_ipv4() {
    let a = NetAddress { address: [0, 0, 0, 0, 0, 0, 0x0102, 0x0304], port: 9 };
    assert_eq!(a.socket_address().unwrap(), SocketAddress::V4 { ip: [1, 2, 3, 4], port: 9 });
    assert_eq!(a.to_string().unwrap(), "1.2.3.4:9");
}

#[test]
fn onion_address_is_not_available() {
    let a = NetAddress { address: [0xFD87, 0xD87E, 0xEB43, 1, 2, 3, 4, 5], port: 8333 };
    assert_eq!(a.socket_address(), Err(Error::IO(IoKind::AddrNotAvailable)));
    assert_eq!(a.to_string(), Err(Error::IO(IoKind::AddrNotAvailable)));
}

#[test]
fn ipv4_mapped_ipv6_text_uses_dotted_decimal() {
    let s = SocketAddress::V6 { ip: [0, 0, 0, 0, 0, 0xffff, 0x0102, 0x0304], port: 5 };
    assert_eq!(s.to_text(), "[::ffff:1.2.3.4]:5");
}
