use vstd::prelude::*;
use vstd::string::*;

use crate::error::{Error, IoKind};

verus! {

/// A socket address as the operating system gives it: an IPv4 address as four
/// octets, or an IPv6 address as eight segments, with a port.
#[derive(Clone, Copy, Debug, PartialEq, Eq, Hash)]
pub enum SocketAddress {
    V4 { ip: [u8; 4], port: u16 },
    V6 { ip: [u16; 8], port: u16 },
}

/// A peer address in the form the wire protocol carries it.
#[derive(Clone, Copy, Debug, Hash, Default, PartialEq, Eq)]
pub struct NetAddress {
    /// Network byte-order IPv6 address, or IPv4-mapped IPv6 address.
    pub address: [u16; 8],
    /// Network port.
    pub port: u16,
}

/// The eight segments of the IPv4-mapped IPv6 address `::ffff:a.b.c.d`.
pub open spec fn mapped_segments(ip: Seq<u8>) -> Seq<u16> {
    seq![
        0u16,
        0u16,
        0u16,
        0u16,
        0u16,
        0xffffu16,
        (ip[0] as int * 256 + ip[1] as int) as u16,
        (ip[2] as int * 256 + ip[3] as int) as u16,
    ]
}

/// The segments and port that a socket address stands for.
pub open spec fn socket_segments(s: SocketAddress) -> Seq<u16> {
    match s {
        SocketAddress::V4 { ip, .. } => mapped_segments(ip@),
        SocketAddress::V6 { ip, .. } => ip@,
    }
}

pub open spec fn socket_port(s: SocketAddress) -> u16 {
    match s {
        SocketAddress::V4 { port, .. } => port,
        SocketAddress::V6 { port, .. } => port,
    }
}

/// Onion addresses start with the prefix `fd87:d87e:eb43`.
pub open spec fn is_onion(a: Seq<u16>) -> bool {
    a[0] == 0xFD87u16 && a[1] == 0xD87Eu16 && a[2] == 0xEB43u16
}

/// The addresses `::a.b.c.d` and `::ffff:a.b.c.d`, which carry an IPv4 address.
pub open spec fn embeds_ipv4(a: Seq<u16>) -> bool {
    a[0] == 0 && a[1] == 0 && a[2] == 0 && a[3] == 0 && a[4] == 0 && (a[5] == 0 || a[5]
        == 0xffffu16)
}

/// The four octets held in the last two segments.
pub open spec fn embedded_octets(a: Seq<u16>) -> Seq<u8> {
    seq![(a[6] / 256) as u8, (a[6] % 256) as u8, (a[7] / 256) as u8, (a[7] % 256) as u8]
}

/// The character of a digit below sixteen, lower case above nine.
pub open spec fn digit_char(d: nat) -> char {
    if d == 0 {
        '0'
    } else if d == 1 {
        '1'
    } else if d == 2 {
        '2'
    } else if d == 3 {
        '3'
    } else if d == 4 {
        '4'
    } else if d == 5 {
        '5'
    } else if d == 6 {
        '6'
    } else if d == 7 {
        '7'
    } else if d == 8 {
        '8'
    } else if d == 9 {
        '9'
    } else if d == 10 {
        'a'
    } else if d == 11 {
        'b'
    } else if d == 12 {
        'c'
    } else if d == 13 {
        'd'
    } else if d == 14 {
        'e'
    } else {
        'f'
    }
}

/// The decimal digits of `n`, most significant first, without leading zeros.
pub open spec fn dec_digits(n: nat) -> Seq<char>
    decreases n,
{
    if n < 10 {
        seq![digit_char(n)]
    } else {
        dec_digits(n / 10) + seq![digit_char(n % 10)]
    }
}

/// The lower-case hex digits of `n`, most significant first, without leading zeros.
pub open spec fn hex_digits(n: nat) -> Seq<char>
    decreases n,
{
    if n < 16 {
        seq![digit_char(n)]
    } else {
        hex_digits(n / 16) + seq![digit_char(n % 16)]
    }
}

/// The segments `a[from..to]` in lower-case hex, separated by colons.
pub open spec fn hex_joined(a: Seq<u16>, from: int, to: int) -> Seq<char>
    decreases to - from,
{
    if to <= from {
        Seq::empty()
    } else if to == from + 1 {
        hex_digits(a[from] as nat)
    } else {
        hex_joined(a, from, to - 1) + ":"@ + hex_digits(a[to - 1] as nat)
    }
}

/// The longest run of zero segments among the first `i`, as
/// `(start, length)` of the first longest run, followed by the run that is
/// still open after segment `i - 1`.
pub open spec fn zero_runs(a: Seq<u16>, i: nat) -> (int, int, int, int)
    decreases i,
{
    if i == 0 {
        (0, 0, 0, 0)
    } else {
        let (bs, bl, cs, cl) = zero_runs(a, (i - 1) as nat);
        if a[i - 1] == 0 {
            let ncs = if cl == 0 {
                i - 1
            } else {
                cs
            };
            if cl + 1 > bl {
                (ncs, cl + 1, ncs, cl + 1)
            } else {
                (bs, bl, ncs, cl + 1)
            }
        } else {
            (bs, bl, 0, 0)
        }
    }
}

/// The text of an IPv6 address: segments in hex, with the first longest run
/// of two or more zero segments written `::`.
/// An IPv4-mapped address, `::ffff:a.b.c.d`, is written with its IPv4 part
/// in dotted decimal.
pub open spec fn ipv6_text(a: Seq<u16>) -> Seq<char> {
    let (bs, bl, _, _) = zero_runs(a, 8);
    if is_ipv4_mapped(a) {
        "::ffff:"@ + dotted(embedded_octets(a))
    } else if bl > 1 {
        hex_joined(a, 0, bs) + "::"@ + hex_joined(a, bs + bl, 8)
    } else {
        hex_joined(a, 0, 8)
    }
}

/// The address `::ffff:a.b.c.d`.
pub open spec fn is_ipv4_mapped(a: Seq<u16>) -> bool {
    a[0] == 0 && a[1] == 0 && a[2] == 0 && a[3] == 0 && a[4] == 0 && a[5] == 0xffffu16
}

/// `a.b.c.d`
pub open spec fn dotted(ip: Seq<u8>) -> Seq<char> {
    dec_digits(ip[0] as nat) + "."@ + dec_digits(ip[1] as nat) + "."@ + dec_digits(ip[2] as nat)
        + "."@ + dec_digits(ip[3] as nat)
}

/// `a.b.c.d:port`
pub open spec fn v4_text(ip: Seq<u8>, port: u16) -> Seq<char> {
    dotted(ip) + ":"@ + dec_digits(port as nat)
}

/// `[ipv6]:port`
pub open spec fn v6_text(a: Seq<u16>, port: u16) -> Seq<char> {
    "["@ + ipv6_text(a) + "]:"@ + dec_digits(port as nat)
}

/// The text of a socket address.
pub open spec fn socket_text(s: SocketAddress) -> Seq<char> {
    match s {
        SocketAddress::V4 { ip, port } => v4_text(ip@, port),
        SocketAddress::V6 { ip, port } => v6_text(ip@, port),
    }
}

/// The text of the socket address that a peer address stands for.
pub open spec fn net_text(a: Seq<u16>, port: u16) -> Seq<char> {
    if embeds_ipv4(a) {
        v4_text(embedded_octets(a), port)
    } else {
        v6_text(a, port)
    }
}

/// Relies on the `Display` of std's unsigned integers: decimal digits
/// without leading zeros.
#[verifier::external_body]
fn decimal_string(n: u16) -> (r: String)
    ensures
        r@ == dec_digits(n as nat),
{
    n.to_string()
}

/// Relies on the `LowerHex` formatting of std's unsigned integers: lower-case
/// hex digits without prefix and without leading zeros.
#[verifier::external_body]
fn hex_string(n: u16) -> (r: String)
    ensures
        r@ == hex_digits(n as nat),
{
    format!("{:x}", n)
}

/// Appends the segments `a[from..to]` in hex, separated by colons.
fn append_hex_joined(s: &mut String, a: &[u16; 8], from: usize, to: usize)
    requires
        from <= to <= 8,
    ensures
        final(s)@ == old(s)@ + hex_joined(a@, from as int, to as int),
{
    let ghost start = s@;
    let mut i: usize = from;
    while i < to
        invariant
            from <= i <= to <= 8,
            s@ == start + hex_joined(a@, from as int, i as int),
        decreases to - i,
    {
        let ghost before = s@;
        if i > from {
            s.append(":");
        }
        let h = hex_string(a[i]);
        s.append(h.as_str());
        proof {
            assert(hex_joined(a@, from as int, (i + 1) as int) == if i == from {
                hex_digits(a@[i as int] as nat)
            } else {
                hex_joined(a@, from as int, i as int) + ":"@ + hex_digits(a@[i as int] as nat)
            });
            if i > from {
                assert(s@ =~= start + hex_joined(a@, from as int, (i + 1) as int));
            } else {
                assert(hex_joined(a@, from as int, i as int) =~= Seq::empty());
                assert(s@ =~= start + hex_joined(a@, from as int, (i + 1) as int));
            }
        }
        i = i + 1;
    }
}

/// Appends `a.b.c.d`.
fn append_dotted(s: &mut String, a: u8, b: u8, c: u8, d: u8)
    ensures
        final(s)@ == old(s)@ + dotted(seq![a, b, c, d]),
{
    let t = decimal_string(a as u16);
    s.append(t.as_str());
    s.append(".");
    let t = decimal_string(b as u16);
    s.append(t.as_str());
    s.append(".");
    let t = decimal_string(c as u16);
    s.append(t.as_str());
    s.append(".");
    let t = decimal_string(d as u16);
    s.append(t.as_str());
    assert(s@ =~= old(s)@ + dotted(seq![a, b, c, d]));
}

impl SocketAddress {
    /// The text of the address, as `a.b.c.d:port` or `[ipv6]:port`.
    pub fn to_text(&self) -> (r: String)
        ensures
            r@ == socket_text(*self),
    {
        match self {
            SocketAddress::V4 { ip, port } => {
                let mut s = decimal_string(ip[0] as u16);
                s.append(".");
                let t = decimal_string(ip[1] as u16);
                s.append(t.as_str());
                s.append(".");
                let t = decimal_string(ip[2] as u16);
                s.append(t.as_str());
                s.append(".");
                let t = decimal_string(ip[3] as u16);
                s.append(t.as_str());
                s.append(":");
                let t = decimal_string(*port);
                s.append(t.as_str());
                assert(s@ =~= socket_text(*self));
                s
            },
            SocketAddress::V6 { ip, port } => {
                let mut s = String::new();
                s.append("[");
                let mut longest_start: usize = 0;
                let mut longest_len: usize = 0;
                let mut current_start: usize = 0;
                let mut current_len: usize = 0;
                let mut i: usize = 0;
                while i < 8
                    invariant
                        i <= 8,
                        zero_runs(ip@, i as nat) == (
                            longest_start as int,
                            longest_len as int,
                            current_start as int,
                            current_len as int,
                        ),
                        longest_start + longest_len <= i,
                        current_start + current_len <= i,
                    decreases 8 - i,
                {
                    if ip[i] == 0 {
                        if current_len == 0 {
                            current_start = i;
                        }
                        current_len = current_len + 1;
                        if current_len > longest_len {
                            longest_start = current_start;
                            longest_len = current_len;
                        }
                    } else {
                        current_start = 0;
                        current_len = 0;
                    }
                    i = i + 1;
                }
                if ip[0] == 0 && ip[1] == 0 && ip[2] == 0 && ip[3] == 0 && ip[4] == 0 && ip[5]
                    == 0xffff {
                    s.append("::ffff:");
                    append_dotted(
                        &mut s,
                        (ip[6] / 256) as u8,
                        (ip[6] % 256) as u8,
                        (ip[7] / 256) as u8,
                        (ip[7] % 256) as u8,
                    );
                    assert(seq![
                        (ip@[6] / 256) as u8,
                        (ip@[6] % 256) as u8,
                        (ip@[7] / 256) as u8,
                        (ip@[7] % 256) as u8,
                    ] =~= embedded_octets(ip@));
                } else if longest_len > 1 {
                    append_hex_joined(&mut s, ip, 0, longest_start);
                    s.append("::");
                    append_hex_joined(&mut s, ip, longest_start + longest_len, 8);
                } else {
                    append_hex_joined(&mut s, ip, 0, 8);
                }
                s.append("]:");
                let t = decimal_string(*port);
                s.append(t.as_str());
                assert(s@ =~= socket_text(*self));
                s
            },
        }
    }
}

impl NetAddress {
    /// The segments of the address.
    pub open spec fn segments(&self) -> Seq<u16> {
        self.address@
    }

    /// Create an address message for a socket.
    pub fn new(socket: &SocketAddress) -> (r: NetAddress)
        ensures
            r.segments() == socket_segments(*socket),
            r.port == socket_port(*socket),
    {
        match socket {
            SocketAddress::V4 { ip, port } => {
                let hi = (ip[0] as u16) * 256 + ip[1] as u16;
                let lo = (ip[2] as u16) * 256 + ip[3] as u16;
                let address: [u16; 8] = [0, 0, 0, 0, 0, 0xffff, hi, lo];
                assert(address@ =~= mapped_segments(ip@));
                NetAddress { address, port: *port }
            },
            SocketAddress::V6 { ip, port } => NetAddress { address: *ip, port: *port },
        }
    }

    /// The socket address of this peer: IPv4 where the address embeds one,
    /// IPv6 otherwise; an onion address has none.
    pub fn socket_address(&self) -> (r: Result<SocketAddress, Error>)
        ensures
            is_onion(self.segments()) ==> r == Err::<SocketAddress, Error>(
                Error::IO(IoKind::AddrNotAvailable),
            ),
            !is_onion(self.segments()) && embeds_ipv4(self.segments()) ==> (r matches Ok(
                SocketAddress::V4 { ip, port },
            ) && ip@ == embedded_octets(self.segments()) && port == self.port),
            !is_onion(self.segments()) && !embeds_ipv4(self.segments()) ==> r == Ok::<
                SocketAddress,
                Error,
            >(SocketAddress::V6 { ip: self.address, port: self.port }),
    {
        let a = &self.address;
        if a[0] == 0xFD87 && a[1] == 0xD87E && a[2] == 0xEB43 {
            return Err(Error::IO(IoKind::AddrNotAvailable));
        }
        if a[0] == 0 && a[1] == 0 && a[2] == 0 && a[3] == 0 && a[4] == 0 && (a[5] == 0 || a[5]
            == 0xffff) {
            let ip: [u8; 4] = [
                (a[6] / 256) as u8,
                (a[6] % 256) as u8,
                (a[7] / 256) as u8,
                (a[7] % 256) as u8,
            ];
            assert(ip@ =~= embedded_octets(self.segments()));
            Ok(SocketAddress::V4 { ip, port: self.port })
        } else {
            Ok(SocketAddress::V6 { ip: self.address, port: self.port })
        }
    }

    /// The text of the socket address of this peer.
    pub fn to_string(&self) -> (r: Result<String, Error>)
        ensures
            is_onion(self.segments()) ==> r == Err::<String, Error>(
                Error::IO(IoKind::AddrNotAvailable),
            ),
            !is_onion(self.segments()) ==> (r matches Ok(t) && t@ == net_text(
                self.segments(),
                self.port,
            )),
    {
        let s = self.socket_address()?;
        Ok(s.to_text())
    }
}

} // verus!
