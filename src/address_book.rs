use vstd::prelude::*;
use vstd::string::*;

use byteorder::ByteOrder;
use std::hash::Hasher;

use crate::netaddr::NetAddress;

verus! {

/// Slots per network in the address book.
pub const ADDRESS_SLOTS: u64 = 10000;

/// Five days, in seconds: an incumbent connected longer ago than this may be evicted.
pub const OLD_CONNECTION: u64 = 432000;

/// One day, in seconds: how long a ban keeps an address from being handed out.
pub const BAN_TIME: u64 = 86400;

/// SipHash-2-4 of a message under the keys `(k0, k1)`.
pub uninterp spec fn siphash24(k0: u64, k1: u64, msg: Seq<u8>) -> u64;

/// Relies on siphasher's `SipHasher::new_with_keys`, `write` and `finish`:
/// SipHash-2-4 of the bytes written, under the two keys.
#[verifier::external_body]
fn siphash(k0: u64, k1: u64, msg: &Vec<u8>) -> (r: u64)
    ensures
        r == siphash24(k0, k1, msg@),
{
    let mut hasher = siphasher::sip::SipHasher::new_with_keys(k0, k1);
    hasher.write(msg.as_slice());
    hasher.finish()
}

/// The two bytes of `n`, low byte first.
pub open spec fn le_bytes(n: u16) -> Seq<u8> {
    seq![(n % 256) as u8, (n / 256) as u8]
}

/// Relies on byteorder's `LittleEndian::write_u16`: the low byte first.
#[verifier::external_body]
fn write_u16_le(n: u16) -> (r: [u8; 2])
    ensures
        r@ == le_bytes(n),
{
    let mut buf = [0u8; 2];
    byteorder::LittleEndian::write_u16(&mut buf, n);
    buf
}

/// The segments `a[0..i]`, each as two little-endian bytes.
pub open spec fn segments_le(a: Seq<u16>, i: int) -> Seq<u8>
    decreases i,
{
    if i <= 0 {
        Seq::empty()
    } else {
        segments_le(a, i - 1) + le_bytes(a[i - 1])
    }
}

/// The message hashed to find an address's slot: the network's name, then
/// each segment of the address in little-endian order.
pub open spec fn slot_message(network: Seq<u8>, a: Seq<u16>) -> Seq<u8> {
    network + segments_le(a, a.len() as int)
}

/// The slot of an address in the book of a network.
pub open spec fn spec_address_slot(k0: u64, k1: u64, network: Seq<u8>, a: Seq<u16>) -> u16 {
    (siphash24(k0, k1, slot_message(network, a)) % (ADDRESS_SLOTS as u64)) as u16
}

/// The slot that `address` takes in the book of `network`, under the store's seed.
pub fn address_slot(k0: u64, k1: u64, network: &str, address: &NetAddress) -> (r: u16)
    ensures
        r == spec_address_slot(k0, k1, network.spec_bytes(), address.segments()),
{
    let mut msg = vstd::slice::slice_to_vec(network.as_bytes());
    let ghost net = msg@;
    let mut i: usize = 0;
    while i < 8
        invariant
            i <= 8,
            net == network.spec_bytes(),
            msg@ == net + segments_le(address.segments(), i as int),
        decreases 8 - i,
    {
        let buf = write_u16_le(address.address[i]);
        msg.push(buf[0]);
        msg.push(buf[1]);
        assert(msg@ =~= net + segments_le(address.segments(), (i + 1) as int));
        i = i + 1;
    }
    let h = siphash(k0, k1, &msg);
    (h % ADDRESS_SLOTS) as u16
}

/// A row of the address book.
#[derive(Clone, Copy, Debug, PartialEq, Eq)]
pub struct AddressRow {
    pub ip: NetAddress,
    /// When a connection to it last succeeded, in seconds since the epoch.
    pub connected: u64,
    /// When it was last seen, in seconds since the epoch.
    pub last_seen: u64,
    /// When it was last banned, in seconds since the epoch; zero if never.
    /// A ban keeps the address from being handed out for a day.
    pub banned: u64,
}

/// Two peer addresses are the same endpoint.
pub open spec fn same_endpoint(a: NetAddress, b: NetAddress) -> bool {
    a.address@ == b.address@ && a.port == b.port
}

pub open spec fn max_u64(a: u64, b: u64) -> u64 {
    if a >= b {
        a
    } else {
        b
    }
}

/// An incumbent of a slot may be evicted by another address when it is banned
/// or its last connection is more than five days old.
pub open spec fn evictable(old: AddressRow, now: u64) -> bool {
    old.banned > 0 || old.connected + OLD_CONNECTION < now
}

/// The row to write into a slot that holds `old` when `new` is stored there,
/// or `None` when the slot is left as it is.
pub open spec fn spec_slot_update(old: Option<AddressRow>, new: AddressRow, now: u64) -> Option<
    AddressRow,
> {
    match old {
        None => Some(new),
        Some(o) => if same_endpoint(o.ip, new.ip) {
            Some(
                AddressRow {
                    ip: new.ip,
                    connected: max_u64(o.connected, new.connected),
                    last_seen: max_u64(o.last_seen, new.last_seen),
                    banned: max_u64(o.banned, new.banned),
                },
            )
        } else if evictable(o, now) {
            Some(new)
        } else {
            None
        },
    }
}

/// Whether two peer addresses are the same endpoint.
pub fn same_net_address(a: &NetAddress, b: &NetAddress) -> (r: bool)
    ensures
        r == same_endpoint(*a, *b),
{
    if a.port != b.port {
        return false;
    }
    let mut i: usize = 0;
    while i < 8
        invariant
            i <= 8,
            forall|j: int| 0 <= j < i ==> a.address@[j] == b.address@[j],
        decreases 8 - i,
    {
        if a.address[i] != b.address[i] {
            return false;
        }
        i = i + 1;
    }
    assert(a.address@ =~= b.address@);
    true
}

/// Decides what storing `new` does to a slot that holds `old`: the same
/// endpoint keeps the larger of each time stamp, another endpoint replaces
/// the incumbent only where it may be evicted.
pub fn slot_update(old: Option<AddressRow>, new: AddressRow, now: u64) -> (r: Option<AddressRow>)
    ensures
        r == spec_slot_update(old, new, now),
{
    match old {
        None => Some(new),
        Some(o) => {
            if same_net_address(&o.ip, &new.ip) {
                Some(
                    AddressRow {
                        ip: new.ip,
                        connected: if o.connected >= new.connected {
                            o.connected
                        } else {
                            new.connected
                        },
                        last_seen: if o.last_seen >= new.last_seen {
                            o.last_seen
                        } else {
                            new.last_seen
                        },
                        banned: if o.banned >= new.banned {
                            o.banned
                        } else {
                            new.banned
                        },
                    },
                )
            } else if o.banned > 0 || (o.connected < now && now - o.connected > OLD_CONNECTION) {
                Some(new)
            } else {
                None
            }
        },
    }
}

/// Storing an address never lowers the last-seen time or the ban of the
/// endpoint that stays in the slot: where the slot keeps its endpoint, both
/// are at least what they were; where it changes hands, the incumbent was
/// banned or had not connected for five days.
pub proof fn slot_update_is_monotone(old: AddressRow, new: AddressRow, now: u64)
    ensures
        match spec_slot_update(Some(old), new, now) {
            Some(r) => if same_endpoint(r.ip, old.ip) {
                r.last_seen >= old.last_seen && r.banned >= old.banned && r.connected
                    >= old.connected
            } else {
                evictable(old, now) && r == new
            },
            None => !same_endpoint(old.ip, new.ip) && !evictable(old, now),
        },
{
}

/// The rows of `rows[0..n]` that may be handed out at `now`: not banned within
/// the last day and not among `other_than`.
pub open spec fn eligible_rows(rows: Seq<AddressRow>, now: u64, other_than: Seq<NetAddress>, n: int) -> Seq<
    AddressRow,
>
    decreases n,
{
    if n <= 0 {
        Seq::empty()
    } else if rows[n - 1].banned + BAN_TIME < now && !(exists|k: int|
        0 <= k < other_than.len() && same_endpoint(other_than[k], rows[n - 1].ip)) {
        eligible_rows(rows, now, other_than, n - 1).push(rows[n - 1])
    } else {
        eligible_rows(rows, now, other_than, n - 1)
    }
}

/// Rows sorted by last-seen time, most recent first.
pub open spec fn by_last_seen_desc(s: Seq<AddressRow>) -> bool {
    forall|a: int, b: int| 0 <= a < b < s.len() ==> s[a].last_seen >= s[b].last_seen
}

/// Whether `a` is among `s`.
fn listed(s: &Vec<NetAddress>, a: &NetAddress) -> (r: bool)
    ensures
        r == exists|k: int| 0 <= k < s@.len() && same_endpoint(s@[k], *a),
{
    let mut i: usize = 0;
    while i < s.len()
        invariant
            i <= s@.len(),
            forall|k: int| 0 <= k < i ==> !same_endpoint(#[trigger] s@[k], *a),
        decreases s@.len() - i,
    {
        if same_net_address(&s[i], a) {
            return true;
        }
        i = i + 1;
    }
    false
}

/// The addresses that may be handed out at `now`, most recently seen first:
/// those not banned within the last day and not among `other_than`.
pub fn eligible_addresses(rows: &Vec<AddressRow>, now: u64, other_than: &Vec<NetAddress>) -> (r: Vec<
    AddressRow,
>)
    ensures
        by_last_seen_desc(r@),
        r@.to_multiset() == eligible_rows(rows@, now, other_than@, rows@.len() as int).to_multiset(),
{
    broadcast use vstd::seq_lib::group_to_multiset_ensures;

    let mut picked: Vec<AddressRow> = Vec::new();
    let mut i: usize = 0;
    while i < rows.len()
        invariant
            i <= rows@.len(),
            picked@ == eligible_rows(rows@, now, other_than@, i as int),
        decreases rows@.len() - i,
    {
        let row = rows[i];
        let not_banned = now >= BAN_TIME && row.banned < now - BAN_TIME;
        if not_banned && !listed(other_than, &row.ip) {
            picked.push(row);
        }
        i = i + 1;
    }
    let mut r: Vec<AddressRow> = Vec::new();
    let mut i: usize = 0;
    while i < picked.len()
        invariant
            i <= picked@.len(),
            by_last_seen_desc(r@),
            r@.to_multiset() == picked@.subrange(0, i as int).to_multiset(),
        decreases picked@.len() - i,
    {
        let x = picked[i];
        let mut j: usize = 0;
        while j < r.len() && r[j].last_seen >= x.last_seen
            invariant
                j <= r@.len(),
                forall|a: int| 0 <= a < j ==> r@[a].last_seen >= x.last_seen,
            decreases r@.len() - j,
        {
            j = j + 1;
        }
        let ghost before = r@;
        r.insert(j, x);
        proof {
            assert(r@ == before.insert(j as int, x));
            assert forall|a: int, b: int| 0 <= a < b < r@.len() implies r@[a].last_seen
                >= r@[b].last_seen by {
                if b < j {
                } else if b == j {
                } else if a < j {
                } else if a == j {
                    assert(r@[b] == before[b - 1]);
                    assert(before[j as int].last_seen < x.last_seen);
                } else {
                    assert(r@[a] == before[a - 1]);
                    assert(r@[b] == before[b - 1]);
                }
            }
            assert(picked@.subrange(0, (i + 1) as int) =~= picked@.subrange(0, i as int).push(x));
            vstd::seq_lib::to_multiset_insert(before, j as int, x);
            vstd::seq_lib::to_multiset_build(picked@.subrange(0, i as int), x);
        }
        i = i + 1;
    }
    assert(picked@.subrange(0, i as int) =~= picked@);
    r
}

/// The address at position `min(len - 1, draw)` of the eligible list, or
/// `None` where it is empty. The caller draws `draw` from a Poisson
/// distribution with mean `len / 4`, so recently seen peers are strongly
/// preferred without the choice being predictable.
pub fn pick_address(eligible: &Vec<AddressRow>, draw: u64) -> (r: Option<NetAddress>)
    ensures
        eligible@.len() == 0 ==> r is None,
        eligible@.len() > 0 ==> r == Some(
            eligible@[if draw < eligible@.len() - 1 {
                draw as int
            } else {
                eligible@.len() - 1
            }].ip,
        ),
{
    let len = eligible.len();
    if len == 0 {
        return None;
    }
    let i: usize = if (draw as u128) < (len - 1) as u128 {
        draw as usize
    } else {
        len - 1
    };
    Some(eligible[i].ip)
}

} // verus!
