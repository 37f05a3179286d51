use std::hash::Hasher;

use btcdk::address_book::{
    address_slot, eligible_addresses, pick_address, slot_update, AddressRow, ADDRESS_SLOTS,
};
use btcdk::netaddr::{NetAddress, SocketAddress};

fn addr(a: u8, port: u16) -> NetAddress {
    NetAddress::new(&SocketAddress::V4 { ip: [10, 0, 0, a], port })
}

fn row(a: u8, connected: u64, last_seen: u64, banned: u64) -> AddressRow {
    AddressRow { ip: addr(a, 8333), connected, last_seen, banned }
}

const NOW: u64 = 1_600_000_000;

#[test]
fn slot_is_siphash_of_network_and_segments() {
    let a = addr(7, 18333);
    let mut h = siphasher::sip::SipHasher::new_with_keys(11, 22);
    let mut msg: Vec<u8> = b"regtest".to_vec();
    for s in a.address.iter() {
        msg.push((*s & 0xff) as u8);
        msg.push((*s >> 8) as u8);
    }
    h.write(&msg);
    let expected = (h.finish() % ADDRESS_SLOTS) as u16;
    let slot = address_slot(11, 22, "regtest", &a);
    assert_eq!(slot, expected);
    assert!((slot as u64) < ADDRESS_SLOTS);
}

#[test]
fn slot_depends_on_the_network_name() {
    let a = addr(7, 18333);
    let mut seen = std::collections::HashSet::new();
    for k in 0..20u64 {
        seen.insert((address_slot(k, k + 1, "regtest", &a), address_slot(k, k + 1, "testnet", &a)));
    }
    assert!(seen.iter().any(|(x, y)| x != y));
}

#[test]
fn empty_slot_takes_the_new_row() {
    let new = row(1, 5, 6, 0);
    assert_eq!(slot_update(None, new, NOW), Some(new));
}

#[test]
fn same_address_keeps_the_larger_times() {
    let old = row(1, 100, 900, 50);
    let new = row(1, 200, 300, 0);
    let r = slot_update(Some(old), new, NOW).unwrap();
    assert_eq!(r.connected, 200);
    assert_eq!(r.last_seen, 900);
    assert_eq!(r.banned, 50);
}

#[test]
fn recent_incumbent_is_not_evicted() {
    let old = row(1, NOW - 3600, NOW, 0);
    let new = row(2, NOW, NOW, 0);
    assert_eq!(slot_update(Some(old), new, NOW), None);
}

#[test]
fn banned_or_stale_incumbent_is_evicted() {
    let new = row(2, NOW, NOW, 0);
    let banned = row(1, NOW, NOW, 7);
    assert_eq!(slot_update(Some(banned), new, NOW), Some(new));
    let stale = row(1, NOW - 5 * 24 * 3600 - 1, NOW, 0);
    assert_eq!(slot_update(Some(stale), new, NOW), Some(new));
    let just_five_days = row(1, NOW - 5 * 24 * 3600, NOW, 0);
    assert_eq!(slot_update(Some(just_five_days), new, NOW), None);
}

#[test]
fn eligible_addresses_are_unbanned_unlisted_and_most_recent_first() {
    let rows = vec![
        row(1, 0, 10, 0),
        row(2, 0, 30, NOW - 3600),
        row(3, 0, 20, 0),
        row(4, 0, 40, 0),
        row(5, 0, 50, NOW - 2 * 24 * 3600),
    ];
    let other_than = vec![addr(4, 8333)];
    let e = eligible_addresses(&rows, NOW, &other_than);
    let ips: Vec<NetAddress> = e.iter().map(|r| r.ip).collect();
    assert_eq!(ips, vec![addr(5, 8333), addr(3, 8333), addr(1, 8333)]);
    assert_eq!(pick_address(&e, 0), Some(addr(5, 8333)));
    assert_eq!(pick_address(&e, 1), Some(addr(3, 8333)));
    assert_eq!(pick_address(&e, 99), Some(addr(1, 8333)));
    assert_eq!(pick_address(&Vec::new(), 0), None);
}
