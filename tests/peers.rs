use btcdk::netaddr::{NetAddress, SocketAddress};
use btcdk::peers::{supervise, PeerState};

fn peer(id: u64, last_useful: u64, misbehaved: bool) -> PeerState {
    PeerState {
        id,
        address: NetAddress::new(&SocketAddress::V4 { ip: [10, 0, 0, id as u8], port: 8333 }),
        last_useful,
        misbehaved,
    }
}

#[test]
fn idle_and_misbehaving_peers_are_replaced() {
    let now = 1_000;
    let peers = vec![peer(1, 990, false), peer(2, 900, false), peer(3, 995, true), peer(4, 910, false)];
    let step = supervise(&peers, 5, now);
    assert_eq!(step.disconnect, vec![2, 3]);
    assert_eq!(step.ban, vec![(peers[2].address, now)]);
    assert_eq!(step.connect, 3);
}

#[test]
fn enough_healthy_peers_need_no_new_connections() {
    let peers = vec![peer(1, 100, false), peer(2, 100, false)];
    let step = supervise(&peers, 2, 150);
    assert!(step.disconnect.is_empty());
    assert!(step.ban.is_empty());
    assert_eq!(step.connect, 0);
}
