use btcdk::config::{Config, Network};
use btcdk::netaddr::SocketAddress;

#[test]
fn new_config_has_no_peers() {
    let c = Config::new("encryptedwalletkey", "keyroot", 0, 0, Network::Testnet);
    assert_eq!(c.encryptedwalletkey, "encryptedwalletkey");
    assert_eq!(c.keyroot, "keyroot");
    assert_eq!(c.network, Network::Testnet);
    assert!(c.bitcoin_peers.is_empty());
    assert_eq!(c.bitcoin_connections, 0);
    assert!(!c.bitcoin_discovery);
}

#[test]
fn update_config_sets_peers_connections_and_discovery() {
    let c = Config::new("key", "root", 10, 1234, Network::Regtest);
    let peer1 = SocketAddress::V4 { ip: [127, 0, 0, 1], port: 18333 };
    let peer2 = SocketAddress::V4 { ip: [10, 0, 0, 10], port: 18333 };
    let u = c.update(vec![peer1, peer2], 3, true);
    assert_eq!(u.network, Network::Regtest);
    assert_eq!(u.bitcoin_peers, vec![peer1, peer2]);
    assert_eq!(u.bitcoin_connections, 3);
    assert!(u.bitcoin_discovery);
    assert_eq!(u.lookahead, 10);
    assert_eq!(u.birth, 1234);
    assert_eq!(u.keyroot, "root");
}

#[test]
fn network_names() {
    assert_eq!(Network::Bitcoin.name(), "bitcoin");
    assert_eq!(Network::Testnet.name(), "testnet");
    assert_eq!(Network::Regtest.name(), "regtest");
}
