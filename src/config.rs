use vstd::prelude::*;

use crate::netaddr::SocketAddress;

verus! {

/// Number of unissued keys each receiving and change sub-account keeps ahead.
pub const KEY_LOOK_AHEAD: u32 = 10;

/// The Bitcoin network a wallet runs on.
#[derive(Clone, Copy, Debug, PartialEq, Eq, Structural, Hash)]
pub enum Network {
    Bitcoin,
    Testnet,
    Regtest,
}

impl Network {
    /// The network's name, as it appears in directory names and the
    /// configuration file.
    pub fn name(&self) -> (r: &'static str)
        ensures
            r@ == match *self {
                Network::Bitcoin => "bitcoin"@,
                Network::Testnet => "testnet"@,
                Network::Regtest => "regtest"@,
            },
    {
        match self {
            Network::Bitcoin => "bitcoin",
            Network::Testnet => "testnet",
            Network::Regtest => "regtest",
        }
    }
}

/// The wallet's configuration, as kept in its configuration file.
#[derive(Clone, Debug, PartialEq, Eq)]
pub struct Config {
    /// The encrypted master secret, in hex.
    pub encryptedwalletkey: String,
    /// The extended public key at the wallet's root.
    pub keyroot: String,
    /// How many unissued keys each sub-account keeps ahead.
    pub lookahead: u32,
    /// Wallet creation time, in seconds since the epoch.
    pub birth: u64,
    pub network: Network,
    pub bitcoin_peers: Vec<SocketAddress>,
    pub bitcoin_connections: usize,
    pub bitcoin_discovery: bool,
}

impl Config {
    /// A configuration with no peers, no connections and discovery off.
    pub fn new(
        encryptedwalletkey: &str,
        keyroot: &str,
        lookahead: u32,
        birth: u64,
        network: Network,
    ) -> (r: Config)
        ensures
            r.encryptedwalletkey@ == encryptedwalletkey@,
            r.keyroot@ == keyroot@,
            r.lookahead == lookahead,
            r.birth == birth,
            r.network == network,
            r.bitcoin_peers@.len() == 0,
            r.bitcoin_connections == 0,
            !r.bitcoin_discovery,
    {
        Config {
            encryptedwalletkey: encryptedwalletkey.to_owned(),
            keyroot: keyroot.to_owned(),
            lookahead,
            birth,
            network,
            bitcoin_peers: Vec::new(),
            bitcoin_connections: 0,
            bitcoin_discovery: false,
        }
    }

    /// The same wallet with other peer settings.
    pub fn update(
        &self,
        bitcoin_peers: Vec<SocketAddress>,
        bitcoin_connections: usize,
        bitcoin_discovery: bool,
    ) -> (r: Config)
        ensures
            r.encryptedwalletkey@ == self.encryptedwalletkey@,
            r.keyroot@ == self.keyroot@,
            r.lookahead == self.lookahead,
            r.birth == self.birth,
            r.network == self.network,
            r.bitcoin_peers@ == bitcoin_peers@,
            r.bitcoin_connections == bitcoin_connections,
            r.bitcoin_discovery == bitcoin_discovery,
    {
        Config {
            encryptedwalletkey: self.encryptedwalletkey.clone(),
            keyroot: self.keyroot.clone(),
            lookahead: self.lookahead,
            birth: self.birth,
            network: self.network,
            bitcoin_peers,
            bitcoin_connections,
            bitcoin_discovery,
        }
    }
}

} // verus!
