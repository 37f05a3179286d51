use vstd::prelude::*;

use crate::netaddr::NetAddress;

verus! {

/// Seconds without useful traffic after which a peer is replaced.
pub const PEER_IDLE_TIMEOUT: u64 = 90;

/// What the supervisor knows of a connected peer.
#[derive(Clone, Copy, Debug, PartialEq, Eq)]
pub struct PeerState {
    pub id: u64,
    pub address: NetAddress,
    /// When the peer last sent something useful, in seconds since the epoch.
    pub last_useful: u64,
    /// The peer sent a malformed message, an invalid header, or did not
    /// deliver a block it was asked for.
    pub misbehaved: bool,
}

/// What the supervisor does in one round: the peers to drop, the addresses to
/// ban (with the time of the ban, which keeps them out for a day), and how
/// many new connections to open.
#[derive(Clone, Debug)]
pub struct SupervisorStep {
    pub disconnect: Vec<u64>,
    pub ban: Vec<(NetAddress, u64)>,
    pub connect: usize,
}

/// A peer is dropped when it misbehaved or has been idle too long.
pub open spec fn to_drop(p: PeerState, now: u64) -> bool {
    p.misbehaved || p.last_useful + PEER_IDLE_TIMEOUT < now
}

/// The ids of the peers of `s[0..n]` to drop.
pub open spec fn dropped_ids(s: Seq<PeerState>, now: u64, n: int) -> Seq<u64>
    decreases n,
{
    if n <= 0 {
        Seq::empty()
    } else if to_drop(s[n - 1], now) {
        dropped_ids(s, now, n - 1).push(s[n - 1].id)
    } else {
        dropped_ids(s, now, n - 1)
    }
}

/// The bans for the peers of `s[0..n]` that misbehaved.
pub open spec fn bans(s: Seq<PeerState>, now: u64, n: int) -> Seq<(NetAddress, u64)>
    decreases n,
{
    if n <= 0 {
        Seq::empty()
    } else if s[n - 1].misbehaved {
        bans(s, now, n - 1).push((s[n - 1].address, now))
    } else {
        bans(s, now, n - 1)
    }
}

/// One round of supervision at `now` of the connected `peers`, towards
/// `target` connections: misbehaving and idle peers are dropped, the
/// misbehaving ones banned, and enough new connections opened to reach the
/// target again.
pub fn supervise(peers: &Vec<PeerState>, target: usize, now: u64) -> (r: SupervisorStep)
    ensures
        r.disconnect@ == dropped_ids(peers@, now, peers@.len() as int),
        r.ban@ == bans(peers@, now, peers@.len() as int),
        r.connect == if peers@.len() - r.disconnect@.len() < target {
            target - (peers@.len() - r.disconnect@.len())
        } else {
            0
        },
{
    let mut disconnect: Vec<u64> = Vec::new();
    let mut ban: Vec<(NetAddress, u64)> = Vec::new();
    let mut i: usize = 0;
    while i < peers.len()
        invariant
            i <= peers@.len(),
            disconnect@ == dropped_ids(peers@, now, i as int),
            ban@ == bans(peers@, now, i as int),
            disconnect@.len() <= i,
        decreases peers@.len() - i,
    {
        let p = peers[i];
        let idle = p.last_useful < now && now - p.last_useful > PEER_IDLE_TIMEOUT;
        if p.misbehaved || idle {
            disconnect.push(p.id);
        }
        if p.misbehaved {
            ban.push((p.address, now));
        }
        i = i + 1;
    }
    let kept = peers.len() - disconnect.len();
    let connect = if kept < target {
        target - kept
    } else {
        0
    };
    SupervisorStep { disconnect, ban, connect }
}

} // verus!
