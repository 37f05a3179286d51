use vstd::prelude::*;

use crate::coins::Hash256;

verus! {

/// Seconds a peer has to answer a block request before it is handed to another.
pub const BLOCK_TIMEOUT: u64 = 60;

/// A block asked of a peer, with the time by which it must arrive.
#[derive(Clone, Copy, Debug, PartialEq, Eq, Structural)]
pub struct BlockRequest {
    pub height: usize,
    pub hash: Hash256,
    pub peer: u64,
    pub deadline: u64,
}

/// The sliding window of block requests in flight, at most `limit` of them.
pub struct RequestWindow {
    pub requests: Vec<BlockRequest>,
    pub limit: usize,
}

/// Some request in flight asks for the block at `h`.
pub open spec fn requested(r: Seq<BlockRequest>, h: int) -> bool {
    exists|k: int| 0 <= k < r.len() && r[k].height == h
}

/// The requests of `r[0..n]` still waited for at `now`.
pub open spec fn kept_requests(r: Seq<BlockRequest>, now: u64, peer: Option<u64>, n: int) -> Seq<
    BlockRequest,
>
    decreases n,
{
    if n <= 0 {
        Seq::empty()
    } else if still_waiting(r[n - 1], now, peer) {
        kept_requests(r, now, peer, n - 1).push(r[n - 1])
    } else {
        kept_requests(r, now, peer, n - 1)
    }
}

/// The requests of `r[0..n]` that are to be handed to another peer.
pub open spec fn dropped_requests(r: Seq<BlockRequest>, now: u64, peer: Option<u64>, n: int) -> Seq<
    BlockRequest,
>
    decreases n,
{
    if n <= 0 {
        Seq::empty()
    } else if still_waiting(r[n - 1], now, peer) {
        dropped_requests(r, now, peer, n - 1)
    } else {
        dropped_requests(r, now, peer, n - 1).push(r[n - 1])
    }
}

/// A request is still waited for at `now` when its deadline has not passed
/// and it was not made of the peer that went away.
pub open spec fn still_waiting(q: BlockRequest, now: u64, peer: Option<u64>) -> bool {
    q.deadline > now && match peer {
        Some(p) => q.peer != p,
        None => true,
    }
}

impl RequestWindow {
    pub open spec fn wf(&self) -> bool {
        self.requests@.len() <= self.limit
    }

    /// An empty window of at most `limit` requests.
    pub fn new(limit: usize) -> (r: RequestWindow)
        ensures
            r.wf(),
            r.limit == limit,
            r.requests@.len() == 0,
    {
        RequestWindow { requests: Vec::new(), limit }
    }

    /// Whether a request for the block at `h` is in flight.
    pub fn is_requested(&self, h: usize) -> (r: bool)
        ensures
            r == requested(self.requests@, h as int),
    {
        let mut k: usize = 0;
        while k < self.requests.len()
            invariant
                k <= self.requests@.len(),
                forall|j: int| 0 <= j < k ==> self.requests@[j].height != h,
            decreases self.requests@.len() - k,
        {
            if self.requests[k].height == h {
                return true;
            }
            k = k + 1;
        }
        false
    }

    /// The heights to ask for next: in ascending order from `from`, below
    /// `trunk_len`, those not yet requested, as many as the window has room
    /// for.
    pub fn plan(&self, from: usize, trunk_len: usize) -> (r: Vec<usize>)
        requires
            self.wf(),
        ensures
            r@.len() <= self.limit - self.requests@.len(),
            forall|i: int, j: int| 0 <= i < j < r@.len() ==> r@[i] < r@[j],
            forall|i: int|
                0 <= i < r@.len() ==> from <= #[trigger] r@[i] < trunk_len && !requested(
                    self.requests@,
                    r@[i] as int,
                ),
            forall|h: int|
                from <= h < trunk_len && !requested(self.requests@, h) && (r@.len() < self.limit
                    - self.requests@.len() || (r@.len() > 0 && h < r@[r@.len() - 1]))
                    ==> #[trigger] r@.contains(h as usize),
    {
        let room = self.limit - self.requests.len();
        let mut r: Vec<usize> = Vec::new();
        let mut h: usize = from;
        while h < trunk_len && r.len() < room
            invariant
                room == self.limit - self.requests@.len(),
                from <= h,
                r@.len() <= room,
                forall|i: int, j: int| 0 <= i < j < r@.len() ==> r@[i] < r@[j],
                forall|i: int|
                    0 <= i < r@.len() ==> from <= #[trigger] r@[i] < h && r@[i] < trunk_len
                        && !requested(self.requests@, r@[i] as int),
                forall|x: int|
                    from <= x < h && x < trunk_len && !requested(self.requests@, x)
                        ==> #[trigger] r@.contains(x as usize),
            decreases trunk_len - h,
        {
            if !self.is_requested(h) {
                let ghost before = r@;
                r.push(h);
                assert forall|x: int|
                    from <= x < h + 1 && x < trunk_len && !requested(self.requests@, x) implies #[trigger] r@.contains(
                    x as usize,
                ) by {
                    if x < h {
                        assert(before.contains(x as usize));
                        let i = choose|i: int| 0 <= i < before.len() && before[i] == x as usize;
                        assert(r@[i] == x as usize);
                    } else {
                        assert(r@[r@.len() - 1] == h);
                    }
                }
            }
            h = h + 1;
        }
        proof {
            assert forall|x: int|
                from <= x < trunk_len && !requested(self.requests@, x) && (r@.len() < room || (r@.len()
                    > 0 && x < r@[r@.len() - 1])) implies #[trigger] r@.contains(x as usize) by {
                if x >= h {
                    if r@.len() >= room {
                        assert(r@[r@.len() - 1] < h);
                    }
                }
            }
        }
        r
    }

    /// Records a request; refused where the window is full.
    pub fn add(&mut self, q: BlockRequest) -> (r: bool)
        requires
            old(self).wf(),
        ensures
            final(self).wf(),
            final(self).limit == old(self).limit,
            r == (old(self).requests@.len() < old(self).limit),
            r ==> final(self).requests@ == old(self).requests@.push(q),
            !r ==> final(self).requests@ == old(self).requests@,
    {
        if self.requests.len() < self.limit {
            self.requests.push(q);
            true
        } else {
            false
        }
    }

    /// Takes out the requests whose deadline has passed at `now` or that were
    /// made of `peer`, which went away, and returns them to be asked of
    /// other peers.
    pub fn reassign(&mut self, now: u64, peer: Option<u64>) -> (r: Vec<BlockRequest>)
        requires
            old(self).wf(),
        ensures
            final(self).wf(),
            final(self).limit == old(self).limit,
            final(self).requests@ == kept_requests(
                old(self).requests@,
                now,
                peer,
                old(self).requests@.len() as int,
            ),
            r@ == dropped_requests(old(self).requests@, now, peer, old(self).requests@.len() as int),
    {
        let ghost o = self.requests@;
        let mut kept: Vec<BlockRequest> = Vec::new();
        let mut dropped: Vec<BlockRequest> = Vec::new();
        let mut i: usize = 0;
        while i < self.requests.len()
            invariant
                i <= o.len(),
                self.requests@ == o,
                kept@ == kept_requests(o, now, peer, i as int),
                dropped@ == dropped_requests(o, now, peer, i as int),
                kept@.len() + dropped@.len() == i,
            decreases o.len() - i,
        {
            let q = self.requests[i];
            let waiting = q.deadline > now && match peer {
                Some(p) => q.peer != p,
                None => true,
            };
            if waiting {
                kept.push(q);
            } else {
                dropped.push(q);
            }
            i = i + 1;
        }
        self.requests = kept;
        dropped
    }

    /// Takes out the request for the block with hash `hash`, which arrived.
    pub fn complete(&mut self, hash: &Hash256) -> (r: Option<BlockRequest>)
        requires
            old(self).wf(),
        ensures
            final(self).wf(),
            final(self).limit == old(self).limit,
            r is None ==> final(self).requests@ == old(self).requests@ && forall|k: int|
                0 <= k < old(self).requests@.len() ==> #[trigger] old(self).requests@[k].hash != *hash,
            r matches Some(q) ==> exists|k: int|
                0 <= k < old(self).requests@.len() && old(self).requests@[k] == q && q.hash == *hash
                    && final(self).requests@ == old(self).requests@.remove(k),
    {
        let mut k: usize = 0;
        while k < self.requests.len()
            invariant
                k <= self.requests@.len(),
                self.requests@ == old(self).requests@,
                self.limit == old(self).limit,
                old(self).requests@.len() <= old(self).limit,
                forall|j: int| 0 <= j < k ==> #[trigger] self.requests@[j].hash != *hash,
            decreases self.requests@.len() - k,
        {
            if self.requests[k].hash == *hash {
                let q = self.requests.remove(k);
                return Some(q);
            }
            k = k + 1;
        }
        None
    }
}

} // verus!
