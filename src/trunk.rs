use vstd::prelude::*;

use crate::coins::Hash256;
use crate::error::{Error, IoKind};

verus! {

/// A header as the chain keeps it: its hash, its predecessor's hash, its
/// time, the cumulative work of the chain that ends in it, and the index of
/// its predecessor among the stored headers.
#[derive(Clone, Copy, Debug, PartialEq, Eq, Structural)]
pub struct HeaderEntry {
    pub hash: Hash256,
    pub prev: Hash256,
    pub time: u32,
    pub chain_work: u128,
    pub parent: usize,
}

/// What a new header did to the trunk: the hashes it took off, from the
/// fork point up, and the hashes it put on, from the fork point up.
#[derive(Clone, Debug)]
pub struct Reorg {
    pub disconnected: Vec<Hash256>,
    pub connected: Vec<Hash256>,
}

/// The headers known, the trunk of greatest cumulative work as indices into
/// them from genesis to tip, and the trunk height of the deepest block whose
/// transactions the coin set holds.
pub struct HeaderChain {
    pub entries: Vec<HeaderEntry>,
    pub trunk: Vec<usize>,
    pub processed: Option<usize>,
}

/// Header `a` is `b` or one of its predecessors.
pub open spec fn is_ancestor(e: Seq<HeaderEntry>, a: int, b: int) -> bool
    decreases b,
{
    if a == b {
        true
    } else if b <= 0 || b >= e.len() || e[b].parent >= b {
        false
    } else {
        is_ancestor(e, a, e[b].parent as int)
    }
}

/// `t` is a path of headers from genesis, each the predecessor of the next.
pub open spec fn is_path(e: Seq<HeaderEntry>, t: Seq<usize>) -> bool {
    &&& t.len() >= 1
    &&& t[0] == 0
    &&& forall|k: int| 0 <= k < t.len() ==> #[trigger] t[k] < e.len()
    &&& forall|k: int| 1 <= k < t.len() ==> e[#[trigger] t[k] as int].parent == t[k - 1] && t[k - 1] < t[k]
}

/// How many leading positions two paths share.
pub open spec fn common_prefix(a: Seq<usize>, b: Seq<usize>, n: int) -> bool {
    &&& 0 <= n <= a.len()
    &&& n <= b.len()
    &&& forall|k: int| 0 <= k < n ==> a[k] == b[k]
    &&& (n == a.len() || n == b.len() || a[n] != b[n])
}

/// The hashes of the headers at `t[from..]`.
pub open spec fn hashes_from(e: Seq<HeaderEntry>, t: Seq<usize>, from: int) -> Seq<Hash256> {
    t.subrange(from, t.len() as int).map_values(|i: usize| e[i as int].hash)
}

/// Every header of a path is an ancestor of the path's last header.
pub proof fn lemma_path_ancestors(e: Seq<HeaderEntry>, t: Seq<usize>, k: int, j: int)
    requires
        is_path(e, t),
        forall|i: int| 1 <= i < e.len() ==> #[trigger] e[i].parent < i,
        0 <= k <= j < t.len(),
    ensures
        is_ancestor(e, t[k] as int, t[j] as int),
    decreases j,
{
    if j > k {
        lemma_path_ancestors(e, t, k, j - 1);
        assert(t[j - 1] < t[j]);
        assert(e[t[j] as int].parent == t[j - 1]);
    }
}

/// The length of the longest common prefix of two paths from genesis.
fn fork_point(a: &Vec<usize>, b: &Vec<usize>) -> (f: usize)
    requires
        a@.len() >= 1,
        b@.len() >= 1,
        a@[0] == b@[0],
    ensures
        1 <= f,
        common_prefix(a@, b@, f as int),
{
    let mut f: usize = 0;
    while f < a.len() && f < b.len() && a[f] == b[f]
        invariant
            f <= a@.len(),
            f <= b@.len(),
            forall|j: int| 0 <= j < f ==> a@[j] == b@[j],
        decreases a@.len() - f,
    {
        f = f + 1;
    }
    f
}

/// What adding a header does to the chain `o`, giving `n` and `r`: a known
/// header changes nothing; one with an unknown predecessor, or whose
/// cumulative work cannot be counted, is refused; otherwise it is stored, and
/// where its chain has more work than the trunk it becomes the trunk, the
/// change is reported from the fork point `f` up, and a processed marker
/// above the fork point moves to `f - 1`.
#[verifier::opaque]
pub open spec fn header_added(
    o: HeaderChain,
    n: HeaderChain,
    r: Result<Reorg, Error>,
    hash: Hash256,
    prev: Hash256,
    time: u32,
    work: u128,
) -> bool {
    &&& (exists|i: int| 0 <= i < o.entries@.len() && o.entries@[i].hash == hash)
            ==> (r matches Ok(g) && g.disconnected@.len() == 0 && g.connected@.len() == 0
            && n.entries@ == o.entries@ && n.trunk@ == o.trunk@ && n.processed == o.processed)
    &&& !(exists|i: int| 0 <= i < o.entries@.len() && o.entries@[i].hash == hash)
            && !(exists|i: int|
            0 <= i < o.entries@.len() && o.entries@[i].hash == prev) ==> (r
            == Err::<Reorg, Error>(Error::IO(IoKind::InvalidInput)) && n.entries@
            == o.entries@ && n.trunk@ == o.trunk@ && n.processed == o.processed)
    &&& forall|p: int|
            0 <= p < o.entries@.len() && o.entries@[p].hash == prev && !(exists|
                i: int,
            |
                0 <= i < o.entries@.len() && o.entries@[i].hash == hash) ==> {
                                    let cw = o.entries@[p].chain_work + work;
                let k = o.entries@.len() as int;
                &&& cw > u128::MAX ==> r == Err::<Reorg, Error>(Error::IO(IoKind::InvalidInput))
                    && n.entries@ == o.entries@ && n.trunk@ == o.trunk@
                    && n.processed == o.processed
                &&& cw <= u128::MAX ==> n.entries@ == o.entries@.push(
                    HeaderEntry { hash, prev, time, chain_work: cw as u128, parent: p as usize },
                )
                &&& cw <= u128::MAX && cw <= o.entries@[o.tip()].chain_work ==> (r matches Ok(g) && g.disconnected@.len() == 0 && g.connected@.len() == 0 && n.trunk@ == o.trunk@ && n.processed == o.processed)
                &&& cw <= u128::MAX && cw > o.entries@[o.tip()].chain_work ==> (r matches Ok(g) && n.tip() == k && exists|f: int|
                    1 <= f && common_prefix(o.trunk@, n.trunk@, f)
                        && g.disconnected@ == hashes_from(o.entries@, o.trunk@, f)
                        && g.connected@ == hashes_from(n.entries@, n.trunk@, f)
                        && n.processed == match o.processed {
                        Some(m) => if m >= f {
                            Some((f - 1) as usize)
                        } else {
                            Some(m)
                        },
                        None => None,
                    })
            }
}

/// Hashes are unique among the stored headers, so `p` is the only index
/// with hash `h`.
proof fn lemma_unique_index(e: Seq<HeaderEntry>, p: int, h: Hash256)
    requires
        0 <= p < e.len(),
        e[p].hash == h,
        forall|i: int, j: int| 0 <= i < j < e.len() ==> #[trigger] e[i].hash != #[trigger] e[j].hash,
    ensures
        forall|q: int| 0 <= q < e.len() && e[q].hash == h ==> q == p,
{
    assert forall|q: int| 0 <= q < e.len() && e[q].hash == h implies q == p by {
        if q < p {
            assert(e[q].hash != e[p].hash);
        } else if q > p {
            assert(e[p].hash != e[q].hash);
        }
    }
}

impl HeaderChain {
    pub open spec fn wf(&self) -> bool {
        &&& self.entries@.len() >= 1
        &&& forall|i: int| 1 <= i < self.entries@.len() ==> #[trigger] self.entries@[i].parent < i
        &&& is_path(self.entries@, self.trunk@)
        &&& self.processed matches Some(p) ==> p < self.trunk@.len()
        &&& forall|i: int, j: int|
            0 <= i < j < self.entries@.len() ==> #[trigger] self.entries@[i].hash
                != #[trigger] self.entries@[j].hash
    }

    /// The index of the header at the tip of the trunk.
    pub open spec fn tip(&self) -> int {
        self.trunk@.last() as int
    }

    /// A chain that holds only the genesis header.
    pub fn new(genesis: Hash256, time: u32, work: u128) -> (r: HeaderChain)
        ensures
            r.wf(),
            r.entries@ == seq![
                HeaderEntry { hash: genesis, prev: genesis, time, chain_work: work, parent: 0 },
            ],
            r.trunk@ == seq![0usize],
            r.processed is None,
    {
        let mut entries: Vec<HeaderEntry> = Vec::new();
        entries.push(HeaderEntry { hash: genesis, prev: genesis, time, chain_work: work, parent: 0 });
        let mut trunk: Vec<usize> = Vec::new();
        trunk.push(0);
        HeaderChain { entries, trunk, processed: None }
    }

    /// Number of headers on the trunk.
    pub fn len(&self) -> (r: usize)
        ensures
            r == self.trunk@.len(),
    {
        self.trunk.len()
    }

    /// Hash of the header at the tip of the trunk.
    pub fn best_hash(&self) -> (r: Hash256)
        requires
            self.wf(),
        ensures
            r == self.entries@[self.tip()].hash,
    {
        let t = self.trunk[self.trunk.len() - 1];
        self.entries[t].hash
    }

    /// The trunk height of the header with hash `h`, if it is on the trunk.
    pub fn get_height(&self, h: &Hash256) -> (r: Option<usize>)
        requires
            self.wf(),
        ensures
            r matches Some(k) ==> k < self.trunk@.len() && self.entries@[self.trunk@[k as int] as int].hash
                == *h,
            r is None ==> forall|k: int|
                0 <= k < self.trunk@.len() ==> self.entries@[#[trigger] self.trunk@[k] as int].hash
                    != *h,
    {
        let mut k: usize = 0;
        while k < self.trunk.len()
            invariant
                self.wf(),
                k <= self.trunk@.len(),
                forall|j: int|
                    0 <= j < k ==> self.entries@[#[trigger] self.trunk@[j] as int].hash != *h,
            decreases self.trunk@.len() - k,
        {
            if self.entries[self.trunk[k]].hash == *h {
                return Some(k);
            }
            k = k + 1;
        }
        None
    }

    /// The index of the stored header with hash `h`, if any.
    fn find(&self, h: &Hash256) -> (r: Option<usize>)
        ensures
            r matches Some(i) ==> i < self.entries@.len() && self.entries@[i as int].hash == *h,
            r is None ==> forall|i: int|
                0 <= i < self.entries@.len() ==> #[trigger] self.entries@[i].hash != *h,
    {
        let mut i: usize = 0;
        while i < self.entries.len()
            invariant
                i <= self.entries@.len(),
                forall|j: int| 0 <= j < i ==> #[trigger] self.entries@[j].hash != *h,
            decreases self.entries@.len() - i,
        {
            if self.entries[i].hash == *h {
                return Some(i);
            }
            i = i + 1;
        }
        None
    }

    /// The path from genesis to the stored header `n`.
    fn path_to(&self, n: usize) -> (t: Vec<usize>)
        requires
            self.wf(),
            n < self.entries@.len(),
        ensures
            is_path(self.entries@, t@),
            t@.last() == n,
    {
        let mut rev: Vec<usize> = Vec::new();
        rev.push(n);
        let mut cur: usize = n;
        while cur != 0
            invariant
                self.wf(),
                cur < self.entries@.len(),
                rev@.len() >= 1,
                rev@[0] == n,
                rev@.last() == cur,
                forall|k: int| 0 <= k < rev@.len() ==> #[trigger] rev@[k] < self.entries@.len(),
                forall|k: int|
                    0 <= k < rev@.len() - 1 ==> self.entries@[#[trigger] rev@[k] as int].parent
                        == rev@[k + 1] && rev@[k + 1] < rev@[k],
            decreases cur,
        {
            let up = self.entries[cur].parent;
            rev.push(up);
            cur = up;
        }
        let len = rev.len();
        let mut t: Vec<usize> = Vec::new();
        let mut k: usize = len;
        while k > 0
            invariant
                k <= len == rev@.len(),
                t@.len() == len - k,
                forall|j: int| 0 <= j < t@.len() ==> #[trigger] t@[j] == rev@[len - 1 - j],
            decreases k,
        {
            k = k - 1;
            t.push(rev[k]);
        }
        assert forall|j: int| 1 <= j < t@.len() implies self.entries@[#[trigger] t@[j] as int].parent
            == t@[j - 1] && t@[j - 1] < t@[j] by {
            assert(t@[j] == rev@[len - 1 - j]);
            assert(t@[j - 1] == rev@[(len - 1 - j) + 1]);
        }
        assert forall|j: int| 0 <= j < t@.len() implies #[trigger] t@[j] < self.entries@.len() by {
            assert(t@[j] == rev@[len - 1 - j]);
        }
        t
    }

    /// The hashes of the headers at `t[from..]`.
    fn hashes_of(&self, t: &Vec<usize>, from: usize) -> (r: Vec<Hash256>)
        requires
            from <= t@.len(),
            forall|k: int| 0 <= k < t@.len() ==> #[trigger] t@[k] < self.entries@.len(),
        ensures
            r@ == hashes_from(self.entries@, t@, from as int),
    {
        let mut r: Vec<Hash256> = Vec::new();
        let mut i: usize = from;
        while i < t.len()
            invariant
                from <= i <= t@.len(),
                forall|k: int| 0 <= k < t@.len() ==> #[trigger] t@[k] < self.entries@.len(),
                r@ == t@.subrange(from as int, i as int).map_values(
                    |x: usize| self.entries@[x as int].hash,
                ),
            decreases t@.len() - i,
        {
            r.push(self.entries[t[i]].hash);
            assert(r@ =~= t@.subrange(from as int, (i + 1) as int).map_values(
                |x: usize| self.entries@[x as int].hash,
            ));
            i = i + 1;
        }
        r
    }

    /// Adds a header. A header already known changes nothing; one whose
    /// predecessor is unknown, or whose cumulative work cannot be counted, is
    /// refused. Where the chain that ends in the new header has more work than
    /// the trunk, it becomes the trunk (on equal work the earlier trunk stays),
    /// the reorganisation is reported from the fork point up, and a processed
    /// marker above the fork point moves down to it.
    #[verifier::rlimit(50)]
    pub fn add_header(&mut self, hash: Hash256, prev: Hash256, time: u32, work: u128) -> (r: Result<
        Reorg,
        Error,
    >)
        requires
            old(self).wf(),
        ensures
            final(self).wf(),
            header_added(*old(self), *final(self), r, hash, prev, time, work),
    {
        proof {
            reveal(header_added);
        }
        let ghost o = *self;
        let empty = Reorg { disconnected: Vec::new(), connected: Vec::new() };
        if let Some(_) = self.find(&hash) {
            return Ok(empty);
        }
        let p = match self.find(&prev) {
            Some(p) => p,
            None => {
                return Err(Error::IO(IoKind::InvalidInput));
            },
        };
        let parent_work = self.entries[p].chain_work;
        if work > u128::MAX - parent_work {
            proof {
                lemma_unique_index(o.entries@, p as int, prev);
            }
            return Err(Error::IO(IoKind::InvalidInput));
        }
        let cw = parent_work + work;
        let n = self.entries.len();
        proof {
            lemma_unique_index(o.entries@, p as int, prev);
        }
        self.store_entry(HeaderEntry { hash, prev, time, chain_work: cw, parent: p });
        let tip = self.trunk[self.trunk.len() - 1];
        if cw <= self.entries[tip].chain_work {
            return Ok(empty);
        }
        let ghost pushed = self.entries@;
        let g = self.switch_trunk(n);
        proof {
            assert forall|f: int| 1 <= f <= o.trunk@.len() implies hashes_from(pushed, o.trunk@, f)
                == hashes_from(o.entries@, o.trunk@, f) by {
                assert forall|q: int| 0 <= q < o.trunk@.len() implies #[trigger] pushed[o.trunk@[q] as int]
                    == o.entries@[o.trunk@[q] as int] by {}
                assert(hashes_from(pushed, o.trunk@, f) =~= hashes_from(o.entries@, o.trunk@, f));
            }
        }
        Ok(g)
    }

    /// Stores a header whose hash is new and whose predecessor is stored.
    fn store_entry(&mut self, e: HeaderEntry)
        requires
            old(self).wf(),
            e.parent < old(self).entries@.len(),
            forall|i: int| 0 <= i < old(self).entries@.len() ==> #[trigger] old(self).entries@[i].hash != e.hash,
        ensures
            final(self).wf(),
            final(self).entries@ == old(self).entries@.push(e),
            final(self).trunk@ == old(self).trunk@,
            final(self).processed == old(self).processed,
    {
        let ghost o = *self;
        let n = self.entries.len();
        self.entries.push(e);
        proof {
            assert forall|i: int| 0 <= i < n implies #[trigger] self.entries@[i] == o.entries@[i] by {}
            assert forall|k: int| 1 <= k < self.trunk@.len() implies self.entries@[#[trigger] self.trunk@[k] as int].parent
                == self.trunk@[k - 1] && self.trunk@[k - 1] < self.trunk@[k] by {
                assert(self.entries@[self.trunk@[k] as int] == o.entries@[self.trunk@[k] as int]);
            }
            assert forall|i: int, j: int| 0 <= i < j < self.entries@.len() implies #[trigger] self.entries@[i].hash
                != #[trigger] self.entries@[j].hash by {
                if j == n {
                    assert(self.entries@[i] == o.entries@[i]);
                }
            }
        }
    }

    /// Makes the path to the last stored header the trunk, and reports the
    /// change from the fork point up; a processed marker above the fork point
    /// moves down to it.
    fn switch_trunk(&mut self, n: usize) -> (g: Reorg)
        requires
            old(self).wf(),
            n + 1 == old(self).entries@.len(),
            forall|k: int| 0 <= k < old(self).trunk@.len() ==> #[trigger] old(self).trunk@[k] < n,
        ensures
            final(self).wf(),
            final(self).entries@ == old(self).entries@,
            final(self).tip() == n,
            exists|f: int|
                1 <= f && common_prefix(old(self).trunk@, final(self).trunk@, f)
                    && g.disconnected@ == hashes_from(old(self).entries@, old(self).trunk@, f)
                    && g.connected@ == hashes_from(final(self).entries@, final(self).trunk@, f)
                    && final(self).processed == match old(self).processed {
                    Some(m) => if m >= f {
                        Some((f - 1) as usize)
                    } else {
                        Some(m)
                    },
                    None => None,
                },
    {
        let t = self.path_to(n);
        let f = fork_point(&self.trunk, &t);
        let disconnected = self.hashes_of(&self.trunk, f);
        let connected = self.hashes_of(&t, f);
        let processed = match self.processed {
            Some(m) => if m >= f {
                Some(f - 1)
            } else {
                Some(m)
            },
            None => None,
        };
        self.trunk = t;
        self.processed = processed;
        Reorg { disconnected, connected }
    }

    /// Marks the block at trunk height `height` as the deepest processed one.
    pub fn set_processed(&mut self, height: usize)
        requires
            old(self).wf(),
            height < old(self).trunk@.len(),
        ensures
            final(self).wf(),
            final(self).entries@ == old(self).entries@,
            final(self).trunk@ == old(self).trunk@,
            final(self).processed == Some(height),
    {
        self.processed = Some(height);
    }
}

/// The processed marker's block is always an ancestor of the trunk's tip.
pub proof fn processed_is_ancestor_of_tip(c: HeaderChain)
    requires
        c.wf(),
    ensures
        c.processed matches Some(p) ==> is_ancestor(c.entries@, c.trunk@[p as int] as int, c.tip()),
{
    if let Some(p) = c.processed {
        lemma_path_ancestors(c.entries@, c.trunk@, p as int, c.trunk@.len() - 1);
    }
}

} // verus!
