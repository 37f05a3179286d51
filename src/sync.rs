use vstd::prelude::*;

use crate::coins::{
    Hash256, after_txs, journal_after_txs, journal_total, total, MAX_MONEY, journal_below, kept_below, received, restored, spent, unspent,
    BlockTx, Coins, ConfirmedCoin, JournalEntry, OutPoint, WatchedScript,
};
use crate::error::Error;
use crate::trunk::{
    common_prefix, hashes_from, header_added, is_ancestor, lemma_path_ancestors, HeaderChain,
    HeaderEntry, Reorg,
};

verus! {

/// The coin's block is the trunk's block at the coin's height.
pub open spec fn coin_on_trunk(chain: HeaderChain, c: ConfirmedCoin) -> bool {
    &&& c.height < chain.trunk@.len()
    &&& chain.entries@[chain.trunk@[c.height as int] as int].hash == c.block
}

/// Every coin of `s` is on the trunk at a height of at most `bound`.
pub open spec fn coins_on_trunk(chain: HeaderChain, s: Seq<ConfirmedCoin>, bound: int) -> bool {
    forall|k: int|
        0 <= k < s.len() ==> coin_on_trunk(chain, #[trigger] s[k]) && s[k].height <= bound
}

/// Every journal entry was written at a height of at most `bound`, for a coin
/// on the trunk confirmed no higher than the block that spent it.
pub open spec fn journal_on_trunk(chain: HeaderChain, j: Seq<JournalEntry>, bound: int) -> bool {
    forall|k: int|
        0 <= k < j.len() ==> coin_on_trunk(chain, #[trigger] j[k].coin) && j[k].coin.height
            <= j[k].height && j[k].height <= bound
}

/// The header chain and the coin set, kept in step: blocks reach the coin
/// set in trunk order, and a reorganisation unwinds the coin set to the
/// fork point.
pub struct WalletSync {
    pub chain: HeaderChain,
    pub coins: Coins,
}

proof fn lemma_unspent_on_trunk(
    chain: HeaderChain,
    c: Seq<ConfirmedCoin>,
    inputs: Seq<OutPoint>,
    n: int,
    bound: int,
)
    requires
        0 <= n <= c.len(),
        coins_on_trunk(chain, c, bound),
    ensures
        coins_on_trunk(chain, unspent(c, inputs, n), bound),
    decreases n,
{
    if n > 0 {
        lemma_unspent_on_trunk(chain, c, inputs, n - 1, bound);
        let u = unspent(c, inputs, n - 1);
        if !inputs.contains(c[n - 1].outpoint) {
            assert forall|k: int| 0 <= k < u.push(c[n - 1]).len() implies coin_on_trunk(
                chain,
                #[trigger] u.push(c[n - 1])[k],
            ) && u.push(c[n - 1])[k].height <= bound by {
                if k < u.len() {
                    assert(u.push(c[n - 1])[k] == u[k]);
                }
            }
        }
    }
}

proof fn lemma_spent_on_trunk(
    chain: HeaderChain,
    c: Seq<ConfirmedCoin>,
    inputs: Seq<OutPoint>,
    n: int,
    height: u32,
)
    requires
        0 <= n <= c.len(),
        coins_on_trunk(chain, c, height as int),
    ensures
        journal_on_trunk(chain, spent(c, inputs, n, height), height as int),
    decreases n,
{
    if n > 0 {
        lemma_spent_on_trunk(chain, c, inputs, n - 1, height);
        let s = spent(c, inputs, n - 1, height);
        if inputs.contains(c[n - 1].outpoint) {
            let e = JournalEntry { height, coin: c[n - 1] };
            assert forall|k: int| 0 <= k < s.push(e).len() implies coin_on_trunk(
                chain,
                #[trigger] s.push(e)[k].coin,
            ) && s.push(e)[k].coin.height <= s.push(e)[k].height && s.push(e)[k].height
                <= height by {
                if k < s.len() {
                    assert(s.push(e)[k] == s[k]);
                }
            }
        }
    }
}

proof fn lemma_received_on_trunk(
    chain: HeaderChain,
    tx: BlockTx,
    w: Seq<WatchedScript>,
    block: crate::coins::Hash256,
    height: u32,
    n: int,
)
    requires
        height < chain.trunk@.len(),
        chain.entries@[chain.trunk@[height as int] as int].hash == block,
    ensures
        coins_on_trunk(chain, received(tx, w, block, height, n), height as int),
    decreases n,
{
    if n > 0 {
        lemma_received_on_trunk(chain, tx, w, block, height, n - 1);
        let r = received(tx, w, block, height, n - 1);
        assert forall|k: int| 0 <= k < received(tx, w, block, height, n).len() implies coin_on_trunk(
            chain,
            #[trigger] received(tx, w, block, height, n)[k],
        ) && received(tx, w, block, height, n)[k].height <= height by {
            if k < r.len() {
                assert(received(tx, w, block, height, n)[k] == r[k]);
            }
        }
    }
}

proof fn lemma_concat_on_trunk(chain: HeaderChain, a: Seq<ConfirmedCoin>, b: Seq<ConfirmedCoin>, bound: int)
    requires
        coins_on_trunk(chain, a, bound),
        coins_on_trunk(chain, b, bound),
    ensures
        coins_on_trunk(chain, a + b, bound),
{
    assert forall|k: int| 0 <= k < (a + b).len() implies coin_on_trunk(chain, #[trigger] (a + b)[k])
        && (a + b)[k].height <= bound by {
        if k < a.len() {
            assert((a + b)[k] == a[k]);
        } else {
            assert((a + b)[k] == b[k - a.len()]);
        }
    }
}

proof fn lemma_journal_concat_on_trunk(
    chain: HeaderChain,
    a: Seq<JournalEntry>,
    b: Seq<JournalEntry>,
    bound: int,
)
    requires
        journal_on_trunk(chain, a, bound),
        journal_on_trunk(chain, b, bound),
    ensures
        journal_on_trunk(chain, a + b, bound),
{
    assert forall|k: int| 0 <= k < (a + b).len() implies coin_on_trunk(
        chain,
        #[trigger] (a + b)[k].coin,
    ) && (a + b)[k].coin.height <= (a + b)[k].height && (a + b)[k].height <= bound by {
        if k < a.len() {
            assert((a + b)[k] == a[k]);
        } else {
            assert((a + b)[k] == b[k - a.len()]);
        }
    }
}

/// A block on the trunk at `height` leaves every coin and journal entry on
/// the trunk, at most at `height`.
proof fn lemma_block_on_trunk(
    chain: HeaderChain,
    c: Seq<ConfirmedCoin>,
    j: Seq<JournalEntry>,
    txs: Seq<BlockTx>,
    w: Seq<WatchedScript>,
    height: u32,
    n: int,
)
    requires
        0 <= n <= txs.len(),
        height < chain.trunk@.len(),
        coins_on_trunk(chain, c, height as int),
        journal_on_trunk(chain, j, height as int),
    ensures
        coins_on_trunk(
            chain,
            after_txs(c, txs, w, chain.entries@[chain.trunk@[height as int] as int].hash, height, n),
            height as int,
        ),
        journal_on_trunk(
            chain,
            journal_after_txs(
                c,
                j,
                txs,
                w,
                chain.entries@[chain.trunk@[height as int] as int].hash,
                height,
                n,
            ),
            height as int,
        ),
    decreases n,
{
    let block = chain.entries@[chain.trunk@[height as int] as int].hash;
    if n > 0 {
        lemma_block_on_trunk(chain, c, j, txs, w, height, n - 1);
        let before = after_txs(c, txs, w, block, height, n - 1);
        let tx = txs[n - 1];
        lemma_unspent_on_trunk(chain, before, tx.inputs@, before.len() as int, height as int);
        lemma_received_on_trunk(chain, tx, w, block, height, tx.outputs@.len() as int);
        lemma_concat_on_trunk(
            chain,
            unspent(before, tx.inputs@, before.len() as int),
            received(tx, w, block, height, tx.outputs@.len() as int),
            height as int,
        );
        lemma_spent_on_trunk(chain, before, tx.inputs@, before.len() as int, height);
        lemma_journal_concat_on_trunk(
            chain,
            journal_after_txs(c, j, txs, w, block, height, n - 1),
            spent(before, tx.inputs@, before.len() as int, height),
            height as int,
        );
    }
}

proof fn lemma_kept_on_trunk(chain: HeaderChain, c: Seq<ConfirmedCoin>, h: u32, n: int, bound: int)
    requires
        0 <= n <= c.len(),
        coins_on_trunk(chain, c, bound),
    ensures
        coins_on_trunk(chain, kept_below(c, h, n), h as int),
    decreases n,
{
    if n > 0 {
        lemma_kept_on_trunk(chain, c, h, n - 1, bound);
        let u = kept_below(c, h, n - 1);
        if c[n - 1].height <= h {
            assert forall|k: int| 0 <= k < u.push(c[n - 1]).len() implies coin_on_trunk(
                chain,
                #[trigger] u.push(c[n - 1])[k],
            ) && u.push(c[n - 1])[k].height <= h by {
                if k < u.len() {
                    assert(u.push(c[n - 1])[k] == u[k]);
                }
            }
        }
    }
}

proof fn lemma_restored_on_trunk(chain: HeaderChain, j: Seq<JournalEntry>, h: u32, n: int, bound: int)
    requires
        0 <= n <= j.len(),
        journal_on_trunk(chain, j, bound),
    ensures
        coins_on_trunk(chain, restored(j, h, n), h as int),
    decreases n,
{
    if n > 0 {
        lemma_restored_on_trunk(chain, j, h, n - 1, bound);
        let u = restored(j, h, n - 1);
        if j[n - 1].height > h && j[n - 1].coin.height <= h {
            assert forall|k: int| 0 <= k < u.push(j[n - 1].coin).len() implies coin_on_trunk(
                chain,
                #[trigger] u.push(j[n - 1].coin)[k],
            ) && u.push(j[n - 1].coin)[k].height <= h by {
                if k < u.len() {
                    assert(u.push(j[n - 1].coin)[k] == u[k]);
                }
            }
        }
    }
}

proof fn lemma_journal_below_on_trunk(
    chain: HeaderChain,
    j: Seq<JournalEntry>,
    h: u32,
    n: int,
    bound: int,
)
    requires
        0 <= n <= j.len(),
        journal_on_trunk(chain, j, bound),
    ensures
        journal_on_trunk(chain, journal_below(j, h, n), h as int),
    decreases n,
{
    if n > 0 {
        lemma_journal_below_on_trunk(chain, j, h, n - 1, bound);
        let u = journal_below(j, h, n - 1);
        if j[n - 1].height <= h {
            assert forall|k: int| 0 <= k < u.push(j[n - 1]).len() implies coin_on_trunk(
                chain,
                #[trigger] u.push(j[n - 1])[k].coin,
            ) && u.push(j[n - 1])[k].coin.height <= u.push(j[n - 1])[k].height && u.push(
                j[n - 1],
            )[k].height <= h by {
                if k < u.len() {
                    assert(u.push(j[n - 1])[k] == u[k]);
                }
            }
        }
    }
}

/// Two chains that agree on the trunk below `f`, where the second keeps
/// every header of the first.
pub open spec fn agree_below(a: HeaderChain, b: HeaderChain, f: int) -> bool {
    &&& f <= a.trunk@.len()
    &&& f <= b.trunk@.len()
    &&& forall|k: int| 0 <= k < f ==> a.trunk@[k] == b.trunk@[k]
    &&& a.entries@.len() <= b.entries@.len()
    &&& forall|i: int| 0 <= i < a.entries@.len() ==> #[trigger] b.entries@[i] == a.entries@[i]
}

proof fn lemma_transfer(a: HeaderChain, b: HeaderChain, f: int, s: Seq<ConfirmedCoin>, j: Seq<JournalEntry>, bound: int)
    requires
        a.wf(),
        agree_below(a, b, f),
        bound < f,
        coins_on_trunk(a, s, bound),
        journal_on_trunk(a, j, bound),
    ensures
        coins_on_trunk(b, s, bound),
        journal_on_trunk(b, j, bound),
{
    assert forall|k: int| 0 <= k < s.len() implies coin_on_trunk(b, #[trigger] s[k]) && s[k].height
        <= bound by {
        let t = a.trunk@[s[k].height as int] as int;
        assert(b.entries@[t] == a.entries@[t]);
    }
    assert forall|k: int| 0 <= k < j.len() implies coin_on_trunk(b, #[trigger] j[k].coin)
        && j[k].coin.height <= j[k].height && j[k].height <= bound by {
        let t = a.trunk@[j[k].coin.height as int] as int;
        assert(b.entries@[t] == a.entries@[t]);
    }
}

/// Whatever adding a header did, the trunk below some fork point `f` is
/// kept, every stored header is kept, a change is reported from `f` up, and
/// a processed marker at or above `f` moved to `f - 1`.
proof fn lemma_header_keeps_prefix(
    o: HeaderChain,
    n: HeaderChain,
    r: Result<Reorg, Error>,
    hash: Hash256,
    prev: Hash256,
    time: u32,
    work: u128,
) -> (f: int)
    requires
        o.wf(),
        n.wf(),
        header_added(o, n, r, hash, prev, time, work),
    ensures
        1 <= f <= o.trunk@.len(),
        agree_below(o, n, f),
        r is Err ==> n.entries@ == o.entries@ && n.trunk@ == o.trunk@ && n.processed == o.processed,
        r is Ok ==> r->Ok_0.disconnected@.len() == o.trunk@.len() - f
            && r->Ok_0.connected@.len() == n.trunk@.len() - f,
        n.processed == match o.processed {
            Some(m) => if m >= f {
                Some((f - 1) as usize)
            } else {
                Some(m)
            },
            None => None,
        },
{
    reveal(header_added);
    let known = exists|i: int| 0 <= i < o.entries@.len() && o.entries@[i].hash == hash;
    let has_parent = exists|i: int| 0 <= i < o.entries@.len() && o.entries@[i].hash == prev;
    if !known && has_parent {
        let p = choose|p: int| 0 <= p < o.entries@.len() && o.entries@[p].hash == prev;
        let cw = o.entries@[p].chain_work + work;
        if cw <= u128::MAX && cw > o.entries@[o.tip()].chain_work {
            let g = r->Ok_0;
            let f = choose|f: int|
                1 <= f && common_prefix(o.trunk@, n.trunk@, f) && g.disconnected@ == hashes_from(
                    o.entries@,
                    o.trunk@,
                    f,
                ) && g.connected@ == hashes_from(n.entries@, n.trunk@, f) && n.processed
                    == match o.processed {
                    Some(m) => if m >= f {
                        Some((f - 1) as usize)
                    } else {
                        Some(m)
                    },
                    None => None,
                };
            assert forall|i: int| 0 <= i < o.entries@.len() implies #[trigger] n.entries@[i]
                == o.entries@[i] by {
                assert(n.entries@ == o.entries@.push(
                    HeaderEntry { hash, prev, time, chain_work: cw as u128, parent: p as usize },
                ));
            }
            return f;
        }
        if cw <= u128::MAX {
            assert forall|i: int| 0 <= i < o.entries@.len() implies #[trigger] n.entries@[i]
                == o.entries@[i] by {
                assert(n.entries@ == o.entries@.push(
                    HeaderEntry { hash, prev, time, chain_work: cw as u128, parent: p as usize },
                ));
            }
        }
    }
    o.trunk@.len() as int
}

impl WalletSync {
    /// The height of the processed marker, or -1 before the first block.
    pub open spec fn marker(&self) -> int {
        match self.chain.processed {
            Some(p) => p as int,
            None => -1,
        }
    }

    /// Both halves are well formed, and every coin, including those in the
    /// journal, was confirmed by a block on the current trunk at or below the
    /// processed marker.
    pub open spec fn wf(&self) -> bool {
        &&& self.chain.wf()
        &&& self.coins.wf()
        &&& coins_on_trunk(self.chain, self.coins.confirmed@, self.marker())
        &&& journal_on_trunk(self.chain, self.coins.journal@, self.marker())
    }

    /// A chain with an empty coin set.
    pub fn new(chain: HeaderChain) -> (r: WalletSync)
        requires
            chain.wf(),
        ensures
            r.wf(),
            r.chain == chain,
            r.coins.confirmed@.len() == 0,
    {
        WalletSync { chain, coins: Coins::new() }
    }

    /// Applies the block at trunk height `height`, which must be the one
    /// after the processed marker, and moves the marker to it. A block out of
    /// order or beyond the trunk is refused, as is one that the coin set
    /// refuses; the state is then left as it was.
    pub fn apply_block(&mut self, height: usize, txs: &Vec<BlockTx>, watched: &Vec<WatchedScript>) -> (r:
        Result<(), Error>)
        requires
            old(self).wf(),
        ensures
            final(self).wf(),
            final(self).chain.entries@ == old(self).chain.entries@,
            final(self).chain.trunk@ == old(self).chain.trunk@,
            (height as int != old(self).marker() + 1 || height >= old(self).chain.trunk@.len()
                || height > u32::MAX) ==> r == Err::<(), Error>(Error::Unsupported)
                && final(self).chain.processed == old(self).chain.processed
                && final(self).coins.confirmed@ == old(self).coins.confirmed@,
            r is Err ==> final(self).chain.processed == old(self).chain.processed
                && final(self).coins.confirmed@ == old(self).coins.confirmed@,
            height as int == old(self).marker() + 1 && height < old(self).chain.trunk@.len()
                && height <= u32::MAX ==> ({
                let block = old(self).chain.entries@[old(self).chain.trunk@[height as int] as int].hash;
                let c = after_txs(
                    old(self).coins.confirmed@,
                    txs@,
                    watched@,
                    block,
                    height as u32,
                    txs@.len() as int,
                );
                let j = journal_after_txs(
                    old(self).coins.confirmed@,
                    old(self).coins.journal@,
                    txs@,
                    watched@,
                    block,
                    height as u32,
                    txs@.len() as int,
                );
                (r is Ok <==> total(c) + journal_total(j) <= MAX_MONEY)
                    && (r is Ok ==> final(self).coins.journal@ == j)
            }),
            r is Ok ==> final(self).chain.processed == Some(height) && final(self).coins.confirmed@
                == after_txs(
                old(self).coins.confirmed@,
                txs@,
                watched@,
                old(self).chain.entries@[old(self).chain.trunk@[height as int] as int].hash,
                height as u32,
                txs@.len() as int,
            ),
    {
        let next_ok = match self.chain.processed {
            Some(p) => p < height && height - p == 1,
            None => height == 0,
        };
        if !next_ok || height >= self.chain.trunk.len() || height > u32::MAX as usize {
            return Err(Error::Unsupported);
        }
        let block = self.chain.entries[self.chain.trunk[height]].hash;
        let ghost chain0 = self.chain;
        let ghost c0 = self.coins.confirmed@;
        let ghost j0 = self.coins.journal@;
        proof {
            assert(coins_on_trunk(chain0, c0, height as int));
            assert(journal_on_trunk(chain0, j0, height as int));
            lemma_block_on_trunk(chain0, c0, j0, txs@, watched@, height as u32, txs@.len() as int);
        }
        match self.coins.process_block(height as u32, block, txs, watched) {
            Ok(()) => {},
            Err(e) => {
                return Err(e);
            },
        }
        self.chain.set_processed(height);
        proof {
            assert(coins_on_trunk(self.chain, self.coins.confirmed@, height as int)) by {
                assert forall|k: int| 0 <= k < self.coins.confirmed@.len() implies coin_on_trunk(
                    self.chain,
                    #[trigger] self.coins.confirmed@[k],
                ) && self.coins.confirmed@[k].height <= height by {
                    assert(coin_on_trunk(chain0, self.coins.confirmed@[k]));
                }
            }
            assert(journal_on_trunk(self.chain, self.coins.journal@, height as int)) by {
                assert forall|k: int| 0 <= k < self.coins.journal@.len() implies coin_on_trunk(
                    self.chain,
                    #[trigger] self.coins.journal@[k].coin,
                ) && self.coins.journal@[k].coin.height <= self.coins.journal@[k].height
                    && self.coins.journal@[k].height <= height by {
                    assert(coin_on_trunk(chain0, self.coins.journal@[k].coin));
                }
            }
        }
        Ok(())
    }

    /// Adds a header to the chain. Where it makes another chain the trunk and
    /// the processed marker was above the fork point, the coin set is unwound
    /// to the fork point, as the marker is. Every coin stays on the trunk.
    #[verifier::rlimit(60)]
    pub fn add_header(&mut self, hash: Hash256, prev: Hash256, time: u32, work: u128) -> (r: Result<
        Reorg,
        Error,
    >)
        requires
            old(self).wf(),
        ensures
            final(self).wf(),
            header_added(old(self).chain, final(self).chain, r, hash, prev, time, work),
            r is Err ==> final(self).chain.entries@ == old(self).chain.entries@
                && final(self).chain.trunk@ == old(self).chain.trunk@ && final(self).chain.processed
                == old(self).chain.processed && final(self).coins.confirmed@ == old(
                self).coins.confirmed@,
            final(self).marker() <= old(self).marker(),
            final(self).marker() == old(self).marker() ==> final(self).coins.confirmed@ == old(
                self).coins.confirmed@,
            final(self).marker() < old(self).marker() && final(self).marker() <= u32::MAX
                ==> final(self).coins.confirmed@ == kept_below(
                old(self).coins.confirmed@,
                final(self).marker() as u32,
                old(self).coins.confirmed@.len() as int,
            ) + restored(
                old(self).coins.journal@,
                final(self).marker() as u32,
                old(self).coins.journal@.len() as int,
            ),
    {
        let ghost c0 = self.chain;
        let ghost m0 = self.marker();
        let old_processed = self.chain.processed;
        let r = self.chain.add_header(hash, prev, time, work);
        proof {
            assert(self.chain.wf());
        }
        let ghost f = lemma_header_keeps_prefix(c0, self.chain, r, hash, prev, time, work);
        let g = match r {
            Ok(g) => g,
            Err(e) => {
                return Err(e);
            },
        };
        let ghost c1 = self.chain;
        if g.disconnected.len() > 0 {
            let fork = self.chain.trunk.len() - g.connected.len();
            let lower = match old_processed {
                Some(m) => m >= fork,
                None => false,
            };
            if lower && fork - 1 <= u32::MAX as usize {
                let ghost cc = self.coins.confirmed@;
                let ghost jj = self.coins.journal@;
                self.coins.unwind_to((fork - 1) as u32);
                proof {
                    assert(fork == f);
                    let h = (fork - 1) as u32;
                    lemma_kept_on_trunk(c0, cc, h, cc.len() as int, m0);
                    lemma_restored_on_trunk(c0, jj, h, jj.len() as int, m0);
                    lemma_concat_on_trunk(
                        c0,
                        kept_below(cc, h, cc.len() as int),
                        restored(jj, h, jj.len() as int),
                        h as int,
                    );
                    lemma_journal_below_on_trunk(c0, jj, h, jj.len() as int, m0);
                    lemma_transfer(c0, c1, f, self.coins.confirmed@, self.coins.journal@, h as int);
                }
            } else {
                proof {
                    assert(fork == f);
                    if m0 < f {
                        lemma_transfer(c0, c1, f, self.coins.confirmed@, self.coins.journal@, m0);
                    } else {
                        lemma_transfer(
                            c0,
                            c1,
                            f,
                            self.coins.confirmed@,
                            self.coins.journal@,
                            u32::MAX as int,
                        );
                    }
                }
            }
        } else {
            proof {
                lemma_transfer(c0, c1, f, self.coins.confirmed@, self.coins.journal@, m0);
            }
        }
        Ok(g)
    }
}


/// A downloaded block waiting for the blocks below it.
#[derive(Clone, Debug)]
pub struct BufferedBlock {
    pub height: usize,
    pub hash: Hash256,
    pub txs: Vec<BlockTx>,
}

/// The block is the trunk's block at its height.
pub open spec fn block_on_trunk(chain: HeaderChain, b: BufferedBlock) -> bool {
    b.height < chain.trunk@.len() && chain.entries@[chain.trunk@[b.height as int] as int].hash
        == b.hash
}

/// Blocks that arrived out of order, held until every earlier block has
/// been applied.
pub struct BlockBuffer {
    pub blocks: Vec<BufferedBlock>,
}

/// Position of the first buffered block at `height` with hash `hash`.
pub open spec fn first_match(b: Seq<BufferedBlock>, height: usize, hash: Hash256, k: int) -> bool {
    &&& 0 <= k < b.len()
    &&& b[k].height == height && b[k].hash == hash
    &&& forall|j: int| 0 <= j < k ==> !(b[j].height == height && b[j].hash == hash)
}

impl BlockBuffer {
    /// An empty buffer.
    pub fn new() -> (r: BlockBuffer)
        ensures
            r.blocks@.len() == 0,
    {
        BlockBuffer { blocks: Vec::new() }
    }

    /// Holds a downloaded block.
    pub fn insert(&mut self, block: BufferedBlock)
        ensures
            final(self).blocks@ == old(self).blocks@.push(block),
    {
        self.blocks.push(block);
    }

    /// Takes out the first held block at `height` with hash `hash`, if any.
    pub fn take(&mut self, height: usize, hash: &Hash256) -> (r: Option<BufferedBlock>)
        ensures
            r is None ==> final(self).blocks@ == old(self).blocks@ && forall|j: int|
                0 <= j < old(self).blocks@.len() ==> !(#[trigger] old(self).blocks@[j].height == height
                    && old(self).blocks@[j].hash == *hash),
            r matches Some(b) ==> exists|k: int|
                first_match(old(self).blocks@, height, *hash, k) && b == old(self).blocks@[k]
                    && final(self).blocks@ == old(self).blocks@.remove(k),
    {
        let mut i: usize = 0;
        while i < self.blocks.len()
            invariant
                i <= self.blocks@.len(),
                self.blocks@ == old(self).blocks@,
                forall|j: int|
                    0 <= j < i ==> !(#[trigger] self.blocks@[j].height == height
                        && self.blocks@[j].hash == *hash),
            decreases self.blocks@.len() - i,
        {
            if self.blocks[i].height == height && self.blocks[i].hash == *hash {
                let b = self.blocks.remove(i);
                assert(first_match(old(self).blocks@, height, *hash, i as int));
                return Some(b);
            }
            i = i + 1;
        }
        None
    }

    /// Drops every held block that is not the trunk's block at its height,
    /// and keeps every one that is.
    pub fn retain_on_trunk(&mut self, chain: &HeaderChain)
        requires
            chain.wf(),
        ensures
            forall|k: int|
                0 <= k < final(self).blocks@.len() ==> #[trigger] block_on_trunk(
                    *chain,
                    final(self).blocks@[k],
                ),
            forall|k: int|
                0 <= k < old(self).blocks@.len() && #[trigger] block_on_trunk(
                    *chain,
                    old(self).blocks@[k],
                ) ==> final(self).blocks@.contains(old(self).blocks@[k]),
            final(self).blocks@.len() <= old(self).blocks@.len(),
    {
        let mut kept: Vec<BufferedBlock> = Vec::new();
        let ghost old_blocks = self.blocks@;
        while self.blocks.len() > 0
            invariant
                self.blocks@ == old_blocks.subrange(0, self.blocks@.len() as int),
                self.blocks@.len() + kept@.len() <= old_blocks.len(),
                chain.wf(),
                forall|k: int| 0 <= k < kept@.len() ==> #[trigger] block_on_trunk(*chain, kept@[k]),
                forall|k: int|
                    self.blocks@.len() <= k < old_blocks.len() && #[trigger] block_on_trunk(
                        *chain,
                        old_blocks[k],
                    ) ==> kept@.contains(old_blocks[k]),
            decreases self.blocks@.len(),
        {
            let ghost before = kept@;
            let ghost n = self.blocks@.len() - 1;
            let b = self.blocks.pop().unwrap();
            assert(b == old_blocks[n]);
            if b.height < chain.trunk.len() && chain.entries[chain.trunk[b.height]].hash == b.hash {
                kept.push(b);
                assert forall|k: int|
                    n <= k < old_blocks.len() && #[trigger] block_on_trunk(*chain, old_blocks[k])
                        implies kept@.contains(old_blocks[k]) by {
                    if k == n {
                        assert(kept@[kept@.len() - 1] == old_blocks[k]);
                    } else {
                        let i = choose|i: int| 0 <= i < before.len() && before[i] == old_blocks[k];
                        assert(kept@[i] == old_blocks[k]);
                    }
                }
            }
            assert(self.blocks@ =~= old_blocks.subrange(0, self.blocks@.len() as int));
        }
        self.blocks = kept;
    }
}

/// The held block for the height after `marker` is the trunk's block there.
pub open spec fn next_held(chain: HeaderChain, marker: int, blocks: Seq<BufferedBlock>) -> bool {
    exists|k: int|
        0 <= k < blocks.len() && #[trigger] blocks[k].height == marker + 1 && 0 <= marker + 1
            < chain.trunk@.len() && blocks[k].hash == chain.entries@[chain.trunk@[marker
            + 1] as int].hash
}

impl WalletSync {
    /// Applies, in trunk order, every held block that continues the processed
    /// marker. Returns how many it applied, and whether it stopped at a block
    /// that the coin set refused, which is then dropped from the buffer;
    /// otherwise it stopped because the block for the next height is not held.
    pub fn apply_buffered(&mut self, buffer: &mut BlockBuffer, watched: &Vec<WatchedScript>) -> (r: (
        usize,
        bool,
    ))
        requires
            old(self).wf(),
        ensures
            final(self).wf(),
            final(self).chain.entries@ == old(self).chain.entries@,
            final(self).chain.trunk@ == old(self).chain.trunk@,
            final(self).marker() == old(self).marker() + r.0,
            !r.1 ==> final(buffer).blocks@.len() + r.0 == old(buffer).blocks@.len() && !next_held(
                final(self).chain,
                final(self).marker(),
                final(buffer).blocks@,
            ),
            r.1 ==> final(buffer).blocks@.len() + r.0 + 1 == old(buffer).blocks@.len(),
    {
        let mut applied: usize = 0;
        while buffer.blocks.len() > 0
            invariant
                self.wf(),
                self.chain.entries@ == old(self).chain.entries@,
                self.chain.trunk@ == old(self).chain.trunk@,
                self.marker() == old(self).marker() + applied,
                buffer.blocks@.len() + applied == old(buffer).blocks@.len(),
            decreases buffer.blocks@.len(),
        {
            let next: usize = match self.chain.processed {
                Some(p) => {
                    if p >= self.chain.trunk.len() - 1 {
                        return (applied, false);
                    }
                    p + 1
                },
                None => 0,
            };
            let hash = self.chain.entries[self.chain.trunk[next]].hash;
            let block = match buffer.take(next, &hash) {
                Some(b) => b,
                None => {
                    return (applied, false);
                },
            };
            match self.apply_block(next, &block.txs, watched) {
                Ok(()) => {},
                Err(_) => {
                    return (applied, true);
                },
            }
            applied = applied + 1;
        }
        (applied, false)
    }
}

/// In a synced wallet every confirmed coin, and every coin the journal can
/// bring back, was confirmed by a block of the current trunk at or below the
/// processed marker; that block is an ancestor of the trunk's tip, so no coin
/// comes from an orphaned block.
pub proof fn synced_coins_on_trunk(w: WalletSync)
    requires
        w.wf(),
    ensures
        forall|k: int|
            0 <= k < w.coins.confirmed@.len() ==> {
                let c = #[trigger] w.coins.confirmed@[k];
                &&& coin_on_trunk(w.chain, c)
                &&& c.height <= w.marker()
                &&& is_ancestor(w.chain.entries@, w.chain.trunk@[c.height as int] as int, w.chain.tip())
            },
{
    assert forall|k: int| 0 <= k < w.coins.confirmed@.len() implies {
        let c = #[trigger] w.coins.confirmed@[k];
        &&& coin_on_trunk(w.chain, c)
        &&& c.height <= w.marker()
        &&& is_ancestor(w.chain.entries@, w.chain.trunk@[c.height as int] as int, w.chain.tip())
    } by {
        let c = w.coins.confirmed@[k];
        lemma_path_ancestors(
            w.chain.entries@,
            w.chain.trunk@,
            c.height as int,
            w.chain.trunk@.len() - 1,
        );
    }
}

} // verus!
