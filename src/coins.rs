use vstd::prelude::*;

use crate::error::{Error, WalletError};

verus! {

/// The most satoshis that can ever exist: 21 million coins.
pub const MAX_MONEY: u64 = 2100000000000000;

/// A 256-bit hash (a transaction id or a block hash), as four words.
#[derive(Clone, Copy, Debug, PartialEq, Eq, Structural, Hash)]
pub struct Hash256 {
    pub w0: u64,
    pub w1: u64,
    pub w2: u64,
    pub w3: u64,
}

/// A transaction output named by the id of its transaction and its index.
#[derive(Clone, Copy, Debug, PartialEq, Eq, Structural, Hash)]
pub struct OutPoint {
    pub txid: Hash256,
    pub vout: u32,
}

/// Where the key of a coin sits in the wallet's hierarchy.
#[derive(Clone, Copy, Debug, PartialEq, Eq, Structural)]
pub struct KeyDerivation {
    pub account: u32,
    pub sub: u32,
    pub kix: u32,
    /// An additive adjustment to the derived key, if any.
    pub tweak: Option<Hash256>,
    /// A relative lock, in blocks, before the coin may be spent.
    pub csv: Option<u16>,
}

/// A confirmed coin with the block that confirmed it.
#[derive(Clone, Copy, Debug, PartialEq, Eq, Structural)]
pub struct ConfirmedCoin {
    pub outpoint: OutPoint,
    pub value: u64,
    pub derivation: KeyDerivation,
    /// Hash of the block the coin's transaction was proven in.
    pub block: Hash256,
    /// Height of that block on the trunk.
    pub height: u32,
}

/// A coin spent by a processed block, kept so that a reorg can bring it back.
#[derive(Clone, Copy, Debug, PartialEq, Eq, Structural)]
pub struct JournalEntry {
    /// Height of the block that spent the coin.
    pub height: u32,
    pub coin: ConfirmedCoin,
}

/// An output of a transaction.
#[derive(Clone, Debug, PartialEq, Eq)]
pub struct TxOutput {
    pub value: u64,
    pub script: Vec<u8>,
}

/// What the coin set reads of a transaction: its id, the outputs it spends
/// and the outputs it creates.
#[derive(Clone, Debug, PartialEq, Eq)]
pub struct BlockTx {
    pub txid: Hash256,
    pub inputs: Vec<OutPoint>,
    pub outputs: Vec<TxOutput>,
}

/// A script the wallet watches for, with the derivation of its key.
#[derive(Clone, Debug, PartialEq, Eq)]
pub struct WatchedScript {
    pub script: Vec<u8>,
    pub derivation: KeyDerivation,
}

/// The derivation of the first watched script among `w[0..n]` equal to `script`.
pub open spec fn classify_prefix(script: Seq<u8>, w: Seq<WatchedScript>, n: int) -> Option<
    KeyDerivation,
>
    decreases n,
{
    if n <= 0 {
        None
    } else {
        match classify_prefix(script, w, n - 1) {
            Some(d) => Some(d),
            None => if w[n - 1].script@ == script {
                Some(w[n - 1].derivation)
            } else {
                None
            },
        }
    }
}

/// The derivation of the key behind `script`, if the wallet watches it.
pub open spec fn classify(script: Seq<u8>, w: Seq<WatchedScript>) -> Option<KeyDerivation> {
    classify_prefix(script, w, w.len() as int)
}

/// Sum of the values of `s`.
pub open spec fn total(s: Seq<ConfirmedCoin>) -> int
    decreases s.len(),
{
    if s.len() == 0 {
        0
    } else {
        total(s.drop_last()) + s.last().value
    }
}

/// Sum of the values of the coins of a journal.
pub open spec fn journal_total(j: Seq<JournalEntry>) -> int
    decreases j.len(),
{
    if j.len() == 0 {
        0
    } else {
        journal_total(j.drop_last()) + j.last().coin.value
    }
}

/// A coin's relative lock, if any, is satisfied on a trunk of `trunk_len` blocks.
pub open spec fn spendable_at(c: ConfirmedCoin, trunk_len: u32) -> bool {
    match c.derivation.csv {
        None => true,
        Some(csv) => trunk_len as int - c.height as int >= csv as int,
    }
}

/// Sum of the values of the coins of `s` that may be spent on a trunk of
/// `trunk_len` blocks and are not spent by a pending transaction.
pub open spec fn available_total(s: Seq<ConfirmedCoin>, pending: Seq<OutPoint>, trunk_len: u32) -> int
    decreases s.len(),
{
    if s.len() == 0 {
        0
    } else {
        available_total(s.drop_last(), pending, trunk_len) + if spendable_at(s.last(), trunk_len)
            && !pending.contains(s.last().outpoint) {
            s.last().value as int
        } else {
            0
        }
    }
}

/// The coins of `c[0..n]` that may be spent on a trunk of `trunk_len` blocks
/// and that no pending transaction spends.
pub open spec fn available_coins(c: Seq<ConfirmedCoin>, pending: Seq<OutPoint>, trunk_len: u32, n: int) -> Seq<
    ConfirmedCoin,
>
    decreases n,
{
    if n <= 0 {
        Seq::empty()
    } else if spendable_at(c[n - 1], trunk_len) && !pending.contains(c[n - 1].outpoint) {
        available_coins(c, pending, trunk_len, n - 1).push(c[n - 1])
    } else {
        available_coins(c, pending, trunk_len, n - 1)
    }
}

/// The available coins sum to no more than all of them.
pub proof fn lemma_available_coins_total(
    c: Seq<ConfirmedCoin>,
    pending: Seq<OutPoint>,
    trunk_len: u32,
    n: int,
)
    requires
        0 <= n <= c.len(),
    ensures
        total(available_coins(c, pending, trunk_len, n)) <= total(c.subrange(0, n)),
    decreases n,
{
    if n > 0 {
        lemma_available_coins_total(c, pending, trunk_len, n - 1);
        assert(c.subrange(0, n).drop_last() =~= c.subrange(0, n - 1));
        if spendable_at(c[n - 1], trunk_len) && !pending.contains(c[n - 1].outpoint) {
            assert(available_coins(c, pending, trunk_len, n).drop_last() =~= available_coins(
                c,
                pending,
                trunk_len,
                n - 1,
            ));
        }
    } else {
        assert(c.subrange(0, 0) =~= Seq::<ConfirmedCoin>::empty());
    }
}

/// The coins of `c[0..n]` that no input of `inputs` spends.
pub open spec fn unspent(c: Seq<ConfirmedCoin>, inputs: Seq<OutPoint>, n: int) -> Seq<ConfirmedCoin>
    decreases n,
{
    if n <= 0 {
        Seq::empty()
    } else if inputs.contains(c[n - 1].outpoint) {
        unspent(c, inputs, n - 1)
    } else {
        unspent(c, inputs, n - 1).push(c[n - 1])
    }
}

/// Journal entries for the coins of `c[0..n]` that an input of `inputs` spends.
pub open spec fn spent(c: Seq<ConfirmedCoin>, inputs: Seq<OutPoint>, n: int, height: u32) -> Seq<
    JournalEntry,
>
    decreases n,
{
    if n <= 0 {
        Seq::empty()
    } else if inputs.contains(c[n - 1].outpoint) {
        spent(c, inputs, n - 1, height).push(JournalEntry { height, coin: c[n - 1] })
    } else {
        spent(c, inputs, n - 1, height)
    }
}

/// The coins that the outputs `tx.outputs[0..n]` give the wallet.
pub open spec fn received(
    tx: BlockTx,
    w: Seq<WatchedScript>,
    block: Hash256,
    height: u32,
    n: int,
) -> Seq<ConfirmedCoin>
    decreases n,
{
    if n <= 0 {
        Seq::empty()
    } else {
        let r = received(tx, w, block, height, n - 1);
        match classify(tx.outputs@[n - 1].script@, w) {
            Some(d) => r.push(
                ConfirmedCoin {
                    outpoint: OutPoint { txid: tx.txid, vout: (n - 1) as u32 },
                    value: tx.outputs@[n - 1].value,
                    derivation: d,
                    block,
                    height,
                },
            ),
            None => r,
        }
    }
}

/// The confirmed coins after one transaction of a block.
pub open spec fn after_tx(
    c: Seq<ConfirmedCoin>,
    tx: BlockTx,
    w: Seq<WatchedScript>,
    block: Hash256,
    height: u32,
) -> Seq<ConfirmedCoin> {
    unspent(c, tx.inputs@, c.len() as int) + received(
        tx,
        w,
        block,
        height,
        tx.outputs@.len() as int,
    )
}

/// The confirmed coins after the transactions `txs[0..n]` of a block.
pub open spec fn after_txs(
    c: Seq<ConfirmedCoin>,
    txs: Seq<BlockTx>,
    w: Seq<WatchedScript>,
    block: Hash256,
    height: u32,
    n: int,
) -> Seq<ConfirmedCoin>
    decreases n,
{
    if n <= 0 {
        c
    } else {
        after_tx(after_txs(c, txs, w, block, height, n - 1), txs[n - 1], w, block, height)
    }
}

/// The journal after the transactions `txs[0..n]` of a block.
pub open spec fn journal_after_txs(
    c: Seq<ConfirmedCoin>,
    j: Seq<JournalEntry>,
    txs: Seq<BlockTx>,
    w: Seq<WatchedScript>,
    block: Hash256,
    height: u32,
    n: int,
) -> Seq<JournalEntry>
    decreases n,
{
    if n <= 0 {
        j
    } else {
        let before = after_txs(c, txs, w, block, height, n - 1);
        journal_after_txs(c, j, txs, w, block, height, n - 1) + spent(
            before,
            txs[n - 1].inputs@,
            before.len() as int,
            height,
        )
    }
}

/// The coins of `c[0..n]` confirmed above `h`, as pending coins.
pub open spec fn orphaned_as_pending(c: Seq<ConfirmedCoin>, h: u32, n: int) -> Seq<PendingCoin>
    decreases n,
{
    if n <= 0 {
        Seq::empty()
    } else if c[n - 1].height <= h {
        orphaned_as_pending(c, h, n - 1)
    } else {
        orphaned_as_pending(c, h, n - 1).push(
            PendingCoin { outpoint: c[n - 1].outpoint, value: c[n - 1].value, derivation: c[n - 1].derivation },
        )
    }
}

/// The coins of `c[0..n]` confirmed at or below `h`.
pub open spec fn kept_below(c: Seq<ConfirmedCoin>, h: u32, n: int) -> Seq<ConfirmedCoin>
    decreases n,
{
    if n <= 0 {
        Seq::empty()
    } else if c[n - 1].height <= h {
        kept_below(c, h, n - 1).push(c[n - 1])
    } else {
        kept_below(c, h, n - 1)
    }
}

/// The coins of `j[0..n]` that a block above `h` spent and a block at or below
/// `h` confirmed: those come back when the chain above `h` is orphaned.
pub open spec fn restored(j: Seq<JournalEntry>, h: u32, n: int) -> Seq<ConfirmedCoin>
    decreases n,
{
    if n <= 0 {
        Seq::empty()
    } else if j[n - 1].height > h && j[n - 1].coin.height <= h {
        restored(j, h, n - 1).push(j[n - 1].coin)
    } else {
        restored(j, h, n - 1)
    }
}

/// The entries of `j[0..n]` written by blocks at or below `h`.
pub open spec fn journal_below(j: Seq<JournalEntry>, h: u32, n: int) -> Seq<JournalEntry>
    decreases n,
{
    if n <= 0 {
        Seq::empty()
    } else if j[n - 1].height <= h {
        journal_below(j, h, n - 1).push(j[n - 1])
    } else {
        journal_below(j, h, n - 1)
    }
}

/// The wallet's coin set: confirmed coins with their blocks, the journal of
/// coins spent by processed blocks, and the outputs that pending
/// transactions spend.
pub struct Coins {
    pub confirmed: Vec<ConfirmedCoin>,
    pub journal: Vec<JournalEntry>,
    pub pending_spends: Vec<OutPoint>,
    pub pending_receives: Vec<PendingCoin>,
}

/// An output of a pending transaction to a watched script.
#[derive(Clone, Copy, Debug, PartialEq, Eq, Structural)]
pub struct PendingCoin {
    pub outpoint: OutPoint,
    pub value: u64,
    pub derivation: KeyDerivation,
}

/// The outputs `tx.outputs[0..n]` that pay the wallet, as pending coins.
pub open spec fn pending_outputs(tx: BlockTx, w: Seq<WatchedScript>, n: int) -> Seq<PendingCoin>
    decreases n,
{
    if n <= 0 {
        Seq::empty()
    } else {
        let r = pending_outputs(tx, w, n - 1);
        match classify(tx.outputs@[n - 1].script@, w) {
            Some(d) => r.push(
                PendingCoin {
                    outpoint: OutPoint { txid: tx.txid, vout: (n - 1) as u32 },
                    value: tx.outputs@[n - 1].value,
                    derivation: d,
                },
            ),
            None => r,
        }
    }
}

/// Whether `o` is among `s`.
pub fn contains_outpoint(s: &Vec<OutPoint>, o: &OutPoint) -> (r: bool)
    ensures
        r == s@.contains(*o),
{
    let mut i: usize = 0;
    while i < s.len()
        invariant
            i <= s@.len(),
            forall|k: int| 0 <= k < i ==> s@[k] != *o,
        decreases s@.len() - i,
    {
        if s[i] == *o {
            return true;
        }
        i = i + 1;
    }
    false
}

/// Whether two byte strings are equal.
pub fn bytes_equal(a: &Vec<u8>, b: &Vec<u8>) -> (r: bool)
    ensures
        r == (a@ == b@),
{
    if a.len() != b.len() {
        return false;
    }
    let mut i: usize = 0;
    while i < a.len()
        invariant
            i <= a@.len(),
            a@.len() == b@.len(),
            forall|k: int| 0 <= k < i ==> a@[k] == b@[k],
        decreases a@.len() - i,
    {
        if a[i] != b[i] {
            return false;
        }
        i = i + 1;
    }
    assert(a@ =~= b@);
    true
}

/// The derivation of the key behind `script`, if the wallet watches it.
pub fn classify_script(script: &Vec<u8>, watched: &Vec<WatchedScript>) -> (r: Option<KeyDerivation>)
    ensures
        r == classify(script@, watched@),
{
    let mut i: usize = 0;
    while i < watched.len()
        invariant
            i <= watched@.len(),
            classify_prefix(script@, watched@, i as int) is None,
        decreases watched@.len() - i,
    {
        if bytes_equal(&watched[i].script, script) {
            assert(classify_prefix(script@, watched@, (i + 1) as int) == Some(
                watched@[i as int].derivation,
            ));
            let d = watched[i].derivation;
            proof {
                lemma_classify_found(script@, watched@, (i + 1) as int);
            }
            return Some(d);
        }
        i = i + 1;
    }
    None
}

/// Once a prefix finds a match, every longer prefix finds the same.
proof fn lemma_classify_found(script: Seq<u8>, w: Seq<WatchedScript>, n: int)
    requires
        0 <= n <= w.len(),
        classify_prefix(script, w, n) is Some,
    ensures
        classify_prefix(script, w, w.len() as int) == classify_prefix(script, w, n),
    decreases w.len() - n,
{
    if n < w.len() {
        lemma_classify_found(script, w, n + 1);
    }
}

/// Values are never negative, so a prefix never sums to more than the whole.
proof fn lemma_total_prefix(s: Seq<ConfirmedCoin>, i: int)
    requires
        0 <= i <= s.len(),
    ensures
        0 <= total(s.subrange(0, i)) <= total(s),
    decreases s.len() - i,
{
    if i < s.len() {
        lemma_total_prefix(s, i + 1);
        assert(s.subrange(0, i + 1).drop_last() =~= s.subrange(0, i));
    } else {
        assert(s.subrange(0, i) =~= s);
    }
    lemma_total_nonneg(s.subrange(0, i));
}

/// Values are never negative, so neither is their sum.
pub proof fn lemma_total_nonneg(s: Seq<ConfirmedCoin>)
    ensures
        total(s) >= 0,
    decreases s.len(),
{
    if s.len() > 0 {
        lemma_total_nonneg(s.drop_last());
    }
}

/// The values in a journal never sum to less than zero.
pub proof fn lemma_journal_total_nonneg(j: Seq<JournalEntry>)
    ensures
        journal_total(j) >= 0,
    decreases j.len(),
{
    if j.len() > 0 {
        lemma_journal_total_nonneg(j.drop_last());
    }
}

proof fn lemma_total_concat(a: Seq<ConfirmedCoin>, b: Seq<ConfirmedCoin>)
    ensures
        total(a + b) == total(a) + total(b),
    decreases b.len(),
{
    if b.len() == 0 {
        assert(a + b =~= a);
    } else {
        lemma_total_concat(a, b.drop_last());
        assert((a + b).drop_last() =~= a + b.drop_last());
    }
}

proof fn lemma_journal_total_concat(a: Seq<JournalEntry>, b: Seq<JournalEntry>)
    ensures
        journal_total(a + b) == journal_total(a) + journal_total(b),
    decreases b.len(),
{
    if b.len() == 0 {
        assert(a + b =~= a);
    } else {
        lemma_journal_total_concat(a, b.drop_last());
        assert((a + b).drop_last() =~= a + b.drop_last());
    }
}

/// The sum of the values of `s` where it is at most `limit`.
fn total_within(s: &Vec<ConfirmedCoin>, limit: u64) -> (r: Option<u64>)
    ensures
        match r {
            Some(t) => t == total(s@) && t <= limit,
            None => total(s@) > limit,
        },
{
    let mut acc: u64 = 0;
    let mut i: usize = 0;
    while i < s.len()
        invariant
            i <= s@.len(),
            acc == total(s@.subrange(0, i as int)),
            acc <= limit,
        decreases s@.len() - i,
    {
        assert(s@.subrange(0, (i + 1) as int).drop_last() =~= s@.subrange(0, i as int));
        let v = s[i].value;
        if v > limit - acc {
            proof {
                lemma_total_prefix(s@, (i + 1) as int);
            }
            return None;
        }
        acc = acc + v;
        i = i + 1;
    }
    assert(s@.subrange(0, i as int) =~= s@);
    Some(acc)
}

/// The sum of the values of the coins of `j` where it is at most `limit`.
fn journal_total_within(j: &Vec<JournalEntry>, limit: u64) -> (r: Option<u64>)
    ensures
        match r {
            Some(t) => t == journal_total(j@) && t <= limit,
            None => journal_total(j@) > limit,
        },
{
    let mut acc: u64 = 0;
    let mut i: usize = 0;
    while i < j.len()
        invariant
            i <= j@.len(),
            acc == journal_total(j@.subrange(0, i as int)),
            acc <= limit,
        decreases j@.len() - i,
    {
        assert(j@.subrange(0, (i + 1) as int).drop_last() =~= j@.subrange(0, i as int));
        let v = j[i].coin.value;
        if v > limit - acc {
            proof {
                lemma_journal_total_concat(
                    j@.subrange(0, (i + 1) as int),
                    j@.subrange((i + 1) as int, j@.len() as int),
                );
                assert(j@.subrange(0, (i + 1) as int) + j@.subrange((i + 1) as int, j@.len() as int)
                    =~= j@);
                lemma_journal_total_nonneg(j@.subrange((i + 1) as int, j@.len() as int));
            }
            return None;
        }
        acc = acc + v;
        i = i + 1;
    }
    assert(j@.subrange(0, i as int) =~= j@);
    Some(acc)
}

/// The sum of the values of `s` that may be spent on a trunk of `trunk_len`
/// blocks never exceeds the sum of all of them.
pub proof fn lemma_available_le_total(s: Seq<ConfirmedCoin>, pending: Seq<OutPoint>, trunk_len: u32)
    ensures
        0 <= available_total(s, pending, trunk_len) <= total(s),
    decreases s.len(),
{
    if s.len() > 0 {
        lemma_available_le_total(s.drop_last(), pending, trunk_len);
    }
}

/// Splits `c` into the coins that no input of `inputs` spends, returned, and
/// journal entries for those that one spends, appended to `journal`.
fn spend_inputs(
    c: &Vec<ConfirmedCoin>,
    inputs: &Vec<OutPoint>,
    height: u32,
    journal: &mut Vec<JournalEntry>,
) -> (r: Vec<ConfirmedCoin>)
    ensures
        r@ == unspent(c@, inputs@, c@.len() as int),
        final(journal)@ == old(journal)@ + spent(c@, inputs@, c@.len() as int, height),
{
    let ghost j0 = journal@;
    let mut r: Vec<ConfirmedCoin> = Vec::new();
    let mut i: usize = 0;
    while i < c.len()
        invariant
            i <= c@.len(),
            r@ == unspent(c@, inputs@, i as int),
            journal@ == j0 + spent(c@, inputs@, i as int, height),
        decreases c@.len() - i,
    {
        let coin = c[i];
        if contains_outpoint(inputs, &coin.outpoint) {
            journal.push(JournalEntry { height, coin });
            assert(journal@ =~= j0 + spent(c@, inputs@, (i + 1) as int, height));
        } else {
            r.push(coin);
        }
        i = i + 1;
    }
    r
}

/// Appends the coins that the outputs of `tx` give the wallet.
fn receive_outputs(
    tx: &BlockTx,
    watched: &Vec<WatchedScript>,
    block: Hash256,
    height: u32,
    r: &mut Vec<ConfirmedCoin>,
)
    ensures
        final(r)@ == old(r)@ + received(*tx, watched@, block, height, tx.outputs@.len() as int),
{
    let ghost r0 = r@;
    let mut i: usize = 0;
    while i < tx.outputs.len()
        invariant
            i <= tx.outputs@.len(),
            r@ == r0 + received(*tx, watched@, block, height, i as int),
        decreases tx.outputs@.len() - i,
    {
        let out = &tx.outputs[i];
        match classify_script(&out.script, watched) {
            Some(d) => {
                r.push(
                    ConfirmedCoin {
                        outpoint: OutPoint { txid: tx.txid, vout: i as u32 },
                        value: out.value,
                        derivation: d,
                        block,
                        height,
                    },
                );
                assert(r@ =~= r0 + received(*tx, watched@, block, height, (i + 1) as int));
            },
            None => {},
        }
        i = i + 1;
    }
}

/// Every coin kept below `h` was confirmed at or below `h`.
proof fn lemma_kept_below_heights(c: Seq<ConfirmedCoin>, h: u32, n: int)
    ensures
        forall|k: int|
            0 <= k < kept_below(c, h, n).len() ==> #[trigger] kept_below(c, h, n)[k].height <= h,
        total(kept_below(c, h, n)) <= total(c.subrange(0, n)) || n > c.len() || n < 0,
    decreases n,
{
    if n > 0 {
        lemma_kept_below_heights(c, h, n - 1);
        if n <= c.len() {
            assert(c.subrange(0, n).drop_last() =~= c.subrange(0, n - 1));
            if c[n - 1].height <= h {
                assert(kept_below(c, h, n).drop_last() =~= kept_below(c, h, n - 1));
            }
        }
    }
}

/// Every restored coin was confirmed at or below `h`, and the restored coins
/// and the journal kept below `h` together hold no more than the journal did.
proof fn lemma_restored(j: Seq<JournalEntry>, h: u32, n: int)
    requires
        0 <= n <= j.len(),
    ensures
        forall|k: int|
            0 <= k < restored(j, h, n).len() ==> #[trigger] restored(j, h, n)[k].height <= h,
        total(restored(j, h, n)) + journal_total(journal_below(j, h, n)) <= journal_total(
            j.subrange(0, n),
        ),
    decreases n,
{
    if n > 0 {
        lemma_restored(j, h, n - 1);
        assert(j.subrange(0, n).drop_last() =~= j.subrange(0, n - 1));
        if j[n - 1].height > h && j[n - 1].coin.height <= h {
            assert(restored(j, h, n).drop_last() =~= restored(j, h, n - 1));
        }
        if j[n - 1].height <= h {
            assert(journal_below(j, h, n).drop_last() =~= journal_below(j, h, n - 1));
        }
    } else {
        assert(j.subrange(0, 0) =~= Seq::<JournalEntry>::empty());
    }
}

/// After unwinding to `h`, the coin set holds no coin confirmed above `h`:
/// none whose block was orphaned by the reorganisation.
pub proof fn unwind_leaves_no_orphans(c: Seq<ConfirmedCoin>, j: Seq<JournalEntry>, h: u32)
    ensures
        forall|k: int|
            0 <= k < (kept_below(c, h, c.len() as int) + restored(j, h, j.len() as int)).len()
                ==> #[trigger] (kept_below(c, h, c.len() as int) + restored(
                j,
                h,
                j.len() as int,
            ))[k].height <= h,
{
    lemma_kept_below_heights(c, h, c.len() as int);
    lemma_restored(j, h, j.len() as int);
    let a = kept_below(c, h, c.len() as int);
    let b = restored(j, h, j.len() as int);
    assert forall|k: int| 0 <= k < (a + b).len() implies #[trigger] (a + b)[k].height <= h by {
        if k < a.len() {
            assert((a + b)[k] == a[k]);
        } else {
            assert((a + b)[k] == b[k - a.len()]);
        }
    }
}

/// Outputs spent by a pending transaction, among `inputs[0..n]`, that spend a
/// confirmed coin of `c` and are not yet in `pending`.
pub open spec fn phantom_spends(
    c: Seq<ConfirmedCoin>,
    pending: Seq<OutPoint>,
    inputs: Seq<OutPoint>,
    n: int,
) -> Seq<OutPoint>
    decreases n,
{
    if n <= 0 {
        Seq::empty()
    } else {
        let p = phantom_spends(c, pending, inputs, n - 1);
        if (exists|k: int| 0 <= k < c.len() && c[k].outpoint == inputs[n - 1]) && !(pending
            + p).contains(inputs[n - 1]) {
            p.push(inputs[n - 1])
        } else {
            p
        }
    }
}

impl Coins {
    /// The values held stay within the money that can exist.
    pub open spec fn wf(&self) -> bool {
        total(self.confirmed@) + journal_total(self.journal@) <= MAX_MONEY
    }

    /// An empty coin set.
    pub fn new() -> (r: Coins)
        ensures
            r.wf(),
            r.confirmed@ == Seq::<ConfirmedCoin>::empty(),
            r.journal@ == Seq::<JournalEntry>::empty(),
            r.pending_spends@ == Seq::<OutPoint>::empty(),
            r.pending_receives@ == Seq::<PendingCoin>::empty(),
    {
        Coins {
            confirmed: Vec::new(),
            journal: Vec::new(),
            pending_spends: Vec::new(),
            pending_receives: Vec::new(),
        }
    }

    /// The sum of the values of all confirmed coins.
    pub fn balance(&self) -> (r: u64)
        requires
            self.wf(),
        ensures
            r == total(self.confirmed@),
    {
        proof {
            lemma_journal_total_nonneg(self.journal@);
        }
        match total_within(&self.confirmed, MAX_MONEY) {
            Some(t) => t,
            None => 0,
        }
    }

    /// The sum of the values of the confirmed coins whose relative lock, if
    /// any, is satisfied on a trunk of `trunk_len` blocks, and which no
    /// pending transaction spends.
    pub fn available_balance(&self, trunk_len: u32) -> (r: u64)
        requires
            self.wf(),
        ensures
            r == available_total(self.confirmed@, self.pending_spends@, trunk_len),
            r <= total(self.confirmed@),
    {
        let ghost s = self.confirmed@;
        let mut acc: u64 = 0;
        let mut i: usize = 0;
        proof {
            lemma_journal_total_nonneg(self.journal@);
        }
        while i < self.confirmed.len()
            invariant
                i <= s.len(),
                s == self.confirmed@,
                acc == available_total(s.subrange(0, i as int), self.pending_spends@, trunk_len),
                self.wf(),
                total(s) <= MAX_MONEY,
            decreases s.len() - i,
        {
            let c = self.confirmed[i];
            assert(s.subrange(0, (i + 1) as int).drop_last() =~= s.subrange(0, i as int));
            proof {
                lemma_available_le_total(
                    s.subrange(0, (i + 1) as int),
                    self.pending_spends@,
                    trunk_len,
                );
                lemma_total_prefix(s, (i + 1) as int);
            }
            let spendable = match c.derivation.csv {
                None => true,
                Some(csv) => trunk_len >= c.height && trunk_len - c.height >= csv as u32,
            };
            if spendable && !contains_outpoint(&self.pending_spends, &c.outpoint) {
                acc = acc + c.value;
            }
            i = i + 1;
        }
        assert(s.subrange(0, i as int) =~= s);
        proof {
            lemma_available_le_total(s, self.pending_spends@, trunk_len);
        }
        acc
    }

    /// The confirmed coins that may be spent on a trunk of `trunk_len` blocks
    /// and that no pending transaction spends, in the set's order.
    pub fn available_coins(&self, trunk_len: u32) -> (r: Vec<ConfirmedCoin>)
        ensures
            r@ == available_coins(
                self.confirmed@,
                self.pending_spends@,
                trunk_len,
                self.confirmed@.len() as int,
            ),
    {
        let mut r: Vec<ConfirmedCoin> = Vec::new();
        let mut i: usize = 0;
        while i < self.confirmed.len()
            invariant
                i <= self.confirmed@.len(),
                r@ == available_coins(self.confirmed@, self.pending_spends@, trunk_len, i as int),
            decreases self.confirmed@.len() - i,
        {
            let c = self.confirmed[i];
            let spendable = match c.derivation.csv {
                None => true,
                Some(csv) => trunk_len >= c.height && trunk_len - c.height >= csv as u32,
            };
            if spendable && !contains_outpoint(&self.pending_spends, &c.outpoint) {
                r.push(c);
            }
            i = i + 1;
        }
        r
    }

    /// Forgets every coin, journal entry and pending spend, so that the
    /// chain can be scanned again from the wallet's birth.
    pub fn rescan(&mut self)
        ensures
            final(self).wf(),
            final(self).confirmed@.len() == 0,
            final(self).journal@.len() == 0,
            final(self).pending_spends@.len() == 0,
            final(self).pending_receives@.len() == 0,
    {
        self.confirmed = Vec::new();
        self.journal = Vec::new();
        self.pending_spends = Vec::new();
        self.pending_receives = Vec::new();
    }

    /// The block that proves transaction `txid`: that of the first confirmed
    /// coin it created, if any.
    pub fn proven_in(&self, txid: &Hash256) -> (r: Option<Hash256>)
        ensures
            r is None <==> forall|k: int|
                0 <= k < self.confirmed@.len() ==> #[trigger] self.confirmed@[k].outpoint.txid != *txid,
            r matches Some(b) ==> exists|k: int|
                0 <= k < self.confirmed@.len() && #[trigger] self.confirmed@[k].outpoint.txid == *txid
                    && self.confirmed@[k].block == b && forall|j: int|
                    0 <= j < k ==> self.confirmed@[j].outpoint.txid != *txid,
    {
        let mut i: usize = 0;
        while i < self.confirmed.len()
            invariant
                i <= self.confirmed@.len(),
                forall|j: int| 0 <= j < i ==> #[trigger] self.confirmed@[j].outpoint.txid != *txid,
            decreases self.confirmed@.len() - i,
        {
            if self.confirmed[i].outpoint.txid == *txid {
                return Some(self.confirmed[i].block);
            }
            i = i + 1;
        }
        None
    }

    /// Whether a confirmed coin sits at `o`.
    fn holds(&self, o: &OutPoint) -> (r: bool)
        ensures
            r == exists|k: int| 0 <= k < self.confirmed@.len() && self.confirmed@[k].outpoint == *o,
    {
        let mut i: usize = 0;
        while i < self.confirmed.len()
            invariant
                i <= self.confirmed@.len(),
                forall|k: int| 0 <= k < i ==> self.confirmed@[k].outpoint != *o,
            decreases self.confirmed@.len() - i,
        {
            if self.confirmed[i].outpoint == *o {
                return true;
            }
            i = i + 1;
        }
        false
    }

    /// Adds a confirmed coin with its proof's block. A coin already held at
    /// the same outpoint leaves the set as it is; a coin that would lift the
    /// values held above the money that can exist is refused.
    pub fn add_confirmed(&mut self, coin: ConfirmedCoin) -> (r: Result<(), Error>)
        requires
            old(self).wf(),
        ensures
            final(self).wf(),
            final(self).journal@ == old(self).journal@,
            final(self).pending_spends@ == old(self).pending_spends@,
            final(self).pending_receives@ == old(self).pending_receives@,
            (exists|k: int|
                0 <= k < old(self).confirmed@.len() && old(self).confirmed@[k].outpoint
                    == coin.outpoint) ==> r is Ok && final(self).confirmed@ == old(self).confirmed@,
            !(exists|k: int|
                0 <= k < old(self).confirmed@.len() && old(self).confirmed@[k].outpoint
                    == coin.outpoint) ==> (r is Ok <==> total(old(self).confirmed@) + journal_total(
                old(self).journal@,
            ) + coin.value <= MAX_MONEY) && (r is Ok ==> final(self).confirmed@ == old(
                self,
            ).confirmed@.push(coin)) && (r is Err ==> r == Err::<(), Error>(
                Error::Wallet(WalletError::ValueOverflow),
            ) && final(self).confirmed@ == old(self).confirmed@),
    {
        if self.holds(&coin.outpoint) {
            return Ok(());
        }
        proof {
            lemma_total_nonneg(self.confirmed@);
            lemma_journal_total_nonneg(self.journal@);
        }
        let t = match total_within(&self.confirmed, MAX_MONEY) {
            Some(t) => t,
            None => 0,
        };
        let jt = match journal_total_within(&self.journal, MAX_MONEY) {
            Some(t) => t,
            None => 0,
        };
        if coin.value > MAX_MONEY || t + jt > MAX_MONEY - coin.value {
            return Err(Error::Wallet(WalletError::ValueOverflow));
        }
        self.confirmed.push(coin);
        proof {
            assert(self.confirmed@.drop_last() =~= old(self).confirmed@);
        }
        Ok(())
    }

    /// Applies a block of the trunk at `height`: each transaction in turn
    /// removes the confirmed coins its inputs spend, writing them to the
    /// journal, and adds a coin for each output to a watched script. A block
    /// that would lift the values held above the money that can exist is
    /// refused and the set is left as it was.
    pub fn process_block(
        &mut self,
        height: u32,
        block: Hash256,
        txs: &Vec<BlockTx>,
        watched: &Vec<WatchedScript>,
    ) -> (r: Result<(), Error>)
        requires
            old(self).wf(),
        ensures
            final(self).wf(),
            final(self).pending_spends@ == old(self).pending_spends@,
            final(self).pending_receives@ == old(self).pending_receives@,
            ({
                let c = after_txs(old(self).confirmed@, txs@, watched@, block, height, txs@.len() as int);
                let j = journal_after_txs(
                    old(self).confirmed@,
                    old(self).journal@,
                    txs@,
                    watched@,
                    block,
                    height,
                    txs@.len() as int,
                );
                &&& (r is Ok <==> total(c) + journal_total(j) <= MAX_MONEY)
                &&& r is Ok ==> final(self).confirmed@ == c && final(self).journal@ == j
                &&& r is Err ==> r == Err::<(), Error>(Error::Wallet(WalletError::ValueOverflow))
                    && final(self).confirmed@ == old(self).confirmed@ && final(self).journal@ == old(
                    self,
                ).journal@
            }),
    {
        let ghost c0 = self.confirmed@;
        let ghost j0 = self.journal@;
        let mut c: Vec<ConfirmedCoin> = Vec::new();
        let mut added: Vec<JournalEntry> = Vec::new();
        let mut i: usize = 0;
        while i < txs.len()
            invariant
                i <= txs@.len(),
                c0 == self.confirmed@,
                j0 == self.journal@,
                i == 0 ==> c@ == Seq::<ConfirmedCoin>::empty() && added@ == Seq::<JournalEntry>::empty(),
                i > 0 ==> c@ == after_txs(c0, txs@, watched@, block, height, i as int),
                j0 + added@ == journal_after_txs(c0, j0, txs@, watched@, block, height, i as int),
            decreases txs@.len() - i,
        {
            let ghost before_added = added@;
            let tx = &txs[i];
            let mut next = if i == 0 {
                spend_inputs(&self.confirmed, &tx.inputs, height, &mut added)
            } else {
                spend_inputs(&c, &tx.inputs, height, &mut added)
            };
            receive_outputs(tx, watched, block, height, &mut next);
            proof {
                assert(j0 + added@ =~= (j0 + before_added) + (added@.subrange(
                    before_added.len() as int,
                    added@.len() as int,
                )));
            }
            c = next;
            i = i + 1;
        }
        if i == 0 {
            assert(j0 + added@ =~= j0);
            return Ok(());
        }
        proof {
            lemma_total_nonneg(c@);
            lemma_journal_total_nonneg(j0);
            lemma_journal_total_nonneg(added@);
            lemma_journal_total_concat(j0, added@);
        }
        let t = total_within(&c, MAX_MONEY);
        let jt = journal_total_within(&self.journal, MAX_MONEY);
        let at = journal_total_within(&added, MAX_MONEY);
        match (t, jt, at) {
            (Some(t), Some(jt), Some(at)) => {
                if jt > MAX_MONEY - t || at > MAX_MONEY - t - jt {
                    return Err(Error::Wallet(WalletError::ValueOverflow));
                }
            },
            _ => {
                return Err(Error::Wallet(WalletError::ValueOverflow));
            },
        }
        self.confirmed = c;
        self.journal.append(&mut added);
        Ok(())
    }

    /// Undoes every processed block above height `h`: the coins those blocks
    /// confirmed go back to pending receives, as their transactions are
    /// unconfirmed again, and the coins those blocks spent that a block at or
    /// below `h` had confirmed come back from the journal.
    pub fn unwind_to(&mut self, h: u32)
        requires
            old(self).wf(),
        ensures
            final(self).wf(),
            final(self).confirmed@ == kept_below(
                old(self).confirmed@,
                h,
                old(self).confirmed@.len() as int,
            ) + restored(old(self).journal@, h, old(self).journal@.len() as int),
            final(self).journal@ == journal_below(
                old(self).journal@,
                h,
                old(self).journal@.len() as int,
            ),
            final(self).pending_spends@ == old(self).pending_spends@,
            final(self).pending_receives@ == old(self).pending_receives@ + orphaned_as_pending(
                old(self).confirmed@,
                h,
                old(self).confirmed@.len() as int,
            ),
            forall|k: int|
                0 <= k < final(self).confirmed@.len() ==> #[trigger] final(self).confirmed@[k].height
                    <= h,
    {
        let ghost c0 = self.confirmed@;
        let ghost j0 = self.journal@;
        let ghost p0 = self.pending_receives@;
        let mut kept: Vec<ConfirmedCoin> = Vec::new();
        let mut i: usize = 0;
        while i < self.confirmed.len()
            invariant
                i <= c0.len(),
                c0 == self.confirmed@,
                j0 == self.journal@,
                self.pending_spends@ == old(self).pending_spends@,
                kept@ == kept_below(c0, h, i as int),
                self.pending_receives@ == p0 + orphaned_as_pending(c0, h, i as int),
            decreases c0.len() - i,
        {
            let coin = self.confirmed[i];
            if coin.height <= h {
                kept.push(coin);
            } else {
                self.pending_receives.push(
                    PendingCoin {
                        outpoint: coin.outpoint,
                        value: coin.value,
                        derivation: coin.derivation,
                    },
                );
                assert(self.pending_receives@ =~= p0 + orphaned_as_pending(c0, h, (i + 1) as int));
            }
            i = i + 1;
        }
        let ghost kb = kept@;
        let mut journal: Vec<JournalEntry> = Vec::new();
        let mut k: usize = 0;
        while k < self.journal.len()
            invariant
                k <= j0.len(),
                j0 == self.journal@,
                kept@ == kb + restored(j0, h, k as int),
                journal@ == journal_below(j0, h, k as int),
            decreases j0.len() - k,
        {
            let e = self.journal[k];
            if e.height > h && e.coin.height <= h {
                kept.push(e.coin);
                assert(kept@ =~= kb + restored(j0, h, (k + 1) as int));
            }
            if e.height <= h {
                journal.push(e);
            }
            k = k + 1;
        }
        proof {
            lemma_kept_below_heights(c0, h, c0.len() as int);
            lemma_restored(j0, h, j0.len() as int);
            assert(c0.subrange(0, c0.len() as int) =~= c0);
            assert(j0.subrange(0, j0.len() as int) =~= j0);
            lemma_total_concat(kb, restored(j0, h, j0.len() as int));
            unwind_leaves_no_orphans(c0, j0, h);
        }
        self.confirmed = kept;
        self.journal = journal;
    }

    /// Records the outputs that a pending transaction spends among the
    /// confirmed coins, so that they no longer count as available, and the
    /// outputs it pays to watched scripts as pending receives.
    pub fn process_unconfirmed_transaction(&mut self, tx: &BlockTx, watched: &Vec<WatchedScript>)
        requires
            old(self).wf(),
        ensures
            final(self).wf(),
            final(self).confirmed@ == old(self).confirmed@,
            final(self).journal@ == old(self).journal@,
            final(self).pending_receives@ == old(self).pending_receives@ + pending_outputs(
                *tx,
                watched@,
                tx.outputs@.len() as int,
            ),
            final(self).pending_spends@ == old(self).pending_spends@ + phantom_spends(
                old(self).confirmed@,
                old(self).pending_spends@,
                tx.inputs@,
                tx.inputs@.len() as int,
            ),
    {
        let ghost p0 = self.pending_spends@;
        let mut i: usize = 0;
        while i < tx.inputs.len()
            invariant
                i <= tx.inputs@.len(),
                self.confirmed@ == old(self).confirmed@,
                self.journal@ == old(self).journal@,
                p0 == old(self).pending_spends@,
                self.pending_receives@ == old(self).pending_receives@,
                self.pending_spends@ == p0 + phantom_spends(
                    self.confirmed@,
                    p0,
                    tx.inputs@,
                    i as int,
                ),
            decreases tx.inputs@.len() - i,
        {
            let o = tx.inputs[i];
            if self.holds(&o) && !contains_outpoint(&self.pending_spends, &o) {
                self.pending_spends.push(o);
                assert(self.pending_spends@ =~= p0 + phantom_spends(
                    self.confirmed@,
                    p0,
                    tx.inputs@,
                    (i + 1) as int,
                ));
            }
            i = i + 1;
        }
        let ghost r0 = self.pending_receives@;
        let mut k: usize = 0;
        while k < tx.outputs.len()
            invariant
                k <= tx.outputs@.len(),
                self.confirmed@ == old(self).confirmed@,
                self.journal@ == old(self).journal@,
                r0 == old(self).pending_receives@,
                self.pending_spends@ == p0 + phantom_spends(
                    self.confirmed@,
                    p0,
                    tx.inputs@,
                    tx.inputs@.len() as int,
                ),
                self.pending_receives@ == r0 + pending_outputs(*tx, watched@, k as int),
            decreases tx.outputs@.len() - k,
        {
            let out = &tx.outputs[k];
            match classify_script(&out.script, watched) {
                Some(d) => {
                    self.pending_receives.push(
                        PendingCoin {
                            outpoint: OutPoint { txid: tx.txid, vout: k as u32 },
                            value: out.value,
                            derivation: d,
                        },
                    );
                    assert(self.pending_receives@ =~= r0 + pending_outputs(
                        *tx,
                        watched@,
                        (k + 1) as int,
                    ));
                },
                None => {},
            }
            k = k + 1;
        }
    }
}

/// No two coins of `s` sit at the same outpoint, as in any set of unspent outputs.
pub open spec fn distinct_outpoints(s: Seq<ConfirmedCoin>) -> bool {
    forall|i: int, j: int| 0 <= i < j < s.len() ==> s[i].outpoint != s[j].outpoint
}

/// The coins of `s[0..n]` in order, each kept only where no earlier coin
/// sits at its outpoint.
pub open spec fn first_at_outpoints(s: Seq<ConfirmedCoin>, n: int) -> Seq<ConfirmedCoin>
    decreases n,
{
    if n <= 0 {
        Seq::empty()
    } else {
        let d = first_at_outpoints(s, n - 1);
        if exists|k: int| 0 <= k < d.len() && d[k].outpoint == s[n - 1].outpoint {
            d
        } else {
            d.push(s[n - 1])
        }
    }
}

/// Keeping the first coin at each outpoint never sums to more as fewer
/// stored coins are looked at.
proof fn lemma_first_at_total_grows(s: Seq<ConfirmedCoin>, i: int, n: int)
    requires
        0 <= i <= n,
    ensures
        total(first_at_outpoints(s, i)) <= total(first_at_outpoints(s, n)),
    decreases n - i,
{
    if i < n {
        lemma_first_at_total_grows(s, i, n - 1);
        let d = first_at_outpoints(s, n - 1);
        if !(exists|k: int| 0 <= k < d.len() && d[k].outpoint == s[n - 1].outpoint) {
            assert(d.push(s[n - 1]).drop_last() =~= d);
        }
    }
}

/// Coins at distinct outpoints are all kept.
proof fn lemma_first_at_distinct(s: Seq<ConfirmedCoin>, n: int)
    requires
        0 <= n <= s.len(),
        distinct_outpoints(s),
    ensures
        first_at_outpoints(s, n) == s.subrange(0, n),
    decreases n,
{
    if n > 0 {
        lemma_first_at_distinct(s, n - 1);
        let d = first_at_outpoints(s, n - 1);
        assert forall|k: int| 0 <= k < d.len() implies d[k].outpoint != s[n - 1].outpoint by {
            assert(d[k] == s[k]);
        }
        assert(d.push(s[n - 1]) =~= s.subrange(0, n));
    } else {
        assert(s.subrange(0, 0) =~= Seq::<ConfirmedCoin>::empty());
    }
}

/// Rebuilds a coin set from stored confirmed coins, adding each in turn: a
/// coin at an outpoint already held is passed over. It fails only where the
/// coins kept would hold more than the money that can exist. Stored coins at
/// distinct outpoints come back exactly as they were stored.
pub fn restore_coins(stored: &Vec<ConfirmedCoin>) -> (r: Result<Coins, Error>)
    ensures
        r matches Ok(c) ==> c.wf() && c.journal@.len() == 0 && c.pending_spends@.len() == 0
            && c.pending_receives@.len() == 0 && c.confirmed@ == first_at_outpoints(
            stored@,
            stored@.len() as int,
        ),
        r is Ok <==> total(first_at_outpoints(stored@, stored@.len() as int)) <= MAX_MONEY,
        r is Err ==> r == Err::<Coins, Error>(Error::Wallet(WalletError::ValueOverflow)),
        distinct_outpoints(stored@) && total(stored@) <= MAX_MONEY ==> (r matches Ok(c)
            && c.confirmed@ == stored@),
{
    let mut coins = Coins::new();
    let mut i: usize = 0;
    proof {
        if distinct_outpoints(stored@) {
            lemma_first_at_distinct(stored@, stored@.len() as int);
            assert(stored@.subrange(0, stored@.len() as int) =~= stored@);
        }
    }
    while i < stored.len()
        invariant
            i <= stored@.len(),
            coins.wf(),
            coins.journal@.len() == 0,
            coins.pending_spends@.len() == 0,
            coins.pending_receives@.len() == 0,
            coins.confirmed@ == first_at_outpoints(stored@, i as int),
            distinct_outpoints(stored@) ==> first_at_outpoints(stored@, stored@.len() as int)
                == stored@,
        decreases stored@.len() - i,
    {
        let c = stored[i];
        let ghost d = coins.confirmed@;
        match coins.add_confirmed(c) {
            Ok(()) => {},
            Err(e) => {
                proof {
                    assert(d.push(c).drop_last() =~= d);
                    lemma_first_at_total_grows(stored@, (i + 1) as int, stored@.len() as int);
                }
                return Err(e);
            },
        }
        assert(coins.confirmed@ =~= first_at_outpoints(stored@, (i + 1) as int));
        i = i + 1;
    }
    Ok(coins)
}

} // verus!
