use vstd::prelude::*;

use crate::coins::{available_coins, total, Coins, ConfirmedCoin, MAX_MONEY};
use crate::error::{Error, WalletError};

verus! {

broadcast use vstd::seq_lib::group_to_multiset_ensures;

/// Bytes of the compact-size prefix of a count.
pub open spec fn varint_len(n: int) -> int {
    if n < 253 {
        1
    } else if n <= 0xffff {
        3
    } else if n <= 0xffff_ffff {
        5
    } else {
        9
    }
}

/// Weight of a transaction that spends `n_inputs` pay-to-witness-pubkey-hash
/// coins to one output with a script of `script_len` bytes, and, with
/// `with_change`, to one pay-to-witness-pubkey-hash change output.
///
/// Version and lock time take eight bytes, the marker and flag two weight
/// units; each input 41 bytes and 108 units of witness (a signature of up to
/// 72 bytes and a compressed key); an output eight bytes of value and its
/// script with a length prefix.
pub open spec fn tx_weight(n_inputs: int, script_len: int, with_change: bool) -> int {
    let n_outputs: int = if with_change {
        2
    } else {
        1
    };
    4 * (8 + varint_len(n_inputs) + varint_len(n_outputs)) + 2 + n_inputs * (4 * 41 + 108) + 4 * (8
        + varint_len(script_len) + script_len) + if with_change {
        4 * 31
    } else {
        0
    }
}

/// Virtual size: the weight divided by four, rounded up.
pub open spec fn tx_vbytes(n_inputs: int, script_len: int, with_change: bool) -> int {
    (tx_weight(n_inputs, script_len, with_change) + 3) / 4
}

/// The fee at `fee_per_vbyte` for such a transaction.
pub open spec fn tx_fee(fee_per_vbyte: u64, n_inputs: int, script_len: int, with_change: bool) -> int {
    fee_per_vbyte * tx_vbytes(n_inputs, script_len, with_change)
}

/// The coins sorted by value, largest first.
pub open spec fn sorted_desc(s: Seq<ConfirmedCoin>) -> bool {
    forall|a: int, b: int| 0 <= a < b < s.len() ==> s[a].value >= s[b].value
}

/// Sum of the values of the first `k` coins.
pub open spec fn prefix_total(s: Seq<ConfirmedCoin>, k: int) -> int {
    total(s.subrange(0, k))
}

/// The first `k` coins of `s` pay `amount` and the fee of a transaction with change.
pub open spec fn covers(s: Seq<ConfirmedCoin>, k: int, amount: u64, fee_per_vbyte: u64, script_len: int) -> bool {
    prefix_total(s, k) >= amount + tx_fee(fee_per_vbyte, k, script_len, true)
}

/// `r` is what picking, from `sorted`, the shortest prefix that pays
/// `amount` and the fee of a transaction with change gives.
pub open spec fn selects(
    sorted: Seq<ConfirmedCoin>,
    amount: u64,
    fee_per_vbyte: u64,
    script_len: int,
    r: Result<Selection, Error>,
) -> bool {
    &&& (r is Ok) <==> exists|k: int|
        1 <= k <= sorted.len() && #[trigger] covers(sorted, k, amount, fee_per_vbyte, script_len)
    &&& r is Err ==> r == Err::<Selection, Error>(Error::Wallet(WalletError::InsufficientFunds))
    &&& r matches Ok(sel) ==> {
        let k = sel.coins@.len() as int;
        &&& 1 <= k <= sorted.len()
        &&& sel.coins@ == sorted.subrange(0, k)
        &&& covers(sorted, k, amount, fee_per_vbyte, script_len)
        &&& forall|k2: int|
            1 <= k2 < k ==> !#[trigger] covers(sorted, k2, amount, fee_per_vbyte, script_len)
        &&& sel.send == amount
        &&& sel.fee == tx_fee(fee_per_vbyte, k, script_len, true)
        &&& sel.change == total(sel.coins@) - amount - sel.fee
    }
}

/// The coins chosen for a withdrawal and how their value is split.
#[derive(Clone, Debug)]
pub struct Selection {
    pub coins: Vec<ConfirmedCoin>,
    /// What the recipient receives.
    pub send: u64,
    /// What goes back to the wallet; zero when all coins are swept.
    pub change: u64,
    pub fee: u64,
}

/// Sorts coins by value, largest first; coins of equal value keep their order.
pub fn sort_by_value_desc(coins: &Vec<ConfirmedCoin>) -> (r: Vec<ConfirmedCoin>)
    ensures
        sorted_desc(r@),
        r@.to_multiset() == coins@.to_multiset(),
{
    let mut r: Vec<ConfirmedCoin> = Vec::new();
    let mut i: usize = 0;
    while i < coins.len()
        invariant
            i <= coins@.len(),
            sorted_desc(r@),
            r@.to_multiset() == coins@.subrange(0, i as int).to_multiset(),
        decreases coins@.len() - i,
    {
        let x = coins[i];
        let mut j: usize = 0;
        while j < r.len() && r[j].value >= x.value
            invariant
                j <= r@.len(),
                forall|a: int| 0 <= a < j ==> r@[a].value >= x.value,
            decreases r@.len() - j,
        {
            j = j + 1;
        }
        let ghost before = r@;
        r.insert(j, x);
        proof {
            assert(r@ == before.insert(j as int, x));
            assert forall|a: int, b: int| 0 <= a < b < r@.len() implies r@[a].value
                >= r@[b].value by {
                if b < j {
                } else if b == j {
                } else if a < j {
                } else if a == j {
                    assert(r@[b] == before[b - 1]);
                    assert(before[j as int].value < x.value);
                } else {
                    assert(r@[a] == before[a - 1]);
                    assert(r@[b] == before[b - 1]);
                }
            }
            assert(coins@.subrange(0, (i + 1) as int) =~= coins@.subrange(0, i as int).push(x));
        }
        i = i + 1;
    }
    assert(coins@.subrange(0, i as int) =~= coins@);
    r
}

/// `(weight + 3) / 4` of a transaction with `n` inputs, computed without overflow.
fn vbytes(n: usize, script_len: usize, with_change: bool) -> (r: u128)
    ensures
        r == tx_vbytes(n as int, script_len as int, with_change),
{
    let n128 = n as u128;
    let s128 = script_len as u128;
    let vin: u128 = if n128 < 253 {
        1
    } else if n128 <= 0xffff {
        3
    } else if n128 <= 0xffff_ffff {
        5
    } else {
        9
    };
    let vs: u128 = if s128 < 253 {
        1
    } else if s128 <= 0xffff {
        3
    } else if s128 <= 0xffff_ffff {
        5
    } else {
        9
    };
    let outs: u128 = if with_change {
        2
    } else {
        1
    };
    let change: u128 = if with_change {
        124
    } else {
        0
    };
    let w = 4 * (8 + vin + 1) + 2 + n128 * 272 + 4 * (8 + vs + s128) + change;
    assert(outs < 253);
    (w + 3) / 4
}

/// The fee at `fee_per_vbyte` for `n` inputs, or `None` where it exceeds the
/// money that can exist.
fn fee_for(fee_per_vbyte: u64, n: usize, script_len: usize, with_change: bool) -> (r: Option<u64>)
    ensures
        match r {
            Some(f) => f == tx_fee(fee_per_vbyte, n as int, script_len as int, with_change) && f
                <= MAX_MONEY,
            None => tx_fee(fee_per_vbyte, n as int, script_len as int, with_change) > MAX_MONEY,
        },
{
    let vb = vbytes(n, script_len, with_change);
    if fee_per_vbyte == 0 {
        assert(fee_per_vbyte * vb == 0) by (nonlinear_arith)
            requires
                fee_per_vbyte == 0,
        ;
        return Some(0);
    }
    if vb > MAX_MONEY as u128 {
        assert(fee_per_vbyte * vb >= vb) by (nonlinear_arith)
            requires
                fee_per_vbyte >= 1,
                vb >= 0,
        ;
        return None;
    }
    assert(fee_per_vbyte * vb <= 0xffff_ffff_ffff_ffffu128 * MAX_MONEY) by (nonlinear_arith)
        requires
            fee_per_vbyte <= 0xffff_ffff_ffff_ffffu128,
            vb <= MAX_MONEY,
            vb >= 0,
    ;
    let f = (fee_per_vbyte as u128) * vb;
    if f > MAX_MONEY as u128 {
        None
    } else {
        Some(f as u64)
    }
}

proof fn lemma_prefix_step(s: Seq<ConfirmedCoin>, k: int)
    requires
        0 <= k < s.len(),
    ensures
        prefix_total(s, k + 1) == prefix_total(s, k) + s[k].value,
{
    assert(s.subrange(0, k + 1).drop_last() =~= s.subrange(0, k));
}

proof fn lemma_prefix_le_total(s: Seq<ConfirmedCoin>, k: int)
    requires
        0 <= k <= s.len(),
    ensures
        prefix_total(s, k) <= total(s),
    decreases s.len() - k,
{
    if k < s.len() {
        lemma_prefix_le_total(s, k + 1);
        lemma_prefix_step(s, k);
    } else {
        assert(s.subrange(0, k) =~= s);
    }
}

/// The fee only grows with the number of inputs.
proof fn lemma_fee_monotone(fee_per_vbyte: u64, a: int, b: int, script_len: int)
    requires
        0 <= a <= b,
        script_len >= 0,
    ensures
        tx_fee(fee_per_vbyte, a, script_len, true) <= tx_fee(fee_per_vbyte, b, script_len, true),
{
    assert(tx_weight(a, script_len, true) <= tx_weight(b, script_len, true)) by (nonlinear_arith)
        requires
            0 <= a <= b,
    {
    }
    assert(tx_vbytes(a, script_len, true) <= tx_vbytes(b, script_len, true));
    assert(fee_per_vbyte * tx_vbytes(a, script_len, true) <= fee_per_vbyte * tx_vbytes(
        b,
        script_len,
        true,
    )) by (nonlinear_arith)
        requires
            tx_vbytes(a, script_len, true) <= tx_vbytes(b, script_len, true),
            fee_per_vbyte >= 0,
    ;
}

/// Picks, from coins sorted largest first, the shortest prefix that pays
/// `amount` and the fee of a transaction with change; the change is what is
/// left over.
pub fn select_for_amount(
    sorted: &Vec<ConfirmedCoin>,
    amount: u64,
    fee_per_vbyte: u64,
    script_len: usize,
) -> (r: Result<Selection, Error>)
    requires
        total(sorted@) <= MAX_MONEY,
    ensures
        selects(sorted@, amount, fee_per_vbyte, script_len as int, r),
{
    let mut acc: u64 = 0;
    let mut k: usize = 0;
    while k < sorted.len()
        invariant
            k <= sorted@.len(),
            acc == prefix_total(sorted@, k as int),
            total(sorted@) <= MAX_MONEY,
            forall|k2: int|
                1 <= k2 <= k ==> !#[trigger] covers(
                    sorted@,
                    k2,
                    amount,
                    fee_per_vbyte,
                    script_len as int,
                ),
        decreases sorted@.len() - k,
    {
        proof {
            lemma_prefix_step(sorted@, k as int);
            lemma_prefix_le_total(sorted@, (k + 1) as int);
            crate::coins::lemma_total_nonneg(sorted@.subrange(0, k as int));
        }
        acc = acc + sorted[k].value;
        k = k + 1;
        match fee_for(fee_per_vbyte, k, script_len, true) {
            None => {
                proof {
                    assert forall|k2: int| 1 <= k2 <= sorted@.len() implies !#[trigger] covers(
                        sorted@,
                        k2,
                        amount,
                        fee_per_vbyte,
                        script_len as int,
                    ) by {
                        if k2 > k {
                            lemma_fee_monotone(fee_per_vbyte, k as int, k2, script_len as int);
                            lemma_prefix_le_total(sorted@, k2);
                        }
                    }
                }
                return Err(Error::Wallet(WalletError::InsufficientFunds));
            },
            Some(fee) => {
                if amount <= acc && fee <= acc - amount {
                    assert(covers(sorted@, k as int, amount, fee_per_vbyte, script_len as int));
                    let mut chosen: Vec<ConfirmedCoin> = Vec::new();
                    let mut i: usize = 0;
                    while i < k
                        invariant
                            i <= k <= sorted@.len(),
                            chosen@ == sorted@.subrange(0, i as int),
                        decreases k - i,
                    {
                        chosen.push(sorted[i]);
                        assert(chosen@ =~= sorted@.subrange(0, (i + 1) as int));
                        i = i + 1;
                    }
                    return Ok(Selection { coins: chosen, send: amount, change: acc - amount - fee, fee });
                }
            },
        }
    }
    Err(Error::Wallet(WalletError::InsufficientFunds))
}

/// Spends all `coins` to one output: the recipient receives their sum less
/// the fee of a transaction without change.
pub fn select_sweep(coins: &Vec<ConfirmedCoin>, fee_per_vbyte: u64, script_len: usize) -> (r: Result<
    Selection,
    Error,
>)
    requires
        total(coins@) <= MAX_MONEY,
    ensures
        (r is Ok) <==> coins@.len() > 0 && total(coins@) > tx_fee(
            fee_per_vbyte,
            coins@.len() as int,
            script_len as int,
            false,
        ),
        r is Err ==> r == Err::<Selection, Error>(Error::Wallet(WalletError::InsufficientFunds)),
        r matches Ok(sel) ==> {
            &&& sel.coins@ == coins@
            &&& sel.fee == tx_fee(fee_per_vbyte, coins@.len() as int, script_len as int, false)
            &&& sel.change == 0
            &&& sel.send == total(coins@) - sel.fee
        },
{
    if coins.len() == 0 {
        return Err(Error::Wallet(WalletError::InsufficientFunds));
    }
    let mut acc: u64 = 0;
    let mut k: usize = 0;
    while k < coins.len()
        invariant
            k <= coins@.len(),
            acc == prefix_total(coins@, k as int),
            total(coins@) <= MAX_MONEY,
        decreases coins@.len() - k,
    {
        proof {
            lemma_prefix_step(coins@, k as int);
            lemma_prefix_le_total(coins@, (k + 1) as int);
            crate::coins::lemma_total_nonneg(coins@.subrange(0, k as int));
        }
        acc = acc + coins[k].value;
        k = k + 1;
    }
    assert(coins@.subrange(0, k as int) =~= coins@);
    match fee_for(fee_per_vbyte, coins.len(), script_len, false) {
        None => Err(Error::Wallet(WalletError::InsufficientFunds)),
        Some(fee) => {
            if fee >= acc {
                return Err(Error::Wallet(WalletError::InsufficientFunds));
            }
            let mut chosen: Vec<ConfirmedCoin> = Vec::new();
            let mut i: usize = 0;
            while i < coins.len()
                invariant
                    i <= coins@.len(),
                    chosen@ == coins@.subrange(0, i as int),
                decreases coins@.len() - i,
            {
                chosen.push(coins[i]);
                assert(chosen@ =~= coins@.subrange(0, (i + 1) as int));
                i = i + 1;
            }
            assert(chosen@ =~= coins@);
            Ok(Selection { coins: chosen, send: acc - fee, change: 0, fee })
        },
    }
}

/// A withdrawal of a fixed amount balances: the inputs pay the amount, the
/// change and the fee, and the fee is the fee rate times the virtual size.
pub proof fn withdrawal_balances(sel: Selection, fee_per_vbyte: u64, script_len: int)
    requires
        sel.fee == tx_fee(fee_per_vbyte, sel.coins@.len() as int, script_len, true),
        sel.change == total(sel.coins@) - sel.send - sel.fee,
    ensures
        total(sel.coins@) == sel.send + sel.change + sel.fee,
        sel.fee >= fee_per_vbyte * tx_vbytes(sel.coins@.len() as int, script_len, true) - 1,
{
}

/// The overpay guard: a fee above both 1000 satoshis and five times the fee
/// that the rate asks for the transaction's size is refused.
pub fn fee_within_guard(fee: u64, fee_per_vbyte: u64, vbytes: u64) -> (r: bool)
    ensures
        r == (fee <= 1000 || fee as int <= 5 * (fee_per_vbyte as int * vbytes as int)),
{
    if fee <= 1000 {
        return true;
    }
    assert((fee_per_vbyte as u128) * (vbytes as u128) <= 0xffff_ffff_ffff_ffffu128
        * 0xffff_ffff_ffff_ffffu128) by (nonlinear_arith)
        requires
            fee_per_vbyte <= 0xffff_ffff_ffff_ffffu64,
            vbytes <= 0xffff_ffff_ffff_ffffu64,
    ;
    let target = (fee_per_vbyte as u128) * (vbytes as u128);
    assert(target == fee_per_vbyte as int * vbytes as int) by (nonlinear_arith)
        requires
            target == (fee_per_vbyte as u128) * (vbytes as u128),
    ;
    if target >= fee as u128 {
        return true;
    }
    (fee as u128) <= 5 * target
}

/// Removing one coin takes its value off the sum.
proof fn lemma_total_remove(s: Seq<ConfirmedCoin>, i: int)
    requires
        0 <= i < s.len(),
    ensures
        total(s) == total(s.remove(i)) + s[i].value,
    decreases s.len(),
{
    if i < s.len() - 1 {
        lemma_total_remove(s.drop_last(), i);
        assert(s.remove(i).drop_last() =~= s.drop_last().remove(i));
    } else {
        assert(s.remove(i) =~= s.drop_last());
    }
}

/// Coins with the same multiset of values sum to the same.
proof fn lemma_total_permutation(a: Seq<ConfirmedCoin>, b: Seq<ConfirmedCoin>)
    requires
        a.to_multiset() == b.to_multiset(),
    ensures
        total(a) == total(b),
    decreases a.len(),
{
    broadcast use vstd::seq_lib::group_to_multiset_ensures;

    if a.len() == 0 {
        assert(b.to_multiset().len() == 0);
        assert(b.len() == 0);
    } else {
        let x = a.last();
        assert(a =~= a.drop_last().push(x));
        assert(a.to_multiset().count(x) > 0);
        assert(b.to_multiset().contains(x));
        assert(b.contains(x));
        let i = choose|i: int| 0 <= i < b.len() && b[i] == x;
        assert(a.drop_last().to_multiset() =~= a.to_multiset().remove(x));
        assert(b.remove(i).to_multiset() == b.to_multiset().remove(x));
        lemma_total_permutation(a.drop_last(), b.remove(i));
        lemma_total_remove(b, i);
    }
}

/// `r` is what planning a withdrawal from `coins` gives: with an amount, the
/// shortest run of the largest available coins that pays it and the fee,
/// with change; without, a sweep of all available coins.
pub open spec fn plans(
    coins: Coins,
    trunk_len: u32,
    fee_per_vbyte: u64,
    amount: Option<u64>,
    script_len: usize,
    r: Result<Selection, Error>,
) -> bool {
        let avail = available_coins(
            coins.confirmed@,
            coins.pending_spends@,
            trunk_len,
            coins.confirmed@.len() as int,
        );
        match amount {
            None => {
                &&& (r is Ok) <==> avail.len() > 0 && total(avail) > tx_fee(
                    fee_per_vbyte,
                    avail.len() as int,
                    script_len as int,
                    false,
                )
                &&& r is Err ==> r == Err::<Selection, Error>(
                    Error::Wallet(WalletError::InsufficientFunds),
                )
                &&& r matches Ok(sel) ==> sel.coins@ == avail && sel.change == 0 && sel.fee
                    == tx_fee(fee_per_vbyte, avail.len() as int, script_len as int, false)
                    && sel.send == total(avail) - sel.fee
            },
            Some(a) => {
                &&& exists|s: Seq<ConfirmedCoin>|
                    #[trigger] sorted_desc(s) && s.to_multiset() == avail.to_multiset()
                        && selects(s, a, fee_per_vbyte, script_len as int, r)
                &&& r matches Ok(sel) ==> total(sel.coins@) == sel.send + sel.change + sel.fee
            },
        }
    }

/// The coins and split of a withdrawal to an output script of `script_len`
/// bytes: with an amount, the shortest run of the largest available coins
/// that pays it and the fee, with change; without, a sweep of all available
/// coins.
pub fn plan_withdrawal(
    coins: &Coins,
    trunk_len: u32,
    fee_per_vbyte: u64,
    amount: Option<u64>,
    script_len: usize,
) -> (r: Result<Selection, Error>)
    requires
        coins.wf(),
    ensures
        plans(*coins, trunk_len, fee_per_vbyte, amount, script_len, r),
{
    let avail = coins.available_coins(trunk_len);
    proof {
        crate::coins::lemma_available_coins_total(
            coins.confirmed@,
            coins.pending_spends@,
            trunk_len,
            coins.confirmed@.len() as int,
        );
        assert(coins.confirmed@.subrange(0, coins.confirmed@.len() as int) =~= coins.confirmed@);
        crate::coins::lemma_journal_total_nonneg(coins.journal@);
    }
    match amount {
        None => select_sweep(&avail, fee_per_vbyte, script_len),
        Some(a) => {
            let sorted = sort_by_value_desc(&avail);
            proof {
                lemma_total_permutation(sorted@, avail@);
            }
            let r = select_for_amount(&sorted, a, fee_per_vbyte, script_len);
            proof {
                if r is Ok {
                    withdrawal_balances(r->Ok_0, fee_per_vbyte, script_len as int);
                }
                assert(sorted_desc(sorted@) && sorted@.to_multiset() == avail@.to_multiset()
                    && selects(sorted@, a, fee_per_vbyte, script_len as int, r));
            }
            r
        },
    }
}

} // verus!
