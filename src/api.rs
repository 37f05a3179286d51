use vstd::prelude::*;

use crate::coins::{available_total, total, Coins, Hash256};
use crate::error::Error;
use crate::txbuilder::{plan_withdrawal, plans, Selection};

verus! {

/// The wallet's balances, in satoshis.
#[derive(Clone, Copy, Debug, PartialEq, Eq, Structural)]
pub struct BalanceAmt {
    /// The sum of all confirmed coins.
    pub balance: u64,
    /// What can be spent now: confirmed coins whose lock has passed and that
    /// no pending transaction spends.
    pub confirmed: u64,
}

impl BalanceAmt {
    /// Balances of `balance` in all and `confirmed` available to spend.
    pub fn new(balance: u64, confirmed: u64) -> (r: BalanceAmt)
        ensures
            r.balance == balance,
            r.confirmed == confirmed,
    {
        BalanceAmt { balance, confirmed }
    }
}

/// The id and fee of a withdrawal that was built and sent.
#[derive(Clone, Copy, Debug, PartialEq, Eq, Structural)]
pub struct WithdrawTx {
    pub txid: Hash256,
    pub fee: u64,
}

impl WithdrawTx {
    /// The withdrawal `txid`, which paid `fee`.
    pub fn new(txid: Hash256, fee: u64) -> (r: WithdrawTx)
        ensures
            r.txid == txid,
            r.fee == fee,
    {
        WithdrawTx { txid, fee }
    }
}

/// What a started wallet shares between the control surface and the peers:
/// the coin set, the length of the trunk and the stop flag.
pub struct ContentStore {
    pub coins: Coins,
    pub trunk_len: u32,
    pub stopped: bool,
}

/// The process-wide slot that holds the started wallet, if any.
pub struct ControlSlot {
    pub store: Option<ContentStore>,
}

impl ControlSlot {
    /// A slot with no wallet started.
    pub fn new() -> (r: ControlSlot)
        ensures
            r.store is None,
    {
        ControlSlot { store: None }
    }

    pub open spec fn wf(&self) -> bool {
        self.store matches Some(s) ==> s.coins.wf()
    }

    /// Installs `store` if no wallet is started, and says whether it did: a
    /// caller that gets `false` returns at once, as the running wallet keeps
    /// its store and its peers.
    pub fn start(&mut self, store: ContentStore) -> (installed: bool)
        ensures
            (final(self).store, installed) == spec_start(old(self).store, store),
    {
        if self.store.is_some() {
            false
        } else {
            self.store = Some(store);
            true
        }
    }

    /// Whether the started wallet was asked to stop; `true` where none is started.
    pub fn stopped(&self) -> (r: bool)
        ensures
            r == match self.store {
                Some(s) => s.stopped,
                None => true,
            },
    {
        match &self.store {
            Some(s) => s.stopped,
            None => true,
        }
    }

    /// Empties the slot when the started wallet has shut down.
    pub fn release(&mut self)
        ensures
            final(self).store is None,
    {
        self.store = None;
    }
}

/// What starting does to the slot: it installs `store` where the slot is
/// empty, and says whether it did.
pub open spec fn spec_start(slot: Option<ContentStore>, store: ContentStore) -> (Option<ContentStore>, bool) {
    if slot is None {
        (Some(store), true)
    } else {
        (slot, false)
    }
}

/// Starting twice installs one wallet: the second start returns at once and
/// leaves the first wallet's store in the slot.
pub proof fn start_twice_keeps_first(first: ContentStore, second: ContentStore)
    ensures
        ({
            let (slot1, installed1) = spec_start(None, first);
            let (slot2, installed2) = spec_start(slot1, second);
            installed1 && !installed2 && slot2 == Some(first)
        }),
{
}

/// Asks the started wallet to stop; with none started it does nothing.
pub fn stop(slot: &mut ControlSlot) -> (r: Result<(), Error>)
    ensures
        old(slot).store is None ==> r is Ok && final(slot).store is None,
        old(slot).store matches Some(s) ==> r is Ok && final(slot).store == Some(
            ContentStore { stopped: true, ..s },
        ),
{
    match &mut slot.store {
        Some(s) => {
            s.stopped = true;
            Ok(())
        },
        None => Ok(()),
    }
}

/// The balances of the started wallet.
pub fn balance(slot: &ControlSlot) -> (r: Result<BalanceAmt, Error>)
    requires
        slot.wf(),
    ensures
        slot.store is None ==> r == Err::<BalanceAmt, Error>(Error::Unsupported),
        slot.store matches Some(s) ==> r matches Ok(b) && b.balance == total(s.coins.confirmed@)
            && b.confirmed == available_total(
            s.coins.confirmed@,
            s.coins.pending_spends@,
            s.trunk_len,
        ) && b.confirmed <= b.balance,
{
    match &slot.store {
        Some(s) => {
            let confirmed = s.coins.balance();
            let available = s.coins.available_balance(s.trunk_len);
            Ok(BalanceAmt::new(confirmed, available))
        },
        None => Err(Error::Unsupported),
    }
}

/// The coins and split of a withdrawal from the started wallet, to an output
/// script of `script_len` bytes.
pub fn withdraw_plan(
    slot: &ControlSlot,
    fee_per_vbyte: u64,
    amount: Option<u64>,
    script_len: usize,
) -> (r: Result<Selection, Error>)
    requires
        slot.wf(),
    ensures
        slot.store is None ==> r == Err::<Selection, Error>(Error::Unsupported),
        slot.store matches Some(s) ==> plans(
            s.coins,
            s.trunk_len,
            fee_per_vbyte,
            amount,
            script_len,
            r,
        ),
{
    match &slot.store {
        Some(s) => plan_withdrawal(&s.coins, s.trunk_len, fee_per_vbyte, amount, script_len),
        None => Err(Error::Unsupported),
    }
}

} // verus!
