use btcdk::api::{balance, stop, withdraw_plan, BalanceAmt, ContentStore, ControlSlot, WithdrawTx};
use btcdk::coins::{Coins, ConfirmedCoin, Hash256, KeyDerivation, OutPoint};
use btcdk::error::Error;

fn h(n: u64) -> Hash256 {
    Hash256 { w0: n, w1: 0, w2: 0, w3: 0 }
}

fn store_with(values: &[u64]) -> ContentStore {
    let mut coins = Coins::new();
    for (i, v) in values.iter().enumerate() {
        coins
            .add_confirmed(ConfirmedCoin {
                outpoint: OutPoint { txid: h(i as u64 + 1), vout: 0 },
                value: *v,
                derivation: KeyDerivation { account: 0, sub: 0, kix: 0, tweak: None, csv: None },
                block: h(9),
                height: 1,
            })
            .unwrap();
    }
    ContentStore { coins, trunk_len: 2, stopped: false }
}

#[test]
fn start_twice_installs_one_store() {
    let mut slot = ControlSlot::new();
    assert!(slot.start(store_with(&[1_000])));
    assert!(!slot.start(store_with(&[2_000, 3_000])));
    assert_eq!(balance(&slot).unwrap(), BalanceAmt::new(1_000, 1_000));
}

#[test]
fn stop_raises_the_flag_and_release_empties_the_slot() {
    let mut slot = ControlSlot::new();
    assert!(slot.stopped());
    assert_eq!(stop(&mut slot), Ok(()));
    assert!(slot.store.is_none());
    slot.start(store_with(&[]));
    assert!(!slot.stopped());
    assert_eq!(stop(&mut slot), Ok(()));
    assert!(slot.stopped());
    slot.release();
    assert!(slot.store.is_none());
    assert!(slot.start(store_with(&[])));
}

#[test]
fn balance_needs_a_started_wallet() {
    let slot = ControlSlot::new();
    assert_eq!(balance(&slot), Err(Error::Unsupported));
    assert!(withdraw_plan(&slot, 1, None, 22).is_err());
}

#[test]
fn balance_reports_available_and_confirmed() {
    let mut slot = ControlSlot::new();
    slot.start(store_with(&[100_000, 5_000]));
    let b = balance(&slot).unwrap();
    assert_eq!(b.balance, 105_000);
    assert_eq!(b.confirmed, 105_000);
    let sel = withdraw_plan(&slot, 10, None, 22).unwrap();
    assert_eq!(sel.coins.len(), 2);
    let w = WithdrawTx::new(h(5), sel.fee);
    assert_eq!(w.fee, sel.fee);
}

#[test]
fn locked_coins_count_in_the_total_but_are_not_available() {
    let mut store = store_with(&[100_000]);
    store
        .coins
        .add_confirmed(ConfirmedCoin {
            outpoint: OutPoint { txid: h(50), vout: 0 },
            value: 20_000,
            derivation: KeyDerivation { account: 0, sub: 0, kix: 1, tweak: None, csv: Some(10) },
            block: h(9),
            height: 1,
        })
        .unwrap();
    let mut slot = ControlSlot::new();
    slot.start(store);
    let b = balance(&slot).unwrap();
    assert_eq!(b.balance, 120_000);
    assert_eq!(b.confirmed, 100_000);
}
