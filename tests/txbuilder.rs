use btcdk::coins::{Coins, ConfirmedCoin, Hash256, KeyDerivation, OutPoint};
use btcdk::error::{Error, WalletError};
use btcdk::txbuilder::{fee_within_guard, plan_withdrawal, sort_by_value_desc};

fn h(n: u64) -> Hash256 {
    Hash256 { w0: n, w1: 0, w2: 0, w3: 0 }
}

fn coin(txid: u64, value: u64) -> ConfirmedCoin {
    ConfirmedCoin {
        outpoint: OutPoint { txid: h(txid), vout: 0 },
        value,
        derivation: KeyDerivation { account: 0, sub: 0, kix: 0, tweak: None, csv: None },
        block: h(77),
        height: 1,
    }
}

fn wallet(values: &[u64]) -> Coins {
    let mut c = Coins::new();
    for (i, v) in values.iter().enumerate() {
        c.add_confirmed(coin(i as u64 + 1, *v)).unwrap();
    }
    c
}

// A pay-to-witness-pubkey-hash output script is 22 bytes long.
const P2WPKH_SCRIPT: usize = 22;

#[test]
fn sweep_withdrawal_pays_all_less_the_fee() {
    let c = wallet(&[100_000]);
    let sel = plan_withdrawal(&c, 10, 10, None, P2WPKH_SCRIPT).unwrap();
    assert_eq!(sel.coins.len(), 1);
    // 438 weight units: 110 virtual bytes
    assert_eq!(sel.fee, 10 * 110);
    assert_eq!(sel.send, 100_000 - 10 * 110);
    assert_eq!(sel.change, 0);
}

#[test]
fn targeted_withdrawal_has_recipient_and_change() {
    let c = wallet(&[100_000]);
    let sel = plan_withdrawal(&c, 10, 5, Some(10_000), P2WPKH_SCRIPT).unwrap();
    assert_eq!(sel.coins.len(), 1);
    // 562 weight units: 141 virtual bytes
    assert_eq!(sel.fee, 5 * 141);
    assert_eq!(sel.send, 10_000);
    assert_eq!(sel.change, 100_000 - 10_000 - 5 * 141);
    assert_eq!(sel.coins[0].value, sel.send + sel.change + sel.fee);
}

#[test]
fn selection_takes_the_largest_coins_first() {
    let c = wallet(&[1_000, 50_000, 20_000, 30_000]);
    let sel = plan_withdrawal(&c, 10, 1, Some(60_000), P2WPKH_SCRIPT).unwrap();
    let values: Vec<u64> = sel.coins.iter().map(|x| x.value).collect();
    assert_eq!(values, vec![50_000, 30_000]);
    let inputs: u64 = values.iter().sum();
    assert_eq!(inputs, sel.send + sel.change + sel.fee);
}

#[test]
fn insufficient_funds() {
    let c = wallet(&[1_000, 2_000]);
    assert_eq!(
        plan_withdrawal(&c, 10, 1, Some(5_000), P2WPKH_SCRIPT).unwrap_err(),
        Error::Wallet(WalletError::InsufficientFunds)
    );
    let empty = Coins::new();
    assert_eq!(
        plan_withdrawal(&empty, 10, 1, None, P2WPKH_SCRIPT).unwrap_err(),
        Error::Wallet(WalletError::InsufficientFunds)
    );
    let tiny = wallet(&[100]);
    assert_eq!(
        plan_withdrawal(&tiny, 10, 10, None, P2WPKH_SCRIPT).unwrap_err(),
        Error::Wallet(WalletError::InsufficientFunds)
    );
}

#[test]
fn sort_keeps_all_coins() {
    let v = vec![coin(1, 5), coin(2, 9), coin(3, 5), coin(4, 1)];
    let s = sort_by_value_desc(&v);
    let values: Vec<u64> = s.iter().map(|x| x.value).collect();
    assert_eq!(values, vec![9, 5, 5, 1]);
    assert_eq!(s[1].outpoint.txid, h(1));
    assert_eq!(s[2].outpoint.txid, h(3));
}

#[test]
fn overpay_guard() {
    assert!(fee_within_guard(1000, 1, 10));
    assert!(fee_within_guard(5000, 10, 100));
    assert!(!fee_within_guard(5001, 10, 100));
}
