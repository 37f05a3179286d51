use btcdk::coins::{
    BlockTx, Coins, ConfirmedCoin, Hash256, KeyDerivation, OutPoint, TxOutput, WatchedScript,
};
use btcdk::error::{Error, WalletError};

fn h(n: u64) -> Hash256 {
    Hash256 { w0: n, w1: 0, w2: 0, w3: 0 }
}

fn deriv(kix: u32, csv: Option<u16>) -> KeyDerivation {
    KeyDerivation { account: 0, sub: 0, kix, tweak: None, csv }
}

fn coin(txid: u64, value: u64, height: u32, csv: Option<u16>) -> ConfirmedCoin {
    ConfirmedCoin {
        outpoint: OutPoint { txid: h(txid), vout: 0 },
        value,
        derivation: deriv(0, csv),
        block: h(1000 + height as u64),
        height,
    }
}

fn watched() -> Vec<WatchedScript> {
    vec![
        WatchedScript { script: vec![0, 20, 1, 1], derivation: deriv(0, None) },
        WatchedScript { script: vec![0, 20, 2, 2], derivation: deriv(1, None) },
    ]
}

#[test]
fn balance_is_the_sum_of_confirmed_coins() {
    let mut c = Coins::new();
    assert_eq!(c.balance(), 0);
    c.add_confirmed(coin(1, 100_000, 1, None)).unwrap();
    c.add_confirmed(coin(2, 50_000, 2, Some(10))).unwrap();
    assert_eq!(c.balance(), 150_000);
    assert_eq!(c.available_balance(5), 100_000);
    assert_eq!(c.available_balance(12), 150_000);
    assert!(c.available_balance(5) <= c.balance());
}

#[test]
fn adding_the_same_outpoint_twice_is_idempotent() {
    let mut c = Coins::new();
    c.add_confirmed(coin(1, 100_000, 1, None)).unwrap();
    c.add_confirmed(coin(1, 100_000, 1, None)).unwrap();
    assert_eq!(c.confirmed.len(), 1);
    assert_eq!(c.balance(), 100_000);
}

#[test]
fn coins_beyond_all_money_are_refused() {
    let mut c = Coins::new();
    c.add_confirmed(coin(1, 2_000_000_000_000_000, 1, None)).unwrap();
    assert_eq!(
        c.add_confirmed(coin(2, 200_000_000_000_000, 1, None)),
        Err(Error::Wallet(WalletError::ValueOverflow))
    );
    assert_eq!(c.balance(), 2_000_000_000_000_000);
}

#[test]
fn block_adds_watched_outputs_and_removes_spent_coins() {
    let mut c = Coins::new();
    c.add_confirmed(coin(1, 70_000, 1, None)).unwrap();
    let tx = BlockTx {
        txid: h(2),
        inputs: vec![OutPoint { txid: h(1), vout: 0 }],
        outputs: vec![
            TxOutput { value: 30_000, script: vec![0, 20, 9, 9] },
            TxOutput { value: 39_000, script: vec![0, 20, 2, 2] },
        ],
    };
    c.process_block(2, h(502), &vec![tx], &watched()).unwrap();
    assert_eq!(c.balance(), 39_000);
    assert_eq!(c.confirmed.len(), 1);
    assert_eq!(c.confirmed[0].outpoint, OutPoint { txid: h(2), vout: 1 });
    assert_eq!(c.confirmed[0].derivation.kix, 1);
    assert_eq!(c.confirmed[0].height, 2);
    assert_eq!(c.confirmed[0].block, h(502));
    assert_eq!(c.journal.len(), 1);
    assert_eq!(c.journal[0].coin.outpoint, OutPoint { txid: h(1), vout: 0 });
}

#[test]
fn unwind_drops_orphaned_coins_and_restores_spent_ones() {
    let mut c = Coins::new();
    c.add_confirmed(coin(1, 70_000, 1, None)).unwrap();
    let spend = BlockTx {
        txid: h(2),
        inputs: vec![OutPoint { txid: h(1), vout: 0 }],
        outputs: vec![TxOutput { value: 60_000, script: vec![0, 20, 1, 1] }],
    };
    c.process_block(3, h(503), &vec![spend], &watched()).unwrap();
    assert_eq!(c.balance(), 60_000);
    c.unwind_to(2);
    assert_eq!(c.balance(), 70_000);
    assert_eq!(c.confirmed.len(), 1);
    assert_eq!(c.confirmed[0].outpoint, OutPoint { txid: h(1), vout: 0 });
    assert!(c.confirmed.iter().all(|x| x.height <= 2));
    assert!(c.journal.is_empty());
    assert_eq!(c.pending_receives.len(), 1);
    assert_eq!(c.pending_receives[0].outpoint, OutPoint { txid: h(2), vout: 0 });
    assert_eq!(c.pending_receives[0].value, 60_000);
}

#[test]
fn pending_spend_is_not_available_but_still_confirmed() {
    let mut c = Coins::new();
    c.add_confirmed(coin(1, 70_000, 1, None)).unwrap();
    c.add_confirmed(coin(2, 5_000, 1, None)).unwrap();
    let pending = BlockTx {
        txid: h(3),
        inputs: vec![OutPoint { txid: h(1), vout: 0 }, OutPoint { txid: h(9), vout: 0 }],
        outputs: vec![
            TxOutput { value: 40_000, script: vec![0, 20, 9, 9] },
            TxOutput { value: 29_000, script: vec![0, 20, 2, 2] },
        ],
    };
    c.process_unconfirmed_transaction(&pending, &watched());
    assert_eq!(c.pending_spends, vec![OutPoint { txid: h(1), vout: 0 }]);
    assert_eq!(c.pending_receives.len(), 1);
    assert_eq!(c.pending_receives[0].outpoint, OutPoint { txid: h(3), vout: 1 });
    assert_eq!(c.pending_receives[0].value, 29_000);
    assert_eq!(c.pending_receives[0].derivation.kix, 1);
    assert_eq!(c.balance(), 75_000);
    assert_eq!(c.available_balance(10), 5_000);
}

#[test]
fn script_classification_finds_the_watched_key() {
    let w = watched();
    assert_eq!(btcdk::coins::classify_script(&vec![0, 20, 2, 2], &w), Some(deriv(1, None)));
    assert_eq!(btcdk::coins::classify_script(&vec![0, 20, 2], &w), None);
}

#[test]
fn proven_in_names_the_block_of_the_transaction() {
    let mut c = Coins::new();
    c.add_confirmed(coin(4, 1_000, 3, None)).unwrap();
    assert_eq!(c.proven_in(&h(4)), Some(h(1003)));
    assert_eq!(c.proven_in(&h(5)), None);
}

#[test]
fn stored_coins_come_back_as_they_were() {
    let mut c = Coins::new();
    c.add_confirmed(coin(1, 70_000, 1, None)).unwrap();
    c.add_confirmed(coin(2, 5_000, 3, Some(6))).unwrap();
    let back = btcdk::coins::restore_coins(&c.confirmed).unwrap();
    assert_eq!(back.confirmed, c.confirmed);
    assert_eq!(back.balance(), 75_000);
    let twice = vec![coin(1, 10, 1, None), coin(1, 10, 1, None)];
    assert_eq!(btcdk::coins::restore_coins(&twice).unwrap().confirmed.len(), 1);
}

#[test]
fn restore_keeps_the_first_coin_at_each_outpoint() {
    let twice = vec![coin(1, 10, 1, None), coin(2, 20, 1, None), coin(1, 99, 2, None)];
    let back = btcdk::coins::restore_coins(&twice).unwrap();
    assert_eq!(back.confirmed, vec![coin(1, 10, 1, None), coin(2, 20, 1, None)]);
    let too_much = vec![coin(1, 2_000_000_000_000_000, 1, None), coin(2, 200_000_000_000_000, 1, None)];
    assert_eq!(
        btcdk::coins::restore_coins(&too_much).map(|c| c.confirmed.len()),
        Err(Error::Wallet(WalletError::ValueOverflow))
    );
}
