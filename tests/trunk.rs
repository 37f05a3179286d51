use btcdk::coins::{BlockTx, Coins, Hash256, KeyDerivation, OutPoint, TxOutput, WatchedScript};
use btcdk::error::{Error, IoKind};
use btcdk::sync::{BlockBuffer, BufferedBlock, WalletSync};
use btcdk::trunk::HeaderChain;

fn h(n: u64) -> Hash256 {
    Hash256 { w0: n, w1: 0, w2: 0, w3: 0 }
}

const GENESIS: u64 = 1;

fn a(i: u64) -> Hash256 {
    h(100 + i)
}

fn b(i: u64) -> Hash256 {
    h(200 + i)
}

#[test]
fn headers_extend_the_trunk() {
    let mut c = HeaderChain::new(h(GENESIS), 0, 1);
    let r = c.add_header(a(1), h(GENESIS), 10, 1).unwrap();
    assert!(r.disconnected.is_empty());
    assert_eq!(r.connected, vec![a(1)]);
    c.add_header(a(2), a(1), 20, 1).unwrap();
    assert_eq!(c.len(), 3);
    assert_eq!(c.best_hash(), a(2));
    assert_eq!(c.get_height(&a(1)), Some(1));
    assert_eq!(c.get_height(&h(999)), None);
}

#[test]
fn unknown_predecessor_is_refused_and_duplicates_ignored() {
    let mut c = HeaderChain::new(h(GENESIS), 0, 1);
    assert_eq!(c.add_header(a(2), a(1), 20, 1).unwrap_err(), Error::IO(IoKind::InvalidInput));
    c.add_header(a(1), h(GENESIS), 10, 1).unwrap();
    let r = c.add_header(a(1), h(GENESIS), 10, 1).unwrap();
    assert!(r.connected.is_empty() && r.disconnected.is_empty());
    assert_eq!(c.entries.len(), 2);
}

#[test]
fn equal_work_keeps_the_earlier_trunk() {
    let mut c = HeaderChain::new(h(GENESIS), 0, 1);
    c.add_header(a(1), h(GENESIS), 10, 5).unwrap();
    let r = c.add_header(b(1), h(GENESIS), 11, 5).unwrap();
    assert!(r.connected.is_empty());
    assert_eq!(c.best_hash(), a(1));
}

fn output_tx(txid: u64, value: u64) -> BlockTx {
    BlockTx {
        txid: h(txid),
        inputs: vec![],
        outputs: vec![TxOutput { value, script: vec![0, 20, 7, 7] }],
    }
}

#[test]
fn reorg_to_a_heavier_fork() {
    let watched = vec![WatchedScript {
        script: vec![0, 20, 7, 7],
        derivation: KeyDerivation { account: 0, sub: 0, kix: 0, tweak: None, csv: None },
    }];
    let mut chain = HeaderChain::new(h(GENESIS), 0, 1);
    let mut coins = Coins::new();
    let mut prev = h(GENESIS);
    for i in 1..=5u64 {
        chain.add_header(a(i), prev, i as u32, 1).unwrap();
        coins.process_block(i as u32, a(i), &vec![output_tx(10 + i, 1_000 * i)], &watched).unwrap();
        prev = a(i);
    }
    chain.set_processed(5);
    assert_eq!(coins.balance(), 15_000);

    // a fork from A2 with more work per block
    let mut prev = a(2);
    let mut reorg = None;
    for i in 3..=6u64 {
        let r = chain.add_header(b(i), prev, i as u32, 2).unwrap();
        if !r.disconnected.is_empty() {
            reorg = Some(r);
        }
        prev = b(i);
    }
    let r = reorg.unwrap();
    assert_eq!(r.disconnected, vec![a(3), a(4), a(5)]);
    assert_eq!(r.connected, vec![b(3), b(4)]);
    assert_eq!(chain.best_hash(), b(6));
    assert_eq!(chain.processed, Some(2));

    coins.unwind_to(2);
    assert_eq!(coins.balance(), 3_000);
    for i in 3..=6u64 {
        coins.process_block(i as u32, b(i), &vec![output_tx(20 + i, 100 * i)], &watched).unwrap();
        chain.set_processed(i as usize);
    }
    assert_eq!(coins.balance(), 3_000 + 300 + 400 + 500 + 600);
    let txids: Vec<u64> = coins.confirmed.iter().map(|c| c.outpoint.txid.w0).collect();
    assert_eq!(txids, vec![11, 12, 23, 24, 25, 26]);
    assert!(coins.confirmed.iter().all(|c| chain.get_height(&c.block).is_some()));
    assert_eq!(chain.get_height(&chain.entries[chain.trunk[chain.processed.unwrap()]].hash), Some(6));
    assert_eq!(coins.confirmed[0].outpoint, OutPoint { txid: h(11), vout: 0 });
}

#[test]
fn synced_wallet_unwinds_on_reorg() {
    let watched = vec![WatchedScript {
        script: vec![0, 20, 7, 7],
        derivation: KeyDerivation { account: 0, sub: 0, kix: 0, tweak: None, csv: None },
    }];
    let mut w = WalletSync::new(HeaderChain::new(h(GENESIS), 0, 1));
    w.apply_block(0, &vec![], &watched).unwrap();
    let mut prev = h(GENESIS);
    for i in 1..=5u64 {
        w.add_header(a(i), prev, i as u32, 1).unwrap();
        w.apply_block(i as usize, &vec![output_tx(10 + i, 1_000 * i)], &watched).unwrap();
        prev = a(i);
    }
    assert_eq!(w.coins.balance(), 15_000);
    // out of order and beyond the trunk
    assert_eq!(w.apply_block(5, &vec![], &watched), Err(Error::Unsupported));
    assert_eq!(w.apply_block(7, &vec![], &watched), Err(Error::Unsupported));

    let mut prev = a(2);
    for i in 3..=6u64 {
        w.add_header(b(i), prev, i as u32, 2).unwrap();
        prev = b(i);
    }
    assert_eq!(w.chain.processed, Some(2));
    assert_eq!(w.coins.balance(), 3_000);
    for i in 3..=6u64 {
        w.apply_block(i as usize, &vec![output_tx(20 + i, 100 * i)], &watched).unwrap();
    }
    assert_eq!(w.coins.balance(), 4_800);
    assert!(w.coins.confirmed.iter().all(|c| w.chain.get_height(&c.block) == Some(c.height as usize)));
}

#[test]
fn buffered_blocks_are_applied_in_trunk_order() {
    let watched = vec![WatchedScript {
        script: vec![0, 20, 7, 7],
        derivation: KeyDerivation { account: 0, sub: 0, kix: 0, tweak: None, csv: None },
    }];
    let mut w = WalletSync::new(HeaderChain::new(h(GENESIS), 0, 1));
    let mut prev = h(GENESIS);
    for i in 1..=3u64 {
        w.add_header(a(i), prev, i as u32, 1).unwrap();
        prev = a(i);
    }
    let mut buffer = BlockBuffer::new();
    buffer.insert(BufferedBlock { height: 3, hash: a(3), txs: vec![output_tx(13, 300)] });
    buffer.insert(BufferedBlock { height: 1, hash: a(1), txs: vec![output_tx(11, 100)] });
    buffer.insert(BufferedBlock { height: 5, hash: h(555), txs: vec![] });
    assert_eq!(w.apply_buffered(&mut buffer, &watched), (0, false));
    buffer.insert(BufferedBlock { height: 0, hash: h(GENESIS), txs: vec![] });
    assert_eq!(w.apply_buffered(&mut buffer, &watched), (2, false));
    assert_eq!(w.chain.processed, Some(1));
    buffer.insert(BufferedBlock { height: 2, hash: a(2), txs: vec![output_tx(12, 200)] });
    assert_eq!(w.apply_buffered(&mut buffer, &watched), (2, false));
    assert_eq!(w.chain.processed, Some(3));
    assert_eq!(w.coins.balance(), 600);
    assert_eq!(buffer.blocks.len(), 1);
    buffer.retain_on_trunk(&w.chain);
    assert!(buffer.blocks.is_empty());
}

#[test]
fn a_refused_block_stops_the_buffer_and_is_dropped() {
    let watched = vec![WatchedScript {
        script: vec![0, 20, 7, 7],
        derivation: KeyDerivation { account: 0, sub: 0, kix: 0, tweak: None, csv: None },
    }];
    let mut w = WalletSync::new(HeaderChain::new(h(GENESIS), 0, 1));
    let mut buffer = BlockBuffer::new();
    buffer.insert(BufferedBlock { height: 0, hash: h(GENESIS), txs: vec![output_tx(1, 2_100_000_000_000_001)] });
    assert_eq!(w.apply_buffered(&mut buffer, &watched), (0, true));
    assert!(buffer.blocks.is_empty());
    assert_eq!(w.chain.processed, None);
    assert_eq!(w.coins.balance(), 0);
}
