use btcdk::merkle::{block_merkle_path, block_merkle_root, verify_merkle_proof};

fn id(n: u8) -> [u8; 32] {
    [n; 32]
}

fn pair(a: &[u8; 32], b: &[u8; 32]) -> [u8; 32] {
    let mut m = a.to_vec();
    m.extend_from_slice(b);
    let h = <bitcoin_hashes::sha256d::Hash as bitcoin_hashes::Hash>::hash(&m);
    bitcoin_hashes::Hash::into_inner(h)
}

#[test]
fn root_of_one_transaction_is_its_id() {
    assert_eq!(block_merkle_root(&vec![id(1)]), id(1));
    assert!(block_merkle_path(&vec![id(1)], 0).is_empty());
}

#[test]
fn root_of_three_transactions_pairs_the_last_with_itself() {
    let txids = vec![id(1), id(2), id(3)];
    let expected = pair(&pair(&id(1), &id(2)), &pair(&id(3), &id(3)));
    assert_eq!(block_merkle_root(&txids), expected);
    assert_ne!(block_merkle_root(&txids), id(1));
}

#[test]
fn every_path_verifies_against_the_root() {
    let txids: Vec<[u8; 32]> = (1..=5u8).map(id).collect();
    let root = block_merkle_root(&txids);
    for i in 0..txids.len() {
        let path = block_merkle_path(&txids, i);
        assert_eq!(path.len(), 3);
        assert!(verify_merkle_proof(&txids[i], &path, i, &root));
        assert!(!verify_merkle_proof(&id(99), &path, i, &root));
    }
    let path = block_merkle_path(&txids, 2);
    assert_eq!(path[0], id(4));
    assert!(!verify_merkle_proof(&txids[2], &path, 3, &root));
}
