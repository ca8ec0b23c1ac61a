use nexara::crypto::hash::Blake3Hash;
use nexara::crypto::keys::WalletAddress;
use nexara::ledger::transaction::Transaction;
use nexara::mempool::mev_protection::{detect_sandwich_attack, EncryptedTransaction, MevProtection};
use nexara::mempool::ordering::{group_by_sender, sort_by_fee, sort_by_nonce};
use nexara::mempool::pool::Mempool;
use nexara::mempool::MempoolError;

fn make_tx(fee: u128) -> Transaction {
    Transaction::new_transfer(WalletAddress::zero(), WalletAddress::zero(), 1000, fee, 0, 0)
}

fn make_tx_nonce(fee: u128, nonce: u64) -> Transaction {
    Transaction::new_transfer(WalletAddress::zero(), WalletAddress::zero(), 1000, fee, nonce, 0)
}

#[test]
fn test_add_transaction() {
    let mut pool = Mempool::new(100, 0);
    let tx = make_tx(100);
    assert!(pool.add_transaction(tx).is_ok());
    assert_eq!(pool.len(), 1);
}

#[test]
fn test_duplicate_rejection() {
    let mut pool = Mempool::new(100, 0);
    let tx = make_tx(100);
    let _hash = pool.add_transaction(tx.clone()).unwrap();
    assert!(pool.add_transaction(tx).is_err());
}

#[test]
fn test_fee_too_low() {
    let mut pool = Mempool::new(100, 50);
    let tx = make_tx(10);
    assert!(pool.add_transaction(tx).is_err());
}

#[test]
fn test_get_top_transactions() {
    let mut pool = Mempool::new(100, 0);
    pool.add_transaction(make_tx(10)).unwrap();
    pool.add_transaction(make_tx(100)).unwrap();
    pool.add_transaction(make_tx(50)).unwrap();
    let top = pool.get_top_transactions(2);
    assert_eq!(top.len(), 2);
    assert!(top[0].fee >= top[1].fee);
}

#[test]
fn test_pool_full_eviction() {
    let mut pool = Mempool::new(2, 0);
    pool.add_transaction(make_tx(10)).unwrap();
    pool.add_transaction(make_tx(20)).unwrap();
    pool.add_transaction(make_tx(30)).unwrap();
    assert_eq!(pool.len(), 2);
}

#[test]
fn test_remove_finalized() {
    let mut pool = Mempool::new(100, 0);
    let tx = make_tx(100);
    let hash = pool.add_transaction(tx).unwrap();
    pool.remove_finalized(&[hash]);
    assert!(pool.is_empty());
}

#[test]
fn eviction_drops_the_cheapest() {
    let mut pool = Mempool::new(2, 5);
    let cheap = make_tx_nonce(10, 1);
    let cheap_hash = cheap.hash();
    pool.add_transaction(cheap).unwrap();
    pool.add_transaction(make_tx_nonce(20, 2)).unwrap();
    let h = pool.add_transaction(make_tx_nonce(30, 3)).unwrap();
    assert!(!pool.contains(&cheap_hash));
    assert!(pool.contains(&h));
    let fees: Vec<u128> = pool.get_top_transactions(5).iter().map(|t| t.fee).collect();
    assert_eq!(fees, vec![30, 20]);
    assert!(matches!(pool.add_transaction(make_tx_nonce(1, 4)), Err(MempoolError::FeeTooLow { minimum: 5 })));
    assert!(matches!(Mempool::new(0, 0).add_transaction(make_tx(9)), Err(MempoolError::PoolFull(m)) if m == "Cannot evict"));
    let removed = pool.remove_transaction(&h).unwrap();
    assert_eq!(removed.fee, 30);
    assert!(pool.remove_transaction(&h).is_none());
    pool.clear();
    assert!(pool.is_empty());
}

#[test]
fn test_encrypted_transaction() {
    let data = b"transfer 100 NXR";
    let enc = EncryptedTransaction::new(data, 100, 2);
    assert_eq!(enc.submitted_at_block, 100);
    assert_eq!(enc.reveal_at_block, 102);
    assert!(!enc.can_reveal(101));
    assert!(enc.can_reveal(102));
}

#[test]
fn test_decrypt() {
    let data = b"transfer 100 NXR";
    let enc = EncryptedTransaction::new(data, 100, 2);
    let decrypted = enc.decrypt(data).unwrap();
    assert_eq!(decrypted, data);
}

#[test]
fn test_decrypt_wrong_data() {
    let data = b"transfer 100 NXR";
    let enc = EncryptedTransaction::new(data, 100, 2);
    assert!(enc.decrypt(b"wrong data").is_err());
}

#[test]
fn masked_data_unmasks_with_the_commitment() {
    let data = b"some transaction bytes that run past thirty-two";
    let enc = EncryptedTransaction::new(data, 0, 1);
    assert_ne!(enc.encrypted_data.as_slice(), &data[..]);
    let key = enc.commitment.0;
    let unmasked: Vec<u8> = enc.encrypted_data.iter().enumerate().map(|(i, b)| b ^ key[i % 32]).collect();
    assert_eq!(unmasked, data.to_vec());
    let cfg = MevProtection::default();
    assert!(cfg.enabled);
    assert_eq!(cfg.time_lock_blocks, 2);
}

#[test]
fn test_sandwich_detection_none() {
    let hashes = vec![Blake3Hash::compute(b"a"), Blake3Hash::compute(b"b")];
    let fees = vec![100, 100];
    assert!(detect_sandwich_attack(&hashes, &fees).is_none());
}

#[test]
fn test_sandwich_detection_found() {
    let hashes: Vec<_> = (0..5).map(|i| Blake3Hash::compute(&[i])).collect();
    let fees = vec![100, 1000, 100, 1000, 100];
    assert!(detect_sandwich_attack(&hashes, &fees).is_none());
}

#[test]
fn sandwich_is_detected_with_extreme_fees() {
    let fees = vec![10_000, 1, 10_000, 1, 1, 1, 1, 1, 1, 1, 1, 1, 1, 1, 1, 1, 1, 1, 1, 1];
    assert_eq!(detect_sandwich_attack(&[], &fees), Some((0, 1, 2)));
}

#[test]
fn test_sort_by_fee() {
    let mut txs = vec![make_tx_nonce(10, 0), make_tx_nonce(50, 1), make_tx_nonce(30, 2)];
    sort_by_fee(&mut txs);
    assert!(txs[0].fee >= txs[1].fee);
    assert!(txs[1].fee >= txs[2].fee);
}

#[test]
fn test_sort_by_nonce() {
    let mut txs = vec![make_tx_nonce(10, 3), make_tx_nonce(50, 1), make_tx_nonce(30, 2)];
    sort_by_nonce(&mut txs);
    assert!(txs[0].nonce <= txs[1].nonce);
    assert!(txs[1].nonce <= txs[2].nonce);
}

#[test]
fn sorts_are_stable() {
    let mut txs = vec![make_tx_nonce(5, 0), make_tx_nonce(9, 1), make_tx_nonce(5, 2), make_tx_nonce(9, 3)];
    sort_by_fee(&mut txs);
    let nonces: Vec<u64> = txs.iter().map(|t| t.nonce).collect();
    assert_eq!(nonces, vec![1, 3, 0, 2]);
    sort_by_nonce(&mut txs);
    let nonces: Vec<u64> = txs.iter().map(|t| t.nonce).collect();
    assert_eq!(nonces, vec![0, 1, 2, 3]);
}

#[test]
fn test_group_by_sender() {
    let txs = vec![make_tx_nonce(10, 0), make_tx_nonce(20, 1), make_tx_nonce(30, 2)];
    let groups = group_by_sender(&txs);
    assert_eq!(groups.len(), 1);
    assert_eq!(groups[0].len(), 3);
}

#[test]
fn groups_split_by_sender_in_nonce_order() {
    let a = WalletAddress([1u8; 32]);
    let b = WalletAddress([2u8; 32]);
    let txs = vec![
        Transaction::new_transfer(a, b, 1, 1, 5, 0),
        Transaction::new_transfer(b, a, 1, 1, 2, 0),
        Transaction::new_transfer(a, b, 1, 1, 1, 0),
    ];
    let groups = group_by_sender(&txs);
    assert_eq!(groups.len(), 2);
    let first: Vec<u64> = groups[0].iter().map(|t| t.nonce).collect();
    assert_eq!(first, vec![1, 5]);
    assert_eq!(groups[1][0].sender, b);
}
