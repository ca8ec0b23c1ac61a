use nexara::crypto::hash::Blake3Hash;
use nexara::crypto::keys::{KeyPair, WalletAddress};
use nexara::ledger::block::{calculate_merkle_root, Block, BlockHeader};
use nexara::ledger::genesis::{build_genesis_block, create_genesis_config, init_chain_state, AllocationType, BLOCKS_PER_YEAR, MAINNET_CHAIN_ID, TOTAL_SUPPLY};
use nexara::ledger::state::{AccountState, ChainState};
use nexara::ledger::transaction::{Transaction, TransactionPool, TransactionType, ONE_NXR};
use nexara::ledger::CoreError;

fn make_test_block(num_txs: usize) -> Block {
    let proposer = KeyPair::generate().public.wallet_address();
    let txs: Vec<Transaction> = (0..num_txs)
        .map(|i| {
            let sender = KeyPair::generate().public.wallet_address();
            let recipient = KeyPair::generate().public.wallet_address();
            Transaction::new_transfer(sender, recipient, ONE_NXR, ONE_NXR / 1000, i as u64, 0)
        })
        .collect();
    let tx_hashes: Vec<Blake3Hash> = txs.iter().map(|tx| tx.hash()).collect();
    let tx_root = calculate_merkle_root(&tx_hashes);
    let header = BlockHeader {
        version: 1,
        shard_id: 0,
        height: 1,
        timestamp: chrono::Utc::now().timestamp_millis() as u64,
        parent_hash: Blake3Hash::zero(),
        state_root: Blake3Hash::zero(),
        tx_root,
        validator_set_hash: Blake3Hash::zero(),
        proposer_address: proposer,
        zk_finality_proof: vec![0u8; 300],
        attestation_bitfield: vec![0xFF; 16],
    };
    Block::new(header, txs)
}

#[test]
fn test_block_creation() {
    let block = make_test_block(10);
    assert_eq!(block.tx_count(), 10);
    assert!(!block.is_genesis());
}

#[test]
fn test_genesis_block() {
    let header = BlockHeader {
        version: 1,
        shard_id: 0,
        height: 0,
        timestamp: 0,
        parent_hash: Blake3Hash::zero(),
        state_root: Blake3Hash::zero(),
        tx_root: Blake3Hash::zero(),
        validator_set_hash: Blake3Hash::zero(),
        proposer_address: WalletAddress::zero(),
        zk_finality_proof: Vec::new(),
        attestation_bitfield: Vec::new(),
    };
    let block = Block::new(header, Vec::new());
    assert!(block.is_genesis());
}

#[test]
fn test_verify_tx_root() {
    let block = make_test_block(5);
    assert!(block.verify_tx_root());
}

#[test]
fn test_merkle_root_empty() {
    assert_eq!(calculate_merkle_root(&[]), Blake3Hash::zero());
}

#[test]
fn test_merkle_root_single() {
    let h = Blake3Hash::compute(b"test");
    assert_eq!(calculate_merkle_root(&[h]), h);
}

#[test]
fn test_merkle_root_deterministic() {
    let hashes: Vec<Blake3Hash> = (0..4).map(|i| Blake3Hash::compute(&[i as u8])).collect();
    let r1 = calculate_merkle_root(&hashes);
    let r2 = calculate_merkle_root(&hashes);
    assert_eq!(r1, r2);
}

#[test]
fn test_merkle_root_odd_count() {
    let hashes: Vec<Blake3Hash> = (0..3).map(|i| Blake3Hash::compute(&[i as u8])).collect();
    let root = calculate_merkle_root(&hashes);
    assert_ne!(root, Blake3Hash::zero());
}

#[test]
fn merkle_root_of_two_is_hash_of_concatenation() {
    let a = Blake3Hash::compute(b"a");
    let b = Blake3Hash::compute(b"b");
    let mut joined = a.0.to_vec();
    joined.extend_from_slice(&b.0);
    assert_eq!(calculate_merkle_root(&[a, b]), Blake3Hash::compute(&joined));
}

#[test]
fn test_create_genesis_config() {
    let config = create_genesis_config();
    assert_eq!(config.chain_id, MAINNET_CHAIN_ID);
    assert_eq!(config.shard_count, 100);
    assert_eq!(config.block_time_ms, 200);
    assert_eq!(config.initial_validators.len(), 4);
    assert_eq!(config.initial_allocations.len(), 7);
    let total: u128 = config.initial_allocations.iter().map(|a| a.amount).sum();
    assert_eq!(total, TOTAL_SUPPLY);
}

#[test]
fn test_build_genesis_block() {
    let config = create_genesis_config();
    let block = build_genesis_block(&config);
    assert!(block.is_genesis());
    assert_eq!(block.tx_count(), 7);
    assert!(block.verify_tx_root());
}

#[test]
fn test_init_chain_state() {
    let config = create_genesis_config();
    let state = init_chain_state(&config);
    assert_eq!(state.account_count(), 7);
    let stats = state.stats();
    assert_eq!(stats.total_balance, TOTAL_SUPPLY);
}

#[test]
fn test_allocation_types() {
    let config = create_genesis_config();
    let types: Vec<AllocationType> = config.initial_allocations.iter().map(|a| a.allocation_type).collect();
    assert!(types.contains(&AllocationType::PublicSale));
    assert!(types.contains(&AllocationType::Team));
    assert!(types.contains(&AllocationType::Ecosystem));
    assert!(types.contains(&AllocationType::StakingRewards));
    assert!(types.contains(&AllocationType::DaoTreasury));
    assert!(types.contains(&AllocationType::Partners));
    assert!(types.contains(&AllocationType::Liquidity));
}

#[test]
fn test_vesting_schedules() {
    let config = create_genesis_config();
    let public_sale = config
        .initial_allocations
        .iter()
        .find(|a| a.allocation_type == AllocationType::PublicSale)
        .unwrap();
    assert!(public_sale.vesting_schedule.is_none());
    let team = config.initial_allocations.iter().find(|a| a.allocation_type == AllocationType::Team).unwrap();
    let vs = team.vesting_schedule.as_ref().unwrap();
    assert_eq!(vs.cliff_blocks, BLOCKS_PER_YEAR);
    assert_eq!(vs.total_blocks, BLOCKS_PER_YEAR * 4);
}

#[test]
fn genesis_validators_are_derived_from_fixed_seeds() {
    let config = create_genesis_config();
    let mut seed = [0u8; 32];
    seed[0] = 2;
    seed[31] = 0xAE + 2;
    let kp = KeyPair::from_seed(&seed);
    assert_eq!(config.initial_validators[2].pubkey, kp.public.0);
    assert_eq!(config.initial_validators[2].address, kp.public.wallet_address());
    assert_eq!(config.initial_validators[2].stake, 1_000_000 * ONE_NXR);
}

#[test]
fn test_new_account() {
    let acc = AccountState::new(1000);
    assert_eq!(acc.balance, 1000);
    assert_eq!(acc.nonce, 0);
    assert!(!acc.is_contract());
}

#[test]
fn test_contract_account() {
    let code_hash = Blake3Hash::compute(b"contract code");
    let acc = AccountState::new_contract(0, code_hash);
    assert!(acc.is_contract());
}

#[test]
fn test_chain_state_transfer() {
    let mut state = ChainState::new();
    let alice = KeyPair::generate().public.wallet_address();
    let bob = KeyPair::generate().public.wallet_address();
    state.set_account(alice, AccountState::new(1000));
    state.set_account(bob, AccountState::new(0));
    state.transfer(&alice, &bob, 400).unwrap();
    assert_eq!(state.balance_of(&alice), 600);
    assert_eq!(state.balance_of(&bob), 400);
}

#[test]
fn test_insufficient_balance() {
    let mut state = ChainState::new();
    let alice = KeyPair::generate().public.wallet_address();
    let bob = KeyPair::generate().public.wallet_address();
    state.set_account(alice, AccountState::new(100));
    assert!(state.transfer(&alice, &bob, 200).is_err());
}

#[test]
fn transfer_conserves_total_balance() {
    let mut state = ChainState::new();
    let alice = KeyPair::from_seed(&[1u8; 32]).public.wallet_address();
    let bob = KeyPair::from_seed(&[2u8; 32]).public.wallet_address();
    state.set_account(alice, AccountState::new(1000));
    state.set_account(bob, AccountState::new(5));
    state.transfer(&alice, &bob, 250).unwrap();
    assert_eq!(state.stats().total_balance, 1005);
    assert!(matches!(state.transfer(&alice, &bob, 10_000), Err(CoreError::InsufficientBalance { have: 750, need: 10_000 })));
}

#[test]
fn test_state_root_deterministic() {
    let mut state = ChainState::new();
    let addr = KeyPair::generate().public.wallet_address();
    state.set_account(addr, AccountState::new(1000));
    let r1 = state.state_root();
    let r2 = state.state_root();
    assert_eq!(r1, r2);
}

#[test]
fn state_root_independent_of_insertion_order() {
    let a = KeyPair::from_seed(&[3u8; 32]).public.wallet_address();
    let b = KeyPair::from_seed(&[4u8; 32]).public.wallet_address();
    let mut s1 = ChainState::new();
    s1.set_account(a, AccountState::new(7));
    s1.set_account(b, AccountState::new(9));
    let mut s2 = ChainState::new();
    s2.set_account(b, AccountState::new(9));
    s2.set_account(a, AccountState::new(7));
    assert_eq!(s1.state_root(), s2.state_root());
}

#[test]
fn test_state_stats() {
    let mut state = ChainState::new();
    let addr1 = KeyPair::generate().public.wallet_address();
    let addr2 = KeyPair::generate().public.wallet_address();
    state.set_account(addr1, AccountState::new(500));
    state.set_account(addr2, AccountState::new_contract(300, Blake3Hash::zero()));
    let stats = state.stats();
    assert_eq!(stats.total_accounts, 2);
    assert_eq!(stats.total_balance, 800);
    assert_eq!(stats.contract_count, 1);
}

fn make_test_tx(fee: u128) -> Transaction {
    let kp = KeyPair::generate();
    let sender = kp.public.wallet_address();
    let recipient = KeyPair::generate().public.wallet_address();
    let mut tx = Transaction::new_transfer(sender, recipient, ONE_NXR, fee, 0, 0);
    tx.fee = fee;
    tx
}

#[test]
fn test_new_transfer() {
    let tx = make_test_tx(ONE_NXR / 1000);
    assert_eq!(tx.version, 1);
    assert_eq!(tx.tx_type, TransactionType::Transfer);
    assert!(tx.data.is_empty());
}

#[test]
fn test_hash_deterministic() {
    let tx = make_test_tx(ONE_NXR / 1000);
    assert_eq!(tx.hash(), tx.hash());
}

#[test]
fn test_valid_structure() {
    let tx = make_test_tx(ONE_NXR / 1000);
    assert!(tx.is_valid_structure());
}

#[test]
fn test_invalid_shard() {
    let mut tx = make_test_tx(ONE_NXR / 1000);
    tx.shard_id = 200;
    assert!(!tx.is_valid_structure());
}

#[test]
fn test_pool_full() {
    let mut pool = TransactionPool::new(2);
    pool.add(make_test_tx(100)).unwrap();
    pool.add(make_test_tx(200)).unwrap();
    assert!(pool.add(make_test_tx(300)).is_err());
}

#[test]
fn pool_remove_drops_transaction() {
    let mut pool = TransactionPool::new(10);
    let tx = make_test_tx(100);
    let h = tx.hash();
    pool.add(tx).unwrap();
    pool.add(make_test_tx(200)).unwrap();
    pool.remove(&h);
    assert_eq!(pool.len(), 1);
    assert_ne!(pool.pending()[0].hash(), h);
}

#[test]
fn test_pool_ordering() {
    let mut pool = TransactionPool::new(100);
    pool.add(make_test_tx(100)).unwrap();
    pool.add(make_test_tx(1000)).unwrap();
    pool.add(make_test_tx(500)).unwrap();
    let ordered = pool.get_ordered(3);
    assert_eq!(ordered.len(), 3);
}

#[test]
fn pool_ordering_is_by_fee_per_byte() {
    let mut pool = TransactionPool::new(100);
    let mut big = make_test_tx(1000);
    big.data = vec![0u8; 40_000];
    pool.add(make_test_tx(100)).unwrap();
    pool.add(big).unwrap();
    pool.add(make_test_tx(500)).unwrap();
    let ordered = pool.get_ordered(10);
    let fees: Vec<u128> = ordered.iter().map(|t| t.fee).collect();
    // The large transaction pays the most in total but the least per byte.
    assert_eq!(fees, vec![500, 100, 1000]);
    let top = pool.get_ordered(1);
    assert_eq!(top.len(), 1);
    assert_eq!(top[0].fee, 500);
}

#[test]
fn pool_ordering_keeps_ties_in_pool_order() {
    let mut pool = TransactionPool::new(100);
    let a = make_test_tx(300);
    let b = make_test_tx(300);
    let (ha, hb) = (a.hash(), b.hash());
    pool.add(a).unwrap();
    pool.add(b).unwrap();
    let ordered = pool.get_ordered(2);
    assert_eq!(ordered[0].hash(), ha);
    assert_eq!(ordered[1].hash(), hb);
}

#[test]
fn pool_ordering_compares_huge_fees_exactly() {
    let mut pool = TransactionPool::new(100);
    let mut larger = make_test_tx(u128::MAX);
    larger.data = vec![1u8];
    let smaller = make_test_tx(u128::MAX - 1);
    pool.add(larger).unwrap();
    pool.add(smaller).unwrap();
    let ordered = pool.get_ordered(2);
    // One byte less outweighs a fee one unit lower.
    assert_eq!(ordered[0].fee, u128::MAX - 1);
    assert_eq!(ordered[1].fee, u128::MAX);
}

#[test]
fn transfer_at_carries_its_timestamp() {
    let a = WalletAddress::zero();
    let tx = Transaction::new_transfer_at(a, a, 5, 7, 3, 2, 1_700_000_000);
    assert_eq!(tx.timestamp, 1_700_000_000);
    assert_eq!((tx.amount, tx.fee, tx.nonce, tx.shard_id, tx.version), (5, 7, 3, 2, 1));
    assert_eq!(tx.signature.0, vec![0u8; 3309]);
    assert!(tx.pubkey_first_use.is_none());
    assert!(tx.is_valid_structure());
    assert!(!Transaction::new_transfer_at(a, a, 5, 0, 3, 2, 0).is_valid_structure());
    assert!(!Transaction::new_transfer_at(a, a, 5, 7, 3, 100, 0).is_valid_structure());
}

#[test]
fn state_root_ignores_code_hash_and_storage_root() {
    let a = KeyPair::from_seed(&[3u8; 32]).public.wallet_address();
    let b = KeyPair::from_seed(&[4u8; 32]).public.wallet_address();
    let mut s1 = ChainState::new();
    s1.set_account(a, AccountState::new(7));
    s1.set_account(b, AccountState::new_contract(9, Blake3Hash::compute(b"code")));
    let mut s2 = ChainState::new();
    let mut acct = AccountState::new(9);
    acct.storage_root = Blake3Hash::compute(b"storage");
    s2.set_account(b, acct);
    s2.set_account(a, AccountState::new(7));
    assert_eq!(s1.state_root(), s2.state_root());
    let mut s3 = ChainState::new();
    s3.set_account(a, AccountState::new(7));
    s3.set_account(b, AccountState::new(10));
    assert_ne!(s1.state_root(), s3.state_root());
}
