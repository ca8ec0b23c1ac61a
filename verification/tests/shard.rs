use nexara::crypto::hash::Blake3Hash;
use nexara::crypto::keys::WalletAddress;
use nexara::ledger::block::{Block, BlockHeader};
use nexara::shard::assignment::{assign_validators_to_shards, validators_for_shard};
use nexara::shard::beacon::{BeaconChain, BeaconCrossLink};
use nexara::shard::crosslink::{verify_cross_link, CrossLink, CrossShardMessage, CrossShardStatus};
use nexara::shard::shard::{Shard, ShardState, NUM_SHARDS};

#[test]
fn test_shard_creation() {
    let shard = Shard::new(0);
    assert_eq!(shard.shard_id(), 0);
    assert_eq!(shard.height(), 0);
}

#[test]
fn test_shard_for_address() {
    let shard_id = Shard::shard_for_address(b"some-address");
    assert!(shard_id < NUM_SHARDS);
}

#[test]
fn test_shard_for_address_deterministic() {
    let s1 = Shard::shard_for_address(b"addr1");
    let s2 = Shard::shard_for_address(b"addr1");
    assert_eq!(s1, s2);
}

#[test]
fn test_num_shards() {
    assert_eq!(NUM_SHARDS, 100);
}

#[test]
fn shard_for_address_reads_digest_prefix() {
    let h = Blake3Hash::compute(b"some-address");
    let expected = u16::from_le_bytes([h.0[0], h.0[1]]) % 100;
    assert_eq!(Shard::shard_for_address(b"some-address"), expected);
}

#[test]
fn shard_genesis_and_append() {
    let mut shard = Shard::new(7);
    assert_eq!(shard.state.latest_block_hash, Blake3Hash::compute(b"genesis-shard-7"));
    assert_eq!(shard.state.state_root, Blake3Hash::compute(b"empty-state"));
    let header = BlockHeader {
        version: 1,
        shard_id: 7,
        height: 5,
        timestamp: 0,
        parent_hash: Blake3Hash::zero(),
        state_root: Blake3Hash::zero(),
        tx_root: Blake3Hash::zero(),
        validator_set_hash: Blake3Hash::zero(),
        proposer_address: WalletAddress::zero(),
        zk_finality_proof: Vec::new(),
        attestation_bitfield: Vec::new(),
    };
    let block = Block::new(header, Vec::new());
    let h = block.hash();
    shard.append_block(block);
    assert_eq!(shard.height(), 5);
    assert_eq!(shard.state.latest_block_hash, h);
    assert_eq!(shard.state.state_root, shard.chain_state.state_root());
    assert_eq!(shard.blocks.len(), 1);
}

#[test]
fn test_assignment() {
    let validators = vec![WalletAddress::zero()];
    let seed = Blake3Hash::compute(b"epoch-seed");
    let assignments = assign_validators_to_shards(&validators, &seed, 3, 1);
    assert_eq!(assignments.len(), 1);
    assert!(!assignments[0].shard_ids.is_empty());
    for s in &assignments[0].shard_ids {
        assert!(*s < NUM_SHARDS);
    }
}

#[test]
fn test_deterministic_assignment() {
    let validators = vec![WalletAddress::zero()];
    let seed = Blake3Hash::compute(b"epoch-seed");
    let a1 = assign_validators_to_shards(&validators, &seed, 3, 1);
    let a2 = assign_validators_to_shards(&validators, &seed, 3, 1);
    assert_eq!(a1[0].shard_ids, a2[0].shard_ids);
}

#[test]
fn test_validators_for_shard() {
    let validators = vec![WalletAddress::zero()];
    let seed = Blake3Hash::compute(b"seed");
    let assignments = assign_validators_to_shards(&validators, &seed, 3, 1);
    let primary = assignments[0].primary_shard;
    let found = validators_for_shard(&assignments, primary);
    assert!(!found.is_empty());
}

#[test]
fn zero_draws_assign_shard_zero() {
    let validators = vec![WalletAddress::zero(), WalletAddress([3u8; 32])];
    let seed = Blake3Hash::compute(b"s");
    let a = assign_validators_to_shards(&validators, &seed, 0, 9);
    assert_eq!(a[1].shard_ids, vec![0]);
    assert_eq!(a[1].primary_shard, 0);
    assert_eq!(a[1].epoch, 9);
    assert_eq!(validators_for_shard(&a, 0).len(), 2);
    let many = assign_validators_to_shards(&validators, &seed, 50, 1);
    let mut ids = many[0].shard_ids.clone();
    ids.sort();
    ids.dedup();
    assert_eq!(ids.len(), many[0].shard_ids.len());
}

fn make_shard_state(id: u16) -> ShardState {
    ShardState {
        shard_id: id,
        latest_block_height: 0,
        latest_block_hash: Blake3Hash::compute(format!("shard-{}", id).as_bytes()),
        state_root: Blake3Hash::compute(format!("state-{}", id).as_bytes()),
        validator_count: 10,
        total_transactions: 0,
        pending_cross_shard: 0,
    }
}

#[test]
fn test_beacon_creation() {
    let bc = BeaconChain::new();
    assert_eq!(bc.height(), 0);
    assert_eq!(bc.current_epoch, 0);
}

#[test]
fn test_update_shard_state() {
    let mut bc = BeaconChain::new();
    bc.update_shard_state(make_shard_state(0));
    bc.update_shard_state(make_shard_state(1));
    assert_eq!(bc.shard_states.len(), 2);
}

#[test]
fn test_create_beacon_block() {
    let mut bc = BeaconChain::new();
    bc.update_shard_state(make_shard_state(0));
    let block = bc.create_beacon_block(1000, Vec::new());
    assert_eq!(block.height, 0);
    assert_eq!(bc.height(), 1);
}

#[test]
fn test_aggregate_root_deterministic() {
    let mut bc = BeaconChain::new();
    bc.update_shard_state(make_shard_state(0));
    bc.update_shard_state(make_shard_state(1));
    let r1 = bc.compute_aggregate_root();
    let r2 = bc.compute_aggregate_root();
    assert_eq!(r1, r2);
}

#[test]
fn aggregate_root_ignores_update_order_and_chains_blocks() {
    let mut a = BeaconChain::new();
    a.update_shard_state(make_shard_state(2));
    a.update_shard_state(make_shard_state(1));
    let mut b = BeaconChain::new();
    b.update_shard_state(make_shard_state(1));
    b.update_shard_state(make_shard_state(2));
    assert_eq!(a.compute_aggregate_root(), b.compute_aggregate_root());
    let mut data = Vec::new();
    for id in [1u16, 2u16] {
        data.extend_from_slice(&id.to_le_bytes());
        data.extend_from_slice(&make_shard_state(id).state_root.0);
    }
    assert_eq!(a.compute_aggregate_root(), Blake3Hash::compute(&data));
    let first = a.create_beacon_block(1, vec![BeaconCrossLink {
        shard_id: 1,
        block_height: 2,
        block_hash: Blake3Hash::zero(),
        state_root: Blake3Hash::zero(),
    }]);
    assert_eq!(first.previous_hash, Blake3Hash::compute(b"genesis-beacon"));
    let second = a.create_beacon_block(2, Vec::new());
    assert_eq!(second.previous_hash, Blake3Hash::compute(&first.serialize()));
    assert_eq!(second.height, 1);
    let mut replaced = make_shard_state(2);
    replaced.validator_count = 99;
    a.update_shard_state(replaced);
    assert_eq!(a.shard_states.len(), 2);
    assert_eq!(a.shard_states[0].validator_count, 99);
}

#[test]
fn test_cross_shard_transfer() {
    let msg = CrossShardMessage::new_transfer(0, 1, WalletAddress::zero(), WalletAddress::zero(), 1000, 100);
    assert_eq!(msg.source_shard, 0);
    assert_eq!(msg.target_shard, 1);
    assert_eq!(msg.status, CrossShardStatus::Pending);
}

#[test]
fn test_status_transitions() {
    let mut msg = CrossShardMessage::new_transfer(0, 1, WalletAddress::zero(), WalletAddress::zero(), 1000, 100);
    msg.mark_delivered();
    assert_eq!(msg.status, CrossShardStatus::Delivered);
    msg.mark_confirmed();
    assert_eq!(msg.status, CrossShardStatus::Confirmed);
    msg.mark_failed();
    assert_eq!(msg.status, CrossShardStatus::Failed);
}

fn link(source: u16, target: u16) -> CrossLink {
    CrossLink {
        source_shard: source,
        target_shard: target,
        block_height: 100,
        block_hash: Blake3Hash::compute(b"block"),
        state_root: Blake3Hash::compute(b"state"),
        receipt_root: Blake3Hash::compute(b"receipts"),
    }
}

#[test]
fn test_verify_cross_link() {
    assert!(verify_cross_link(&link(0, 1)));
}

#[test]
fn test_invalid_cross_link_same_shard() {
    assert!(!verify_cross_link(&link(0, 0)));
    assert!(!verify_cross_link(&link(0, 100)));
}
