//! Shards: their configuration and state, blocks appended to them, and the
//! shard an address belongs to.
use vstd::prelude::*;
use vstd::string::*;
use vstd::bytes::spec_u16_from_le_bytes;
use crate::crypto::hash::{blake3_digest, blake3_of, Blake3Hash};
use crate::ledger::block::Block;
use crate::ledger::state::{accounts_root, ChainState};
use crate::text::{decimal, push_decimal};

verus! {

/// Number of shards in the network.
pub const NUM_SHARDS: u16 = 100;

/// Configuration for a shard.
#[derive(Debug, Clone, Copy)]
pub struct ShardConfig {
    pub shard_id: u16,
    pub max_transactions_per_block: usize,
    pub target_block_time_ms: u64,
    pub max_validators: usize,
}

impl Default for ShardConfig {
    fn default() -> (c: Self)
        ensures
            c.shard_id == 0,
            c.max_transactions_per_block == 5000,
            c.target_block_time_ms == 200,
            c.max_validators == 100,
    {
        ShardConfig { shard_id: 0, max_transactions_per_block: 5000, target_block_time_ms: 200, max_validators: 100 }
    }
}

/// The state of a single shard.
#[derive(Debug, Clone, Copy)]
pub struct ShardState {
    pub shard_id: u16,
    pub latest_block_height: u64,
    pub latest_block_hash: Blake3Hash,
    pub state_root: Blake3Hash,
    pub validator_count: usize,
    pub total_transactions: u64,
    pub pending_cross_shard: u64,
}

/// The label whose digest is a shard's genesis hash.
pub open spec fn genesis_label(shard_id: u16) -> Seq<char> {
    "genesis-shard-"@ + decimal(shard_id as nat)
}

/// The shard an address belongs to: the first two bytes of its BLAKE3
/// digest, read little-endian, modulo the number of shards.
pub open spec fn shard_of(address: Seq<u8>) -> u16 {
    (spec_u16_from_le_bytes(blake3_of(address).subrange(0, 2)) % NUM_SHARDS) as u16
}

/// A shard in the network.
pub struct Shard {
    pub config: ShardConfig,
    pub state: ShardState,
    pub chain_state: ChainState,
    pub blocks: Vec<Block>,
}

impl Shard {
    /// The shard's account state is well formed.
    pub open spec fn wf(&self) -> bool {
        self.chain_state.wf()
    }

    /// Create a new shard at height 0, with no accounts or blocks; its
    /// latest hash is the digest of "genesis-shard-<id>" and its state root
    /// the digest of "empty-state".
    pub fn new(shard_id: u16) -> (s: Self)
        ensures
            s.wf(),
            s.config.shard_id == shard_id,
            s.config.max_transactions_per_block == 5000,
            s.config.target_block_time_ms == 200,
            s.config.max_validators == 100,
            s.state.shard_id == shard_id,
            s.state.latest_block_height == 0,
            s.state.latest_block_hash.0@ == blake3_of(vstd::utf8::encode_utf8(genesis_label(shard_id))),
            s.state.state_root.0@ == blake3_of("empty-state".spec_bytes()),
            s.state.validator_count == 0,
            s.state.total_transactions == 0,
            s.state.pending_cross_shard == 0,
            s.chain_state@ == Map::<Seq<u8>, crate::ledger::state::AccountState>::empty(),
            s.blocks@.len() == 0,
    {
        let config = ShardConfig { shard_id, ..ShardConfig::default() };
        let mut label = String::new();
        label.push_str("genesis-shard-");
        push_decimal(&mut label, shard_id as u128);
        assert(label@ =~= genesis_label(shard_id));
        let state = ShardState {
            shard_id,
            latest_block_height: 0,
            latest_block_hash: Blake3Hash::compute(label.as_str().as_bytes()),
            state_root: Blake3Hash::compute("empty-state".as_bytes()),
            validator_count: 0,
            total_transactions: 0,
            pending_cross_shard: 0,
        };
        Shard { config, state, chain_state: ChainState::new(), blocks: Vec::new() }
    }

    /// Append a block: the transaction count grows by its transactions, the
    /// latest height and hash become the block's, and the state root is
    /// recomputed from the shard's accounts.
    pub fn append_block(&mut self, block: Block)
        requires
            old(self).wf(),
            old(self).state.total_transactions + block.transactions@.len() <= u64::MAX,
        ensures
            final(self).wf(),
            final(self).config == old(self).config,
            final(self).chain_state == old(self).chain_state,
            final(self).state.total_transactions == old(self).state.total_transactions + block.transactions@.len(),
            final(self).state.latest_block_height == block.header.height,
            final(self).state.latest_block_hash.0@ == blake3_of(block.header.encoding()),
            final(self).state.state_root.0@ == accounts_root(old(self).chain_state@),
            final(self).state.shard_id == old(self).state.shard_id,
            final(self).state.validator_count == old(self).state.validator_count,
            final(self).state.pending_cross_shard == old(self).state.pending_cross_shard,
            final(self).blocks@ == old(self).blocks@.push(block),
    {
        self.state.total_transactions = self.state.total_transactions + block.tx_count() as u64;
        self.state.latest_block_height = block.header.height;
        self.state.latest_block_hash = block.hash();
        self.state.state_root = self.chain_state.state_root();
        self.blocks.push(block);
    }

    /// The latest block height.
    pub fn height(&self) -> (h: u64)
        ensures
            h == self.state.latest_block_height,
    {
        self.state.latest_block_height
    }

    /// The shard an address belongs to.
    pub fn shard_for_address(address: &[u8]) -> (s: u16)
        ensures
            s == shard_of(address@),
            s < NUM_SHARDS,
    {
        let digest = blake3_digest(address);
        let mut first: Vec<u8> = Vec::new();
        first.push(digest[0]);
        first.push(digest[1]);
        assert(first@ =~= digest@.subrange(0, 2));
        let val = vstd::bytes::u16_from_le_bytes(first.as_slice());
        val % NUM_SHARDS
    }

    /// The shard's id.
    pub fn shard_id(&self) -> (id: u16)
        ensures
            id == self.config.shard_id,
    {
        self.config.shard_id
    }
}

} // verus!
