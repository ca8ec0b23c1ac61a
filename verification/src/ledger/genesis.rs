//! Genesis configuration: the initial supply allocation, validator set and
//! chain parameters. Total supply: 500,000,000 NXR.
use vstd::prelude::*;
use vstd::string::*;
use crate::crypto::hash::{blake3_of, sha3_256_of, zero32, Blake3Hash};
use crate::crypto::keys::{seed_public_key, KeyPair, MlDsaSignature, WalletAddress, SIGNATURE_SIZE};
use crate::ledger::block::{calculate_merkle_root, hash_views, merkle_root, Block, BlockHeader};
use crate::ledger::state::{accounts_root, fresh_account, AccountState, ChainState};
use crate::ledger::transaction::{tx_hashes, zero_bytes, Transaction, TransactionType, ONE_NXR};

verus! {

/// Total supply of NXR in base units (500M × 10^18).
pub const TOTAL_SUPPLY: u128 = 500_000_000 * ONE_NXR;

/// Blocks per year at 200ms block time.
pub const BLOCKS_PER_YEAR: u64 = 157_788_000;

/// NEXARA mainnet chain ID.
pub const MAINNET_CHAIN_ID: u64 = 20240101;

/// Genesis configuration.
#[derive(Debug, Clone)]
pub struct GenesisConfig {
    /// Chain ID (20240101 for mainnet).
    pub chain_id: u64,
    /// Network name.
    pub network_name: String,
    /// Initial validator set.
    pub initial_validators: Vec<GenesisValidator>,
    /// Token allocations.
    pub initial_allocations: Vec<GenesisAllocation>,
    /// Base fee per byte in base units.
    pub base_fee: u128,
    /// Maximum block size in bytes.
    pub max_block_size: usize,
    /// Number of shards (100).
    pub shard_count: u16,
    /// Block time in milliseconds (200).
    pub block_time_ms: u64,
    /// Target TPS per shard (2500).
    pub target_tps_per_shard: u32,
}

/// A genesis validator.
#[derive(Debug, Clone)]
pub struct GenesisValidator {
    pub address: WalletAddress,
    pub stake: u128,
    pub pubkey: Vec<u8>,
}

/// A genesis token allocation.
#[derive(Debug, Clone)]
pub struct GenesisAllocation {
    pub address: WalletAddress,
    pub amount: u128,
    pub allocation_type: AllocationType,
    pub vesting_schedule: Option<VestingSchedule>,
}

/// Types of token allocations.
#[derive(Debug, Clone, Copy, PartialEq, Eq, Structural)]
pub enum AllocationType {
    PublicSale,
    Ecosystem,
    Team,
    StakingRewards,
    DaoTreasury,
    Partners,
    Liquidity,
}

/// Vesting schedule for locked tokens.
#[derive(Debug, Clone, Copy, PartialEq, Eq, Structural)]
pub struct VestingSchedule {
    /// Blocks before any tokens unlock.
    pub cliff_blocks: u64,
    /// Total vesting duration in blocks.
    pub total_blocks: u64,
    /// Start block (0 = genesis).
    pub start_block: u64,
}

/// The seed of genesis validator `i`: byte 0 is `i`, byte 31 is `0xAE + i`.
pub open spec fn genesis_seed(i: u8) -> Seq<u8> {
    Seq::new(32, |j: int| if j == 0 { i } else if j == 31 { (0xAEu8 + i) as u8 } else { 0u8 })
}

/// The sum of the amounts of a sequence of allocations.
pub open spec fn sum_amounts(s: Seq<GenesisAllocation>) -> int
    decreases s.len(),
{
    if s.len() == 0 {
        0
    } else {
        sum_amounts(s.drop_last()) + s.last().amount
    }
}

/// The address of an allocation pool: the BLAKE3 digest of its tag.
pub open spec fn pool_address(tag: &str) -> Seq<u8> {
    blake3_of(tag.spec_bytes())
}

fn alloc_address(tag: &str) -> (a: WalletAddress)
    ensures
        a.0@ == pool_address(tag),
{
    WalletAddress(Blake3Hash::compute(tag.as_bytes()).0)
}

/// Whether allocation `a` has the given address tag, amount, type and
/// vesting.
pub open spec fn allocation_is(
    a: GenesisAllocation,
    tag: &str,
    amount: int,
    t: AllocationType,
    v: Option<VestingSchedule>,
) -> bool {
    &&& a.address.0@ == pool_address(tag)
    &&& a.amount == amount
    &&& a.allocation_type == t
    &&& a.vesting_schedule == v
}

/// Create the NEXARA mainnet genesis configuration.
///
/// Allocation breakdown:
///   100M NXR → Public Sale (no vesting)
///   125M NXR → Ecosystem (4 year linear from genesis)
///    50M NXR → Team (1 year cliff, then 4 year linear)
///   100M NXR → Staking Rewards (emitted by staking module)
///    75M NXR → DAO Treasury (DAO controlled)
///    25M NXR → Partners (2 year linear)
///    25M NXR → Liquidity (immediate)
/// The allocations sum to the total supply.
pub fn create_genesis_config() -> (c: GenesisConfig)
    ensures
        c.chain_id == MAINNET_CHAIN_ID,
        c.network_name@ == "nexara-mainnet"@,
        c.initial_validators@.len() == 4,
        forall|i: int| 0 <= i < 4 ==> {
            &&& (#[trigger] c.initial_validators@[i]).pubkey@ == seed_public_key(genesis_seed(i as u8))
            &&& c.initial_validators@[i].address.0@ == sha3_256_of(c.initial_validators@[i].pubkey@)
            &&& c.initial_validators@[i].stake == 1_000_000 * ONE_NXR
        },
        c.initial_allocations@.len() == 7,
        allocation_is(c.initial_allocations@[0], "nexara-public-sale", 100_000_000 * ONE_NXR, AllocationType::PublicSale, None),
        allocation_is(c.initial_allocations@[1], "nexara-ecosystem", 125_000_000 * ONE_NXR, AllocationType::Ecosystem,
            Some(VestingSchedule { cliff_blocks: 0, total_blocks: (4 * BLOCKS_PER_YEAR) as u64, start_block: 0 })),
        allocation_is(c.initial_allocations@[2], "nexara-team", 50_000_000 * ONE_NXR, AllocationType::Team,
            Some(VestingSchedule { cliff_blocks: BLOCKS_PER_YEAR, total_blocks: (4 * BLOCKS_PER_YEAR) as u64, start_block: 0 })),
        allocation_is(c.initial_allocations@[3], "nexara-staking-rewards", 100_000_000 * ONE_NXR, AllocationType::StakingRewards, None),
        allocation_is(c.initial_allocations@[4], "nexara-dao-treasury", 75_000_000 * ONE_NXR, AllocationType::DaoTreasury, None),
        allocation_is(c.initial_allocations@[5], "nexara-partners", 25_000_000 * ONE_NXR, AllocationType::Partners,
            Some(VestingSchedule { cliff_blocks: 0, total_blocks: (2 * BLOCKS_PER_YEAR) as u64, start_block: 0 })),
        allocation_is(c.initial_allocations@[6], "nexara-liquidity", 25_000_000 * ONE_NXR, AllocationType::Liquidity, None),
        sum_amounts(c.initial_allocations@) == TOTAL_SUPPLY,
        c.base_fee == 1_000_000_000,
        c.max_block_size == 2 * 1024 * 1024,
        c.shard_count == 100,
        c.block_time_ms == 200,
        c.target_tps_per_shard == 2500,
{
    let mut validators: Vec<GenesisValidator> = Vec::new();
    let mut i: u8 = 0;
    while i < 4
        invariant
            i <= 4,
            validators@.len() == i,
            forall|k: int| 0 <= k < i ==> {
                &&& (#[trigger] validators@[k]).pubkey@ == seed_public_key(genesis_seed(k as u8))
                &&& validators@[k].address.0@ == sha3_256_of(validators@[k].pubkey@)
                &&& validators@[k].stake == 1_000_000 * ONE_NXR
            },
        decreases 4 - i,
    {
        let mut seed = [0u8; 32];
        seed[0] = i;
        seed[31] = 0xAEu8.wrapping_add(i);
        assert(seed@ =~= genesis_seed(i));
        let kp = KeyPair::from_seed(&seed);
        let address = kp.public.wallet_address();
        validators.push(GenesisValidator { address, stake: 1_000_000 * ONE_NXR, pubkey: kp.public.0 });
        i = i + 1;
    }
    let four_years = BLOCKS_PER_YEAR * 4;
    let two_years = BLOCKS_PER_YEAR * 2;
    let one_year = BLOCKS_PER_YEAR;
    let mut allocations: Vec<GenesisAllocation> = Vec::new();
    allocations.push(GenesisAllocation {
        address: alloc_address("nexara-public-sale"),
        amount: 100_000_000 * ONE_NXR,
        allocation_type: AllocationType::PublicSale,
        vesting_schedule: None,
    });
    allocations.push(GenesisAllocation {
        address: alloc_address("nexara-ecosystem"),
        amount: 125_000_000 * ONE_NXR,
        allocation_type: AllocationType::Ecosystem,
        vesting_schedule: Some(VestingSchedule { cliff_blocks: 0, total_blocks: four_years, start_block: 0 }),
    });
    allocations.push(GenesisAllocation {
        address: alloc_address("nexara-team"),
        amount: 50_000_000 * ONE_NXR,
        allocation_type: AllocationType::Team,
        vesting_schedule: Some(VestingSchedule { cliff_blocks: one_year, total_blocks: four_years, start_block: 0 }),
    });
    allocations.push(GenesisAllocation {
        address: alloc_address("nexara-staking-rewards"),
        amount: 100_000_000 * ONE_NXR,
        allocation_type: AllocationType::StakingRewards,
        vesting_schedule: None,
    });
    allocations.push(GenesisAllocation {
        address: alloc_address("nexara-dao-treasury"),
        amount: 75_000_000 * ONE_NXR,
        allocation_type: AllocationType::DaoTreasury,
        vesting_schedule: None,
    });
    allocations.push(GenesisAllocation {
        address: alloc_address("nexara-partners"),
        amount: 25_000_000 * ONE_NXR,
        allocation_type: AllocationType::Partners,
        vesting_schedule: Some(VestingSchedule { cliff_blocks: 0, total_blocks: two_years, start_block: 0 }),
    });
    allocations.push(GenesisAllocation {
        address: alloc_address("nexara-liquidity"),
        amount: 25_000_000 * ONE_NXR,
        allocation_type: AllocationType::Liquidity,
        vesting_schedule: None,
    });
    proof {
        let s = allocations@;
        assert(s.drop_last().drop_last().drop_last().drop_last().drop_last().drop_last().drop_last().len() == 0);
        reveal_with_fuel(sum_amounts, 8);
    }
    GenesisConfig {
        chain_id: MAINNET_CHAIN_ID,
        network_name: "nexara-mainnet".to_owned(),
        initial_validators: validators,
        initial_allocations: allocations,
        base_fee: 1_000_000_000,
        max_block_size: 2 * 1024 * 1024,
        shard_count: 100,
        block_time_ms: 200,
        target_tps_per_shard: 2500,
    }
}

/// The accounts that genesis creates: each allocation's address holds a
/// fresh account with its amount (a later allocation to the same address
/// replaces an earlier one).
pub open spec fn genesis_accounts(allocs: Seq<GenesisAllocation>) -> Map<Seq<u8>, AccountState>
    decreases allocs.len(),
{
    if allocs.len() == 0 {
        Map::empty()
    } else {
        genesis_accounts(allocs.drop_last()).insert(allocs.last().address.0@, fresh_account(allocs.last().amount))
    }
}

/// Whether `tx` is the minting transaction for allocation `a`.
pub open spec fn is_mint_tx(tx: Transaction, a: GenesisAllocation) -> bool {
    &&& tx.version == 1
    &&& tx.tx_type == TransactionType::Transfer
    &&& tx.sender.0@ == zero32()
    &&& tx.recipient == a.address
    &&& tx.amount == a.amount
    &&& tx.fee == 0
    &&& tx.nonce == 0
    &&& tx.shard_id == 0
    &&& tx.data@.len() == 0
    &&& tx.signature.0@ == zero_bytes(SIGNATURE_SIZE as nat)
    &&& tx.pubkey_first_use is None
    &&& tx.timestamp == 0
}

/// Build the genesis block from a genesis configuration: height 0, one
/// minting transfer per allocation, the Merkle root of their hashes and the
/// state root of the genesis accounts.
pub fn build_genesis_block(config: &GenesisConfig) -> (b: Block)
    ensures
        b.transactions@.len() == config.initial_allocations@.len(),
        forall|i: int| 0 <= i < b.transactions@.len() ==> is_mint_tx(
            #[trigger] b.transactions@[i],
            config.initial_allocations@[i],
        ),
        b.header.version == 1,
        b.header.shard_id == 0,
        b.header.height == 0,
        b.header.timestamp == 0,
        b.header.parent_hash.0@ == zero32(),
        b.header.state_root.0@ == accounts_root(genesis_accounts(config.initial_allocations@)),
        b.header.tx_root.0@ == merkle_root(tx_hashes(b.transactions@)),
        b.header.validator_set_hash.0@ == zero32(),
        b.header.proposer_address.0@ == zero32(),
        b.header.zk_finality_proof@.len() == 0,
        b.header.attestation_bitfield@.len() == 0,
        b.cross_shard_receipts@.len() == 0,
{
    let n = config.initial_allocations.len();
    let mut txs: Vec<Transaction> = Vec::new();
    let mut hashes: Vec<Blake3Hash> = Vec::new();
    let mut i: usize = 0;
    while i < n
        invariant
            n == config.initial_allocations@.len(),
            i <= n,
            txs@.len() == i,
            hashes@.len() == i,
            forall|k: int| 0 <= k < i ==> is_mint_tx(#[trigger] txs@[k], config.initial_allocations@[k]),
            forall|k: int| 0 <= k < i ==> #[trigger] hashes@[k].0@ == txs@[k].spec_hash(),
        decreases n - i,
    {
        let alloc = &config.initial_allocations[i];
        let sig = vec![0u8; SIGNATURE_SIZE];
        assert(sig@ =~= zero_bytes(SIGNATURE_SIZE as nat));
        let tx = Transaction {
            version: 1,
            tx_type: TransactionType::Transfer,
            sender: WalletAddress::zero(),
            recipient: alloc.address,
            amount: alloc.amount,
            fee: 0,
            nonce: 0,
            shard_id: 0,
            data: Vec::new(),
            signature: MlDsaSignature(sig),
            pubkey_first_use: None,
            timestamp: 0,
        };
        hashes.push(tx.hash());
        txs.push(tx);
        i = i + 1;
    }
    assert(hash_views(hashes@) =~= tx_hashes(txs@));
    let tx_root = calculate_merkle_root(hashes.as_slice());
    let state = init_chain_state(config);
    let state_root = state.state_root();
    let header = BlockHeader {
        version: 1,
        shard_id: 0,
        height: 0,
        timestamp: 0,
        parent_hash: Blake3Hash::zero(),
        state_root,
        tx_root,
        validator_set_hash: Blake3Hash::zero(),
        proposer_address: WalletAddress::zero(),
        zk_finality_proof: Vec::new(),
        attestation_bitfield: Vec::new(),
    };
    Block::new(header, txs)
}

/// Initialize chain state from genesis config.
pub fn init_chain_state(config: &GenesisConfig) -> (s: ChainState)
    ensures
        s.wf(),
        s@ == genesis_accounts(config.initial_allocations@),
{
    let mut state = ChainState::new();
    let n = config.initial_allocations.len();
    let mut i: usize = 0;
    while i < n
        invariant
            n == config.initial_allocations@.len(),
            i <= n,
            state.wf(),
            state@ == genesis_accounts(config.initial_allocations@.subrange(0, i as int)),
        decreases n - i,
    {
        let alloc = &config.initial_allocations[i];
        state.set_account(alloc.address, AccountState::new(alloc.amount));
        proof {
            assert(config.initial_allocations@.subrange(0, i + 1).drop_last()
                =~= config.initial_allocations@.subrange(0, i as int));
        }
        i = i + 1;
    }
    assert(config.initial_allocations@.subrange(0, n as int) =~= config.initial_allocations@);
    state
}

} // verus!
