use nexara::tokenomics::burn::{BurnEngine, BurnReason};
use nexara::tokenomics::pol::ProtocolOwnedLiquidity;
use nexara::tokenomics::staking::{StakingPool, COOLDOWN_PERIOD, MIN_STAKE};
use nexara::tokenomics::supply::{
    TokenSupply, AIRDROP_BPS, COMMUNITY_BPS, ECOSYSTEM_FUND_BPS, LIQUIDITY_BPS, TEAM_BPS, TOTAL_SUPPLY, TREASURY_BPS,
    VALIDATOR_REWARDS_BPS,
};
use nexara::tokenomics::vesting::VestingSchedule;
use nexara::tokenomics::TokenomicsError;

#[test]
fn test_genesis_supply() {
    let supply = TokenSupply::genesis();
    assert_eq!(supply.total_supply, TOTAL_SUPPLY);
    assert_eq!(supply.circulating_supply, 0);
}

#[test]
fn test_allocation_bps() {
    let validator_alloc = TokenSupply::allocation_for_bps(VALIDATOR_REWARDS_BPS);
    assert_eq!(validator_alloc, TOTAL_SUPPLY * 35 / 100);
}

#[test]
fn test_release_and_burn() {
    let mut supply = TokenSupply::genesis();
    supply.release(1_000_000).unwrap();
    assert_eq!(supply.circulating_supply, 1_000_000);
    supply.burn(500_000).unwrap();
    assert_eq!(supply.burned, 500_000);
    assert_eq!(supply.circulating_supply, 500_000);
}

#[test]
fn test_stake_unstake() {
    let mut supply = TokenSupply::genesis();
    supply.release(1_000_000).unwrap();
    supply.stake(400_000).unwrap();
    assert_eq!(supply.staked, 400_000);
    assert_eq!(supply.circulating_supply, 600_000);
    supply.unstake(200_000).unwrap();
    assert_eq!(supply.staked, 200_000);
    assert_eq!(supply.circulating_supply, 800_000);
}

#[test]
fn test_bps_total() {
    let total = VALIDATOR_REWARDS_BPS + ECOSYSTEM_FUND_BPS + TEAM_BPS + COMMUNITY_BPS + TREASURY_BPS + LIQUIDITY_BPS + AIRDROP_BPS;
    assert_eq!(total, 10_000);
}

#[test]
fn test_effective_supply() {
    let mut supply = TokenSupply::genesis();
    supply.release(1_000).unwrap();
    supply.burn(500).unwrap();
    assert_eq!(supply.effective_supply(), TOTAL_SUPPLY - 500);
}

#[test]
fn supply_errors_name_the_shortfall() {
    let mut supply = TokenSupply::genesis();
    assert!(matches!(supply.burn(1), Err(TokenomicsError::BurnExceedsSupply { burn: 1, supply: 0 })));
    assert!(matches!(supply.stake(5), Err(TokenomicsError::InsufficientBalance { need: 5, have: 0 })));
    assert!(matches!(supply.unstake(5), Err(TokenomicsError::InsufficientBalance { need: 5, have: 0 })));
    let too_much = TOTAL_SUPPLY + 1;
    assert!(matches!(supply.release(too_much), Err(TokenomicsError::InsufficientBalance { have: TOTAL_SUPPLY, .. })));
    supply.release(TOTAL_SUPPLY).unwrap();
    assert!(matches!(supply.release(1), Err(TokenomicsError::InsufficientBalance { need: 1, have: 0 })));
}

#[test]
fn stake_then_unstake_restores_supply() {
    let mut supply = TokenSupply::genesis();
    supply.release(10_000).unwrap();
    let before = supply;
    supply.stake(3_000).unwrap();
    supply.unstake(3_000).unwrap();
    assert_eq!(supply, before);
}

#[test]
fn test_vesting_before_cliff() {
    let mut schedule = VestingSchedule::new();
    schedule.add_entry("alice".into(), 1_000_000, 100, 50, 200);
    let entry = &schedule.entries[0];
    assert_eq!(entry.vested_at(120), 0);
}

#[test]
fn test_vesting_after_cliff() {
    let mut schedule = VestingSchedule::new();
    schedule.add_entry("alice".into(), 1_000_000, 100, 50, 200);
    let entry = &schedule.entries[0];
    assert_eq!(entry.vested_at(200), 500_000);
}

#[test]
fn test_vesting_fully_vested() {
    let mut schedule = VestingSchedule::new();
    schedule.add_entry("alice".into(), 1_000_000, 100, 50, 200);
    let entry = &schedule.entries[0];
    assert_eq!(entry.vested_at(400), 1_000_000);
}

#[test]
fn test_claim() {
    let mut schedule = VestingSchedule::new();
    schedule.add_entry("alice".into(), 1_000_000, 100, 50, 200);
    let claimed = schedule.claim("alice", 200).unwrap();
    assert_eq!(claimed, 500_000);
    assert!(schedule.claim("alice", 200).is_err());
}

#[test]
fn test_revoke() {
    let mut schedule = VestingSchedule::new();
    schedule.add_entry("alice".into(), 1_000_000, 100, 50, 200);
    schedule.claim("alice", 200).unwrap();
    let revoked = schedule.revoke("alice").unwrap();
    assert_eq!(revoked, 500_000);
}

#[test]
fn test_total_locked() {
    let mut schedule = VestingSchedule::new();
    schedule.add_entry("alice".into(), 1_000_000, 0, 0, 100);
    schedule.add_entry("bob".into(), 2_000_000, 0, 0, 100);
    let locked = schedule.total_locked(50);
    assert_eq!(locked, 1_500_000);
}

#[test]
fn vesting_errors() {
    let mut schedule = VestingSchedule::new();
    assert!(matches!(schedule.claim("nobody", 10), Err(TokenomicsError::StakeNotFound)));
    schedule.add_entry("carol".into(), 1_000, 100, 50, 200);
    assert!(matches!(schedule.claim("carol", 120), Err(TokenomicsError::VestingLocked)));
    schedule.revoke("carol").unwrap();
    assert!(matches!(schedule.revoke("carol"), Err(TokenomicsError::StakeNotFound)));
    assert_eq!(schedule.total_locked(1_000), 0);
}

#[test]
fn test_stake_below_minimum() {
    let mut pool = StakingPool::new();
    assert!(pool.stake("alice".into(), 100, 0).is_err());
}

#[test]
fn test_stake_and_total() {
    let mut pool = StakingPool::new();
    pool.stake("alice".into(), MIN_STAKE, 0).unwrap();
    pool.stake("bob".into(), MIN_STAKE * 2, 0).unwrap();
    assert_eq!(pool.total_staked, MIN_STAKE * 3);
    assert_eq!(pool.staker_count(), 2);
}

#[test]
fn test_unstake_cooldown() {
    let mut pool = StakingPool::new();
    pool.stake("alice".into(), MIN_STAKE, 0).unwrap();
    pool.request_unstake("alice", 100).unwrap();
    assert!(pool.complete_unstake("alice", 100 + COOLDOWN_PERIOD - 1).is_err());
    let amount = pool.complete_unstake("alice", 100 + COOLDOWN_PERIOD).unwrap();
    assert_eq!(amount, MIN_STAKE);
    assert_eq!(pool.total_staked, 0);
}

#[test]
fn test_rewards_distribution() {
    let mut pool = StakingPool::new();
    pool.stake("alice".into(), MIN_STAKE, 0).unwrap();
    pool.stake("bob".into(), MIN_STAKE, 0).unwrap();
    let reward = MIN_STAKE * 2;
    pool.distribute_rewards(reward);
    let alice_r = pool.pending_rewards("alice");
    let bob_r = pool.pending_rewards("bob");
    assert!(alice_r > 0);
    assert_eq!(alice_r, bob_r);
}

#[test]
fn test_claim_rewards() {
    let mut pool = StakingPool::new();
    pool.stake("alice".into(), MIN_STAKE, 0).unwrap();
    let reward = MIN_STAKE;
    pool.distribute_rewards(reward);
    let claimed = pool.claim_rewards("alice").unwrap();
    assert_eq!(claimed, reward);
    assert_eq!(pool.pending_rewards("alice"), 0);
}

#[test]
fn staking_errors_and_restaking() {
    let mut pool = StakingPool::new();
    assert!(matches!(pool.request_unstake("ghost", 0), Err(TokenomicsError::StakeNotFound)));
    pool.stake("dave".into(), MIN_STAKE, 5).unwrap();
    pool.stake("dave".into(), MIN_STAKE, 9).unwrap();
    assert_eq!(pool.staker_count(), 1);
    assert_eq!(pool.get_stake("dave").unwrap().amount, MIN_STAKE * 2);
    assert!(matches!(pool.complete_unstake("dave", 10), Err(TokenomicsError::StakeNotFound)));
    pool.request_unstake("dave", 10).unwrap();
    assert!(matches!(pool.request_unstake("dave", 11), Err(TokenomicsError::CooldownActive)));
    assert!(matches!(pool.stake("erin".into(), 1, 0), Err(TokenomicsError::InvalidStakeAmount { amount: 1, minimum: MIN_STAKE })));
}

#[test]
fn test_fee_burn_amount() {
    let engine = BurnEngine::new();
    assert_eq!(engine.fee_burn_amount(1000), 500);
}

#[test]
fn test_burn_record() {
    let mut engine = BurnEngine::new();
    engine.burn(1000, BurnReason::Manual, 1, 100, 10_000).unwrap();
    assert_eq!(engine.total_burned, 1000);
    assert_eq!(engine.burn_count(), 1);
}

#[test]
fn test_burn_exceeds_supply() {
    let mut engine = BurnEngine::new();
    let result = engine.burn(10_000, BurnReason::Manual, 1, 100, 5_000);
    assert!(result.is_err());
}

#[test]
fn test_process_fee() {
    let mut engine = BurnEngine::new();
    let (burned, remainder) = engine.process_fee(2000, 1, 100, 1_000_000).unwrap();
    assert_eq!(burned, 1000);
    assert_eq!(remainder, 1000);
    assert_eq!(engine.total_burned, 1000);
}

#[test]
fn test_average_burn() {
    let mut engine = BurnEngine::new();
    engine.burn(1000, BurnReason::TransactionFee, 1, 100, 1_000_000).unwrap();
    engine.burn(3000, BurnReason::SlashingPenalty, 2, 200, 1_000_000).unwrap();
    assert_eq!(engine.average_burn(), 2000);
}

#[test]
fn process_fee_splits_odd_fee_exactly() {
    let mut engine = BurnEngine::new();
    let (burned, remainder) = engine.process_fee(1001, 1, 1, 10_000).unwrap();
    assert_eq!(burned, 500);
    assert_eq!(remainder, 501);
    assert_eq!(engine.records[0].reason, BurnReason::TransactionFee);
    assert_eq!(BurnEngine::new().average_burn(), 0);
}

#[test]
fn test_add_liquidity() {
    let mut pol = ProtocolOwnedLiquidity::new(1_000_000);
    let lp = pol.add_liquidity("USDC", 500_000, 500_000).unwrap();
    assert_eq!(lp, 500_000);
    assert_eq!(pol.treasury_balance, 500_000);
    assert_eq!(pol.total_nxr_deployed, 500_000);
    assert_eq!(pol.pool_count(), 1);
}

#[test]
fn test_insufficient_treasury() {
    let mut pol = ProtocolOwnedLiquidity::new(100);
    assert!(pol.add_liquidity("USDC", 500, 500).is_err());
}

#[test]
fn test_remove_liquidity() {
    let mut pol = ProtocolOwnedLiquidity::new(1_000_000);
    let lp = pol.add_liquidity("USDC", 500_000, 500_000).unwrap();
    let (nxr, pair) = pol.remove_liquidity("USDC", lp / 2).unwrap();
    assert!(nxr > 0 && pair > 0);
    assert_eq!(pol.pool_count(), 1);
}

#[test]
fn test_tvl() {
    let mut pol = ProtocolOwnedLiquidity::new(2_000_000);
    pol.add_liquidity("USDC", 500_000, 500_000).unwrap();
    pol.add_liquidity("ETH", 300_000, 300_000).unwrap();
    assert_eq!(pol.total_value_locked(), 1_600_000);
}

#[test]
fn test_multiple_adds_same_pool() {
    let mut pol = ProtocolOwnedLiquidity::new(2_000_000);
    pol.add_liquidity("USDC", 100_000, 100_000).unwrap();
    pol.add_liquidity("USDC", 200_000, 200_000).unwrap();
    let pool = pol.pool("USDC").unwrap();
    assert_eq!(pool.nxr_amount, 300_000);
}

#[test]
fn remove_liquidity_updates_pool_and_treasury() {
    let mut pol = ProtocolOwnedLiquidity::new(1_000);
    pol.add_liquidity("DAI", 600, 200).unwrap();
    assert!(matches!(pol.remove_liquidity("BTC", 1), Err(TokenomicsError::InsufficientBalance { need: 1, have: 0 })));
    assert!(matches!(pol.remove_liquidity("DAI", 500), Err(TokenomicsError::InsufficientBalance { need: 500, have: 400 })));
    // A quarter of the LP tokens redeems a quarter of the pool.
    let (n, p) = pol.remove_liquidity("DAI", 100).unwrap();
    assert_eq!((n, p), (150, 50));
    let pool = pol.pool("DAI").unwrap();
    assert_eq!((pool.nxr_amount, pool.pair_amount, pool.lp_tokens), (450, 150, 300));
    assert_eq!(pol.treasury_balance, 550);
    assert_eq!(pol.total_nxr_deployed, 450);
    // Shares round down.
    let (n, p) = pol.remove_liquidity("DAI", 1).unwrap();
    assert_eq!((n, p), (1, 0));
    // Redeeming every remaining token empties the pool.
    let (n, p) = pol.remove_liquidity("DAI", 299).unwrap();
    assert_eq!((n, p), (449, 150));
    let pool = pol.pool("DAI").unwrap();
    assert_eq!((pool.nxr_amount, pool.pair_amount, pool.lp_tokens), (0, 0, 0));
}

#[test]
fn remove_liquidity_is_exact_for_large_pools() {
    let mut pol = ProtocolOwnedLiquidity::new(u128::MAX);
    let nxr = i128::MAX as u128;
    let lp = pol.add_liquidity("ETH", nxr, 1).unwrap();
    assert_eq!(lp, 1u128 << 126);
    // (2^127 - 1) * (2^126 - 1) / 2^126, rounded down.
    let (n, p) = pol.remove_liquidity("ETH", lp - 1).unwrap();
    assert_eq!(n, 170141183460469231731687303715884105725);
    assert_eq!(p, 0);
}
