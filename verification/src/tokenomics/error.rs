//! Errors of the tokenomics engine.
use vstd::prelude::*;

verus! {

/// Errors raised by supply, vesting, staking, burn and liquidity operations.
#[derive(Debug, Clone, PartialEq, Eq)]
pub enum TokenomicsError {
    InsufficientBalance { need: u128, have: u128 },
    VestingLocked,
    InvalidStakeAmount { amount: u128, minimum: u128 },
    StakeNotFound,
    BurnExceedsSupply { burn: u128, supply: u128 },
    CooldownActive,
    MaxSupplyReached,
}

} // verus!
