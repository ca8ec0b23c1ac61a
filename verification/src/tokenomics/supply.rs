//! Token supply accounting: how much of the fixed supply circulates, is
//! burned, staked or locked in vesting.
use vstd::prelude::*;
use crate::arith::sat_sub;
use crate::tokenomics::error::TokenomicsError;

verus! {

/// Total supply of NXR tokens (500 million, 18 decimals).
pub const TOTAL_SUPPLY: u128 = 500_000_000_000_000_000_000_000_000;

/// Allocation shares in basis points; they add up to 10000.
pub const VALIDATOR_REWARDS_BPS: u32 = 3500;
pub const ECOSYSTEM_FUND_BPS: u32 = 2000;
pub const TEAM_BPS: u32 = 1500;
pub const COMMUNITY_BPS: u32 = 1000;
pub const TREASURY_BPS: u32 = 1000;
pub const LIQUIDITY_BPS: u32 = 500;
pub const AIRDROP_BPS: u32 = 500;

/// Token supply tracker.
#[derive(Debug, Clone, Copy, PartialEq, Eq, Structural)]
pub struct TokenSupply {
    pub total_supply: u128,
    pub circulating_supply: u128,
    pub burned: u128,
    pub staked: u128,
    pub locked_in_vesting: u128,
    pub bridge_reserves: u128,
}

impl TokenSupply {
    /// The supply not yet accounted to circulation, burns, stakes or vesting,
    /// each subtraction stopping at zero.
    pub open spec fn spec_available(self) -> int {
        sat_sub(sat_sub(sat_sub(sat_sub(self.total_supply as int, self.circulating_supply as int),
            self.burned as int), self.staked as int), self.locked_in_vesting as int)
    }

    /// The supply is consistent: what circulates, is burned, staked or
    /// locked never exceeds the total.
    pub open spec fn wf(self) -> bool {
        self.circulating_supply + self.burned + self.staked + self.locked_in_vesting <= self.total_supply
    }

    /// Create the initial supply state: the whole supply, nothing released.
    pub fn genesis() -> (s: Self)
        ensures
            s.total_supply == TOTAL_SUPPLY,
            s.circulating_supply == 0,
            s.burned == 0,
            s.staked == 0,
            s.locked_in_vesting == 0,
            s.bridge_reserves == 0,
            s.wf(),
    {
        TokenSupply {
            total_supply: TOTAL_SUPPLY,
            circulating_supply: 0,
            burned: 0,
            staked: 0,
            locked_in_vesting: 0,
            bridge_reserves: 0,
        }
    }

    /// The allocation for a share given in basis points of the total supply.
    pub fn allocation_for_bps(bps: u32) -> (a: u128)
        ensures
            a == TOTAL_SUPPLY * bps / 10_000,
    {
        assert(TOTAL_SUPPLY * bps <= u128::MAX) by (nonlinear_arith)
            requires bps <= u32::MAX;
        TOTAL_SUPPLY * (bps as u128) / 10_000
    }

    /// Release tokens to circulation; fails when more is asked than is
    /// available.
    pub fn release(&mut self, amount: u128) -> (r: Result<(), TokenomicsError>)
        ensures
            amount > old(self).spec_available() ==> r == Err::<(), TokenomicsError>(
                TokenomicsError::InsufficientBalance { need: amount, have: old(self).spec_available() as u128 }),
            amount > old(self).spec_available() ==> *final(self) == *old(self),
            amount <= old(self).spec_available() ==> r is Ok && *final(self) == (TokenSupply {
                circulating_supply: old(self).circulating_supply.saturating_add(amount),
                ..*old(self)
            }),
            old(self).wf() ==> final(self).wf(),
    {
        let available = self.total_supply
            .saturating_sub(self.circulating_supply)
            .saturating_sub(self.burned)
            .saturating_sub(self.staked)
            .saturating_sub(self.locked_in_vesting);
        if amount > available {
            return Err(TokenomicsError::InsufficientBalance { need: amount, have: available });
        }
        self.circulating_supply = self.circulating_supply.saturating_add(amount);
        Ok(())
    }

    /// Burn tokens from circulation.
    pub fn burn(&mut self, amount: u128) -> (r: Result<(), TokenomicsError>)
        ensures
            amount > old(self).circulating_supply ==> r == Err::<(), TokenomicsError>(
                TokenomicsError::BurnExceedsSupply { burn: amount, supply: old(self).circulating_supply })
                && *final(self) == *old(self),
            amount <= old(self).circulating_supply ==> r is Ok && *final(self) == (TokenSupply {
                circulating_supply: (old(self).circulating_supply - amount) as u128,
                burned: old(self).burned.saturating_add(amount),
                ..*old(self)
            }),
            old(self).wf() ==> final(self).wf(),
    {
        if amount > self.circulating_supply {
            return Err(TokenomicsError::BurnExceedsSupply { burn: amount, supply: self.circulating_supply });
        }
        self.circulating_supply = self.circulating_supply.saturating_sub(amount);
        self.burned = self.burned.saturating_add(amount);
        Ok(())
    }

    /// Lock circulating tokens for staking.
    pub fn stake(&mut self, amount: u128) -> (r: Result<(), TokenomicsError>)
        ensures
            amount > old(self).circulating_supply ==> r == Err::<(), TokenomicsError>(
                TokenomicsError::InsufficientBalance { need: amount, have: old(self).circulating_supply })
                && *final(self) == *old(self),
            amount <= old(self).circulating_supply ==> r is Ok && *final(self) == (TokenSupply {
                circulating_supply: (old(self).circulating_supply - amount) as u128,
                staked: old(self).staked.saturating_add(amount),
                ..*old(self)
            }),
            old(self).wf() ==> final(self).wf(),
    {
        if amount > self.circulating_supply {
            return Err(TokenomicsError::InsufficientBalance { need: amount, have: self.circulating_supply });
        }
        self.circulating_supply = self.circulating_supply.saturating_sub(amount);
        self.staked = self.staked.saturating_add(amount);
        Ok(())
    }

    /// Return staked tokens to circulation.
    pub fn unstake(&mut self, amount: u128) -> (r: Result<(), TokenomicsError>)
        ensures
            amount > old(self).staked ==> r == Err::<(), TokenomicsError>(
                TokenomicsError::InsufficientBalance { need: amount, have: old(self).staked })
                && *final(self) == *old(self),
            amount <= old(self).staked ==> r is Ok && *final(self) == (TokenSupply {
                staked: (old(self).staked - amount) as u128,
                circulating_supply: old(self).circulating_supply.saturating_add(amount),
                ..*old(self)
            }),
            old(self).wf() ==> final(self).wf(),
    {
        if amount > self.staked {
            return Err(TokenomicsError::InsufficientBalance { need: amount, have: self.staked });
        }
        self.staked = self.staked.saturating_sub(amount);
        self.circulating_supply = self.circulating_supply.saturating_add(amount);
        Ok(())
    }

    /// Effective total supply: the total less what was burned.
    pub fn effective_supply(&self) -> (e: u128)
        ensures
            e == sat_sub(self.total_supply as int, self.burned as int),
    {
        self.total_supply.saturating_sub(self.burned)
    }
}

/// On a consistent supply, what can be released is exactly the total less
/// everything already accounted.
pub proof fn available_is_unaccounted(s: TokenSupply)
    requires
        s.wf(),
    ensures
        s.spec_available() == s.total_supply - s.circulating_supply - s.burned - s.staked - s.locked_in_vesting,
{
}

/// Staking an amount and unstaking it again restores the supply, and burning
/// never changes what circulates and is burned together.
pub proof fn stake_unstake_round_trip(s: TokenSupply, amount: u128)
    requires
        s.wf(),
        amount <= s.circulating_supply,
    ensures
        ({
            let staked = TokenSupply {
                circulating_supply: (s.circulating_supply - amount) as u128,
                staked: s.staked.saturating_add(amount),
                ..s
            };
            let back = TokenSupply {
                staked: (staked.staked - amount) as u128,
                circulating_supply: staked.circulating_supply.saturating_add(amount),
                ..staked
            };
            &&& amount <= staked.staked
            &&& back == s
        }),
{
}

/// Burning moves tokens from circulation to the burned total: their sum is
/// unchanged on a consistent supply.
pub proof fn burn_keeps_circulating_plus_burned(s: TokenSupply, amount: u128)
    requires
        s.wf(),
        amount <= s.circulating_supply,
    ensures
        (s.circulating_supply - amount) + s.burned.saturating_add(amount) == s.circulating_supply + s.burned,
{
}

} // verus!
