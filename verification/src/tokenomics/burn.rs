//! Burn engine: the share of each fee that is destroyed, and the record of
//! every burn.
use vstd::prelude::*;
use crate::tokenomics::error::TokenomicsError;
use crate::arith::sat_sub;

verus! {

/// Fee burn rate in basis points (50%).
pub const FEE_BURN_RATE_BPS: u32 = 5000;

/// Burn event record.
#[derive(Debug, Clone, Copy, PartialEq, Eq, Structural)]
pub struct BurnRecord {
    pub amount: u128,
    pub reason: BurnReason,
    pub block_height: u64,
    pub timestamp: u64,
}

/// Reason for burning tokens.
#[derive(Debug, Clone, Copy, PartialEq, Eq, Structural)]
pub enum BurnReason {
    TransactionFee,
    SlashingPenalty,
    GovernanceBurn,
    ContractExecution,
    Manual,
}

/// The sum of the burned amounts of a sequence of records.
pub open spec fn sum_burned(s: Seq<BurnRecord>) -> int
    decreases s.len(),
{
    if s.len() == 0 {
        0
    } else {
        sum_burned(s.drop_last()) + s.last().amount
    }
}

/// Engine that tracks all burns.
#[derive(Debug, Clone)]
pub struct BurnEngine {
    pub total_burned: u128,
    pub records: Vec<BurnRecord>,
    pub fee_burn_rate_bps: u32,
}

impl BurnEngine {
    /// The recorded total equals the sum of the recorded burns.
    pub open spec fn totals_consistent(&self) -> bool {
        self.total_burned == sum_burned(self.records@)
    }

    /// The part of `fee` that is burned at this engine's rate.
    pub open spec fn spec_fee_burn(&self, fee: u128) -> int {
        fee * self.fee_burn_rate_bps / 10_000
    }

    /// A fresh engine burning half of each fee.
    pub fn new() -> (e: Self)
        ensures
            e.total_burned == 0,
            e.records@.len() == 0,
            e.fee_burn_rate_bps == FEE_BURN_RATE_BPS,
            e.totals_consistent(),
    {
        BurnEngine { total_burned: 0, records: Vec::new(), fee_burn_rate_bps: FEE_BURN_RATE_BPS }
    }

    /// Calculate the burn amount from a transaction fee.
    pub fn fee_burn_amount(&self, fee: u128) -> (b: u128)
        requires
            fee * self.fee_burn_rate_bps <= u128::MAX,
        ensures
            b == self.spec_fee_burn(fee),
    {
        fee * (self.fee_burn_rate_bps as u128) / 10_000
    }

    /// Burn tokens and record the event; fails when more is burned than
    /// circulates.
    pub fn burn(
        &mut self,
        amount: u128,
        reason: BurnReason,
        block_height: u64,
        timestamp: u64,
        circulating: u128,
    ) -> (r: Result<(), TokenomicsError>)
        ensures
            amount > circulating ==> r == Err::<(), TokenomicsError>(
                TokenomicsError::BurnExceedsSupply { burn: amount, supply: circulating })
                && *final(self) == *old(self),
            amount <= circulating ==> {
                &&& r is Ok
                &&& final(self).total_burned == old(self).total_burned.saturating_add(amount)
                &&& final(self).records@ == old(self).records@.push(
                    BurnRecord { amount, reason, block_height, timestamp },
                )
                &&& final(self).fee_burn_rate_bps == old(self).fee_burn_rate_bps
            },
            old(self).totals_consistent() && old(self).total_burned + amount <= u128::MAX
                ==> final(self).totals_consistent(),
    {
        if amount > circulating {
            return Err(TokenomicsError::BurnExceedsSupply { burn: amount, supply: circulating });
        }
        self.total_burned = self.total_burned.saturating_add(amount);
        self.records.push(BurnRecord { amount, reason, block_height, timestamp });
        proof {
            assert(self.records@.drop_last() =~= old(self).records@);
        }
        Ok(())
    }

    /// Process a transaction fee: burn the engine's share, return it with the
    /// remainder.
    pub fn process_fee(&mut self, fee: u128, block_height: u64, timestamp: u64, circulating: u128) -> (r: Result<
        (u128, u128),
        TokenomicsError,
    >)
        requires
            fee * old(self).fee_burn_rate_bps <= u128::MAX,
        ensures
            ({
                let to_burn = old(self).spec_fee_burn(fee);
                &&& to_burn > circulating ==> r == Err::<(u128, u128), TokenomicsError>(
                    TokenomicsError::BurnExceedsSupply { burn: to_burn as u128, supply: circulating })
                    && *final(self) == *old(self)
                &&& to_burn <= circulating ==> {
                    &&& r == Ok::<(u128, u128), TokenomicsError>(
                        (to_burn as u128, sat_sub(fee as int, to_burn) as u128),
                    )
                    &&& final(self).total_burned == old(self).total_burned.saturating_add(to_burn as u128)
                    &&& final(self).records@ == old(self).records@.push(
                        BurnRecord {
                            amount: to_burn as u128,
                            reason: BurnReason::TransactionFee,
                            block_height,
                            timestamp,
                        },
                    )
                    &&& final(self).fee_burn_rate_bps == old(self).fee_burn_rate_bps
                }
            }),
            old(self).fee_burn_rate_bps <= 10_000 ==> (r matches Ok((b, rest)) ==> b + rest == fee),
    {
        let to_burn = self.fee_burn_amount(fee);
        proof {
            let f = fee as int;
            let bps = self.fee_burn_rate_bps as int;
            assert(bps <= 10_000 ==> f * bps / 10_000 <= f) by (nonlinear_arith)
                requires f >= 0, bps >= 0;
        }
        let remainder = fee.saturating_sub(to_burn);
        match self.burn(to_burn, BurnReason::TransactionFee, block_height, timestamp, circulating) {
            Ok(()) => Ok((to_burn, remainder)),
            Err(e) => Err(e),
        }
    }

    /// Number of burn events.
    pub fn burn_count(&self) -> (n: usize)
        ensures
            n == self.records@.len(),
    {
        self.records.len()
    }

    /// Average burn per event (0 without events).
    pub fn average_burn(&self) -> (a: u128)
        ensures
            self.records@.len() == 0 ==> a == 0,
            self.records@.len() > 0 ==> a == self.total_burned / (self.records@.len() as u128),
    {
        if self.records.is_empty() {
            0
        } else {
            self.total_burned / (self.records.len() as u128)
        }
    }
}

impl Default for BurnEngine {
    fn default() -> (e: Self)
        ensures
            e.total_burned == 0,
            e.records@.len() == 0,
            e.fee_burn_rate_bps == FEE_BURN_RATE_BPS,
    {
        Self::new()
    }
}

} // verus!
