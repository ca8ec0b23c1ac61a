//! Staking pool: stakes by staker, a cooldown before unstaking, and rewards
//! shared in proportion to stake through a reward-per-token accumulator.
use vstd::prelude::*;
use crate::text::str_eq;
use crate::tokenomics::error::TokenomicsError;
use crate::arith::{sat_mul, sat_sub, saturating_mul_u128};

verus! {

/// Minimum stake amount (1000 NXR in base units, 18 decimals).
pub const MIN_STAKE: u128 = 1_000_000_000_000_000_000_000;

/// Cooldown period in seconds (7 days).
pub const COOLDOWN_PERIOD: u64 = 604_800;

/// The fixed-point scale of the reward-per-token accumulator.
pub const REWARD_SCALE: u128 = 1_000_000_000_000;

/// The rewards accrued by `amount` at accumulator `rpt`.
pub open spec fn accrued(amount: u128, rpt: u128) -> int {
    sat_mul(amount, rpt) / (REWARD_SCALE as int)
}

/// Individual stake info.
#[derive(Debug, Clone)]
pub struct StakeInfo {
    pub staker: String,
    pub amount: u128,
    pub reward_debt: u128,
    pub staked_at: u64,
    pub unstake_requested_at: Option<u64>,
}

/// The rewards a stake can claim at accumulator `rpt`.
pub open spec fn spec_pending(info: StakeInfo, rpt: u128) -> int {
    sat_sub(accrued(info.amount, rpt), info.reward_debt as int)
}

/// Whether some stake in `s` belongs to `staker`.
pub open spec fn has_staker(s: Seq<StakeInfo>, staker: Seq<char>) -> bool {
    exists|i: int| 0 <= i < s.len() && (#[trigger] s[i]).staker@ == staker
}

/// No two stakes belong to the same staker.
pub open spec fn unique_stakers(s: Seq<StakeInfo>) -> bool {
    forall|i: int, j: int| 0 <= i < s.len() && 0 <= j < s.len() && i != j ==> (#[trigger] s[i]).staker@ != (
    #[trigger] s[j]).staker@
}

/// The sum of the staked amounts.
pub open spec fn sum_staked(s: Seq<StakeInfo>) -> int
    decreases s.len(),
{
    if s.len() == 0 {
        0
    } else {
        sum_staked(s.drop_last()) + s.last().amount
    }
}

/// Staking pool managing all stakes and rewards.
#[derive(Debug, Clone)]
pub struct StakingPool {
    pub total_staked: u128,
    pub reward_per_token: u128,
    pub accumulated_rewards: u128,
    pub stakes: Vec<StakeInfo>,
}

impl StakingPool {
    /// The stakes, one per staker.
    pub open spec fn spec_stakes(&self) -> Seq<StakeInfo> {
        self.stakes@
    }

    /// The pool holds at most one stake per staker.
    pub open spec fn wf(&self) -> bool {
        unique_stakers(self.spec_stakes())
    }

    /// The recorded total equals the sum of the stakes.
    pub open spec fn totals_consistent(&self) -> bool {
        self.total_staked == sum_staked(self.spec_stakes())
    }

    /// An empty pool.
    pub fn new() -> (p: Self)
        ensures
            p.wf(),
            p.totals_consistent(),
            p.spec_stakes().len() == 0,
            p.total_staked == 0,
            p.reward_per_token == 0,
            p.accumulated_rewards == 0,
    {
        StakingPool { total_staked: 0, reward_per_token: 0, accumulated_rewards: 0, stakes: Vec::new() }
    }

    /// The stakes held by the pool.
    pub fn stakes(&self) -> (s: &[StakeInfo])
        ensures
            s@ == self.spec_stakes(),
    {
        self.stakes.as_slice()
    }

    fn find(&self, staker: &str) -> (r: Option<usize>)
        ensures
            match r {
                Some(i) => i < self.spec_stakes().len() && self.spec_stakes()[i as int].staker@ == staker@,
                None => !has_staker(self.spec_stakes(), staker@),
            },
    {
        let n = self.stakes.len();
        let mut i: usize = 0;
        while i < n
            invariant
                n == self.stakes@.len(),
                i <= n,
                forall|j: int| 0 <= j < i ==> (#[trigger] self.stakes@[j]).staker@ != staker@,
            decreases n - i,
        {
            if str_eq(self.stakes[i].staker.as_str(), staker) {
                return Some(i);
            }
            i = i + 1;
        }
        None
    }

    /// The stake of a staker, if any.
    pub fn get_stake(&self, staker: &str) -> (r: Option<&StakeInfo>)
        requires
            self.wf(),
        ensures
            match r {
                Some(info) => exists|i: int| 0 <= i < self.spec_stakes().len() && self.spec_stakes()[i] == *info
                    && info.staker@ == staker@,
                None => !has_staker(self.spec_stakes(), staker@),
            },
    {
        match self.find(staker) {
            Some(i) => Some(&self.stakes[i]),
            None => None,
        }
    }

    /// Stake tokens: at least the minimum, added to the staker's stake (or a
    /// new stake), whose reward debt is reset to what its amount has accrued.
    pub fn stake(&mut self, staker: String, amount: u128, now: u64) -> (r: Result<(), TokenomicsError>)
        requires
            old(self).wf(),
        ensures
            final(self).wf(),
            amount < MIN_STAKE ==> r == Err::<(), TokenomicsError>(
                TokenomicsError::InvalidStakeAmount { amount, minimum: MIN_STAKE }) && *final(self) == *old(self),
            amount >= MIN_STAKE ==> {
                &&& r is Ok
                &&& final(self).total_staked == old(self).total_staked.saturating_add(amount)
                &&& final(self).reward_per_token == old(self).reward_per_token
                &&& final(self).accumulated_rewards == old(self).accumulated_rewards
                &&& forall|i: int| 0 <= i < old(self).spec_stakes().len()
                    && (#[trigger] old(self).spec_stakes()[i]).staker@ == staker@ ==> {
                    let e = old(self).spec_stakes()[i];
                    let a = e.amount.saturating_add(amount);
                    final(self).spec_stakes() == old(self).spec_stakes().update(i, StakeInfo {
                        amount: a,
                        reward_debt: accrued(a, old(self).reward_per_token) as u128,
                        ..e
                    })
                }
                &&& !has_staker(old(self).spec_stakes(), staker@) ==> final(self).spec_stakes()
                    == old(self).spec_stakes().push(StakeInfo {
                        staker,
                        amount,
                        reward_debt: accrued(amount, old(self).reward_per_token) as u128,
                        staked_at: now,
                        unstake_requested_at: None,
                    })
            },
            old(self).totals_consistent() && old(self).total_staked + amount <= u128::MAX
                ==> final(self).totals_consistent(),
    {
        if amount < MIN_STAKE {
            return Err(TokenomicsError::InvalidStakeAmount { amount, minimum: MIN_STAKE });
        }
        let ghost s = self.stakes@;
        match self.find(staker.as_str()) {
            Some(i) => {
                let a = self.stakes[i].amount.saturating_add(amount);
                let debt = saturating_mul_u128(a, self.reward_per_token) / REWARD_SCALE;
                self.stakes[i].amount = a;
                self.stakes[i].reward_debt = debt;
                proof {
                    assert forall|k: int| 0 <= k < s.len() && (#[trigger] s[k]).staker@ == staker@ implies k == i by {}
                    lemma_sum_update(s, i as int, self.stakes@[i as int]);
                    lemma_elem_le_sum(s, i as int);
                    assert(self.stakes@ =~= s.update(i as int, self.stakes@[i as int]));
                }
            },
            None => {
                let info = StakeInfo {
                    staker,
                    amount: 0u128.saturating_add(amount),
                    reward_debt: 0,
                    staked_at: now,
                    unstake_requested_at: None,
                };
                let debt = saturating_mul_u128(info.amount, self.reward_per_token) / REWARD_SCALE;
                let info = StakeInfo { reward_debt: debt, ..info };
                self.stakes.push(info);
                proof {
                    assert(self.stakes@.drop_last() =~= s);
                    assert forall|i: int, j: int| 0 <= i < self.stakes@.len() && 0 <= j < self.stakes@.len() && i
                        != j implies (#[trigger] self.stakes@[i]).staker@ != (#[trigger] self.stakes@[j]).staker@ by {
                        if i == s.len() {
                            assert(s[j] == self.stakes@[j]);
                        } else if j == s.len() {
                            assert(s[i] == self.stakes@[i]);
                        }
                    }
                }
            },
        }
        self.total_staked = self.total_staked.saturating_add(amount);
        Ok(())
    }

    /// Request unstake: starts the cooldown of the staker's stake.
    pub fn request_unstake(&mut self, staker: &str, now: u64) -> (r: Result<(), TokenomicsError>)
        requires
            old(self).wf(),
        ensures
            final(self).wf(),
            final(self).total_staked == old(self).total_staked,
            final(self).reward_per_token == old(self).reward_per_token,
            final(self).accumulated_rewards == old(self).accumulated_rewards,
            !has_staker(old(self).spec_stakes(), staker@) ==> r == Err::<(), TokenomicsError>(
                TokenomicsError::StakeNotFound) && final(self).spec_stakes() == old(self).spec_stakes(),
            forall|i: int| 0 <= i < old(self).spec_stakes().len() && (#[trigger] old(self).spec_stakes()[i]).staker@
                == staker@ ==> {
                let e = old(self).spec_stakes()[i];
                &&& e.unstake_requested_at is Some ==> r == Err::<(), TokenomicsError>(TokenomicsError::CooldownActive)
                    && final(self).spec_stakes() == old(self).spec_stakes()
                &&& e.unstake_requested_at is None ==> r is Ok && final(self).spec_stakes()
                    == old(self).spec_stakes().update(i, StakeInfo { unstake_requested_at: Some(now), ..e })
            },
            final(self).totals_consistent() == old(self).totals_consistent(),
    {
        let ghost s = self.stakes@;
        match self.find(staker) {
            None => Err(TokenomicsError::StakeNotFound),
            Some(i) => {
                proof {
                    assert forall|k: int| 0 <= k < s.len() && (#[trigger] s[k]).staker@ == staker@ implies k == i by {}
                }
                if self.stakes[i].unstake_requested_at.is_some() {
                    return Err(TokenomicsError::CooldownActive);
                }
                self.stakes[i].unstake_requested_at = Some(now);
                proof {
                    lemma_sum_update(s, i as int, self.stakes@[i as int]);
                    assert(self.stakes@ =~= s.update(i as int, self.stakes@[i as int]));
                }
                Ok(())
            },
        }
    }

    /// Complete unstake once the cooldown has passed: the stake leaves the
    /// pool and its amount is returned.
    pub fn complete_unstake(&mut self, staker: &str, now: u64) -> (r: Result<u128, TokenomicsError>)
        requires
            old(self).wf(),
            forall|i: int| 0 <= i < old(self).spec_stakes().len() && (#[trigger] old(self).spec_stakes()[i]).staker@
                == staker@ && old(self).spec_stakes()[i].unstake_requested_at is Some
                ==> old(self).spec_stakes()[i].unstake_requested_at->0 + COOLDOWN_PERIOD <= u64::MAX,
        ensures
            final(self).wf(),
            final(self).reward_per_token == old(self).reward_per_token,
            final(self).accumulated_rewards == old(self).accumulated_rewards,
            !has_staker(old(self).spec_stakes(), staker@) ==> r == Err::<u128, TokenomicsError>(
                TokenomicsError::StakeNotFound) && *final(self) == *old(self),
            forall|i: int| 0 <= i < old(self).spec_stakes().len() && (#[trigger] old(self).spec_stakes()[i]).staker@
                == staker@ ==> {
                let e = old(self).spec_stakes()[i];
                &&& e.unstake_requested_at is None ==> r == Err::<u128, TokenomicsError>(
                    TokenomicsError::StakeNotFound) && *final(self) == *old(self)
                &&& (e.unstake_requested_at matches Some(t) && now < t + COOLDOWN_PERIOD) ==> r == Err::<
                    u128,
                    TokenomicsError,
                >(TokenomicsError::CooldownActive) && *final(self) == *old(self)
                &&& (e.unstake_requested_at matches Some(t) && now >= t + COOLDOWN_PERIOD) ==> {
                    &&& r == Ok::<u128, TokenomicsError>(e.amount)
                    &&& final(self).spec_stakes() == old(self).spec_stakes().remove(i)
                    &&& final(self).total_staked == old(self).total_staked.saturating_sub(e.amount)
                }
            },
            old(self).totals_consistent() ==> final(self).totals_consistent(),
    {
        let ghost s = self.stakes@;
        match self.find(staker) {
            None => Err(TokenomicsError::StakeNotFound),
            Some(i) => {
                proof {
                    assert forall|k: int| 0 <= k < s.len() && (#[trigger] s[k]).staker@ == staker@ implies k == i by {}
                }
                let requested = match self.stakes[i].unstake_requested_at {
                    Some(t) => t,
                    None => {
                        return Err(TokenomicsError::StakeNotFound);
                    },
                };
                if now < requested + COOLDOWN_PERIOD {
                    return Err(TokenomicsError::CooldownActive);
                }
                let amount = self.stakes[i].amount;
                self.total_staked = self.total_staked.saturating_sub(amount);
                self.stakes.remove(i);
                proof {
                    lemma_sum_remove(s, i as int);
                    lemma_elem_le_sum(s, i as int);
                    assert forall|a: int, b: int| 0 <= a < self.stakes@.len() && 0 <= b < self.stakes@.len() && a
                        != b implies (#[trigger] self.stakes@[a]).staker@ != (#[trigger] self.stakes@[b]).staker@ by {
                        let a0 = if a < i { a } else { a + 1 };
                        let b0 = if b < i { b } else { b + 1 };
                        assert(self.stakes@[a] == s[a0]);
                        assert(self.stakes@[b] == s[b0]);
                    }
                }
                Ok(amount)
            },
        }
    }

    /// Distribute rewards proportionally to stakers: the accumulator grows by
    /// the reward scaled by 10^12 per staked token. Nothing happens while
    /// nothing is staked.
    pub fn distribute_rewards(&mut self, reward_amount: u128)
        ensures
            old(self).total_staked == 0 ==> *final(self) == *old(self),
            old(self).total_staked != 0 ==> {
                &&& final(self).accumulated_rewards == old(self).accumulated_rewards.saturating_add(reward_amount)
                &&& final(self).reward_per_token == old(self).reward_per_token.saturating_add(
                    (sat_mul(reward_amount, REWARD_SCALE) / (old(self).total_staked as int)) as u128)
                &&& final(self).total_staked == old(self).total_staked
                &&& final(self).spec_stakes() == old(self).spec_stakes()
            },
    {
        if self.total_staked == 0 {
            return;
        }
        self.accumulated_rewards = self.accumulated_rewards.saturating_add(reward_amount);
        let inc = saturating_mul_u128(reward_amount, REWARD_SCALE) / self.total_staked;
        self.reward_per_token = self.reward_per_token.saturating_add(inc);
    }

    /// Pending rewards of a staker (0 without a stake).
    pub fn pending_rewards(&self, staker: &str) -> (p: u128)
        requires
            self.wf(),
        ensures
            !has_staker(self.spec_stakes(), staker@) ==> p == 0,
            forall|i: int| 0 <= i < self.spec_stakes().len() && (#[trigger] self.spec_stakes()[i]).staker@
                == staker@ ==> p == spec_pending(self.spec_stakes()[i], self.reward_per_token),
    {
        match self.find(staker) {
            Some(i) => {
                let info = &self.stakes[i];
                let gross = saturating_mul_u128(info.amount, self.reward_per_token) / REWARD_SCALE;
                gross.saturating_sub(info.reward_debt)
            },
            None => 0,
        }
    }

    /// Claim pending rewards: returns them and resets the reward debt.
    pub fn claim_rewards(&mut self, staker: &str) -> (r: Result<u128, TokenomicsError>)
        requires
            old(self).wf(),
        ensures
            final(self).wf(),
            final(self).total_staked == old(self).total_staked,
            final(self).reward_per_token == old(self).reward_per_token,
            final(self).accumulated_rewards == old(self).accumulated_rewards,
            !has_staker(old(self).spec_stakes(), staker@) ==> r == Err::<u128, TokenomicsError>(
                TokenomicsError::StakeNotFound) && final(self).spec_stakes() == old(self).spec_stakes(),
            forall|i: int| 0 <= i < old(self).spec_stakes().len() && (#[trigger] old(self).spec_stakes()[i]).staker@
                == staker@ ==> {
                let e = old(self).spec_stakes()[i];
                &&& r == Ok::<u128, TokenomicsError>(spec_pending(e, old(self).reward_per_token) as u128)
                &&& final(self).spec_stakes() == old(self).spec_stakes().update(i, StakeInfo {
                    reward_debt: accrued(e.amount, old(self).reward_per_token) as u128,
                    ..e
                })
            },
            final(self).totals_consistent() == old(self).totals_consistent(),
    {
        let pending = self.pending_rewards(staker);
        let ghost s = self.stakes@;
        match self.find(staker) {
            None => Err(TokenomicsError::StakeNotFound),
            Some(i) => {
                proof {
                    assert forall|k: int| 0 <= k < s.len() && (#[trigger] s[k]).staker@ == staker@ implies k == i by {}
                }
                let debt = saturating_mul_u128(self.stakes[i].amount, self.reward_per_token) / REWARD_SCALE;
                self.stakes[i].reward_debt = debt;
                proof {
                    lemma_sum_update(s, i as int, self.stakes@[i as int]);
                    assert(self.stakes@ =~= s.update(i as int, self.stakes@[i as int]));
                }
                Ok(pending)
            },
        }
    }

    /// Number of active stakers.
    pub fn staker_count(&self) -> (n: usize)
        ensures
            n == self.spec_stakes().len(),
    {
        self.stakes.len()
    }
}

impl Default for StakingPool {
    fn default() -> (p: Self)
        ensures
            p.wf(),
            p.spec_stakes().len() == 0,
            p.total_staked == 0,
            p.reward_per_token == 0,
            p.accumulated_rewards == 0,
    {
        Self::new()
    }
}

proof fn lemma_sum_update(s: Seq<StakeInfo>, i: int, v: StakeInfo)
    requires
        0 <= i < s.len(),
    ensures
        sum_staked(s.update(i, v)) == sum_staked(s) - s[i].amount + v.amount,
    decreases s.len(),
{
    if i == s.len() - 1 {
        assert(s.update(i, v).drop_last() =~= s.drop_last());
    } else {
        lemma_sum_update(s.drop_last(), i, v);
        assert(s.update(i, v).drop_last() =~= s.drop_last().update(i, v));
    }
}

proof fn lemma_sum_remove(s: Seq<StakeInfo>, i: int)
    requires
        0 <= i < s.len(),
    ensures
        sum_staked(s.remove(i)) == sum_staked(s) - s[i].amount,
    decreases s.len(),
{
    if i == s.len() - 1 {
        assert(s.remove(i) =~= s.drop_last());
    } else {
        lemma_sum_remove(s.drop_last(), i);
        assert(s.remove(i).drop_last() =~= s.drop_last().remove(i));
    }
}

proof fn lemma_elem_le_sum(s: Seq<StakeInfo>, i: int)
    requires
        0 <= i < s.len(),
    ensures
        s[i].amount <= sum_staked(s),
        sum_staked(s) >= 0,
    decreases s.len(),
{
    lemma_sum_nonneg(s.drop_last());
    if i < s.len() - 1 {
        lemma_elem_le_sum(s.drop_last(), i);
    }
}

proof fn lemma_sum_nonneg(s: Seq<StakeInfo>)
    ensures
        sum_staked(s) >= 0,
    decreases s.len(),
{
    if s.len() > 0 {
        lemma_sum_nonneg(s.drop_last());
    }
}

/// After a claim the stake has nothing more pending: its reward debt equals
/// what its amount has accrued.
pub proof fn claim_leaves_nothing_pending(e: StakeInfo, rpt: u128)
    ensures
        spec_pending(StakeInfo { reward_debt: accrued(e.amount, rpt) as u128, ..e }, rpt) == 0,
{
    assert(0 <= sat_mul(e.amount, rpt) <= u128::MAX);
    assert(accrued(e.amount, rpt) <= sat_mul(e.amount, rpt));
}

/// Stakes of equal amount and equal reward debt have equal pending rewards.
pub proof fn equal_stakes_equal_rewards(a: StakeInfo, b: StakeInfo, rpt: u128)
    requires
        a.amount == b.amount,
        a.reward_debt == b.reward_debt,
    ensures
        spec_pending(a, rpt) == spec_pending(b, rpt),
{
}

} // verus!
