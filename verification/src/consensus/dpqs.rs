//! Delegated Proof of Quantum Stake: delegation of stake to validators,
//! delegation rewards and stake-weighted proposer selection.
use vstd::prelude::*;
use vstd::string::*;
use vstd::bytes::{spec_u64_from_le_bytes, spec_u64_to_le_bytes};
use crate::arith::{sat_mul, sat_sub, saturating_mul_u128};
use crate::bytes::{append_bytes, push_u64_le};
use crate::consensus::committee::{draw, draw_of};
use crate::crypto::hash::{blake3_of, Blake3Hash};
use crate::crypto::keys::WalletAddress;
use crate::text::{decimal, push_decimal};

verus! {

/// A delegation of stake from a delegator to a validator.
#[derive(Debug, Clone, Copy)]
pub struct Delegation {
    pub delegator: WalletAddress,
    pub validator: WalletAddress,
    pub amount: u128,
    pub epoch_delegated: u64,
    pub reward_share_pct: u8,
}

/// The delegations to `validator`, in order.
pub open spec fn delegations_to(ds: Seq<Delegation>, validator: Seq<u8>) -> Seq<Delegation>
    decreases ds.len(),
{
    if ds.len() == 0 {
        ds
    } else if ds.last().validator.0@ == validator {
        delegations_to(ds.drop_last(), validator).push(ds.last())
    } else {
        delegations_to(ds.drop_last(), validator)
    }
}

/// The delegations made by `delegator`, in order.
pub open spec fn delegations_from(ds: Seq<Delegation>, delegator: Seq<u8>) -> Seq<Delegation>
    decreases ds.len(),
{
    if ds.len() == 0 {
        ds
    } else if ds.last().delegator.0@ == delegator {
        delegations_from(ds.drop_last(), delegator).push(ds.last())
    } else {
        delegations_from(ds.drop_last(), delegator)
    }
}

/// The sum of the delegated amounts.
pub open spec fn sum_amounts(ds: Seq<Delegation>) -> int
    decreases ds.len(),
{
    if ds.len() == 0 {
        0
    } else {
        sum_amounts(ds.drop_last()) + ds.last().amount
    }
}

/// Whether `i` is the first delegation from `delegator` to `validator`.
pub open spec fn is_first_pair(ds: Seq<Delegation>, delegator: Seq<u8>, validator: Seq<u8>, i: int) -> bool {
    &&& 0 <= i < ds.len()
    &&& ds[i].delegator.0@ == delegator && ds[i].validator.0@ == validator
    &&& forall|j: int| 0 <= j < i ==> !((#[trigger] ds[j]).delegator.0@ == delegator && ds[j].validator.0@ == validator)
}

/// The proposer-selection inputs: `(address, stake)` pairs.
pub open spec fn sum_stakes(vs: Seq<(WalletAddress, u128)>) -> int
    decreases vs.len(),
{
    if vs.len() == 0 {
        0
    } else {
        sum_stakes(vs.drop_last()) + vs.last().1
    }
}

/// The bytes whose digest drives proposer selection for an epoch and round.
pub open spec fn proposer_input(epoch: u64, round: u64) -> Seq<u8> {
    spec_u64_to_le_bytes(epoch) + spec_u64_to_le_bytes(round) + "dpqs-proposer".spec_bytes()
}

/// The share of `distributable` that a delegation of `amount` receives out
/// of `total` delegated.
pub open spec fn reward_share(distributable: u128, amount: u128, total: int) -> int {
    sat_mul(distributable, amount) / total
}

/// DPoQS stake management.
pub struct DPoQS {
    pub delegations: Vec<Delegation>,
    pub minimum_stake: u128,
    pub epoch: u64,
}

impl DPoQS {
    /// Create a new DPoQS instance at epoch 0 without delegations.
    pub fn new(minimum_stake: u128) -> (d: Self)
        ensures
            d.delegations@.len() == 0,
            d.minimum_stake == minimum_stake,
            d.epoch == 0,
    {
        DPoQS { delegations: Vec::new(), minimum_stake, epoch: 0 }
    }

    /// Delegate stake to a validator: at least the minimum stake, with a
    /// reward share of at most 100%.
    pub fn delegate(
        &mut self,
        delegator: WalletAddress,
        validator: WalletAddress,
        amount: u128,
        reward_share_pct: u8,
    ) -> (r: Result<(), String>)
        ensures
            final(self).minimum_stake == old(self).minimum_stake,
            final(self).epoch == old(self).epoch,
            amount < old(self).minimum_stake ==> (r matches Err(m) && m@ == "Minimum stake is "@ + decimal(
                old(self).minimum_stake as nat,
            )) && final(self).delegations@ == old(self).delegations@,
            amount >= old(self).minimum_stake && reward_share_pct > 100 ==> (r matches Err(m) && m@
                == "Reward share must be <= 100%"@) && final(self).delegations@ == old(self).delegations@,
            amount >= old(self).minimum_stake && reward_share_pct <= 100 ==> r is Ok && final(self).delegations@
                == old(self).delegations@.push(
                Delegation { delegator, validator, amount, epoch_delegated: old(self).epoch, reward_share_pct },
            ),
    {
        if amount < self.minimum_stake {
            let mut m = String::new();
            m.push_str("Minimum stake is ");
            push_decimal(&mut m, self.minimum_stake);
            return Err(m);
        }
        if reward_share_pct > 100 {
            return Err("Reward share must be <= 100%".to_owned());
        }
        self.delegations.push(
            Delegation { delegator, validator, amount, epoch_delegated: self.epoch, reward_share_pct },
        );
        Ok(())
    }

    /// Remove the first delegation from `delegator` to `validator` and
    /// return it.
    pub fn undelegate(&mut self, delegator: &WalletAddress, validator: &WalletAddress) -> (r: Option<Delegation>)
        ensures
            final(self).minimum_stake == old(self).minimum_stake,
            final(self).epoch == old(self).epoch,
            (forall|j: int| 0 <= j < old(self).delegations@.len() ==> !((#[trigger] old(self).delegations@[j]).delegator.0@
                == delegator.0@ && old(self).delegations@[j].validator.0@ == validator.0@)) ==> r is None
                && final(self).delegations@ == old(self).delegations@,
            forall|i: int| #[trigger] is_first_pair(old(self).delegations@, delegator.0@, validator.0@, i) ==> r
                == Some(old(self).delegations@[i]) && final(self).delegations@ == old(self).delegations@.remove(i),
    {
        let n = self.delegations.len();
        let mut i: usize = 0;
        while i < n
            invariant
                n == self.delegations@.len(),
                i <= n,
                self.delegations@ == old(self).delegations@,
                self.minimum_stake == old(self).minimum_stake,
                self.epoch == old(self).epoch,
                forall|j: int| 0 <= j < i ==> !((#[trigger] self.delegations@[j]).delegator.0@ == delegator.0@
                    && self.delegations@[j].validator.0@ == validator.0@),
            decreases n - i,
        {
            if self.delegations[i].delegator == *delegator && self.delegations[i].validator == *validator {
                proof {
                    let s = self.delegations@;
                    assert forall|k: int| #[trigger] is_first_pair(s, delegator.0@, validator.0@, k) implies k == i by {
                        if k > i {
                            assert(!(s[i as int].delegator.0@ == delegator.0@ && s[i as int].validator.0@
                                == validator.0@));
                        }
                    }
                }
                return Some(self.delegations.remove(i));
            }
            i = i + 1;
        }
        None
    }

    /// Total delegated stake for a validator.
    pub fn total_delegated_to(&self, validator: &WalletAddress) -> (t: u128)
        requires
            sum_amounts(delegations_to(self.delegations@, validator.0@)) <= u128::MAX,
        ensures
            t == sum_amounts(delegations_to(self.delegations@, validator.0@)),
    {
        let n = self.delegations.len();
        let mut total: u128 = 0;
        let mut i: usize = 0;
        while i < n
            invariant
                n == self.delegations@.len(),
                i <= n,
                sum_amounts(delegations_to(self.delegations@, validator.0@)) <= u128::MAX,
                total == sum_amounts(delegations_to(self.delegations@.subrange(0, i as int), validator.0@)),
            decreases n - i,
        {
            proof {
                assert(self.delegations@.subrange(0, i + 1).drop_last() =~= self.delegations@.subrange(0, i as int));
                lemma_to_prefix_bound(self.delegations@, validator.0@, i + 1);
                lemma_sum_push(delegations_to(self.delegations@.subrange(0, i as int), validator.0@), self.delegations@[i as int]);
            }
            if self.delegations[i].validator == *validator {
                total = total + self.delegations[i].amount;
            }
            i = i + 1;
        }
        assert(self.delegations@.subrange(0, n as int) =~= self.delegations@);
        total
    }

    /// All delegations made by a delegator, in order.
    pub fn delegations_by(&self, delegator: &WalletAddress) -> (r: Vec<&Delegation>)
        ensures
            r@.len() == delegations_from(self.delegations@, delegator.0@).len(),
            forall|k: int| 0 <= k < r@.len() ==> *r@[k] == delegations_from(self.delegations@, delegator.0@)[k],
    {
        let n = self.delegations.len();
        let mut out: Vec<&Delegation> = Vec::new();
        let mut i: usize = 0;
        while i < n
            invariant
                n == self.delegations@.len(),
                i <= n,
                out@.len() == delegations_from(self.delegations@.subrange(0, i as int), delegator.0@).len(),
                forall|k: int| 0 <= k < out@.len() ==> *out@[k] == delegations_from(
                    self.delegations@.subrange(0, i as int),
                    delegator.0@,
                )[k],
            decreases n - i,
        {
            proof {
                assert(self.delegations@.subrange(0, i + 1).drop_last() =~= self.delegations@.subrange(0, i as int));
            }
            if self.delegations[i].delegator == *delegator {
                out.push(&self.delegations[i]);
            }
            i = i + 1;
        }
        assert(self.delegations@.subrange(0, n as int) =~= self.delegations@);
        out
    }

    /// Rewards of the delegators of a validator from a block reward: the
    /// validator keeps its commission, and each delegation to it receives
    /// the rest in proportion to its amount, rounded down. Nothing is paid
    /// while nothing is delegated to the validator.
    pub fn calculate_delegation_rewards(
        &self,
        validator: &WalletAddress,
        block_reward: u128,
        validator_commission_pct: u8,
    ) -> (r: Vec<(WalletAddress, u128)>)
        requires
            sum_amounts(delegations_to(self.delegations@, validator.0@)) <= u128::MAX,
        ensures
            ({
                let ds = delegations_to(self.delegations@, validator.0@);
                let total = sum_amounts(ds);
                let distributable = sat_sub(block_reward as int, sat_mul(block_reward, validator_commission_pct as u128) / 100) as u128;
                &&& total == 0 ==> r@.len() == 0
                &&& total != 0 ==> r@.len() == ds.len() && forall|k: int| 0 <= k < ds.len() ==> (#[trigger] r@[k]).0
                    == ds[k].delegator && r@[k].1 == reward_share(distributable, ds[k].amount, total)
            }),
    {
        let total_delegated = self.total_delegated_to(validator);
        if total_delegated == 0 {
            return Vec::new();
        }
        let commission = saturating_mul_u128(block_reward, validator_commission_pct as u128) / 100;
        let distributable = block_reward.saturating_sub(commission);
        let ghost all = self.delegations@;
        let n = self.delegations.len();
        let mut out: Vec<(WalletAddress, u128)> = Vec::new();
        let mut i: usize = 0;
        while i < n
            invariant
                n == all.len(),
                all == self.delegations@,
                i <= n,
                total_delegated > 0,
                total_delegated == sum_amounts(delegations_to(all, validator.0@)),
                out@.len() == delegations_to(all.subrange(0, i as int), validator.0@).len(),
                forall|k: int| 0 <= k < out@.len() ==> (#[trigger] out@[k]).0 == delegations_to(all.subrange(0, i as int), validator.0@)[k].delegator
                    && out@[k].1 == reward_share(distributable, delegations_to(all.subrange(0, i as int), validator.0@)[k].amount, total_delegated as int),
            decreases n - i,
        {
            proof {
                assert(all.subrange(0, i + 1).drop_last() =~= all.subrange(0, i as int));
            }
            if self.delegations[i].validator == *validator {
                let share = saturating_mul_u128(distributable, self.delegations[i].amount) / total_delegated;
                out.push((self.delegations[i].delegator, share));
            }
            i = i + 1;
        }
        assert(all.subrange(0, n as int) =~= all);
        out
    }

    /// Advance to the next epoch.
    pub fn advance_epoch(&mut self)
        requires
            old(self).epoch < u64::MAX,
        ensures
            final(self).epoch == old(self).epoch + 1,
            final(self).delegations@ == old(self).delegations@,
            final(self).minimum_stake == old(self).minimum_stake,
    {
        self.epoch += 1;
    }

    /// Select a block proposer weighted by stake: the digest of
    /// `epoch || round || "dpqs-proposer"` draws a number below the total
    /// stake, and the validator whose cumulative stake range holds it is
    /// chosen. No validators, or no stake, choose nobody.
    pub fn select_proposer(&self, validators: &[(WalletAddress, u128)], epoch: u64, round: u64) -> (r: Option<
        WalletAddress,
    >)
        requires
            sum_stakes(validators@) <= u128::MAX,
        ensures
            validators@.len() == 0 || sum_stakes(validators@) == 0 ==> r is None,
            validators@.len() > 0 && sum_stakes(validators@) > 0 ==> {
                let target = draw_of(blake3_of(proposer_input(epoch, round))) as int % sum_stakes(validators@);
                exists|k: int| 0 <= k < validators@.len() && sum_stakes(validators@.subrange(0, k)) <= target < sum_stakes(
                    validators@.subrange(0, k + 1),
                ) && r == Some(validators@[k].0)
            },
    {
        if validators.len() == 0 {
            return None;
        }
        let mut data: Vec<u8> = Vec::new();
        push_u64_le(&mut data, epoch);
        push_u64_le(&mut data, round);
        append_bytes(&mut data, "dpqs-proposer".as_bytes());
        assert(data@ =~= proposer_input(epoch, round));
        let hash = Blake3Hash::compute(data.as_slice());
        let hash_val = draw(&hash);
        let n = validators.len();
        let mut total: u128 = 0;
        let mut i: usize = 0;
        while i < n
            invariant
                n == validators@.len(),
                i <= n,
                sum_stakes(validators@) <= u128::MAX,
                total == sum_stakes(validators@.subrange(0, i as int)),
            decreases n - i,
        {
            proof {
                assert(validators@.subrange(0, i + 1).drop_last() =~= validators@.subrange(0, i as int));
                lemma_stakes_prefix_bound(validators@, i + 1);
            }
            total = total + validators[i].1;
            i = i + 1;
        }
        assert(validators@.subrange(0, n as int) =~= validators@);
        if total == 0 {
            return None;
        }
        let target = (hash_val as u128) % total;
        let mut cumulative: u128 = 0;
        let mut j: usize = 0;
        while j < n
            invariant
                n == validators@.len(),
                j <= n,
                total == sum_stakes(validators@),
                total <= u128::MAX,
                target < total,
                target == hash_val as int % total as int,
                hash_val == draw_of(blake3_of(proposer_input(epoch, round))),
                cumulative == sum_stakes(validators@.subrange(0, j as int)),
                cumulative <= target,
            decreases n - j,
        {
            proof {
                assert(validators@.subrange(0, j + 1).drop_last() =~= validators@.subrange(0, j as int));
                lemma_stakes_prefix_bound(validators@, j + 1);
            }
            cumulative = cumulative.saturating_add(validators[j].1);
            if cumulative > target {
                assert(0 <= j < validators@.len() && sum_stakes(validators@.subrange(0, j as int)) <= target
                    < sum_stakes(validators@.subrange(0, j + 1)));
                return Some(validators[j].0);
            }
            j = j + 1;
        }
        assert(validators@.subrange(0, n as int) =~= validators@);
        Some(validators[n - 1].0)
    }
}

proof fn lemma_sum_push(s: Seq<Delegation>, d: Delegation)
    ensures
        sum_amounts(s.push(d)) == sum_amounts(s) + d.amount,
{
    assert(s.push(d).drop_last() =~= s);
}

proof fn lemma_sum_nonneg(s: Seq<Delegation>)
    ensures
        sum_amounts(s) >= 0,
    decreases s.len(),
{
    if s.len() > 0 {
        lemma_sum_nonneg(s.drop_last());
    }
}

proof fn lemma_to_prefix_bound(s: Seq<Delegation>, v: Seq<u8>, k: int)
    requires
        0 <= k <= s.len(),
    ensures
        sum_amounts(delegations_to(s.subrange(0, k), v)) <= sum_amounts(delegations_to(s, v)),
    decreases s.len() - k,
{
    if k < s.len() {
        lemma_to_prefix_bound(s, v, k + 1);
        assert(s.subrange(0, k + 1).drop_last() =~= s.subrange(0, k));
        lemma_sum_push(delegations_to(s.subrange(0, k), v), s[k]);
    } else {
        assert(s.subrange(0, k) =~= s);
    }
}

proof fn lemma_stakes_prefix_bound(s: Seq<(WalletAddress, u128)>, k: int)
    requires
        0 <= k <= s.len(),
    ensures
        sum_stakes(s.subrange(0, k)) <= sum_stakes(s),
        sum_stakes(s.subrange(0, k)) >= 0,
    decreases s.len() - k,
{
    if k < s.len() {
        lemma_stakes_prefix_bound(s, k + 1);
        assert(s.subrange(0, k + 1).drop_last() =~= s.subrange(0, k));
    } else {
        assert(s.subrange(0, k) =~= s);
    }
    lemma_stakes_nonneg(s.subrange(0, k));
}

proof fn lemma_stakes_nonneg(s: Seq<(WalletAddress, u128)>)
    ensures
        sum_stakes(s) >= 0,
    decreases s.len(),
{
    if s.len() > 0 {
        lemma_stakes_nonneg(s.drop_last());
    }
}

/// A validator without stake is never the chosen proposer: the stake range
/// of a validator with zero stake is empty.
pub proof fn zero_stake_never_proposer(validators: Seq<(WalletAddress, u128)>, k: int, target: int)
    requires
        0 <= k < validators.len(),
        validators[k].1 == 0,
    ensures
        !(sum_stakes(validators.subrange(0, k)) <= target < sum_stakes(validators.subrange(0, k + 1))),
{
    assert(validators.subrange(0, k + 1).drop_last() =~= validators.subrange(0, k));
}

/// The delegation rewards never pay out more than the block reward: each
/// share is at most the delegation's part of what is distributable.
pub proof fn reward_share_bounded(distributable: u128, amount: u128, total: int)
    requires
        0 < total,
        amount <= total,
    ensures
        reward_share(distributable, amount, total) <= distributable,
{
    let d = distributable as int;
    let a = amount as int;
    assert(sat_mul(distributable, amount) <= d * total) by (nonlinear_arith)
        requires a <= total, 0 <= a, 0 <= d,
            sat_mul(distributable, amount) <= d * a;
    assert(sat_mul(distributable, amount) / total <= d) by (nonlinear_arith)
        requires sat_mul(distributable, amount) <= d * total, total > 0, sat_mul(distributable, amount) >= 0;
}

} // verus!
