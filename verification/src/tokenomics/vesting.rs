//! Token vesting: linear release after a cliff, per beneficiary.
use vstd::prelude::*;
use crate::text::str_eq;
use crate::tokenomics::error::TokenomicsError;
use crate::arith::sat_sub;

verus! {

/// A single vesting entry for a beneficiary.
#[derive(Debug, Clone)]
pub struct VestingEntry {
    pub beneficiary: String,
    pub total_amount: u128,
    pub claimed: u128,
    pub start_time: u64,
    pub cliff_duration: u64,
    pub total_duration: u64,
    pub revoked: bool,
}

/// The amount of an entry vested at `now`: nothing while revoked or before
/// the cliff, everything once the full duration has elapsed since the start,
/// and in between the share of the elapsed time, rounded down.
pub open spec fn spec_vested_at(e: VestingEntry, now: u64) -> int {
    if e.revoked || now < e.start_time + e.cliff_duration {
        0
    } else {
        let elapsed = sat_sub(now as int, e.start_time as int);
        if elapsed >= e.total_duration {
            e.total_amount as int
        } else {
            e.total_amount * elapsed / (e.total_duration as int)
        }
    }
}

/// The vested amount of an entry can be computed at `now` in machine
/// integers: the cliff's end fits in a `u64` and the product of the amount
/// and the elapsed time fits in a `u128` where it is needed.
pub open spec fn vesting_computable(e: VestingEntry, now: u64) -> bool {
    e.revoked || {
        &&& e.start_time + e.cliff_duration <= u64::MAX
        &&& (now < e.start_time + e.cliff_duration
            || sat_sub(now as int, e.start_time as int) >= e.total_duration
            || e.total_amount * sat_sub(now as int, e.start_time as int) <= u128::MAX)
    }
}

/// What vests, in terms of the elapsed time `now - start`: nothing for a
/// revoked entry or before the cliff; after the cliff and before the full
/// duration, the total times the elapsed share of the duration, rounded
/// down; the whole total once the full duration has elapsed, and never
/// more than the total.
pub proof fn vesting_is_linear_after_cliff(e: VestingEntry, now: u64)
    ensures
        e.revoked ==> spec_vested_at(e, now) == 0,
        now < e.start_time + e.cliff_duration ==> spec_vested_at(e, now) == 0,
        !e.revoked && now >= e.start_time + e.cliff_duration && now - e.start_time < e.total_duration
            ==> spec_vested_at(e, now) == e.total_amount * (now - e.start_time) / (e.total_duration as int),
        !e.revoked && now >= e.start_time + e.cliff_duration && now - e.start_time >= e.total_duration
            ==> spec_vested_at(e, now) == e.total_amount,
        0 <= spec_vested_at(e, now) <= e.total_amount,
{
    if !e.revoked && now >= e.start_time + e.cliff_duration {
        let el = now - e.start_time;
        if el < e.total_duration {
            let t = e.total_amount as int;
            let d = e.total_duration as int;
            assert(0 <= t * el / d <= t) by (nonlinear_arith)
                requires 0 <= t, 0 <= el < d;
        }
    }
}

/// Vesting never goes back: an entry has vested at least as much at a
/// later time as at an earlier one.
pub proof fn vesting_never_decreases(e: VestingEntry, t1: u64, t2: u64)
    requires
        t1 <= t2,
    ensures
        spec_vested_at(e, t1) <= spec_vested_at(e, t2),
{
    vesting_is_linear_after_cliff(e, t1);
    vesting_is_linear_after_cliff(e, t2);
    if !e.revoked && t1 >= e.start_time + e.cliff_duration {
        let a = e.total_amount as int;
        let d = e.total_duration as int;
        let x = t1 - e.start_time;
        let y = t2 - e.start_time;
        if y < d {
            assert(a * x / d <= a * y / d) by (nonlinear_arith)
                requires 0 <= a, 0 <= x <= y, d > 0;
        }
    }
}

/// The amount an entry lets its beneficiary claim at `now`.
pub open spec fn spec_claimable(e: VestingEntry, now: u64) -> int {
    sat_sub(spec_vested_at(e, now), e.claimed as int)
}

impl VestingEntry {
    /// Amount vested at the given timestamp.
    pub fn vested_at(&self, now: u64) -> (v: u128)
        requires
            vesting_computable(*self, now),
        ensures
            v == spec_vested_at(*self, now),
    {
        if self.revoked || now < self.start_time + self.cliff_duration {
            return 0;
        }
        let elapsed = now.saturating_sub(self.start_time);
        if elapsed >= self.total_duration {
            self.total_amount
        } else {
            proof {
                let t = self.total_amount as int;
                let el = elapsed as int;
                let d = self.total_duration as int;
                assert(t * el / d <= t) by (nonlinear_arith)
                    requires 0 <= t, 0 <= el < d;
            }
            self.total_amount * (elapsed as u128) / (self.total_duration as u128)
        }
    }

    /// Amount available to claim right now.
    pub fn claimable(&self, now: u64) -> (c: u128)
        requires
            vesting_computable(*self, now),
        ensures
            c == spec_claimable(*self, now),
    {
        self.vested_at(now).saturating_sub(self.claimed)
    }
}

/// Whether entry `i` is the first entry of `beneficiary` that is not revoked.
pub open spec fn is_first_active(s: Seq<VestingEntry>, beneficiary: Seq<char>, i: int) -> bool {
    &&& 0 <= i < s.len()
    &&& s[i].beneficiary@ == beneficiary
    &&& !s[i].revoked
    &&& forall|j: int| 0 <= j < i ==> !(#[trigger] s[j].beneficiary@ == beneficiary && !s[j].revoked)
}

/// Whether `beneficiary` has no entry that is not revoked.
pub open spec fn has_no_active(s: Seq<VestingEntry>, beneficiary: Seq<char>) -> bool {
    forall|j: int| 0 <= j < s.len() ==> !(#[trigger] s[j].beneficiary@ == beneficiary && !s[j].revoked)
}

/// What stays locked across the entries at `now`: for each entry that is not
/// revoked, its total less what has vested.
pub open spec fn spec_locked(s: Seq<VestingEntry>, now: u64) -> int
    decreases s.len(),
{
    if s.len() == 0 {
        0
    } else {
        let e = s.last();
        spec_locked(s.drop_last(), now) + if e.revoked {
            0
        } else {
            sat_sub(e.total_amount as int, spec_vested_at(e, now))
        }
    }
}

/// Vesting schedule manager.
#[derive(Debug, Clone)]
pub struct VestingSchedule {
    pub entries: Vec<VestingEntry>,
}

impl VestingSchedule {
    /// An empty schedule.
    pub fn new() -> (s: Self)
        ensures
            s.entries@.len() == 0,
    {
        VestingSchedule { entries: Vec::new() }
    }

    /// Add a vesting entry, nothing claimed and not revoked.
    pub fn add_entry(
        &mut self,
        beneficiary: String,
        total_amount: u128,
        start_time: u64,
        cliff_duration: u64,
        total_duration: u64,
    )
        ensures
            final(self).entries@ == old(self).entries@.push(VestingEntry {
                beneficiary,
                total_amount,
                claimed: 0,
                start_time,
                cliff_duration,
                total_duration,
                revoked: false,
            }),
    {
        self.entries.push(VestingEntry {
            beneficiary,
            total_amount,
            claimed: 0,
            start_time,
            cliff_duration,
            total_duration,
            revoked: false,
        });
    }

    fn find_active(&self, beneficiary: &str) -> (r: Option<usize>)
        ensures
            match r {
                Some(i) => is_first_active(self.entries@, beneficiary@, i as int),
                None => has_no_active(self.entries@, beneficiary@),
            },
    {
        let n = self.entries.len();
        let mut i: usize = 0;
        while i < n
            invariant
                n == self.entries@.len(),
                i <= n,
                forall|j: int| 0 <= j < i ==> !(#[trigger] self.entries@[j].beneficiary@ == beneficiary@
                    && !self.entries@[j].revoked),
            decreases n - i,
        {
            if str_eq(self.entries[i].beneficiary.as_str(), beneficiary) && !self.entries[i].revoked {
                return Some(i);
            }
            i = i + 1;
        }
        None
    }

    /// Claim vested tokens for a beneficiary: the first entry of theirs that
    /// is not revoked pays out what it lets them claim now.
    pub fn claim(&mut self, beneficiary: &str, now: u64) -> (r: Result<u128, TokenomicsError>)
        requires
            forall|i: int| is_first_active(old(self).entries@, beneficiary@, i)
                ==> vesting_computable(#[trigger] old(self).entries@[i], now),
        ensures
            has_no_active(old(self).entries@, beneficiary@) ==> r == Err::<u128, TokenomicsError>(
                TokenomicsError::StakeNotFound) && final(self).entries@ == old(self).entries@,
            forall|i: int| #[trigger] is_first_active(old(self).entries@, beneficiary@, i) ==> {
                let e = old(self).entries@[i];
                let c = spec_claimable(e, now);
                &&& c == 0 ==> r == Err::<u128, TokenomicsError>(TokenomicsError::VestingLocked)
                    && final(self).entries@ == old(self).entries@
                &&& c > 0 ==> r == Ok::<u128, TokenomicsError>(c as u128)
                    && final(self).entries@ == old(self).entries@.update(i, VestingEntry {
                        claimed: e.claimed.saturating_add(c as u128),
                        ..e
                    })
            },
    {
        match self.find_active(beneficiary) {
            None => Err(TokenomicsError::StakeNotFound),
            Some(i) => {
                let claimable = self.entries[i].claimable(now);
                if claimable == 0 {
                    return Err(TokenomicsError::VestingLocked);
                }
                let claimed = self.entries[i].claimed.saturating_add(claimable);
                self.entries[i].claimed = claimed;
                proof {
                    assert forall|k: int| #[trigger] is_first_active(old(self).entries@, beneficiary@, k)
                        implies k == i by {
                        if k < i {
                            assert(!(old(self).entries@[k].beneficiary@ == beneficiary@ && !old(self).entries@[k].revoked));
                        } else if k > i {
                            assert(!(old(self).entries@[i as int].beneficiary@ == beneficiary@ && !old(self).entries@[i as int].revoked));
                        }
                    }
                }
                Ok(claimable)
            },
        }
    }

    /// Revoke the first entry of a beneficiary that is not revoked; returns
    /// its unclaimed amount, which stays locked.
    pub fn revoke(&mut self, beneficiary: &str) -> (r: Result<u128, TokenomicsError>)
        ensures
            has_no_active(old(self).entries@, beneficiary@) ==> r == Err::<u128, TokenomicsError>(
                TokenomicsError::StakeNotFound) && final(self).entries@ == old(self).entries@,
            forall|i: int| #[trigger] is_first_active(old(self).entries@, beneficiary@, i) ==> {
                let e = old(self).entries@[i];
                &&& r == Ok::<u128, TokenomicsError>(e.total_amount.saturating_sub(e.claimed))
                &&& final(self).entries@ == old(self).entries@.update(i, VestingEntry { revoked: true, ..e })
            },
    {
        match self.find_active(beneficiary) {
            None => Err(TokenomicsError::StakeNotFound),
            Some(i) => {
                self.entries[i].revoked = true;
                proof {
                    assert forall|k: int| #[trigger] is_first_active(old(self).entries@, beneficiary@, k)
                        implies k == i by {
                        if k < i {
                            assert(!(old(self).entries@[k].beneficiary@ == beneficiary@ && !old(self).entries@[k].revoked));
                        } else if k > i {
                            assert(!(old(self).entries@[i as int].beneficiary@ == beneficiary@ && !old(self).entries@[i as int].revoked));
                        }
                    }
                }
                Ok(self.entries[i].total_amount.saturating_sub(self.entries[i].claimed))
            },
        }
    }

    /// Total locked across all entries that are not revoked, at `now`.
    pub fn total_locked(&self, now: u64) -> (t: u128)
        requires
            forall|i: int| 0 <= i < self.entries@.len() ==> vesting_computable(#[trigger] self.entries@[i], now),
            spec_locked(self.entries@, now) <= u128::MAX,
        ensures
            t == spec_locked(self.entries@, now),
    {
        let n = self.entries.len();
        let mut total: u128 = 0;
        let mut i: usize = 0;
        while i < n
            invariant
                n == self.entries@.len(),
                i <= n,
                forall|k: int| 0 <= k < n ==> vesting_computable(#[trigger] self.entries@[k], now),
                spec_locked(self.entries@, now) <= u128::MAX,
                total == spec_locked(self.entries@.subrange(0, i as int), now),
            decreases n - i,
        {
            let ghost s = self.entries@.subrange(0, i + 1);
            assert(s.drop_last() =~= self.entries@.subrange(0, i as int));
            proof { lemma_locked_prefix_bound(self.entries@, now, i + 1); }
            let e = &self.entries[i];
            if !e.revoked {
                let v = e.vested_at(now);
                total = total + e.total_amount.saturating_sub(v);
            }
            i = i + 1;
        }
        assert(self.entries@.subrange(0, n as int) =~= self.entries@);
        total
    }
}

/// What stays locked in a prefix of the entries never exceeds what stays
/// locked in all of them.
proof fn lemma_locked_prefix_bound(s: Seq<VestingEntry>, now: u64, k: int)
    requires
        0 <= k <= s.len(),
    ensures
        spec_locked(s.subrange(0, k), now) <= spec_locked(s, now),
    decreases s.len() - k,
{
    if k < s.len() {
        lemma_locked_prefix_bound(s, now, k + 1);
        assert(s.subrange(0, k + 1).drop_last() =~= s.subrange(0, k));
    } else {
        assert(s.subrange(0, k) =~= s);
    }
}

/// After a claim at `now` the entry has nothing more to claim at `now`, and
/// what it has paid out never exceeds what has vested.
pub proof fn claim_exhausts_claimable(e: VestingEntry, now: u64)
    requires
        spec_claimable(e, now) > 0,
    ensures
        ({
            let after = VestingEntry { claimed: e.claimed.saturating_add(spec_claimable(e, now) as u128), ..e };
            &&& spec_claimable(after, now) == 0
            &&& after.claimed == spec_vested_at(e, now)
        }),
{
    let v = spec_vested_at(e, now);
    if !(e.revoked || now < e.start_time + e.cliff_duration) {
        let elapsed = sat_sub(now as int, e.start_time as int);
        if elapsed < e.total_duration {
            let t = e.total_amount as int;
            let d = e.total_duration as int;
            assert(t * elapsed / d <= t) by (nonlinear_arith)
                requires 0 <= t, 0 <= elapsed < d;
        }
    }
    assert(v <= u128::MAX);
}

impl Default for VestingSchedule {
    fn default() -> (s: Self)
        ensures
            s.entries@.len() == 0,
    {
        Self::new()
    }
}

} // verus!
