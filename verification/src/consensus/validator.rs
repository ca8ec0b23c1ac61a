//! Validators and the validator set of an epoch.
use vstd::prelude::*;
use vstd::bytes::{spec_u64_to_le_bytes, spec_u128_to_le_bytes};
use crate::bytes::{append_bytes, push_u64_le, push_u128_le};
use crate::crypto::hash::{blake3_of, Blake3Hash};
use crate::crypto::keys::{MlDsaPublicKey, WalletAddress};

verus! {

/// The performance score of a new validator, in millionths (1.0).
pub const FULL_PERFORMANCE_PPM: u32 = 1_000_000;

/// A NEXARA validator node.
#[derive(Debug, Clone)]
pub struct Validator {
    pub address: WalletAddress,
    pub pubkey: MlDsaPublicKey,
    pub stake: u128,
    pub delegated_stake: u128,
    pub total_stake: u128,
    pub status: ValidatorStatus,
    pub shard_assignments: Vec<u16>,
    /// Performance score in millionths (1_000_000 is a perfect score).
    pub performance_score_ppm: u32,
    pub last_active_block: u64,
    pub slashing_history: Vec<SlashEvent>,
}

/// Validator operational status.
#[derive(Debug, Clone, Copy, PartialEq, Eq, Structural)]
pub enum ValidatorStatus {
    Active,
    Probation,
    Jailed,
    Exiting,
}

/// Record of a slashing event.
#[derive(Debug, Clone, Copy)]
pub struct SlashEvent {
    pub block_height: u64,
    pub offense: SlashOffense,
    pub amount_slashed: u128,
    pub evidence_hash: Blake3Hash,
}

/// Types of slashable offenses.
#[derive(Debug, Clone, Copy, PartialEq, Eq, Structural)]
pub enum SlashOffense {
    DoubleSign,
    InvalidZkProof,
    Unavailability,
    ByzantineBehavior,
    InvalidAttestation,
}

impl Validator {
    /// Create a new active validator with only its own stake.
    pub fn new(address: WalletAddress, pubkey: MlDsaPublicKey, stake: u128) -> (v: Self)
        ensures
            v.address == address,
            v.pubkey == pubkey,
            v.stake == stake,
            v.delegated_stake == 0,
            v.total_stake == stake,
            v.status == ValidatorStatus::Active,
            v.shard_assignments@.len() == 0,
            v.performance_score_ppm == FULL_PERFORMANCE_PPM,
            v.last_active_block == 0,
            v.slashing_history@.len() == 0,
    {
        Validator {
            address,
            pubkey,
            stake,
            delegated_stake: 0,
            total_stake: stake,
            status: ValidatorStatus::Active,
            shard_assignments: Vec::new(),
            performance_score_ppm: FULL_PERFORMANCE_PPM,
            last_active_block: 0,
            slashing_history: Vec::new(),
        }
    }

    /// Update total stake (own + delegated, saturating).
    pub fn update_total_stake(&mut self)
        ensures
            *final(self) == (Validator { total_stake: old(self).stake.saturating_add(old(self).delegated_stake), ..*old(self) }),
    {
        self.total_stake = self.stake.saturating_add(self.delegated_stake);
    }

    /// Check if this validator is active.
    pub fn is_active(&self) -> (r: bool)
        ensures
            r == (self.status == ValidatorStatus::Active),
    {
        self.status == ValidatorStatus::Active
    }
}

/// Whether `i` is the first validator with address `addr`.
pub open spec fn is_first_with(vs: Seq<Validator>, addr: Seq<u8>, i: int) -> bool {
    &&& 0 <= i < vs.len()
    &&& vs[i].address.0@ == addr
    &&& forall|j: int| 0 <= j < i ==> (#[trigger] vs[j]).address.0@ != addr
}

/// Whether no validator has address `addr`.
pub open spec fn none_with(vs: Seq<Validator>, addr: Seq<u8>) -> bool {
    forall|j: int| 0 <= j < vs.len() ==> (#[trigger] vs[j]).address.0@ != addr
}

/// The total stake of the first validator with address `addr`, or 0.
pub open spec fn stake_lookup(vs: Seq<Validator>, addr: Seq<u8>) -> int {
    if exists|i: int| is_first_with(vs, addr, i) {
        vs[choose|i: int| is_first_with(vs, addr, i)].total_stake as int
    } else {
        0
    }
}

/// The active validators, in order.
pub open spec fn active_of(vs: Seq<Validator>) -> Seq<Validator>
    decreases vs.len(),
{
    if vs.len() == 0 {
        vs
    } else if vs.last().status == ValidatorStatus::Active {
        active_of(vs.drop_last()).push(vs.last())
    } else {
        active_of(vs.drop_last())
    }
}

/// The sum of the total stakes of a sequence of validators.
pub open spec fn sum_total_stake(vs: Seq<Validator>) -> int
    decreases vs.len(),
{
    if vs.len() == 0 {
        0
    } else {
        sum_total_stake(vs.drop_last()) + vs.last().total_stake
    }
}

/// The bytes hashed into the validator set hash: the epoch, then each
/// validator's address and total stake.
pub open spec fn set_hash_input(epoch: u64, vs: Seq<Validator>) -> Seq<u8>
    decreases vs.len(),
{
    if vs.len() == 0 {
        spec_u64_to_le_bytes(epoch)
    } else {
        set_hash_input(epoch, vs.drop_last()) + vs.last().address.0@ + spec_u128_to_le_bytes(vs.last().total_stake)
    }
}

/// The complete set of validators for the current epoch.
pub struct ValidatorSet {
    pub validators: Vec<Validator>,
    pub epoch: u64,
    pub total_stake: u128,
}

impl ValidatorSet {
    /// The recorded total equals the sum of the validators' stakes.
    pub open spec fn totals_consistent(&self) -> bool {
        self.total_stake == sum_total_stake(self.validators@)
    }

    /// Create a new empty validator set.
    pub fn new() -> (s: Self)
        ensures
            s.validators@.len() == 0,
            s.epoch == 0,
            s.total_stake == 0,
            s.totals_consistent(),
    {
        ValidatorSet { validators: Vec::new(), epoch: 0, total_stake: 0 }
    }

    /// Add a validator and update total stake.
    pub fn add_validator(&mut self, v: Validator)
        ensures
            final(self).validators@ == old(self).validators@.push(v),
            final(self).total_stake == old(self).total_stake.saturating_add(v.total_stake),
            final(self).epoch == old(self).epoch,
            old(self).totals_consistent() && old(self).total_stake + v.total_stake <= u128::MAX
                ==> final(self).totals_consistent(),
    {
        self.total_stake = self.total_stake.saturating_add(v.total_stake);
        self.validators.push(v);
        proof {
            assert(self.validators@.drop_last() =~= old(self).validators@);
        }
    }

    fn position(&self, addr: &WalletAddress) -> (r: Option<usize>)
        ensures
            match r {
                Some(i) => is_first_with(self.validators@, addr.0@, i as int),
                None => none_with(self.validators@, addr.0@),
            },
    {
        let n = self.validators.len();
        let mut i: usize = 0;
        while i < n
            invariant
                n == self.validators@.len(),
                i <= n,
                forall|j: int| 0 <= j < i ==> (#[trigger] self.validators@[j]).address.0@ != addr.0@,
            decreases n - i,
        {
            if self.validators[i].address == *addr {
                return Some(i);
            }
            i = i + 1;
        }
        None
    }

    /// Remove the first validator with the given address, if any.
    pub fn remove_validator(&mut self, addr: &WalletAddress)
        ensures
            final(self).epoch == old(self).epoch,
            none_with(old(self).validators@, addr.0@) ==> *final(self) == *old(self),
            forall|i: int| #[trigger] is_first_with(old(self).validators@, addr.0@, i) ==> {
                &&& final(self).validators@ == old(self).validators@.remove(i)
                &&& final(self).total_stake == old(self).total_stake.saturating_sub(
                    old(self).validators@[i].total_stake,
                )
            },
            old(self).totals_consistent() ==> final(self).totals_consistent(),
    {
        let ghost s = self.validators@;
        if let Some(pos) = self.position(addr) {
            let removed = self.validators.remove(pos);
            self.total_stake = self.total_stake.saturating_sub(removed.total_stake);
            proof {
                assert forall|k: int| #[trigger] is_first_with(s, addr.0@, k) implies k == pos by {
                    if k < pos {
                        assert(s[k].address.0@ != addr.0@);
                    } else if k > pos {
                        assert(s[pos as int].address.0@ != addr.0@);
                    }
                }
                lemma_sum_remove(s, pos as int);
                lemma_elem_le_sum(s, pos as int);
            }
        }
    }

    /// Find the first validator with the given address.
    pub fn get_validator(&self, addr: &WalletAddress) -> (r: Option<&Validator>)
        ensures
            none_with(self.validators@, addr.0@) ==> r is None,
            forall|i: int| #[trigger] is_first_with(self.validators@, addr.0@, i) ==> r == Some(
                &self.validators@[i],
            ),
            r matches Some(v) ==> stake_lookup(self.validators@, addr.0@) == v.total_stake,
            r is None ==> stake_lookup(self.validators@, addr.0@) == 0,
    {
        match self.position(addr) {
            Some(i) => {
                proof { lemma_first_unique(self.validators@, addr.0@, i as int); }
                Some(&self.validators[i])
            },
            None => None,
        }
    }

    /// A mutable reference to the first validator with the given address.
    pub fn get_validator_mut(&mut self, addr: &WalletAddress) -> (r: Option<&mut Validator>)
        ensures
            none_with(old(self).validators@, addr.0@) ==> r is None && *final(self) == *old(self),
            forall|i: int| #[trigger] is_first_with(old(self).validators@, addr.0@, i) ==> {
                &&& r is Some
                &&& *r->0 == old(self).validators@[i]
                &&& final(self).validators@ == old(self).validators@.update(i, *final(r->0))
                &&& final(self).epoch == old(self).epoch
                &&& final(self).total_stake == old(self).total_stake
            },
    {
        match self.position(addr) {
            Some(i) => {
                proof { lemma_first_unique(self.validators@, addr.0@, i as int); }
                Some(&mut self.validators[i])
            },
            None => None,
        }
    }

    /// All active validators, in order.
    pub fn get_active_validators(&self) -> (r: Vec<&Validator>)
        ensures
            r@.len() == active_of(self.validators@).len(),
            forall|k: int| 0 <= k < r@.len() ==> *r@[k] == active_of(self.validators@)[k],
    {
        let n = self.validators.len();
        let mut out: Vec<&Validator> = Vec::new();
        let mut i: usize = 0;
        while i < n
            invariant
                n == self.validators@.len(),
                i <= n,
                out@.len() == active_of(self.validators@.subrange(0, i as int)).len(),
                forall|k: int| 0 <= k < out@.len() ==> *out@[k] == active_of(self.validators@.subrange(0, i as int))[k],
            decreases n - i,
        {
            proof {
                assert(self.validators@.subrange(0, i + 1).drop_last() =~= self.validators@.subrange(0, i as int));
            }
            if self.validators[i].is_active() {
                out.push(&self.validators[i]);
            }
            i = i + 1;
        }
        assert(self.validators@.subrange(0, n as int) =~= self.validators@);
        out
    }

    /// Sum of the active validators' total stakes.
    pub fn total_active_stake(&self) -> (t: u128)
        requires
            sum_total_stake(active_of(self.validators@)) <= u128::MAX,
        ensures
            t == sum_total_stake(active_of(self.validators@)),
    {
        let n = self.validators.len();
        let mut total: u128 = 0;
        let mut i: usize = 0;
        while i < n
            invariant
                n == self.validators@.len(),
                i <= n,
                sum_total_stake(active_of(self.validators@)) <= u128::MAX,
                total == sum_total_stake(active_of(self.validators@.subrange(0, i as int))),
            decreases n - i,
        {
            proof {
                assert(self.validators@.subrange(0, i + 1).drop_last() =~= self.validators@.subrange(0, i as int));
                lemma_active_prefix_bound(self.validators@, i + 1);
                lemma_sum_push(active_of(self.validators@.subrange(0, i as int)), self.validators@[i as int]);
            }
            if self.validators[i].is_active() {
                total = total + self.validators[i].total_stake;
            }
            i = i + 1;
        }
        assert(self.validators@.subrange(0, n as int) =~= self.validators@);
        total
    }

    /// The hash of the validator set for block headers: BLAKE3 over the
    /// epoch, then each validator's address and total stake.
    pub fn set_hash(&self) -> (h: Blake3Hash)
        ensures
            h.0@ == blake3_of(set_hash_input(self.epoch, self.validators@)),
    {
        let mut data: Vec<u8> = Vec::new();
        push_u64_le(&mut data, self.epoch);
        let n = self.validators.len();
        let mut i: usize = 0;
        while i < n
            invariant
                n == self.validators@.len(),
                i <= n,
                data@ == set_hash_input(self.epoch, self.validators@.subrange(0, i as int)),
            decreases n - i,
        {
            proof {
                assert(self.validators@.subrange(0, i + 1).drop_last() =~= self.validators@.subrange(0, i as int));
            }
            append_bytes(&mut data, self.validators[i].address.0.as_slice());
            push_u128_le(&mut data, self.validators[i].total_stake);
            i = i + 1;
        }
        assert(self.validators@.subrange(0, n as int) =~= self.validators@);
        Blake3Hash::compute(data.as_slice())
    }

    /// Number of validators.
    pub fn len(&self) -> (n: usize)
        ensures
            n == self.validators@.len(),
    {
        self.validators.len()
    }

    /// Check if empty.
    pub fn is_empty(&self) -> (r: bool)
        ensures
            r == (self.validators@.len() == 0),
    {
        self.validators.len() == 0
    }
}

impl Default for ValidatorSet {
    fn default() -> (s: Self)
        ensures
            s.validators@.len() == 0,
            s.epoch == 0,
            s.total_stake == 0,
    {
        Self::new()
    }
}

/// The first validator with an address is the only one that is first.
pub proof fn lemma_first_unique(vs: Seq<Validator>, addr: Seq<u8>, i: int)
    requires
        is_first_with(vs, addr, i),
    ensures
        forall|k: int| #[trigger] is_first_with(vs, addr, k) ==> k == i,
        stake_lookup(vs, addr) == vs[i].total_stake,
{
    assert forall|k: int| #[trigger] is_first_with(vs, addr, k) implies k == i by {
        if k < i {
            assert(vs[k].address.0@ != addr);
        } else if k > i {
            assert(vs[i].address.0@ != addr);
        }
    }
}

proof fn lemma_sum_remove(s: Seq<Validator>, i: int)
    requires
        0 <= i < s.len(),
    ensures
        sum_total_stake(s.remove(i)) == sum_total_stake(s) - s[i].total_stake,
    decreases s.len(),
{
    if i == s.len() - 1 {
        assert(s.remove(i) =~= s.drop_last());
    } else {
        lemma_sum_remove(s.drop_last(), i);
        assert(s.remove(i).drop_last() =~= s.drop_last().remove(i));
    }
}

proof fn lemma_elem_le_sum(s: Seq<Validator>, i: int)
    requires
        0 <= i < s.len(),
    ensures
        s[i].total_stake <= sum_total_stake(s),
    decreases s.len(),
{
    lemma_sum_nonneg(s.drop_last());
    if i < s.len() - 1 {
        lemma_elem_le_sum(s.drop_last(), i);
    }
}

proof fn lemma_sum_push(s: Seq<Validator>, v: Validator)
    ensures
        sum_total_stake(s.push(v)) == sum_total_stake(s) + v.total_stake,
{
    assert(s.push(v).drop_last() =~= s);
}

proof fn lemma_sum_nonneg(s: Seq<Validator>)
    ensures
        sum_total_stake(s) >= 0,
    decreases s.len(),
{
    if s.len() > 0 {
        lemma_sum_nonneg(s.drop_last());
    }
}

proof fn lemma_active_prefix_bound(s: Seq<Validator>, k: int)
    requires
        0 <= k <= s.len(),
    ensures
        sum_total_stake(active_of(s.subrange(0, k))) <= sum_total_stake(active_of(s)),
    decreases s.len() - k,
{
    if k < s.len() {
        lemma_active_prefix_bound(s, k + 1);
        assert(s.subrange(0, k + 1).drop_last() =~= s.subrange(0, k));
        lemma_sum_push(active_of(s.subrange(0, k)), s[k]);
    } else {
        assert(s.subrange(0, k) =~= s);
    }
}

/// Adding a validator and removing it again restores the recorded total,
/// when the sum did not saturate.
pub proof fn add_then_remove_restores_total(total: u128, stake: u128)
    requires
        total + stake <= u128::MAX,
    ensures
        total.saturating_add(stake).saturating_sub(stake) == total,
{
}

} // verus!
