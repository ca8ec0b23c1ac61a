//! Committee election by stake-weighted sortition over BLAKE3 digests.
use vstd::prelude::*;
use vstd::string::*;
use vstd::bytes::{spec_u64_from_le_bytes, spec_u64_to_le_bytes};
use crate::arith::{mul_wide, wide_le};
use crate::bytes::{append_bytes, push_u64_le};
use crate::consensus::validator::{active_of, sum_total_stake, Validator, ValidatorSet};
use crate::crypto::hash::{blake3_of, Blake3Hash};
use crate::crypto::keys::WalletAddress;

verus! {

/// Consensus committee for a given epoch and round.
#[derive(Debug, Clone)]
pub struct Committee {
    pub epoch: u64,
    pub round: u64,
    pub members: Vec<CommitteeMember>,
    pub total_committee_stake: u128,
}

/// A member of a consensus committee with their sortition proof.
#[derive(Debug, Clone)]
pub struct CommitteeMember {
    pub validator_address: WalletAddress,
    pub stake: u128,
    pub sortition_hash: Blake3Hash,
    pub sortition_proof: Vec<u8>,
}

/// The bytes whose digest is a validator's sortition hash.
pub open spec fn sortition_input(epoch: u64, round: u64, seed: Seq<u8>, address: Seq<u8>) -> Seq<u8> {
    spec_u64_to_le_bytes(epoch) + spec_u64_to_le_bytes(round) + seed + address
}

/// A validator's sortition hash: `BLAKE3(epoch || round || seed || address)`.
pub open spec fn sortition_digest(epoch: u64, round: u64, seed: Seq<u8>, address: Seq<u8>) -> Seq<u8> {
    blake3_of(sortition_input(epoch, round, seed, address))
}

/// The number a digest draws: its first eight bytes, little-endian.
pub open spec fn draw_of(digest: Seq<u8>) -> u64 {
    spec_u64_from_le_bytes(digest.subrange(0, 8))
}

/// Compute the sortition hash for a validator.
pub fn compute_sortition_hash(epoch: u64, round: u64, seed: &Blake3Hash, address: &WalletAddress) -> (h: Blake3Hash)
    ensures
        h.0@ == sortition_digest(epoch, round, seed.0@, address.0@),
{
    let mut data: Vec<u8> = Vec::new();
    push_u64_le(&mut data, epoch);
    push_u64_le(&mut data, round);
    append_bytes(&mut data, seed.0.as_slice());
    append_bytes(&mut data, address.0.as_slice());
    Blake3Hash::compute(data.as_slice())
}

/// The number a hash draws: its first eight bytes read little-endian.
pub fn draw(hash: &Blake3Hash) -> (v: u64)
    ensures
        v == draw_of(hash.0@),
{
    let mut first: Vec<u8> = Vec::new();
    let mut i: usize = 0;
    while i < 8
        invariant
            i <= 8,
            hash.0@.len() == 32,
            first@ == hash.0@.subrange(0, i as int),
        decreases 8 - i,
    {
        first.push(hash.0[i]);
        i = i + 1;
        assert(first@ =~= hash.0@.subrange(0, i as int));
    }
    vstd::bytes::u64_from_le_bytes(first.as_slice())
}

/// Whether sortition selects a validator: its draw, as a fraction of
/// `u64::MAX`, is at most its share of the active stake times the target
/// committee size over the number of active validators (a share of at
/// least 1 always selects). Compared exactly:
/// `draw * total_stake * count <= stake * target * u64::MAX`.
pub open spec fn sortition_selects(draw: u64, stake: u128, total_stake: u128, target: usize, count: usize) -> bool {
    draw * total_stake * count <= stake * target * u64::MAX
}

/// Decide `sortition_selects` with 256-bit products.
pub fn sortition_selects_exec(draw: u64, stake: u128, total_stake: u128, target: usize, count: usize) -> (r: bool)
    ensures
        r == sortition_selects(draw, stake, total_stake, target, count),
{
    assert(draw * count <= u128::MAX && target * u64::MAX <= u128::MAX) by (nonlinear_arith)
        requires draw <= u64::MAX, count <= u64::MAX, target <= u64::MAX;
    let x = (draw as u128) * (count as u128);
    let y = (target as u128) * (u64::MAX as u128);
    let lhs = mul_wide(x, total_stake);
    let rhs = mul_wide(stake, y);
    proof {
        assert(draw * total_stake * count == x * total_stake) by (nonlinear_arith)
            requires x == draw * count;
        assert(stake * target * u64::MAX == stake * y) by (nonlinear_arith)
            requires y == target * u64::MAX;
    }
    wide_le(lhs, rhs)
}

/// Sortition favours stake: with the same draw, a validator with at least
/// as much stake is selected whenever one with less is.
pub proof fn more_stake_keeps_selection(draw: u64, stake: u128, more: u128, total_stake: u128, target: usize, count: usize)
    requires
        sortition_selects(draw, stake, total_stake, target, count),
        stake <= more,
    ensures
        sortition_selects(draw, more, total_stake, target, count),
{
    assert(stake * target * u64::MAX <= more * target * u64::MAX) by (nonlinear_arith)
        requires stake <= more, target >= 0;
}

/// A validator whose stake share times the target size reaches the number
/// of active validators is always selected, whatever it draws.
pub proof fn full_share_always_selected(draw: u64, stake: u128, total_stake: u128, target: usize, count: usize)
    requires
        stake * target >= total_stake * count,
    ensures
        sortition_selects(draw, stake, total_stake, target, count),
{
    assert(draw * total_stake * count <= stake * target * u64::MAX) by (nonlinear_arith)
        requires
            stake * target >= total_stake * count,
            draw <= u64::MAX,
            total_stake >= 0,
            count >= 0;
}

/// The active validators that sortition selects, in order, out of
/// `count` active validators holding `total_stake`.
pub open spec fn selected(
    active: Seq<Validator>,
    total_stake: u128,
    target: usize,
    count: usize,
    epoch: u64,
    round: u64,
    seed: Seq<u8>,
) -> Seq<Validator>
    decreases active.len(),
{
    if active.len() == 0 {
        Seq::empty()
    } else {
        let prev = selected(active.drop_last(), total_stake, target, count, epoch, round, seed);
        let v = active.last();
        if sortition_selects(
            draw_of(sortition_digest(epoch, round, seed, v.address.0@)),
            v.total_stake,
            total_stake,
            target,
            count,
        ) {
            prev.push(v)
        } else {
            prev
        }
    }
}

/// Whether `m` is the committee seat of validator `v`: its address and
/// stake, its sortition hash, and the first 16 bytes of that hash as proof.
pub open spec fn is_seat_of(m: CommitteeMember, v: Validator, epoch: u64, round: u64, seed: Seq<u8>) -> bool {
    let h = sortition_digest(epoch, round, seed, v.address.0@);
    &&& m.validator_address == v.address
    &&& m.stake == v.total_stake
    &&& m.sortition_hash.0@ == h
    &&& m.sortition_proof@ == h.subrange(0, 16)
}

/// The sum of the members' stakes.
pub open spec fn members_stake(ms: Seq<CommitteeMember>) -> int
    decreases ms.len(),
{
    if ms.len() == 0 {
        0
    } else {
        members_stake(ms.drop_last()) + ms.last().stake
    }
}

/// Elect a committee by sortition: each active validator whose draw
/// from `BLAKE3(epoch || round || seed || address)` falls within its share
/// of the active stake, scaled by the target committee size over the
/// number of active validators, joins, in the set's order. An empty active
/// set or one without stake elects nobody.
pub fn elect_committee(
    validator_set: &ValidatorSet,
    epoch: u64,
    round: u64,
    seed: &Blake3Hash,
    target_committee_size: usize,
) -> (c: Committee)
    requires
        sum_total_stake(active_of(validator_set.validators@)) <= u128::MAX,
    ensures
        c.epoch == epoch,
        c.round == round,
        ({
            let active = active_of(validator_set.validators@);
            let total = sum_total_stake(active);
            let chosen = if active.len() == 0 || total == 0 {
                Seq::<Validator>::empty()
            } else {
                selected(active, total as u128, target_committee_size, active.len() as usize, epoch, round, seed.0@)
            };
            &&& c.members@.len() == chosen.len()
            &&& forall|k: int| 0 <= k < chosen.len() ==> is_seat_of(#[trigger] c.members@[k], chosen[k], epoch, round, seed.0@)
            &&& c.total_committee_stake == sum_total_stake(chosen)
        }),
{
    let active = validator_set.get_active_validators();
    let total_active_stake = validator_set.total_active_stake();
    let ghost act = active_of(validator_set.validators@);
    if active.len() == 0 || total_active_stake == 0 {
        return Committee { epoch, round, members: Vec::new(), total_committee_stake: 0 };
    }
    let mut members: Vec<CommitteeMember> = Vec::new();
    let mut total: u128 = 0;
    let n = active.len();
    let mut k: usize = 0;
    while k < n
        invariant
            n == act.len(),
            active@.len() == n,
            forall|j: int| 0 <= j < n ==> *active@[j] == act[j],
            total_active_stake == sum_total_stake(act),
            k <= n,
            sum_total_stake(act) <= u128::MAX,
            members@.len() == selected(act.subrange(0, k as int), total_active_stake, target_committee_size, n, epoch, round, seed.0@).len(),
            forall|j: int| 0 <= j < members@.len() ==> is_seat_of(#[trigger] members@[j], selected(act.subrange(0, k as int), total_active_stake, target_committee_size, n, epoch, round, seed.0@)[j], epoch, round, seed.0@),
            total == sum_total_stake(selected(act.subrange(0, k as int), total_active_stake, target_committee_size, n, epoch, round, seed.0@)),
            total <= sum_total_stake(act.subrange(0, k as int)),
        decreases n - k,
    {
        let ghost prev = selected(act.subrange(0, k as int), total_active_stake, target_committee_size, n, epoch, round, seed.0@);
        proof {
            assert(act.subrange(0, k + 1).drop_last() =~= act.subrange(0, k as int));
            lemma_sum_prefix_le(act, k + 1);
            lemma_stake_push(act.subrange(0, k as int), act[k as int]);
            lemma_stake_push(prev, act[k as int]);
        }
        let v = active[k];
        let h = compute_sortition_hash(epoch, round, seed, &v.address);
        let value = draw(&h);
        if sortition_selects_exec(value, v.total_stake, total_active_stake, target_committee_size, n) {
            let mut proof_bytes: Vec<u8> = Vec::new();
            let mut j: usize = 0;
            while j < 16
                invariant
                    j <= 16,
                    h.0@.len() == 32,
                    proof_bytes@ == h.0@.subrange(0, j as int),
                decreases 16 - j,
            {
                proof_bytes.push(h.0[j]);
                j = j + 1;
                assert(proof_bytes@ =~= h.0@.subrange(0, j as int));
            }
            members.push(CommitteeMember {
                validator_address: v.address,
                stake: v.total_stake,
                sortition_hash: h,
                sortition_proof: proof_bytes,
            });
            total = total + v.total_stake;
        }
        k = k + 1;
    }
    proof {
        assert(act.subrange(0, n as int) =~= act);
    }
    Committee { epoch, round, members, total_committee_stake: total }
}

proof fn lemma_stake_push(s: Seq<Validator>, v: Validator)
    ensures
        sum_total_stake(s.push(v)) == sum_total_stake(s) + v.total_stake,
{
    assert(s.push(v).drop_last() =~= s);
}

proof fn lemma_sum_prefix_le(s: Seq<Validator>, k: int)
    requires
        0 <= k <= s.len(),
    ensures
        sum_total_stake(s.subrange(0, k)) <= sum_total_stake(s),
    decreases s.len() - k,
{
    if k < s.len() {
        lemma_sum_prefix_le(s, k + 1);
        assert(s.subrange(0, k + 1).drop_last() =~= s.subrange(0, k));
    } else {
        assert(s.subrange(0, k) =~= s);
    }
}

/// The bytes whose digest seeds an epoch.
pub open spec fn epoch_seed_input(prev_epoch_hash: Seq<u8>, epoch: u64) -> Seq<u8> {
    prev_epoch_hash + spec_u64_to_le_bytes(epoch) + "nexara-epoch-seed".spec_bytes()
}

/// Generate a deterministic epoch seed from the previous epoch's final
/// block hash: `BLAKE3(prev_hash || epoch || "nexara-epoch-seed")`.
pub fn generate_epoch_seed(prev_epoch_hash: &Blake3Hash, epoch: u64) -> (h: Blake3Hash)
    ensures
        h.0@ == blake3_of(epoch_seed_input(prev_epoch_hash.0@, epoch)),
{
    let mut data: Vec<u8> = Vec::new();
    append_bytes(&mut data, prev_epoch_hash.0.as_slice());
    push_u64_le(&mut data, epoch);
    append_bytes(&mut data, "nexara-epoch-seed".as_bytes());
    Blake3Hash::compute(data.as_slice())
}

} // verus!
