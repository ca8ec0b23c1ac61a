//! Validator-to-shard assignment, derived deterministically from an epoch
//! seed.
use vstd::prelude::*;
use vstd::bytes::{spec_u16_from_le_bytes, spec_u32_to_le_bytes};
use crate::bytes::{append_bytes, push_u32_le};
use crate::crypto::hash::{blake3_digest, blake3_of, Blake3Hash};
use crate::crypto::keys::WalletAddress;
use crate::shard::shard::NUM_SHARDS;

verus! {

/// An assignment of a validator to one or more shards.
#[derive(Debug, Clone)]
pub struct ShardAssignment {
    pub validator: WalletAddress,
    pub shard_ids: Vec<u16>,
    pub epoch: u64,
    pub primary_shard: u16,
}

/// The `i`-th shard drawn for a validator: the first two bytes of
/// `BLAKE3(seed || address || i)`, little-endian, modulo the number of
/// shards (`i` taken as a 32-bit number).
pub open spec fn shard_draw(seed: Seq<u8>, address: Seq<u8>, i: int) -> u16 {
    (spec_u16_from_le_bytes(blake3_of(seed + address + spec_u32_to_le_bytes(i as u32)).subrange(0, 2)) % NUM_SHARDS) as u16
}

/// The distinct shards among the first `k` draws, in the order first drawn.
pub open spec fn drawn_shards(seed: Seq<u8>, address: Seq<u8>, k: nat) -> Seq<u16>
    decreases k,
{
    if k == 0 {
        Seq::empty()
    } else {
        let prev = drawn_shards(seed, address, (k - 1) as nat);
        let s = shard_draw(seed, address, k - 1);
        if prev.contains(s) {
            prev
        } else {
            prev.push(s)
        }
    }
}

/// The shards assigned to a validator: its distinct drawn shards, or shard 0
/// when nothing is drawn.
pub open spec fn assigned_shards(seed: Seq<u8>, address: Seq<u8>, k: nat) -> Seq<u16> {
    if drawn_shards(seed, address, k).len() == 0 {
        seq![0u16]
    } else {
        drawn_shards(seed, address, k)
    }
}

fn draw_shard(seed: &Blake3Hash, v: &WalletAddress, i: usize) -> (s: u16)
    ensures
        s == shard_draw(seed.0@, v.0@, i as int),
{
    let mut data: Vec<u8> = Vec::new();
    append_bytes(&mut data, seed.0.as_slice());
    append_bytes(&mut data, v.0.as_slice());
    push_u32_le(&mut data, i as u32);
    let digest = blake3_digest(data.as_slice());
    let mut first: Vec<u8> = Vec::new();
    first.push(digest[0]);
    first.push(digest[1]);
    assert(first@ =~= digest@.subrange(0, 2));
    vstd::bytes::u16_from_le_bytes(first.as_slice()) % NUM_SHARDS
}

fn contains_shard(v: &Vec<u16>, s: u16) -> (r: bool)
    ensures
        r == v@.contains(s),
{
    let n = v.len();
    let mut i: usize = 0;
    while i < n
        invariant
            n == v@.len(),
            i <= n,
            forall|j: int| 0 <= j < i ==> v@[j] != s,
        decreases n - i,
    {
        if v[i] == s {
            return true;
        }
        i = i + 1;
    }
    false
}

/// Assign each validator to shards drawn from the epoch seed: draw
/// `shards_per_validator` times, keep the distinct shards in order, fall
/// back to shard 0, and make the first the primary shard.
pub fn assign_validators_to_shards(
    validators: &[WalletAddress],
    epoch_seed: &Blake3Hash,
    shards_per_validator: usize,
    epoch: u64,
) -> (r: Vec<ShardAssignment>)
    ensures
        r@.len() == validators@.len(),
        forall|k: int| 0 <= k < r@.len() ==> {
            let a = #[trigger] r@[k];
            let ids = assigned_shards(epoch_seed.0@, validators@[k].0@, shards_per_validator as nat);
            &&& a.validator == validators@[k]
            &&& a.shard_ids@ == ids
            &&& a.epoch == epoch
            &&& a.primary_shard == ids[0]
        },
{
    let mut out: Vec<ShardAssignment> = Vec::new();
    let n = validators.len();
    let mut k: usize = 0;
    while k < n
        invariant
            n == validators@.len(),
            k <= n,
            out@.len() == k,
            forall|j: int| 0 <= j < k ==> {
                let a = #[trigger] out@[j];
                let ids = assigned_shards(epoch_seed.0@, validators@[j].0@, shards_per_validator as nat);
                &&& a.validator == validators@[j]
                &&& a.shard_ids@ == ids
                &&& a.epoch == epoch
                &&& a.primary_shard == ids[0]
            },
        decreases n - k,
    {
        let v = &validators[k];
        let mut shard_ids: Vec<u16> = Vec::new();
        let mut i: usize = 0;
        while i < shards_per_validator
            invariant
                i <= shards_per_validator,
                shard_ids@ == drawn_shards(epoch_seed.0@, v.0@, i as nat),
            decreases shards_per_validator - i,
        {
            let s = draw_shard(epoch_seed, v, i);
            if !contains_shard(&shard_ids, s) {
                shard_ids.push(s);
            }
            i = i + 1;
        }
        if shard_ids.len() == 0 {
            shard_ids.push(0);
            assert(shard_ids@ =~= seq![0u16]);
        }
        let primary_shard = shard_ids[0];
        out.push(ShardAssignment { validator: *v, shard_ids, epoch, primary_shard });
        k = k + 1;
    }
    out
}

/// The validators of the assignments that include a shard, in order.
pub open spec fn assigned_to(assignments: Seq<ShardAssignment>, shard_id: u16) -> Seq<WalletAddress>
    decreases assignments.len(),
{
    if assignments.len() == 0 {
        Seq::empty()
    } else if assignments.last().shard_ids@.contains(shard_id) {
        assigned_to(assignments.drop_last(), shard_id).push(assignments.last().validator)
    } else {
        assigned_to(assignments.drop_last(), shard_id)
    }
}

/// All validators assigned to a shard.
pub fn validators_for_shard(assignments: &[ShardAssignment], shard_id: u16) -> (r: Vec<WalletAddress>)
    ensures
        r@ == assigned_to(assignments@, shard_id),
{
    let mut out: Vec<WalletAddress> = Vec::new();
    let n = assignments.len();
    let mut i: usize = 0;
    while i < n
        invariant
            n == assignments@.len(),
            i <= n,
            out@ == assigned_to(assignments@.subrange(0, i as int), shard_id),
        decreases n - i,
    {
        proof {
            assert(assignments@.subrange(0, i + 1).drop_last() =~= assignments@.subrange(0, i as int));
        }
        if contains_shard(&assignments[i].shard_ids, shard_id) {
            out.push(assignments[i].validator);
        }
        i = i + 1;
    }
    assert(assignments@.subrange(0, n as int) =~= assignments@);
    out
}

/// Every assigned shard exists, no shard is assigned twice, and there is
/// at least one.
pub proof fn assignment_is_valid(seed: Seq<u8>, address: Seq<u8>, k: nat)
    ensures
        assigned_shards(seed, address, k).len() > 0,
        assigned_shards(seed, address, k).no_duplicates(),
        forall|i: int| 0 <= i < assigned_shards(seed, address, k).len() ==> (#[trigger] assigned_shards(seed, address, k)[i]) < NUM_SHARDS,
{
    lemma_drawn_valid(seed, address, k);
}

proof fn lemma_drawn_valid(seed: Seq<u8>, address: Seq<u8>, k: nat)
    ensures
        drawn_shards(seed, address, k).no_duplicates(),
        forall|i: int| 0 <= i < drawn_shards(seed, address, k).len() ==> (#[trigger] drawn_shards(seed, address, k)[i]) < NUM_SHARDS,
    decreases k,
{
    if k > 0 {
        lemma_drawn_valid(seed, address, (k - 1) as nat);
        let prev = drawn_shards(seed, address, (k - 1) as nat);
        let s = shard_draw(seed, address, k - 1);
        if !prev.contains(s) {
            let t = prev.push(s);
            assert forall|i: int, j: int| 0 <= i < t.len() && 0 <= j < t.len() && i != j implies t[i] != t[j] by {
                if i < prev.len() && j < prev.len() {
                } else if i == prev.len() {
                    assert(t[j] == prev[j]);
                } else {
                    assert(t[i] == prev[i]);
                }
            }
        }
    }
}

/// A validator is among the validators of every shard it is assigned to,
/// its primary shard included.
pub proof fn assigned_validator_is_found(assignments: Seq<ShardAssignment>, k: int, shard_id: u16)
    requires
        0 <= k < assignments.len(),
        assignments[k].shard_ids@.contains(shard_id),
    ensures
        assigned_to(assignments, shard_id).contains(assignments[k].validator),
    decreases assignments.len(),
{
    if k == assignments.len() - 1 {
        let p = assigned_to(assignments.drop_last(), shard_id);
        assert(p.push(assignments[k].validator)[p.len() as int] == assignments[k].validator);
    } else {
        assigned_validator_is_found(assignments.drop_last(), k, shard_id);
        let p = assigned_to(assignments.drop_last(), shard_id);
        let w = choose|w: int| 0 <= w < p.len() && p[w] == assignments[k].validator;
        if assignments.last().shard_ids@.contains(shard_id) {
            assert(p.push(assignments.last().validator)[w] == assignments[k].validator);
        }
    }
}

} // verus!
