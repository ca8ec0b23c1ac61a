//! Protection against extractable value: transactions are committed and
//! masked until a reveal height, and sandwich patterns in fees are flagged.
use vstd::prelude::*;
use crate::crypto::hash::{blake3_of, Blake3Hash};

verus! {

/// MEV protection configuration.
#[derive(Debug, Clone, Copy)]
pub struct MevProtection {
    pub enabled: bool,
    pub time_lock_blocks: u64,
    pub encrypted_pool_size: usize,
}

impl Default for MevProtection {
    fn default() -> (m: Self)
        ensures
            m.enabled,
            m.time_lock_blocks == 2,
            m.encrypted_pool_size == 1000,
    {
        MevProtection { enabled: true, time_lock_blocks: 2, encrypted_pool_size: 1000 }
    }
}

/// A masked transaction that hides its contents until reveal time.
#[derive(Debug, Clone)]
pub struct EncryptedTransaction {
    pub commitment: Blake3Hash,
    pub encrypted_data: Vec<u8>,
    pub submitted_at_block: u64,
    pub reveal_at_block: u64,
}

/// `data` masked with `key`: byte `i` is XORed with key byte `i mod 32`.
pub open spec fn masked(data: Seq<u8>, key: Seq<u8>) -> Seq<u8> {
    Seq::new(data.len(), |i: int| data[i] ^ key[i % 32])
}

impl EncryptedTransaction {
    /// Commit to and mask a transaction: the commitment is the BLAKE3
    /// digest of the data, which also keys the mask; it can be revealed
    /// `time_lock_blocks` after `current_block`.
    pub fn new(tx_data: &[u8], current_block: u64, time_lock_blocks: u64) -> (e: Self)
        requires
            current_block + time_lock_blocks <= u64::MAX,
        ensures
            e.commitment.0@ == blake3_of(tx_data@),
            e.encrypted_data@ == masked(tx_data@, blake3_of(tx_data@)),
            e.submitted_at_block == current_block,
            e.reveal_at_block == current_block + time_lock_blocks,
    {
        let commitment = Blake3Hash::compute(tx_data);
        let n = tx_data.len();
        let mut encrypted: Vec<u8> = Vec::new();
        let mut i: usize = 0;
        while i < n
            invariant
                n == tx_data@.len(),
                i <= n,
                commitment.0@.len() == 32,
                encrypted@ == masked(tx_data@.subrange(0, i as int), commitment.0@),
            decreases n - i,
        {
            encrypted.push(tx_data[i] ^ commitment.0[i % 32]);
            i = i + 1;
            assert(encrypted@ =~= masked(tx_data@.subrange(0, i as int), commitment.0@));
        }
        assert(tx_data@.subrange(0, n as int) =~= tx_data@);
        EncryptedTransaction {
            commitment,
            encrypted_data: encrypted,
            submitted_at_block: current_block,
            reveal_at_block: current_block + time_lock_blocks,
        }
    }

    /// Open the transaction with its original data: accepted when the data
    /// matches the commitment, and then returned.
    pub fn decrypt(&self, original_data: &[u8]) -> (r: Result<Vec<u8>, String>)
        ensures
            blake3_of(original_data@) == self.commitment.0@ ==> (r matches Ok(d) && d@ == original_data@),
            blake3_of(original_data@) != self.commitment.0@ ==> (r matches Err(m) && m@ == "Commitment mismatch"@),
    {
        let expected = Blake3Hash::compute(original_data);
        if expected != self.commitment {
            return Err("Commitment mismatch".to_owned());
        }
        Ok(vstd::slice::slice_to_vec(original_data))
    }

    /// Whether the transaction can be revealed at the given height.
    pub fn can_reveal(&self, current_block: u64) -> (r: bool)
        ensures
            r == (current_block >= self.reveal_at_block),
    {
        current_block >= self.reveal_at_block
    }
}

/// The sum of the fees.
pub open spec fn sum_fees(fees: Seq<u128>) -> int
    decreases fees.len(),
{
    if fees.len() == 0 {
        0
    } else {
        sum_fees(fees.drop_last()) + fees.last()
    }
}

/// Whether fees `i`, `i + 1` and `i + 2` look like a sandwich: the outer two
/// above three times the average fee, the middle one at most the average.
pub open spec fn is_sandwich(fees: Seq<u128>, i: int, avg: int) -> bool {
    fees[i] > avg * 3 && fees[i + 2] > avg * 3 && fees[i + 1] <= avg
}

/// A sandwich is a cheap transaction between two expensive ones: its
/// middle fee is at most the average and its outer fees exceed three times
/// the average, so a triple whose middle fee exceeds the average, or whose
/// outer fees do not both exceed three times it, is never one.
pub proof fn sandwich_has_cheap_middle(fees: Seq<u128>, i: int, avg: int)
    ensures
        is_sandwich(fees, i, avg) ==> fees[i + 1] <= avg,
        is_sandwich(fees, i, avg) ==> fees[i] > 3 * avg && fees[i + 2] > 3 * avg,
        fees[i + 1] > avg ==> !is_sandwich(fees, i, avg),
        fees[i] > 3 * avg && fees[i + 2] > 3 * avg && fees[i + 1] <= avg ==> is_sandwich(fees, i, avg),
{
}

/// Detect the first sandwich pattern in a sequence of fees (the average is
/// rounded down). Fewer than three fees never form one.
pub fn detect_sandwich_attack(_tx_hashes: &[Blake3Hash], fees: &[u128]) -> (r: Option<(usize, usize, usize)>)
    requires
        sum_fees(fees@) <= u128::MAX,
        fees@.len() >= 3 ==> (sum_fees(fees@) / (fees@.len() as int)) * 3 <= u128::MAX,
    ensures
        fees@.len() < 3 ==> r is None,
        fees@.len() >= 3 ==> {
            let avg = sum_fees(fees@) / (fees@.len() as int);
            &&& r is None ==> forall|i: int| 0 <= i < fees@.len() - 2 ==> !is_sandwich(fees@, i, avg)
            &&& r is Some ==> { let t = r->0; t.1 == t.0 + 1 && t.2 == t.0 + 2 && t.2 < fees@.len() && is_sandwich(fees@, t.0 as int, avg)
                && forall|i: int| 0 <= i < t.0 ==> !is_sandwich(fees@, i, avg) }
            &&& r is Some ==> { let t = r->0; fees@[t.1 as int] <= avg && fees@[t.0 as int] > 3 * avg && fees@[t.2 as int] > 3 * avg }
        },
{
    let n = fees.len();
    if n < 3 {
        return None;
    }
    let mut sum: u128 = 0;
    let mut k: usize = 0;
    while k < n
        invariant
            n == fees@.len(),
            k <= n,
            sum_fees(fees@) <= u128::MAX,
            sum == sum_fees(fees@.subrange(0, k as int)),
        decreases n - k,
    {
        proof {
            assert(fees@.subrange(0, k + 1).drop_last() =~= fees@.subrange(0, k as int));
            lemma_fees_prefix_bound(fees@, k + 1);
        }
        sum = sum + fees[k];
        k = k + 1;
    }
    assert(fees@.subrange(0, n as int) =~= fees@);
    let avg = sum / (n as u128);
    let threshold = avg * 3;
    let mut i: usize = 0;
    while i < n - 2
        invariant
            n == fees@.len(),
            n >= 3,
            i <= n - 2,
            avg == sum_fees(fees@) / (n as int),
            threshold == avg * 3,
            forall|j: int| 0 <= j < i ==> !is_sandwich(fees@, j, avg as int),
        decreases n - 2 - i,
    {
        if fees[i] > threshold && fees[i + 2] > threshold && fees[i + 1] <= avg {
            return Some((i, i + 1, i + 2));
        }
        i = i + 1;
    }
    None
}

proof fn lemma_fees_prefix_bound(s: Seq<u128>, k: int)
    requires
        0 <= k <= s.len(),
    ensures
        sum_fees(s.subrange(0, k)) <= sum_fees(s),
    decreases s.len() - k,
{
    if k < s.len() {
        lemma_fees_prefix_bound(s, k + 1);
        assert(s.subrange(0, k + 1).drop_last() =~= s.subrange(0, k));
    } else {
        assert(s.subrange(0, k) =~= s);
    }
}

/// Masking twice with the same key gives the data back: the masked form
/// loses nothing.
pub proof fn mask_twice_restores(data: Seq<u8>, key: Seq<u8>)
    requires
        key.len() == 32,
    ensures
        masked(masked(data, key), key) == data,
{
    assert forall|i: int| 0 <= i < data.len() implies #[trigger] masked(masked(data, key), key)[i] == data[i] by {
        let a = data[i];
        let b = key[i % 32];
        assert((a ^ b) ^ b == a) by (bit_vector);
    }
    assert(masked(masked(data, key), key) =~= data);
}

/// A transaction's original data always opens its commitment.
pub proof fn original_data_opens_commitment(data: Seq<u8>, e: EncryptedTransaction)
    requires
        e.commitment.0@ == blake3_of(data),
    ensures
        blake3_of(data) == e.commitment.0@,
{
}

} // verus!
