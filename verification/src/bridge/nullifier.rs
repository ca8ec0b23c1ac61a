//! The set of spent nullifiers, which keeps a bridge transfer from being
//! completed twice.
use vstd::prelude::*;
use vstd::string::*;
use vstd::bytes::{spec_u64_to_le_bytes, spec_u128_to_le_bytes};
use crate::bytes::{append_bytes, array32_eq, push_u64_le, push_u128_le};
use crate::crypto::hash::{blake3_digest, blake3_of};

verus! {

/// A set of spent nullifiers.
#[derive(Debug, Clone)]
pub struct NullifierSet {
    spent: Vec<[u8; 32]>,
}

/// The bytes whose digest is the nullifier of a transfer between `source`
/// and `dest` of `amount` with `nonce`.
pub open spec fn nullifier_input(source: Seq<u8>, dest: Seq<u8>, amount: u128, nonce: u64) -> Seq<u8> {
    "NULLIFIER_V1".spec_bytes() + source + dest + spec_u128_to_le_bytes(amount) + spec_u64_to_le_bytes(nonce)
}

impl NullifierSet {
    /// The spent nullifiers, in the order they were spent.
    pub closed spec fn spec_spent(&self) -> Seq<Seq<u8>> {
        self.spent@.map_values(|n: [u8; 32]| n@)
    }

    /// Whether `n` has been spent.
    pub open spec fn spec_contains(&self, n: Seq<u8>) -> bool {
        self.spec_spent().contains(n)
    }

    /// No nullifier is recorded twice.
    pub open spec fn wf(&self) -> bool {
        self.spec_spent().no_duplicates()
    }

    /// Create a new empty nullifier set.
    pub fn new() -> (s: Self)
        ensures
            s.wf(),
            s.spec_spent().len() == 0,
    {
        let s = NullifierSet { spent: Vec::new() };
        assert(s.spec_spent() =~= Seq::<Seq<u8>>::empty());
        s
    }

    /// Check if a nullifier has been spent.
    pub fn contains(&self, nullifier: &[u8; 32]) -> (r: bool)
        ensures
            r == self.spec_contains(nullifier@),
    {
        let n = self.spent.len();
        let mut i: usize = 0;
        while i < n
            invariant
                n == self.spent@.len(),
                i <= n,
                forall|j: int| 0 <= j < i ==> self.spent@[j]@ != nullifier@,
            decreases n - i,
        {
            if array32_eq(&self.spent[i], nullifier) {
                assert(self.spec_spent()[i as int] == nullifier@);
                return true;
            }
            i = i + 1;
        }
        proof {
            if self.spec_spent().contains(nullifier@) {
                let k = choose|k: int| 0 <= k < self.spec_spent().len() && self.spec_spent()[k] == nullifier@;
                assert(self.spent@[k]@ == nullifier@);
            }
        }
        false
    }

    /// Mark a nullifier as spent; returns false if it was already spent.
    pub fn insert(&mut self, nullifier: [u8; 32]) -> (r: bool)
        requires
            old(self).wf(),
        ensures
            final(self).wf(),
            r == !old(self).spec_contains(nullifier@),
            r ==> final(self).spec_spent() == old(self).spec_spent().push(nullifier@),
            !r ==> final(self).spec_spent() == old(self).spec_spent(),
    {
        if self.contains(&nullifier) {
            return false;
        }
        self.spent.push(nullifier);
        assert(self.spec_spent() =~= old(self).spec_spent().push(nullifier@));
        true
    }

    /// Number of spent nullifiers.
    pub fn len(&self) -> (n: usize)
        ensures
            n == self.spec_spent().len(),
    {
        self.spent.len()
    }

    /// Whether no nullifier has been spent.
    pub fn is_empty(&self) -> (r: bool)
        ensures
            r == (self.spec_spent().len() == 0),
    {
        self.spent.len() == 0
    }

    /// Generate a nullifier from transfer data:
    /// `BLAKE3("NULLIFIER_V1" || source || dest || amount || nonce)`.
    pub fn generate(source: &str, dest: &str, amount: u128, nonce: u64) -> (n: [u8; 32])
        ensures
            n@ == blake3_of(nullifier_input(source.spec_bytes(), dest.spec_bytes(), amount, nonce)),
    {
        let mut data: Vec<u8> = Vec::new();
        append_bytes(&mut data, "NULLIFIER_V1".as_bytes());
        append_bytes(&mut data, source.as_bytes());
        append_bytes(&mut data, dest.as_bytes());
        push_u128_le(&mut data, amount);
        push_u64_le(&mut data, nonce);
        blake3_digest(data.as_slice())
    }
}

impl Default for NullifierSet {
    fn default() -> (s: Self)
        ensures
            s.wf(),
            s.spec_spent().len() == 0,
    {
        Self::new()
    }
}

/// A nullifier can be spent once: inserting it succeeds exactly when it was
/// not spent, and afterwards it is spent, so inserting it again fails.
pub proof fn nullifier_spent_once(before: NullifierSet, after: NullifierSet, n: Seq<u8>)
    requires
        after.spec_spent() == before.spec_spent().push(n),
    ensures
        after.spec_contains(n),
        forall|m: Seq<u8>| before.spec_contains(m) ==> after.spec_contains(m),
{
    assert(after.spec_spent()[before.spec_spent().len() as int] == n);
    assert forall|m: Seq<u8>| before.spec_contains(m) implies after.spec_contains(m) by {
        let k = choose|k: int| 0 <= k < before.spec_spent().len() && before.spec_spent()[k] == m;
        assert(after.spec_spent()[k] == m);
    }
}

} // verus!
