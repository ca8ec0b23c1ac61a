//! Key splitting across parties (XOR-based sharing).
//!
//! A private key is split into N shares whose byte-wise XOR is the key;
//! reconstruction needs every share.
use vstd::prelude::*;
use crate::bytes::{append_bytes, array32_eq};
use crate::crypto::error::CryptoError;
use crate::crypto::hash::{Blake3Hash, blake3_of};
use crate::crypto::keys::{MlDsaPrivateKey, random_bytes};

verus! {

/// A single share of a split private key.
#[derive(Clone, Debug)]
pub struct MpcKeyShare {
    /// Index of this share (1-based).
    pub share_index: u8,
    /// Total number of shares created.
    pub total_shares: u8,
    /// Minimum shares required for reconstruction.
    pub threshold: u8,
    /// The share data (same length as the original key).
    pub share_data: Vec<u8>,
}

/// Byte-wise XOR of two sequences (over the first one's length).
pub open spec fn xor_seq(a: Seq<u8>, b: Seq<u8>) -> Seq<u8> {
    Seq::new(a.len(), |i: int| a[i] ^ b[i])
}

/// `n` zero bytes.
pub open spec fn zeros(n: nat) -> Seq<u8> {
    Seq::new(n, |i: int| 0u8)
}

/// The byte-wise XOR of every sequence in `datas`, starting from `n` zero
/// bytes and folding left to right.
pub open spec fn xor_all(datas: Seq<Seq<u8>>, n: nat) -> Seq<u8>
    decreases datas.len(),
{
    if datas.len() == 0 {
        zeros(n)
    } else {
        xor_seq(xor_all(datas.drop_last(), n), datas.last())
    }
}

/// The data of each share, in order.
pub open spec fn share_datas(shares: Seq<MpcKeyShare>) -> Seq<Seq<u8>> {
    Seq::new(shares.len(), |i: int| shares[i].share_data@)
}

/// Whether `split_key` rejects these parameters.
pub open spec fn invalid_split_params(total_shares: u8, threshold: u8) -> bool {
    threshold > total_shares || threshold == 0 || total_shares < 2
}

/// What every successful split of `key` into `total` shares satisfies:
/// shares are numbered 1..=total, carry the parameters, have the key's
/// length, and XOR together to the key.
pub open spec fn is_split_of(shares: Seq<MpcKeyShare>, key: Seq<u8>, total: u8, threshold: u8) -> bool {
    &&& shares.len() == total
    &&& forall|i: int| 0 <= i < shares.len() ==> {
        &&& (#[trigger] shares[i]).share_index == i + 1
        &&& shares[i].total_shares == total
        &&& shares[i].threshold == threshold
        &&& shares[i].share_data@.len() == key.len()
    }
    &&& xor_all(share_datas(shares), key.len()) == key
}

proof fn lemma_xor_all_len(datas: Seq<Seq<u8>>, n: nat)
    ensures
        xor_all(datas, n).len() == n,
    decreases datas.len(),
{
    if datas.len() > 0 {
        lemma_xor_all_len(datas.drop_last(), n);
    }
}

/// Split a private key into `total_shares` shares: `total_shares - 1`
/// random shares and a last share that XORs them with the key.
pub fn split_key(private_key: &MlDsaPrivateKey, total_shares: u8, threshold: u8) -> (r: Result<
    Vec<MpcKeyShare>,
    CryptoError,
>)
    ensures
        invalid_split_params(total_shares, threshold) <==> r is Err,
        r is Err ==> r->Err_0 is MpcReconstructionFailed,
        r matches Ok(shares) ==> is_split_of(shares@, private_key.0@, total_shares, threshold),
{
    if threshold > total_shares || threshold == 0 || total_shares < 2 {
        return Err(CryptoError::MpcReconstructionFailed("invalid share/threshold parameters".to_string()));
    }
    let key_len = private_key.0.len();
    let mut shares: Vec<MpcKeyShare> = Vec::new();
    // acc is the XOR of the shares made so far, starting from the key
    let mut acc: Vec<u8> = Vec::new();
    append_bytes(&mut acc, private_key.0.as_slice());
    let ghost key = private_key.0@;
    proof {
        assert(acc@ =~= key);
        assert(share_datas(shares@) =~= Seq::<Seq<u8>>::empty());
        assert forall|j: int| 0 <= j < key.len() implies #[trigger] xor_seq(key, zeros(key.len()))[j] == key[j] by {
            let a = key[j];
            assert(a ^ 0u8 == a) by (bit_vector);
        }
        assert(xor_seq(key, zeros(key.len())) =~= key);
    }
    let mut k: u8 = 1;
    while k < total_shares
        invariant
            1 <= k <= total_shares,
            key == private_key.0@,
            key_len == key.len(),
            shares@.len() == k - 1,
            acc@.len() == key_len,
            forall|i: int| 0 <= i < shares@.len() ==> {
                &&& (#[trigger] shares@[i]).share_index == i + 1
                &&& shares@[i].total_shares == total_shares
                &&& shares@[i].threshold == threshold
                &&& shares@[i].share_data@.len() == key_len
            },
            acc@ == xor_seq(key, xor_all(share_datas(shares@), key_len as nat)),
        decreases total_shares - k,
    {
        let share = random_bytes(key_len);
        let ghost old_acc = acc@;
        let ghost old_shares = shares@;
        let mut next: Vec<u8> = Vec::new();
        let mut i: usize = 0;
        while i < key_len
            invariant
                i <= key_len,
                acc@.len() == key_len,
                share@.len() == key_len,
                next@.len() == i,
                forall|j: int| 0 <= j < i ==> next@[j] == (acc@[j] ^ share@[j]),
            decreases key_len - i,
        {
            next.push(acc[i] ^ share[i]);
            i = i + 1;
        }
        proof {
            assert(next@ =~= xor_seq(acc@, share@));
            let prev_all = xor_all(share_datas(old_shares), key_len as nat);
            lemma_xor_all_len(share_datas(old_shares), key_len as nat);
        }
        shares.push(MpcKeyShare { share_index: k, total_shares, threshold, share_data: share });
        proof {
            let prev_all = xor_all(share_datas(old_shares), key_len as nat);
            assert(share_datas(shares@).drop_last() =~= share_datas(old_shares));
            assert(share_datas(shares@).last() == share@);
            let new_all = xor_all(share_datas(shares@), key_len as nat);
            assert(new_all == xor_seq(prev_all, share@));
            // (key ^ prev) ^ s == key ^ (prev ^ s)
            assert forall|j: int| 0 <= j < key_len implies #[trigger] next@[j] == xor_seq(key, new_all)[j] by {
                let a = key[j];
                let b = prev_all[j];
                let c = share@[j];
                assert((a ^ b) ^ c == a ^ (b ^ c)) by (bit_vector);
            }
            assert(next@ =~= xor_seq(key, new_all));
        }
        acc = next;
        k = k + 1;
    }
    let ghost randoms = shares@;
    shares.push(MpcKeyShare { share_index: total_shares, total_shares, threshold, share_data: acc });
    proof {
        let prev_all = xor_all(share_datas(randoms), key_len as nat);
        lemma_xor_all_len(share_datas(randoms), key_len as nat);
        assert(share_datas(shares@).drop_last() =~= share_datas(randoms));
        let all = xor_all(share_datas(shares@), key_len as nat);
        assert(all == xor_seq(prev_all, xor_seq(key, prev_all)));
        assert forall|j: int| 0 <= j < key_len implies #[trigger] all[j] == key[j] by {
            let a = key[j];
            let b = prev_all[j];
            assert(b ^ (a ^ b) == a) by (bit_vector);
        }
        assert(all =~= key);
    }
    Ok(shares)
}

/// Whether `reconstruct_key` finds all shares of one length.
pub open spec fn uniform_lengths(shares: Seq<MpcKeyShare>) -> bool {
    forall|i: int| 0 <= i < shares.len() ==> (#[trigger] shares[i]).share_data@.len() == shares[0].share_data@.len()
}

/// Reconstruct a private key from shares.
///
/// Every share is required; the key is the byte-wise XOR of all share data.
pub fn reconstruct_key(shares: &[MpcKeyShare]) -> (r: Result<MlDsaPrivateKey, CryptoError>)
    ensures
        shares@.len() == 0 ==> r == Err::<MlDsaPrivateKey, CryptoError>(
            CryptoError::InsufficientShares { threshold: 0, got: 0 }),
        shares@.len() > 0 && (shares@.len() % 256) < shares@[0].threshold ==> r
            == Err::<MlDsaPrivateKey, CryptoError>(
            CryptoError::InsufficientShares {
                threshold: shares@[0].threshold,
                got: (shares@.len() % 256) as u8,
            },
        ),
        shares@.len() > 0 && (shares@.len() % 256) >= shares@[0].threshold && (shares@.len() % 256)
            < shares@[0].total_shares ==> r is Err && r->Err_0 is MpcReconstructionFailed,
        shares@.len() > 0 && (shares@.len() % 256) >= shares@[0].threshold && (shares@.len() % 256)
            >= shares@[0].total_shares ==> {
            &&& !uniform_lengths(shares@) ==> r is Err && r->Err_0 is MpcReconstructionFailed
            &&& uniform_lengths(shares@) ==> (r matches Ok(k) && k.0@ == xor_all(
                share_datas(shares@),
                shares@[0].share_data@.len(),
            ))
        },
{
    if shares.len() == 0 {
        return Err(CryptoError::InsufficientShares { threshold: 0, got: 0 });
    }
    let threshold = shares[0].threshold;
    let total = shares[0].total_shares;
    let count = (shares.len() % 256) as u8;
    if count < threshold {
        return Err(CryptoError::InsufficientShares { threshold, got: count });
    }
    if count < total {
        return Err(CryptoError::MpcReconstructionFailed("XOR-based simulation requires all shares".to_string()));
    }
    let key_len = shares[0].share_data.len();
    let mut reconstructed: Vec<u8> = vec![0u8; key_len];
    proof {
        assert(reconstructed@ =~= zeros(key_len as nat));
    }
    let n = shares.len();
    let mut s: usize = 0;
    while s < n
        invariant
            n == shares@.len(),
            s <= n,
            n > 0,
            (n % 256) >= shares@[0].threshold,
            (n % 256) >= shares@[0].total_shares,
            key_len == shares@[0].share_data@.len(),
            forall|i: int| 0 <= i < s ==> (#[trigger] shares@[i]).share_data@.len() == key_len,
            reconstructed@ == xor_all(share_datas(shares@.subrange(0, s as int)), key_len as nat),
        decreases n - s,
    {
        let data = &shares[s].share_data;
        if data.len() != key_len {
            return Err(CryptoError::MpcReconstructionFailed("inconsistent share lengths".to_string()));
        }
        let ghost prev = reconstructed@;
        proof {
            lemma_xor_all_len(share_datas(shares@.subrange(0, s as int)), key_len as nat);
        }
        let mut i: usize = 0;
        while i < key_len
            invariant
                i <= key_len,
                reconstructed@.len() == key_len,
                prev.len() == key_len,
                data@.len() == key_len,
                forall|j: int| 0 <= j < i ==> reconstructed@[j] == (prev[j] ^ data@[j]),
                forall|j: int| i <= j < key_len ==> reconstructed@[j] == prev[j],
            decreases key_len - i,
        {
            let b = reconstructed[i] ^ data[i];
            reconstructed.set(i, b);
            i = i + 1;
        }
        proof {
            assert(share_datas(shares@.subrange(0, s + 1)).drop_last() =~= share_datas(
                shares@.subrange(0, s as int),
            ));
            assert(reconstructed@ =~= xor_seq(prev, data@));
        }
        s = s + 1;
    }
    proof {
        assert(shares@.subrange(0, n as int) =~= shares@);
    }
    Ok(MlDsaPrivateKey(reconstructed))
}

/// The bytes a share commitment hashes: the index followed by the data.
pub open spec fn commitment_input(share: MpcKeyShare) -> Seq<u8> {
    seq![share.share_index] + share.share_data@
}

/// Verify a share against a commitment hash (BLAKE3 of index || data).
pub fn verify_share(share: &MpcKeyShare, commitment: &Blake3Hash) -> (r: bool)
    ensures
        r == (blake3_of(commitment_input(*share)) == commitment.0@),
{
    let computed = create_share_commitment(share);
    array32_eq(&computed.0, &commitment.0)
}

/// Create a commitment hash for a share.
pub fn create_share_commitment(share: &MpcKeyShare) -> (h: Blake3Hash)
    ensures
        h.0@ == blake3_of(commitment_input(*share)),
{
    let mut data: Vec<u8> = Vec::new();
    data.push(share.share_index);
    append_bytes(&mut data, share.share_data.as_slice());
    assert(data@ =~= commitment_input(*share));
    Blake3Hash::compute(data.as_slice())
}

/// A share always verifies against its own commitment.
pub proof fn share_verifies_against_own_commitment(share: MpcKeyShare, commitment: Blake3Hash)
    requires
        commitment.0@ == blake3_of(commitment_input(share)),
    ensures
        blake3_of(commitment_input(share)) == commitment.0@,
{
}

/// Reconstructing from the shares of a split gives back the key.
pub proof fn split_then_reconstruct(shares: Seq<MpcKeyShare>, key: Seq<u8>, total: u8, threshold: u8)
    requires
        !invalid_split_params(total, threshold),
        is_split_of(shares, key, total, threshold),
    ensures
        shares.len() > 0,
        (shares.len() % 256) >= shares[0].threshold,
        (shares.len() % 256) >= shares[0].total_shares,
        uniform_lengths(shares),
        xor_all(share_datas(shares), shares[0].share_data@.len()) == key,
{
    assert(shares[0].share_index == 1);
}

} // verus!
