//! Finality proofs: a BLAKE3 commitment to an epoch's block range, state
//! root and block hashes, and its verification by recomputation.
use vstd::prelude::*;
use vstd::string::*;
use vstd::bytes::spec_u64_to_le_bytes;
use crate::bytes::{append_bytes, bytes_eq, push_u64_le};
use crate::crypto::hash::{blake3_of, Blake3Hash};
use crate::ledger::block::hash_views;
use crate::text::{decimal, push_decimal};

verus! {

/// A finality proof for a range of blocks.
#[derive(Debug, Clone)]
pub struct ZkFinalityProof {
    pub epoch: u64,
    pub block_range_start: u64,
    pub block_range_end: u64,
    pub state_root: Blake3Hash,
    pub proof_data: Vec<u8>,
    pub verification_key_hash: Blake3Hash,
}

/// Result of proof verification.
#[derive(Debug, Clone, PartialEq, Eq)]
pub enum ZkVerifyResult {
    Valid,
    Invalid(String),
}

/// The concatenation of a sequence of digests.
pub open spec fn concat_hashes(hs: Seq<Seq<u8>>) -> Seq<u8>
    decreases hs.len(),
{
    if hs.len() == 0 {
        Seq::empty()
    } else {
        concat_hashes(hs.drop_last()) + hs.last()
    }
}

/// The bytes a proof commits to: epoch, range start and end, state root and
/// the block hashes.
pub open spec fn proof_input(epoch: u64, start: u64, end: u64, state_root: Seq<u8>, block_hashes: Seq<Seq<u8>>) -> Seq<u8> {
    spec_u64_to_le_bytes(epoch) + spec_u64_to_le_bytes(start) + spec_u64_to_le_bytes(end) + state_root
        + concat_hashes(block_hashes)
}

/// The proof data for the given inputs: the BLAKE3 digest of what it
/// commits to.
pub open spec fn proof_data_of(epoch: u64, start: u64, end: u64, state_root: Seq<u8>, block_hashes: Seq<Seq<u8>>) -> Seq<u8> {
    blake3_of(proof_input(epoch, start, end, state_root, block_hashes))
}

/// The verification key label of an epoch: "nexara-zk-vk-epoch-" and the
/// epoch in decimal.
pub open spec fn vk_label(epoch: u64) -> Seq<char> {
    "nexara-zk-vk-epoch-"@ + decimal(epoch as nat)
}

/// Generate a finality proof for a range of blocks: its data is the BLAKE3
/// digest of the epoch, range, state root and block hashes; its verification
/// key hash is the digest of the epoch's key label.
pub fn generate_finality_proof(
    epoch: u64,
    block_range_start: u64,
    block_range_end: u64,
    state_root: &Blake3Hash,
    block_hashes: &[Blake3Hash],
) -> (p: ZkFinalityProof)
    ensures
        p.epoch == epoch,
        p.block_range_start == block_range_start,
        p.block_range_end == block_range_end,
        p.state_root == *state_root,
        p.proof_data@ == proof_data_of(epoch, block_range_start, block_range_end, state_root.0@, hash_views(block_hashes@)),
        p.verification_key_hash.0@ == blake3_of(vstd::utf8::encode_utf8(vk_label(epoch))),
{
    let mut input: Vec<u8> = Vec::new();
    push_u64_le(&mut input, epoch);
    push_u64_le(&mut input, block_range_start);
    push_u64_le(&mut input, block_range_end);
    append_bytes(&mut input, state_root.0.as_slice());
    let n = block_hashes.len();
    let mut i: usize = 0;
    while i < n
        invariant
            n == block_hashes@.len(),
            i <= n,
            input@ == proof_input(epoch, block_range_start, block_range_end, state_root.0@, hash_views(block_hashes@.subrange(0, i as int))),
        decreases n - i,
    {
        proof {
            assert(hash_views(block_hashes@.subrange(0, i + 1)).drop_last() =~= hash_views(block_hashes@.subrange(0, i as int)));
        }
        append_bytes(&mut input, block_hashes[i].0.as_slice());
        i = i + 1;
    }
    assert(block_hashes@.subrange(0, n as int) =~= block_hashes@);
    let proof_hash = Blake3Hash::compute(input.as_slice());
    let proof_data = vstd::slice::slice_to_vec(proof_hash.0.as_slice());
    let mut label = String::new();
    label.push_str("nexara-zk-vk-epoch-");
    push_decimal(&mut label, epoch as u128);
    assert(label@ =~= vk_label(epoch));
    let verification_key_hash = Blake3Hash::compute(label.as_str().as_bytes());
    ZkFinalityProof {
        epoch,
        block_range_start,
        block_range_end,
        state_root: *state_root,
        proof_data,
        verification_key_hash,
    }
}

/// Whether a proof is valid for the expected state root and block hashes:
/// its state root matches, its range is ordered, and its data is the digest
/// recomputed from those inputs.
pub open spec fn proof_valid(p: ZkFinalityProof, expected_state_root: Seq<u8>, block_hashes: Seq<Seq<u8>>) -> bool {
    &&& p.state_root.0@ == expected_state_root
    &&& p.block_range_start <= p.block_range_end
    &&& p.proof_data@ == proof_data_of(p.epoch, p.block_range_start, p.block_range_end, expected_state_root, block_hashes)
}

/// Verify a finality proof by recomputing it from the expected inputs.
pub fn verify_finality_proof(
    proof: &ZkFinalityProof,
    expected_state_root: &Blake3Hash,
    block_hashes: &[Blake3Hash],
) -> (r: ZkVerifyResult)
    ensures
        (r == ZkVerifyResult::Valid) == proof_valid(*proof, expected_state_root.0@, hash_views(block_hashes@)),
        proof.state_root.0@ != expected_state_root.0@ ==> (r matches ZkVerifyResult::Invalid(m) && m@ == "State root mismatch"@),
        proof.state_root.0@ == expected_state_root.0@ && proof.block_range_start > proof.block_range_end
            ==> (r matches ZkVerifyResult::Invalid(m) && m@ == "Invalid block range"@),
        proof.state_root.0@ == expected_state_root.0@ && proof.block_range_start <= proof.block_range_end
            && !proof_valid(*proof, expected_state_root.0@, hash_views(block_hashes@))
            ==> (r matches ZkVerifyResult::Invalid(m) && m@ == "Proof data mismatch"@),
{
    if proof.state_root != *expected_state_root {
        return ZkVerifyResult::Invalid("State root mismatch".to_owned());
    }
    if proof.block_range_start > proof.block_range_end {
        return ZkVerifyResult::Invalid("Invalid block range".to_owned());
    }
    let expected = generate_finality_proof(
        proof.epoch,
        proof.block_range_start,
        proof.block_range_end,
        expected_state_root,
        block_hashes,
    );
    if !bytes_eq(proof.proof_data.as_slice(), expected.proof_data.as_slice()) {
        return ZkVerifyResult::Invalid("Proof data mismatch".to_owned());
    }
    ZkVerifyResult::Valid
}

/// Verify each (proof, state root, block hashes) triple in turn.
pub fn batch_verify_proofs(proofs: &[(ZkFinalityProof, Blake3Hash, Vec<Blake3Hash>)]) -> (rs: Vec<ZkVerifyResult>)
    ensures
        rs@.len() == proofs@.len(),
        forall|k: int| 0 <= k < proofs@.len() ==> ((#[trigger] rs@[k]) == ZkVerifyResult::Valid) == proof_valid(
            proofs@[k].0,
            proofs@[k].1.0@,
            hash_views(proofs@[k].2@),
        ),
{
    let mut out: Vec<ZkVerifyResult> = Vec::new();
    let n = proofs.len();
    let mut i: usize = 0;
    while i < n
        invariant
            n == proofs@.len(),
            i <= n,
            out@.len() == i,
            forall|k: int| 0 <= k < i ==> ((#[trigger] out@[k]) == ZkVerifyResult::Valid) == proof_valid(
                proofs@[k].0,
                proofs@[k].1.0@,
                hash_views(proofs@[k].2@),
            ),
        decreases n - i,
    {
        let r = verify_finality_proof(&proofs[i].0, &proofs[i].1, proofs[i].2.as_slice());
        out.push(r);
        i = i + 1;
    }
    out
}

/// A generated proof verifies against the state root and block hashes it
/// was generated from, whenever its block range is ordered.
pub proof fn generated_proof_verifies(p: ZkFinalityProof, state_root: Seq<u8>, block_hashes: Seq<Seq<u8>>)
    requires
        p.state_root.0@ == state_root,
        p.block_range_start <= p.block_range_end,
        p.proof_data@ == proof_data_of(p.epoch, p.block_range_start, p.block_range_end, state_root, block_hashes),
    ensures
        proof_valid(p, state_root, block_hashes),
{
}

} // verus!
