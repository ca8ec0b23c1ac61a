//! Slashing: evidence validation, slash amounts and slash events.
use vstd::prelude::*;
use crate::arith::{sat_mul, saturating_mul_u128};
use crate::consensus::validator::{SlashEvent, SlashOffense};
use crate::crypto::hash::Blake3Hash;
use crate::crypto::keys::WalletAddress;

verus! {

/// A slash proposal submitted by a validator.
#[derive(Debug, Clone)]
pub struct SlashProposal {
    pub proposer: WalletAddress,
    pub offender: WalletAddress,
    pub offense: SlashOffense,
    pub evidence: SlashEvidence,
    pub evidence_hash: Blake3Hash,
    pub block_height: u64,
}

/// Evidence for a slashable offense.
#[derive(Debug, Clone)]
pub enum SlashEvidence {
    /// Two signed blocks at the same height.
    DoubleSign { block_hash_a: Blake3Hash, block_hash_b: Blake3Hash, height: u64 },
    /// An invalid ZK proof submission.
    InvalidZkProof { proof_hash: Blake3Hash, expected_root: Blake3Hash },
    /// Validator unresponsive for a number of consecutive blocks.
    Unavailability { missed_blocks: u64, window_start: u64, window_end: u64 },
    /// General Byzantine behavior evidence.
    Byzantine { description: String, evidence_data: Vec<u8> },
}

/// The share of stake slashed for an offense, in percent.
pub open spec fn slash_pct(offense: SlashOffense) -> u128 {
    match offense {
        SlashOffense::DoubleSign => 100,
        SlashOffense::InvalidZkProof => 50,
        SlashOffense::Unavailability => 10,
        SlashOffense::ByzantineBehavior => 75,
        SlashOffense::InvalidAttestation => 25,
    }
}

/// The slash amount for an offense: double signing loses all of the stake,
/// an invalid ZK proof half, unavailability a tenth, Byzantine behaviour
/// three quarters and an invalid attestation a quarter (the product
/// saturating at `u128::MAX`, then rounded down).
pub fn calculate_slash_amount(offense: SlashOffense, validator_stake: u128) -> (a: u128)
    ensures
        a == sat_mul(validator_stake, slash_pct(offense)) / 100,
{
    let pct: u128 = match offense {
        SlashOffense::DoubleSign => 100,
        SlashOffense::InvalidZkProof => 50,
        SlashOffense::Unavailability => 10,
        SlashOffense::ByzantineBehavior => 75,
        SlashOffense::InvalidAttestation => 25,
    };
    saturating_mul_u128(validator_stake, pct) / 100
}

/// Whether a proposal's evidence supports its offense: two different block
/// hashes for double signing, a proof hash different from the expected root
/// for an invalid ZK proof, more than 100 missed blocks for unavailability,
/// non-empty data for Byzantine behaviour. Any other pairing is invalid.
pub open spec fn evidence_valid(p: SlashProposal) -> bool {
    match p.evidence {
        SlashEvidence::DoubleSign { block_hash_a, block_hash_b, .. } => p.offense == SlashOffense::DoubleSign
            && block_hash_a.0@ != block_hash_b.0@,
        SlashEvidence::InvalidZkProof { proof_hash, expected_root } => p.offense == SlashOffense::InvalidZkProof
            && proof_hash.0@ != expected_root.0@,
        SlashEvidence::Unavailability { missed_blocks, .. } => p.offense == SlashOffense::Unavailability
            && missed_blocks > 100,
        SlashEvidence::Byzantine { evidence_data, .. } => p.offense == SlashOffense::ByzantineBehavior
            && evidence_data@.len() > 0,
    }
}

/// Validate the evidence in a slash proposal.
pub fn validate_slash_evidence(proposal: &SlashProposal) -> (r: bool)
    ensures
        r == evidence_valid(*proposal),
{
    match &proposal.evidence {
        SlashEvidence::DoubleSign { block_hash_a, block_hash_b, .. } => {
            proposal.offense == SlashOffense::DoubleSign && *block_hash_a != *block_hash_b
        },
        SlashEvidence::InvalidZkProof { proof_hash, expected_root } => {
            proposal.offense == SlashOffense::InvalidZkProof && *proof_hash != *expected_root
        },
        SlashEvidence::Unavailability { missed_blocks, .. } => {
            proposal.offense == SlashOffense::Unavailability && *missed_blocks > 100
        },
        SlashEvidence::Byzantine { evidence_data, .. } => {
            proposal.offense == SlashOffense::ByzantineBehavior && evidence_data.len() > 0
        },
    }
}

/// Create a slash event from a validated proposal.
pub fn create_slash_event(proposal: &SlashProposal, amount: u128) -> (e: SlashEvent)
    ensures
        e.block_height == proposal.block_height,
        e.offense == proposal.offense,
        e.amount_slashed == amount,
        e.evidence_hash == proposal.evidence_hash,
{
    SlashEvent {
        block_height: proposal.block_height,
        offense: proposal.offense,
        amount_slashed: amount,
        evidence_hash: proposal.evidence_hash,
    }
}

/// Evidence is judged by what it shows: double signing needs two different
/// block hashes (equal hashes never prove it), an invalid ZK proof needs a
/// proof hash other than the expected root, unavailability needs more than
/// 100 missed blocks, Byzantine behaviour needs some evidence data, and
/// evidence of one kind never supports another offense.
pub proof fn evidence_shows_the_offense(p: SlashProposal)
    ensures
        (p.evidence matches SlashEvidence::DoubleSign { block_hash_a, block_hash_b, .. } && block_hash_a.0@
            == block_hash_b.0@) ==> !evidence_valid(p),
        (p.evidence matches SlashEvidence::DoubleSign { block_hash_a, block_hash_b, .. } && block_hash_a.0@
            != block_hash_b.0@ && p.offense == SlashOffense::DoubleSign) ==> evidence_valid(p),
        (p.evidence matches SlashEvidence::InvalidZkProof { proof_hash, expected_root } && proof_hash.0@
            == expected_root.0@) ==> !evidence_valid(p),
        (p.evidence matches SlashEvidence::Unavailability { missed_blocks, .. } && missed_blocks <= 100)
            ==> !evidence_valid(p),
        (p.evidence matches SlashEvidence::Byzantine { evidence_data, .. } && evidence_data@.len() == 0)
            ==> !evidence_valid(p),
        evidence_valid(p) ==> match p.evidence {
            SlashEvidence::DoubleSign { .. } => p.offense == SlashOffense::DoubleSign,
            SlashEvidence::InvalidZkProof { .. } => p.offense == SlashOffense::InvalidZkProof,
            SlashEvidence::Unavailability { .. } => p.offense == SlashOffense::Unavailability,
            SlashEvidence::Byzantine { .. } => p.offense == SlashOffense::ByzantineBehavior,
        },
{
}

/// No offense slashes more than the whole stake.
pub proof fn slash_never_exceeds_stake(offense: SlashOffense, stake: u128)
    ensures
        sat_mul(stake, slash_pct(offense)) / 100 <= stake,
{
    let p = slash_pct(offense) as int;
    let s = stake as int;
    assert(p <= 100);
    assert(s * p <= s * 100) by (nonlinear_arith)
        requires 0 <= p <= 100, s >= 0;
}

} // verus!
