//! The HybridSync engine: block proposal, attestations, quorum checks and
//! finalization, round by round and epoch by epoch.
use vstd::prelude::*;
use vstd::string::*;
use crate::arith::{sat_mul, saturating_mul_u128};
use crate::consensus::committee::Committee;
use crate::consensus::error::ConsensusError;
use crate::consensus::validator::{active_of, stake_lookup, sum_total_stake, ValidatorSet};
use crate::crypto::hash::{blake3_of, Blake3Hash};
use crate::crypto::keys::{MlDsaSignature, WalletAddress};
use crate::ledger::block::Block;

verus! {

/// An attestation (vote) from a committee member for a proposed block.
#[derive(Debug, Clone)]
pub struct Attestation {
    pub validator: WalletAddress,
    pub block_hash: Blake3Hash,
    pub epoch: u64,
    pub round: u64,
    pub signature: MlDsaSignature,
    pub timestamp: u64,
}

/// Result of a consensus round.
#[derive(Debug, Clone)]
pub enum ConsensusResult {
    /// Block finalized.
    Finalized(Block),
    /// Waiting for more attestations.
    Pending(QuorumStatus),
    /// Round failed: a new proposal is needed.
    RoundFailed(String),
}

/// Quorum progress status.
#[derive(Debug, Clone, Copy)]
pub struct QuorumStatus {
    pub block_hash: Blake3Hash,
    pub attestation_count: usize,
    pub attestation_stake: u128,
    pub required_stake: u128,
    pub threshold_pct: u8,
}

impl QuorumStatus {
    /// Check if the quorum threshold is met.
    pub fn is_met(&self) -> (r: bool)
        ensures
            r == (self.attestation_stake >= self.required_stake),
    {
        self.attestation_stake >= self.required_stake
    }
}

/// The hash of a block: the BLAKE3 digest of its header.
pub open spec fn block_digest(b: Block) -> Seq<u8> {
    blake3_of(b.header.encoding())
}

/// The stake behind a sequence of attestations: for each, the total stake
/// of the first validator with the attester's address (0 for strangers).
pub open spec fn attested_stake(atts: Seq<Attestation>, vs: Seq<crate::consensus::validator::Validator>) -> int
    decreases atts.len(),
{
    if atts.len() == 0 {
        0
    } else {
        attested_stake(atts.drop_last(), vs) + stake_lookup(vs, atts.last().validator.0@)
    }
}

/// No validator attests twice.
pub open spec fn distinct_attesters(atts: Seq<Attestation>) -> bool {
    forall|i: int, j: int| 0 <= i < atts.len() && 0 <= j < atts.len() && i != j ==> (#[trigger] atts[i]).validator.0@
        != (#[trigger] atts[j]).validator.0@
}

/// The HybridSync consensus engine.
pub struct HybridSyncEngine {
    pub epoch: u64,
    pub round: u64,
    pub validator_set: ValidatorSet,
    pub current_committee: Option<Committee>,
    pub pending_attestations: Vec<Attestation>,
    pub quorum_threshold_pct: u8,
    pub proposed_block: Option<Block>,
}

impl HybridSyncEngine {
    /// The engine's round state is consistent: attestations come from
    /// distinct validators and are for the proposed block, and there are
    /// none without a proposal.
    pub open spec fn wf(&self) -> bool {
        &&& distinct_attesters(self.pending_attestations@)
        &&& match self.proposed_block {
            Some(b) => forall|i: int| 0 <= i < self.pending_attestations@.len()
                ==> (#[trigger] self.pending_attestations@[i]).block_hash.0@ == block_digest(b),
            None => self.pending_attestations@.len() == 0,
        }
    }

    /// The stake that a quorum needs: the threshold share of the active stake.
    pub open spec fn spec_required(&self) -> int {
        sat_mul(sum_total_stake(active_of(self.validator_set.validators@)) as u128, self.quorum_threshold_pct as u128) / 100
    }

    /// The stake behind the pending attestations.
    pub open spec fn spec_attested(&self) -> int {
        attested_stake(self.pending_attestations@, self.validator_set.validators@)
    }

    /// Whether `q` is this engine's quorum status: the number of pending
    /// attestations, the stake behind them, the stake a quorum needs, the
    /// threshold, and the hash of the proposed block (of "none" without
    /// one).
    pub open spec fn is_quorum_status(&self, q: QuorumStatus) -> bool {
        &&& q.attestation_count == self.pending_attestations@.len()
        &&& q.attestation_stake == self.spec_attested()
        &&& q.required_stake == self.spec_required()
        &&& q.threshold_pct == self.quorum_threshold_pct
        &&& match self.proposed_block {
            Some(b) => q.block_hash.0@ == block_digest(b),
            None => q.block_hash.0@ == blake3_of("none".spec_bytes()),
        }
    }

    /// The stake sums of the quorum check fit in a `u128`.
    pub open spec fn stakes_fit(&self) -> bool {
        &&& sum_total_stake(active_of(self.validator_set.validators@)) <= u128::MAX
        &&& self.spec_attested() <= u128::MAX
    }

    /// Create a new engine at epoch 0, round 0, with nothing proposed.
    pub fn new(validator_set: ValidatorSet, quorum_threshold_pct: u8) -> (e: Self)
        ensures
            e.epoch == 0,
            e.round == 0,
            e.validator_set == validator_set,
            e.current_committee is None,
            e.pending_attestations@.len() == 0,
            e.quorum_threshold_pct == quorum_threshold_pct,
            e.proposed_block is None,
            e.wf(),
    {
        HybridSyncEngine {
            epoch: 0,
            round: 0,
            validator_set,
            current_committee: None,
            pending_attestations: Vec::new(),
            quorum_threshold_pct,
            proposed_block: None,
        }
    }

    /// Propose a block for the current round; only one proposal per round.
    pub fn propose_block(&mut self, block: Block) -> (r: Result<Blake3Hash, ConsensusError>)
        ensures
            old(self).proposed_block is Some ==> (r matches Err(ConsensusError::InvalidProposal(m)) && m@
                == "Block already proposed for this round"@) && *final(self) == *old(self),
            old(self).proposed_block is None ==> {
                &&& r matches Ok(h) && h.0@ == block_digest(block)
                &&& final(self).proposed_block == Some(block)
                &&& final(self).pending_attestations@.len() == 0
                &&& final(self).epoch == old(self).epoch
                &&& final(self).round == old(self).round
                &&& final(self).validator_set == old(self).validator_set
                &&& final(self).current_committee == old(self).current_committee
                &&& final(self).quorum_threshold_pct == old(self).quorum_threshold_pct
            },
            old(self).wf() ==> final(self).wf(),
    {
        if self.proposed_block.is_some() {
            return Err(ConsensusError::InvalidProposal("Block already proposed for this round".to_owned()));
        }
        let hash = block.hash();
        self.proposed_block = Some(block);
        self.pending_attestations.clear();
        Ok(hash)
    }

    /// Submit an attestation for the proposed block: it must name that
    /// block's hash and come from a validator that has not attested yet.
    pub fn submit_attestation(&mut self, attestation: Attestation) -> (r: Result<(), ConsensusError>)
        ensures
            old(self).proposed_block is None ==> (r matches Err(ConsensusError::InvalidProposal(m)) && m@
                == "No block proposed"@) && *final(self) == *old(self),
            old(self).proposed_block is Some && attestation.block_hash.0@ != block_digest(old(self).proposed_block->0) ==> (r matches Err(
                ConsensusError::InvalidAttestation(m),
            ) && m@ == "Block hash mismatch"@) && *final(self) == *old(self),
            (old(self).proposed_block is Some && attestation.block_hash.0@ == block_digest(old(self).proposed_block->0)) && (exists|
                i: int,
            | 0 <= i < old(self).pending_attestations@.len() && (#[trigger] old(self).pending_attestations@[i]).validator.0@
                == attestation.validator.0@) ==> (r matches Err(ConsensusError::InvalidAttestation(m)) && m@
                == "Duplicate attestation"@) && *final(self) == *old(self),
            (old(self).proposed_block is Some && attestation.block_hash.0@ == block_digest(old(self).proposed_block->0)) && (forall|
                i: int,
            | 0 <= i < old(self).pending_attestations@.len() ==> (#[trigger] old(self).pending_attestations@[i]).validator.0@
                != attestation.validator.0@) ==> r is Ok && final(self).pending_attestations@
                == old(self).pending_attestations@.push(attestation) && final(self).proposed_block
                == old(self).proposed_block && final(self).validator_set == old(self).validator_set
                && final(self).epoch == old(self).epoch && final(self).round == old(self).round
                && final(self).current_committee == old(self).current_committee
                && final(self).quorum_threshold_pct == old(self).quorum_threshold_pct,
            old(self).wf() ==> final(self).wf(),
    {
        let block_hash = match &self.proposed_block {
            None => {
                return Err(ConsensusError::InvalidProposal("No block proposed".to_owned()));
            },
            Some(b) => b.hash(),
        };
        if attestation.block_hash != block_hash {
            return Err(ConsensusError::InvalidAttestation("Block hash mismatch".to_owned()));
        }
        let n = self.pending_attestations.len();
        let mut i: usize = 0;
        while i < n
            invariant
                n == self.pending_attestations@.len(),
                i <= n,
                *self == *old(self),
                old(self).proposed_block is Some,
                attestation.block_hash.0@ == block_digest(old(self).proposed_block->0),
                forall|j: int| 0 <= j < i ==> (#[trigger] self.pending_attestations@[j]).validator.0@
                    != attestation.validator.0@,
            decreases n - i,
        {
            if self.pending_attestations[i].validator == attestation.validator {
                return Err(ConsensusError::InvalidAttestation("Duplicate attestation".to_owned()));
            }
            i = i + 1;
        }
        let ghost pre = self.pending_attestations@;
        assert(forall|j: int| 0 <= j < n ==> (#[trigger] pre[j]).validator.0@ != attestation.validator.0@);
        self.pending_attestations.push(attestation);
        proof {
            let s = self.pending_attestations@;
            if old(self).wf() {
                assert forall|a: int, b: int| 0 <= a < s.len() && 0 <= b < s.len() && a != b implies (#[trigger] s[a]).validator.0@
                    != (#[trigger] s[b]).validator.0@ by {
                    if a == n {
                        assert(s[b] == pre[b]);
                    } else if b == n {
                        assert(s[a] == pre[a]);
                    } else {
                        assert(s[a] == pre[a]);
                        assert(s[b] == pre[b]);
                    }
                }
            }
        }
        Ok(())
    }

    /// Check whether quorum has been reached: the stake behind the
    /// attestations against the threshold share of the active stake.
    pub fn check_quorum(&self) -> (q: QuorumStatus)
        requires
            self.stakes_fit(),
        ensures
            q.attestation_count == self.pending_attestations@.len(),
            q.attestation_stake == self.spec_attested(),
            q.required_stake == self.spec_required(),
            q.threshold_pct == self.quorum_threshold_pct,
            match self.proposed_block {
                Some(b) => q.block_hash.0@ == block_digest(b),
                None => q.block_hash.0@ == blake3_of("none".spec_bytes()),
            },
            self.is_quorum_status(q),
    {
        let total_active_stake = self.validator_set.total_active_stake();
        let required_stake = saturating_mul_u128(total_active_stake, self.quorum_threshold_pct as u128) / 100;
        let n = self.pending_attestations.len();
        let mut stake: u128 = 0;
        let mut i: usize = 0;
        while i < n
            invariant
                n == self.pending_attestations@.len(),
                i <= n,
                self.spec_attested() <= u128::MAX,
                stake == attested_stake(self.pending_attestations@.subrange(0, i as int), self.validator_set.validators@),
            decreases n - i,
        {
            proof {
                assert(self.pending_attestations@.subrange(0, i + 1).drop_last() =~= self.pending_attestations@.subrange(0, i as int));
                lemma_attested_prefix_bound(self.pending_attestations@, self.validator_set.validators@, i + 1);
            }
            match self.validator_set.get_validator(&self.pending_attestations[i].validator) {
                Some(v) => {
                    stake = stake + v.total_stake;
                },
                None => {},
            }
            i = i + 1;
        }
        assert(self.pending_attestations@.subrange(0, n as int) =~= self.pending_attestations@);
        let block_hash = match &self.proposed_block {
            Some(b) => b.hash(),
            None => Blake3Hash::compute("none".as_bytes()),
        };
        QuorumStatus {
            block_hash,
            attestation_count: n,
            attestation_stake: stake,
            required_stake,
            threshold_pct: self.quorum_threshold_pct,
        }
    }

    /// Finalize the proposed block if quorum is met: it is returned, the
    /// attestations are cleared and the round advances. Below quorum the
    /// status is returned; at quorum without a proposal the round fails.
    pub fn finalize_block(&mut self) -> (r: ConsensusResult)
        requires
            old(self).stakes_fit(),
            old(self).spec_attested() >= old(self).spec_required() && old(self).proposed_block is Some
                ==> old(self).round < u64::MAX,
        ensures
            old(self).spec_attested() < old(self).spec_required() ==> (r matches ConsensusResult::Pending(q)
                && old(self).is_quorum_status(q)) && *final(self) == *old(self),
            old(self).spec_attested() >= old(self).spec_required() && old(self).proposed_block is None ==> (r matches ConsensusResult::RoundFailed(m)
                && m@ == "No block to finalize"@) && *final(self) == *old(self),
            old(self).spec_attested() >= old(self).spec_required() && old(self).proposed_block is Some ==> {
                &&& r matches ConsensusResult::Finalized(fb) && fb == old(self).proposed_block->0
                &&& final(self).proposed_block is None
                &&& final(self).pending_attestations@.len() == 0
                &&& final(self).round == old(self).round + 1
                &&& final(self).epoch == old(self).epoch
                &&& final(self).validator_set == old(self).validator_set
                &&& final(self).current_committee == old(self).current_committee
                &&& final(self).quorum_threshold_pct == old(self).quorum_threshold_pct
            },
            old(self).wf() ==> final(self).wf(),
    {
        let status = self.check_quorum();
        if !status.is_met() {
            return ConsensusResult::Pending(status);
        }
        match self.proposed_block.take() {
            Some(block) => {
                self.pending_attestations.clear();
                self.round += 1;
                ConsensusResult::Finalized(block)
            },
            None => ConsensusResult::RoundFailed("No block to finalize".to_owned()),
        }
    }

    /// Advance to a new epoch: round 0, no proposal, attestations or
    /// committee.
    pub fn advance_epoch(&mut self)
        requires
            old(self).epoch < u64::MAX,
        ensures
            final(self).epoch == old(self).epoch + 1,
            final(self).round == 0,
            final(self).pending_attestations@.len() == 0,
            final(self).proposed_block is None,
            final(self).current_committee is None,
            final(self).validator_set == old(self).validator_set,
            final(self).quorum_threshold_pct == old(self).quorum_threshold_pct,
            final(self).wf(),
    {
        self.epoch += 1;
        self.round = 0;
        self.pending_attestations.clear();
        self.proposed_block = None;
        self.current_committee = None;
    }

    /// Set the committee for the current round.
    pub fn set_committee(&mut self, committee: Committee)
        ensures
            final(self).current_committee == Some(committee),
            final(self).epoch == old(self).epoch,
            final(self).round == old(self).round,
            final(self).validator_set == old(self).validator_set,
            final(self).pending_attestations@ == old(self).pending_attestations@,
            final(self).proposed_block == old(self).proposed_block,
            final(self).quorum_threshold_pct == old(self).quorum_threshold_pct,
    {
        self.current_committee = Some(committee);
    }
}

proof fn lemma_attested_prefix_bound(atts: Seq<Attestation>, vs: Seq<crate::consensus::validator::Validator>, k: int)
    requires
        0 <= k <= atts.len(),
    ensures
        attested_stake(atts.subrange(0, k), vs) <= attested_stake(atts, vs),
    decreases atts.len() - k,
{
    if k < atts.len() {
        lemma_attested_prefix_bound(atts, vs, k + 1);
        assert(atts.subrange(0, k + 1).drop_last() =~= atts.subrange(0, k));
        lemma_lookup_nonneg(vs, atts[k].validator.0@);
    } else {
        assert(atts.subrange(0, k) =~= atts);
    }
}

proof fn lemma_lookup_nonneg(vs: Seq<crate::consensus::validator::Validator>, a: Seq<u8>)
    ensures
        stake_lookup(vs, a) >= 0,
{
}

} // verus!
