//! Errors of the consensus layer.
use vstd::prelude::*;

verus! {

/// Errors in the consensus layer.
#[derive(Debug, Clone, PartialEq, Eq)]
pub enum ConsensusError {
    InvalidAttestation(String),
    QuorumNotReached { have: u128, need: u128 },
    DuplicateAttestation(String),
    ValidatorNotFound(String),
    NotInCommittee,
    InvalidProposal(String),
    SlashingError(String),
    ZkVerificationFailed,
    EpochError(String),
    Other(String),
}

} // verus!
