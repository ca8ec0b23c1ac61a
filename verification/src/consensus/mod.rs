//! HybridSync consensus: validators and their stake, delegation and
//! proposer selection, committee sortition, slashing, finality proofs and
//! the attestation and quorum engine.
pub mod aibft;
pub mod committee;
pub mod dpqs;
pub mod error;
pub mod hybridsync;
pub mod slashing;
pub mod validator;
pub mod zk_finality;

pub use committee::Committee;
pub use error::ConsensusError;
pub use hybridsync::{Attestation, ConsensusResult, HybridSyncEngine, QuorumStatus};
pub use slashing::{SlashEvidence, SlashProposal};
pub use validator::{SlashEvent, SlashOffense, Validator, ValidatorSet, ValidatorStatus};
