//! Errors of the cryptographic layer.
use vstd::prelude::*;

verus! {

/// Errors that can occur during cryptographic operations.
#[allow(inconsistent_fields)]
#[derive(Debug, Clone, PartialEq, Eq)]
pub enum CryptoError {
    InvalidHex(String),
    InvalidKeyLength { expected: usize, got: usize },
    InvalidSignatureLength { expected: usize, got: usize },
    VerificationFailed,
    DecapsulationFailed,
    MpcReconstructionFailed(String),
    InsufficientShares { threshold: u8, got: u8 },
    InvalidShareIndex,
    Serialization(String),
}

} // verus!
