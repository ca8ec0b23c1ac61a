//! Errors of the core blockchain layer.
use vstd::prelude::*;

verus! {

/// Errors that can occur in the core blockchain layer.
#[derive(Debug, Clone, PartialEq, Eq)]
pub enum CoreError {
    InvalidBlock(String),
    InvalidTransaction(String),
    DuplicateTransaction(String),
    InsufficientBalance { have: u128, need: u128 },
    InvalidNonce { expected: u64, got: u64 },
    ShardOutOfRange(u16),
    BlockTooLarge { size: usize, max: usize },
    MerkleRootMismatch,
    Serialization(String),
    GenesisError(String),
    MempoolFull,
    AccountNotFound(String),
}

} // verus!
