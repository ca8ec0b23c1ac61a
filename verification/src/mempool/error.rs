//! Errors of the mempool.
use vstd::prelude::*;

verus! {

/// Errors raised when admitting transactions to the mempool.
#[derive(Debug, Clone, PartialEq, Eq)]
pub enum MempoolError {
    PoolFull(String),
    Duplicate(String),
    Invalid(String),
    NonceTooLow { expected: u64, got: u64 },
    FeeTooLow { minimum: u128 },
}

} // verus!
