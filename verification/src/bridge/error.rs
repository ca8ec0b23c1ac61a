//! Errors of the bridge.
use vstd::prelude::*;

verus! {

/// Errors raised by bridge transfers and chain adapters.
#[derive(Debug, Clone, PartialEq, Eq)]
pub enum BridgeError {
    UnsupportedChain(String),
    InvalidProof(String),
    DuplicateTransfer(String),
    NullifierSpent(String),
    InsufficientLiquidity { need: u128, have: u128 },
    BridgePaused(String),
    InvalidMessage(String),
    TransferTimeout(String),
    RelayerError(String),
}

} // verus!
