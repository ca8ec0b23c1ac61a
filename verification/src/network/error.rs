//! Errors of the networking layer.
use vstd::prelude::*;

verus! {

/// Network errors.
#[derive(Debug, Clone, PartialEq, Eq)]
pub enum NetworkError {
    ConnectionFailed(String),
    HandshakeFailed(String),
    InvalidPeer(String),
    GossipError(String),
    Serialization(String),
    Timeout(String),
    PeerNotFound(String),
    Protocol(String),
}

} // verus!
