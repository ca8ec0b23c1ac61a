//! Errors of the shard layer.
use vstd::prelude::*;

verus! {

/// Shard errors.
#[derive(Debug, Clone, PartialEq, Eq)]
pub enum ShardError {
    InvalidShardId(u16),
    ShardFull(String),
    CrossShard(String),
    Beacon(String),
    Assignment(String),
    State(String),
}

} // verus!
