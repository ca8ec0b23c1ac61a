//! The sharded architecture: shard state, address-to-shard mapping,
//! validator assignment, the beacon chain and cross-shard messages.
pub mod assignment;
pub mod beacon;
pub mod crosslink;
pub mod error;
pub mod shard;

pub use assignment::ShardAssignment;
pub use beacon::BeaconChain;
pub use crosslink::{CrossLink, CrossShardMessage};
pub use error::ShardError;
pub use shard::{Shard, ShardConfig, ShardState};
