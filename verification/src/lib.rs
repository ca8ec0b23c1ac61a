//! NEXARA: a sharded, post-quantum Layer 1 blockchain library.
//!
//! The library holds the chain's verified logic: hashing and key
//! encodings, transactions, blocks and chain state, tokenomics, consensus
//! helpers, the cross-chain bridge, the mempool, peer management and
//! sharding.
pub mod arith;
pub mod bridge;
pub mod bytes;
pub mod consensus;
pub mod crypto;
pub mod ledger;
pub mod mempool;
pub mod network;
pub mod node;
pub mod shard;
pub mod text;
pub mod tokenomics;
