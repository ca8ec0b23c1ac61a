//! Core blockchain primitives: blocks, transactions, chain state, genesis
//! configuration and the errors of this layer.
pub mod block;
pub mod error;
pub mod genesis;
pub mod state;
pub mod transaction;

pub use error::CoreError;
pub use transaction::{Transaction, TransactionType, TransactionPool};
pub use block::{Block, BlockHeader, CrossShardReceipt, calculate_merkle_root};
pub use state::{ChainState, AccountState};
pub use genesis::{GenesisConfig, GenesisValidator, GenesisAllocation, AllocationType, VestingSchedule};
