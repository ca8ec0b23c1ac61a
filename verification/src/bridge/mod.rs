//! The Native Cross-Chain Protocol: bridge transfers with nullifiers
//! against double spending, and the adapters that validate deposits from
//! Ethereum, BNB Chain, Solana, Cosmos and Bitcoin.
pub mod bitcoin;
pub mod bnb;
pub mod cosmos;
pub mod error;
pub mod ethereum;
pub mod nccp;
pub mod nullifier;
pub mod solana;

pub use error::BridgeError;
pub use nccp::{BridgeMessage, BridgeStatus, BridgeTransfer};
pub use nullifier::NullifierSet;
