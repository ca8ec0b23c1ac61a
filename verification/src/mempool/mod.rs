//! The transaction mempool: a fee-ordered pool with eviction, ordering
//! strategies and protection against front-running.
pub mod error;
pub mod mev_protection;
pub mod ordering;
pub mod pool;

pub use error::MempoolError;
pub use mev_protection::MevProtection;
pub use ordering::TransactionOrdering;
pub use pool::Mempool;
