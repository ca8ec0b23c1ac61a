//! Node-level definitions: configuration and its validation, the command
//! line's shape, and JSON-RPC errors.
pub mod cli;
pub mod config;
pub mod rpc;

pub use cli::{Cli, Commands};
pub use config::NodeConfig;
pub use rpc::RpcError;
