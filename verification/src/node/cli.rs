//! The shape of the node's command line; parsing it is the program's job.
use vstd::prelude::*;

verus! {

/// The node's command-line arguments.
#[derive(Debug, Clone)]
pub struct Cli {
    /// Path to a JSON config file.
    pub config: Option<String>,
    /// Validator mode.
    pub validator: bool,
    /// RPC server port.
    pub rpc_port: u16,
    /// P2P listen port.
    pub p2p_port: u16,
    /// Data directory.
    pub data_dir: Option<String>,
    /// Log level (trace, debug, info, warn, error).
    pub log_level: String,
    /// Bootnode multiaddrs.
    pub bootnodes: Vec<String>,
    /// The subcommand, if any.
    pub command: Option<Commands>,
}

/// Subcommands.
#[derive(Debug, Clone)]
pub enum Commands {
    /// Initialize a new chain with genesis.
    Init { genesis: Option<String> },
    /// Export chain data.
    Export { output: String },
    /// Show node version and configuration.
    Info,
}

} // verus!
