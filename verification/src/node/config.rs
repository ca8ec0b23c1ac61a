//! Node configuration.
use vstd::prelude::*;
use vstd::string::*;

verus! {

/// Default RPC port.
pub const DEFAULT_RPC_PORT: u16 = 9944;

/// Default P2P port.
pub const DEFAULT_P2P_PORT: u16 = 30333;

/// Full node configuration; paths are held as strings.
#[derive(Debug, Clone)]
pub struct NodeConfig {
    pub chain_id: u64,
    pub data_dir: String,
    pub rpc_port: u16,
    pub p2p_port: u16,
    pub validator: bool,
    pub validator_key_path: Option<String>,
    pub max_peers: usize,
    pub log_level: String,
    pub num_shards: u32,
    pub block_time_ms: u64,
    pub genesis_path: Option<String>,
    pub bootnodes: Vec<String>,
}

impl NodeConfig {
    /// The default configuration with the given data directory: mainnet,
    /// default ports, full node, 50 peers, "info" logging, 100 shards and
    /// 200 ms blocks.
    pub fn default_in(data_dir: String) -> (c: Self)
        ensures
            c.chain_id == 20240101,
            c.data_dir == data_dir,
            c.rpc_port == DEFAULT_RPC_PORT,
            c.p2p_port == DEFAULT_P2P_PORT,
            !c.validator,
            c.validator_key_path is None,
            c.max_peers == 50,
            c.log_level@ == "info"@,
            c.num_shards == 100,
            c.block_time_ms == 200,
            c.genesis_path is None,
            c.bootnodes@.len() == 0,
            c.spec_valid(),
    {
        NodeConfig {
            chain_id: 20240101,
            data_dir,
            rpc_port: DEFAULT_RPC_PORT,
            p2p_port: DEFAULT_P2P_PORT,
            validator: false,
            validator_key_path: None,
            max_peers: 50,
            log_level: "info".to_owned(),
            num_shards: 100,
            block_time_ms: 200,
            genesis_path: None,
            bootnodes: Vec::new(),
        }
    }

    /// Whether the configuration is usable: shards, block time and peer
    /// limit all positive.
    pub open spec fn spec_valid(&self) -> bool {
        self.num_shards > 0 && self.block_time_ms > 0 && self.max_peers > 0
    }

    /// Validate the configuration; the first failing check is reported.
    pub fn validate(&self) -> (r: Result<(), String>)
        ensures
            self.num_shards == 0 ==> (r matches Err(m) && m@ == "num_shards must be > 0"@),
            self.num_shards > 0 && self.block_time_ms == 0 ==> (r matches Err(m) && m@ == "block_time_ms must be > 0"@),
            self.num_shards > 0 && self.block_time_ms > 0 && self.max_peers == 0 ==> (r matches Err(m) && m@
                == "max_peers must be > 0"@),
            r is Ok <==> self.spec_valid(),
    {
        if self.num_shards == 0 {
            return Err("num_shards must be > 0".to_owned());
        }
        if self.block_time_ms == 0 {
            return Err("block_time_ms must be > 0".to_owned());
        }
        if self.max_peers == 0 {
            return Err("max_peers must be > 0".to_owned());
        }
        Ok(())
    }

    /// Apply command-line overrides: the ports and validator mode always,
    /// the data directory when one is given, the bootnodes when any are.
    pub fn apply_overrides(
        &mut self,
        rpc_port: u16,
        p2p_port: u16,
        validator: bool,
        data_dir: Option<String>,
        bootnodes: Vec<String>,
    )
        ensures
            final(self).rpc_port == rpc_port,
            final(self).p2p_port == p2p_port,
            final(self).validator == validator,
            final(self).data_dir == (match data_dir {
                Some(d) => d,
                None => old(self).data_dir,
            }),
            final(self).bootnodes@ == (if bootnodes@.len() > 0 { bootnodes@ } else { old(self).bootnodes@ }),
            final(self).chain_id == old(self).chain_id,
            final(self).validator_key_path == old(self).validator_key_path,
            final(self).max_peers == old(self).max_peers,
            final(self).log_level == old(self).log_level,
            final(self).num_shards == old(self).num_shards,
            final(self).block_time_ms == old(self).block_time_ms,
            final(self).genesis_path == old(self).genesis_path,
    {
        self.rpc_port = rpc_port;
        self.p2p_port = p2p_port;
        self.validator = validator;
        if let Some(dir) = data_dir {
            self.data_dir = dir;
        }
        if bootnodes.len() > 0 {
            self.bootnodes = bootnodes;
        }
    }
}

} // verus!
