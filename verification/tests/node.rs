use nexara::node::config::{NodeConfig, DEFAULT_RPC_PORT};
use nexara::node::rpc::method_not_found;

fn default_config() -> NodeConfig {
    NodeConfig::default_in(".nexara".to_string())
}

#[test]
fn test_default_config() {
    let cfg = default_config();
    assert_eq!(cfg.chain_id, 20240101);
    assert_eq!(cfg.rpc_port, DEFAULT_RPC_PORT);
    assert_eq!(cfg.num_shards, 100);
    assert!(!cfg.validator);
}

#[test]
fn test_validate_ok() {
    let cfg = default_config();
    assert!(cfg.validate().is_ok());
}

#[test]
fn test_validate_bad_shards() {
    let cfg = NodeConfig { num_shards: 0, ..default_config() };
    assert!(cfg.validate().is_err());
}

#[test]
fn validate_reports_first_failure() {
    let cfg = NodeConfig { block_time_ms: 0, max_peers: 0, ..default_config() };
    assert_eq!(cfg.validate(), Err("block_time_ms must be > 0".to_string()));
    let cfg = NodeConfig { max_peers: 0, ..default_config() };
    assert_eq!(cfg.validate(), Err("max_peers must be > 0".to_string()));
}

#[test]
fn unknown_method_error() {
    let e = method_not_found("nonexistent");
    assert_eq!(e.code, -32601);
    assert_eq!(e.message, "Method not found: nonexistent");
}

#[test]
fn overrides_replace_ports_and_keep_unset_fields() {
    let mut c = default_config();
    c.bootnodes = vec!["/ip4/1.2.3.4/tcp/30333".to_string()];
    c.apply_overrides(1, 2, true, None, Vec::new());
    assert_eq!((c.rpc_port, c.p2p_port, c.validator), (1, 2, true));
    assert_eq!(c.data_dir, ".nexara");
    assert_eq!(c.bootnodes, vec!["/ip4/1.2.3.4/tcp/30333".to_string()]);
    c.apply_overrides(3, 4, false, Some("/tmp/nx".to_string()), vec!["a".to_string(), "b".to_string()]);
    assert_eq!((c.rpc_port, c.p2p_port, c.validator), (3, 4, false));
    assert_eq!(c.data_dir, "/tmp/nx");
    assert_eq!(c.bootnodes, vec!["a".to_string(), "b".to_string()]);
    assert_eq!(c.num_shards, 100);
}
