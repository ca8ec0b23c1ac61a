use nexara::crypto::hash::Blake3Hash;
use nexara::crypto::keys::{KeyPair, MlDsaPublicKey, WalletAddress};
use nexara::network::discovery::{xor_distance, PeerDiscovery};
use nexara::network::gossip::{GossipMessage, GossipMessageType, MessageDedup};
use nexara::network::handshake::{accept_handshake, reject_handshake, validate_handshake, HandshakeRequest};
use nexara::network::p2p::{NetworkConfig, PeerInfo, PeerManager};

fn make_peer(id: u8, shard: u16) -> PeerInfo {
    let mut peer_id = [0u8; 32];
    peer_id[0] = id;
    PeerInfo {
        peer_id,
        address: "127.0.0.1".into(),
        port: 30303,
        version: "0.1.0".into(),
        chain_id: 20240101,
        shard_ids: vec![shard],
        connected_at: 1000,
        last_seen: 1000,
        latency_ms: 10,
    }
}

#[test]
fn test_add_peer() {
    let mut pm = PeerManager::new(NetworkConfig::default());
    assert!(pm.add_peer(make_peer(1, 0)));
    assert_eq!(pm.peer_count(), 1);
}

#[test]
fn test_max_peers() {
    let config = NetworkConfig { max_peers: 1, ..NetworkConfig::default() };
    let mut pm = PeerManager::new(config);
    assert!(pm.add_peer(make_peer(1, 0)));
    assert!(!pm.add_peer(make_peer(2, 0)));
}

#[test]
fn test_wrong_chain_id() {
    let mut pm = PeerManager::new(NetworkConfig::default());
    let mut peer = make_peer(1, 0);
    peer.chain_id = 999;
    assert!(!pm.add_peer(peer));
}

#[test]
fn test_peers_for_shard() {
    let mut pm = PeerManager::new(NetworkConfig::default());
    pm.add_peer(make_peer(1, 0));
    pm.add_peer(make_peer(2, 1));
    pm.add_peer(make_peer(3, 0));
    assert_eq!(pm.peers_for_shard(0).len(), 2);
    assert_eq!(pm.peers_for_shard(1).len(), 1);
}

#[test]
fn test_prune_stale() {
    let mut pm = PeerManager::new(NetworkConfig::default());
    let mut peer = make_peer(1, 0);
    peer.last_seen = 100;
    pm.add_peer(peer);
    pm.prune_stale_peers(200);
    assert_eq!(pm.peer_count(), 0);
}

#[test]
fn readding_a_peer_replaces_it() {
    let mut pm = PeerManager::new(NetworkConfig::default());
    pm.add_peer(make_peer(1, 0));
    let mut again = make_peer(1, 0);
    again.port = 4000;
    assert!(pm.add_peer(again));
    assert_eq!(pm.peer_count(), 1);
    let id = make_peer(1, 0).peer_id;
    assert_eq!(pm.get_peer(&id).unwrap().port, 4000);
    assert_eq!(pm.connected_peer_ids(), vec![id]);
    assert!(pm.has_capacity());
    assert_eq!(pm.remove_peer(&id).unwrap().port, 4000);
    assert!(pm.get_peer(&id).is_none());
    let mut recent = make_peer(2, 0);
    recent.last_seen = 190;
    pm.add_peer(recent);
    pm.prune_stale_peers(200);
    assert_eq!(pm.peer_count(), 1);
}

#[test]
fn test_register_peer() {
    let config = NetworkConfig::default();
    let mut disc = PeerDiscovery::new(&config);
    assert!(disc.register_peer(make_peer(1, 0)));
    assert_eq!(disc.known_peer_count(), 1);
}

#[test]
fn test_closest_peers() {
    let config = NetworkConfig::default();
    let mut disc = PeerDiscovery::new(&config);
    disc.register_peer(make_peer(1, 0));
    disc.register_peer(make_peer(2, 0));
    disc.register_peer(make_peer(3, 0));
    let target = [1u8; 32];
    let closest = disc.closest_peers(&target, 2);
    assert_eq!(closest.len(), 2);
}

#[test]
fn closest_peers_come_in_distance_order() {
    let config = NetworkConfig::default();
    let mut disc = PeerDiscovery::new(&config);
    disc.register_peer(make_peer(8, 0));
    disc.register_peer(make_peer(1, 0));
    disc.register_peer(make_peer(3, 0));
    let target = [0u8; 32];
    let ids: Vec<u8> = disc.closest_peers(&target, 3).iter().map(|p| p.peer_id[0]).collect();
    assert_eq!(ids, vec![1, 3, 8]);
    disc.remove_peer(&make_peer(1, 0).peer_id);
    assert_eq!(disc.all_peer_ids().len(), 2);
}

#[test]
fn test_xor_distance() {
    let a = [0u8; 32];
    let b = [0u8; 32];
    assert_eq!(xor_distance(&a, &b), [0u8; 32]);
}

#[test]
fn xor_distance_of_distinct_ids() {
    let mut a = [0u8; 32];
    a[0] = 0b1010;
    let mut b = [0u8; 32];
    b[0] = 0b0110;
    let mut expected = [0u8; 32];
    expected[0] = 0b1100;
    assert_eq!(xor_distance(&a, &b), expected);
}

#[test]
fn test_gossip_message_creation() {
    let sender = [1u8; 32];
    let msg = GossipMessage::new(GossipMessageType::NewBlock, b"block-data".to_vec(), sender, 0);
    assert_eq!(msg.msg_type, GossipMessageType::NewBlock);
    assert_eq!(msg.ttl, 8);
    assert!(msg.should_propagate());
}

#[test]
fn test_message_forwarding() {
    let msg = GossipMessage::new(GossipMessageType::NewTransaction, b"tx-data".to_vec(), [0u8; 32], 0);
    let fwd = msg.forwarded();
    assert_eq!(fwd.ttl, 7);
    assert_eq!(fwd.message_id, msg.message_id);
}

#[test]
fn forwarding_stops_at_zero() {
    let mut msg = GossipMessage::new(GossipMessageType::PeerAnnounce, vec![1, 2], [5u8; 32], 3);
    let mut expected_id = vec![5u8; 32];
    expected_id.extend_from_slice(&[1, 2]);
    expected_id.extend_from_slice(&3u16.to_le_bytes());
    assert_eq!(msg.message_id, Blake3Hash::compute(&expected_id));
    for _ in 0..8 {
        msg = msg.forwarded();
    }
    assert_eq!(msg.ttl, 0);
    assert!(!msg.should_propagate());
    assert_eq!(msg.forwarded().ttl, 0);
}

#[test]
fn test_dedup() {
    let mut dedup = MessageDedup::new(100);
    let id = Blake3Hash::compute(b"msg1");
    assert!(dedup.check_and_mark(&id));
    assert!(!dedup.check_and_mark(&id));
}

#[test]
fn test_dedup_eviction() {
    let mut dedup = MessageDedup::new(10);
    for i in 0..15u32 {
        let id = Blake3Hash::compute(&i.to_le_bytes());
        dedup.check_and_mark(&id);
    }
    assert!(dedup.len() <= 10);
}

fn request(chain_id: u64, genesis: Blake3Hash, shards: Vec<u16>) -> HandshakeRequest {
    HandshakeRequest {
        version: "0.1.0".into(),
        chain_id,
        pubkey: KeyPair::generate().public,
        node_address: WalletAddress::zero(),
        genesis_hash: genesis,
        best_block_height: 0,
        best_block_hash: Blake3Hash::compute(b"block0"),
        shard_ids: shards,
        timestamp: 1000,
        nonce: 42,
    }
}

#[test]
fn test_validate_handshake_ok() {
    let genesis = Blake3Hash::compute(b"genesis");
    let req = request(20240101, genesis, vec![0]);
    assert!(validate_handshake(&req, 20240101, &genesis).is_ok());
}

#[test]
fn test_validate_chain_id_mismatch() {
    let genesis = Blake3Hash::compute(b"genesis");
    let req = request(999, genesis, vec![0]);
    assert!(validate_handshake(&req, 20240101, &genesis).is_err());
}

#[test]
fn handshake_error_messages() {
    let genesis = Blake3Hash::compute(b"genesis");
    assert_eq!(
        validate_handshake(&request(999, genesis, vec![0]), 20240101, &genesis),
        Err("Chain ID mismatch: expected 20240101, got 999".to_string())
    );
    assert_eq!(
        validate_handshake(&request(1, Blake3Hash::zero(), vec![0]), 1, &genesis),
        Err("Genesis hash mismatch".to_string())
    );
    assert_eq!(
        validate_handshake(&request(1, genesis, vec![]), 1, &genesis),
        Err("Peer must serve at least one shard".to_string())
    );
}

#[test]
fn test_accept_handshake() {
    let kp = KeyPair::generate();
    let resp = accept_handshake(kp.public, WalletAddress::zero(), 20240101, 100, Blake3Hash::compute(b"best"), vec![0, 1]);
    assert!(resp.accepted);
    assert!(resp.reason.is_none());
}

#[test]
fn test_reject_handshake() {
    let resp = reject_handshake("Bad peer".into());
    assert!(!resp.accepted);
    assert_eq!(resp.reason.unwrap(), "Bad peer");
}

#[test]
fn reject_carries_no_identity() {
    let resp = reject_handshake("x".into());
    assert_eq!(resp.pubkey.0, MlDsaPublicKey(vec![0u8; 1952]).0);
    assert_eq!(resp.best_block_hash, Blake3Hash::compute(b""));
    assert_eq!(resp.version, "0.1.0");
}
