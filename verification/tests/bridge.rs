use nexara::bridge::bitcoin::{BitcoinBridge, BitcoinNetwork, BtcLockEvent};
use nexara::bridge::bnb::{BnbBridge, BnbDepositEvent};
use nexara::bridge::cosmos::{CosmosBridge, IbcPacketEvent};
use nexara::bridge::ethereum::{EthDepositEvent, EthereumBridge};
use nexara::bridge::nccp::{verify_bridge_message, BridgeMessage, BridgeProtocol, BridgeStatus, ChainId};
use nexara::bridge::nullifier::NullifierSet;
use nexara::bridge::solana::{SolanaBridge, SolanaDepositEvent};
use nexara::bridge::BridgeError;

#[test]
fn test_btc_validate_lock() {
    let bridge = BitcoinBridge::new(BitcoinNetwork::Mainnet);
    let lock = BtcLockEvent {
        txid: "abc123".into(),
        vout: 0,
        amount_sats: 100_000,
        hash_lock: [1u8; 32],
        timeout_block: 800_000,
        sender_pubkey: "pubkey".into(),
        recipient: "nxr_addr".into(),
    };
    assert!(bridge.validate_lock(&lock).unwrap());
}

#[test]
fn test_htlc_hash_lock() {
    let secret = b"my_secret_preimage";
    let hash_lock = BitcoinBridge::generate_hash_lock(secret);
    assert!(BitcoinBridge::verify_preimage(secret, &hash_lock));
    assert!(!BitcoinBridge::verify_preimage(b"wrong", &hash_lock));
}

#[test]
fn btc_lock_rejections() {
    let mut bridge = BitcoinBridge::new(BitcoinNetwork::Testnet);
    let mut lock = BtcLockEvent {
        txid: "".into(),
        vout: 0,
        amount_sats: 1,
        hash_lock: [0u8; 32],
        timeout_block: 1,
        sender_pubkey: "pk".into(),
        recipient: "r".into(),
    };
    assert!(matches!(bridge.validate_lock(&lock), Err(BridgeError::InvalidProof(_))));
    lock.txid = "t".into();
    assert!(!bridge.validate_lock(&lock).unwrap());
    lock.amount_sats = 0;
    assert!(matches!(bridge.validate_lock(&lock), Err(BridgeError::InvalidMessage(_))));
    bridge.enabled = false;
    assert!(matches!(bridge.validate_lock(&lock), Err(BridgeError::BridgePaused(m)) if m == "Bitcoin"));
    let mut padded = [0u8; 32];
    padded[..3].copy_from_slice(b"abc");
    assert_ne!(BitcoinBridge::generate_hash_lock(b"abc"), padded);
}

#[test]
fn test_bnb_validate() {
    let bridge = BnbBridge::new("0xcontract");
    let event = BnbDepositEvent { tx_hash: "0xabc".into(), sender: "s".into(), recipient: "r".into(), amount: 100, block_number: 1 };
    assert!(bridge.validate_deposit(&event).unwrap());
}

#[test]
fn test_cosmos_validate() {
    let bridge = CosmosBridge::new("channel-0");
    let packet = IbcPacketEvent {
        sequence: 1,
        source_channel: "channel-1".into(),
        dest_channel: "channel-0".into(),
        sender: "cosmos1sender".into(),
        recipient: "nxr_recipient".into(),
        amount: 500,
        denom: "uatom".into(),
    };
    assert!(bridge.validate_packet(&packet).unwrap());
}

#[test]
fn test_validate_deposit() {
    let bridge = EthereumBridge::new("0x1234567890abcdef1234567890abcdef12345678", 1);
    let event = EthDepositEvent {
        tx_hash: "0x".to_string() + &"ab".repeat(32),
        sender: "0xsender".into(),
        recipient: "nxr_recipient".into(),
        amount: 1000,
        token: "ETH".into(),
        block_number: 100,
    };
    assert!(bridge.validate_deposit(&event).unwrap());
}

#[test]
fn test_invalid_deposit() {
    let bridge = EthereumBridge::new("0xcontract", 1);
    let event = EthDepositEvent {
        tx_hash: "invalid".into(),
        sender: "s".into(),
        recipient: "r".into(),
        amount: 100,
        token: "ETH".into(),
        block_number: 1,
    };
    assert!(!bridge.validate_deposit(&event).unwrap());
}

#[test]
fn test_withdrawal_proof() {
    let bridge = EthereumBridge::new("0x", 1);
    let proof = bridge.generate_withdrawal_proof("recipient", 500);
    assert_eq!(proof.len(), 32);
}

#[test]
fn withdrawal_proof_depends_on_amount() {
    let bridge = EthereumBridge::new("0x", 1);
    assert_ne!(bridge.generate_withdrawal_proof("r", 1), bridge.generate_withdrawal_proof("r", 2));
    assert_eq!(bridge.generate_withdrawal_proof("r", 1), bridge.generate_withdrawal_proof("r", 1));
}

#[test]
fn test_solana_validate() {
    let bridge = SolanaBridge::new("SoLProgramId123");
    let event = SolanaDepositEvent { signature: "sig123".into(), sender: "s".into(), recipient: "r".into(), amount: 100, slot: 50 };
    assert!(bridge.validate_deposit(&event).unwrap());
}

#[test]
fn test_initiate_transfer() {
    let mut bridge = BridgeProtocol::new();
    bridge.add_liquidity("NXR", 1_000_000);
    let transfer = bridge
        .initiate_transfer(ChainId::Nexara, ChainId::Ethereum, "sender_addr", "recipient_addr", 1000, "NXR")
        .unwrap();
    assert_eq!(transfer.status, BridgeStatus::Pending);
    assert_eq!(transfer.amount, 1000);
}

#[test]
fn test_complete_transfer() {
    let mut bridge = BridgeProtocol::new();
    bridge.add_liquidity("NXR", 1_000_000);
    let transfer = bridge.initiate_transfer(ChainId::Nexara, ChainId::Ethereum, "sender", "recipient", 500, "NXR").unwrap();
    bridge.complete_transfer(&transfer.id, vec![1, 2, 3]).unwrap();
    assert_eq!(bridge.transfers()[0].status, BridgeStatus::Completed);
}

#[test]
fn test_insufficient_liquidity() {
    let mut bridge = BridgeProtocol::new();
    bridge.add_liquidity("NXR", 100);
    let err = bridge.initiate_transfer(ChainId::Nexara, ChainId::Ethereum, "s", "r", 1000, "NXR").unwrap_err();
    assert!(matches!(err, BridgeError::InsufficientLiquidity { .. }));
}

#[test]
fn test_paused_chain() {
    let mut bridge = BridgeProtocol::new();
    bridge.add_liquidity("NXR", 1_000_000);
    bridge.pause_chain(ChainId::Ethereum);
    let err = bridge.initiate_transfer(ChainId::Nexara, ChainId::Ethereum, "s", "r", 100, "NXR").unwrap_err();
    assert!(matches!(err, BridgeError::BridgePaused(_)));
}

#[test]
fn test_unsupported_chain() {
    let mut bridge = BridgeProtocol::new();
    let err = bridge.initiate_transfer(ChainId::Custom("Unknown".into()), ChainId::Ethereum, "s", "r", 100, "NXR").unwrap_err();
    assert!(matches!(err, BridgeError::UnsupportedChain(_)));
}

#[test]
fn test_chain_display() {
    assert_eq!(ChainId::Ethereum.to_string(), "ETH");
    assert_eq!(ChainId::Nexara.to_string(), "NEXARA");
    assert_eq!(ChainId::Bitcoin.to_string(), "BTC");
}

#[test]
fn completed_transfer_cannot_complete_twice() {
    let mut bridge = BridgeProtocol::new();
    bridge.add_liquidity("NXR", 1_000);
    let t = bridge.initiate_transfer(ChainId::Solana, ChainId::Cosmos, "a", "b", 400, "NXR").unwrap();
    assert_eq!(t.id.len(), 32);
    assert!(matches!(bridge.complete_transfer(&t.id, vec![]), Err(BridgeError::InvalidProof(_))));
    bridge.complete_transfer(&t.id, vec![9]).unwrap();
    assert_eq!(bridge.liquidity_of("NXR"), 600);
    assert!(matches!(bridge.complete_transfer(&t.id, vec![9]), Err(BridgeError::InvalidProof(_))));
    assert!(matches!(bridge.complete_transfer("missing", vec![9]), Err(BridgeError::InvalidProof(m)) if m == "missing"));
    bridge.resume_chain(&ChainId::Cosmos);
    bridge.pause_chain(ChainId::Cosmos);
    bridge.resume_chain(&ChainId::Cosmos);
    let t2 = bridge.initiate_transfer(ChainId::Solana, ChainId::Cosmos, "a", "b", 400, "NXR").unwrap();
    assert_ne!(t2.id, t.id);
    assert_eq!(bridge.transfers().len(), 2);
}

#[test]
fn bridge_message_checks() {
    let mut msg = BridgeMessage { source_chain: ChainId::Nexara, dest_chain: ChainId::Bitcoin, payload: vec![], nonce: 1, signature: vec![] };
    assert!(matches!(verify_bridge_message(&msg), Err(BridgeError::InvalidMessage(m)) if m == "Empty payload"));
    msg.payload = vec![1];
    assert!(matches!(verify_bridge_message(&msg), Err(BridgeError::InvalidMessage(m)) if m == "Missing signature"));
    msg.signature = vec![2];
    assert!(verify_bridge_message(&msg).unwrap());
}

#[test]
fn test_nullifier_insert_contains() {
    let mut set = NullifierSet::new();
    let n = [42u8; 32];
    assert!(!set.contains(&n));
    assert!(set.insert(n));
    assert!(set.contains(&n));
    assert!(!set.insert(n));
}

#[test]
fn test_nullifier_generate() {
    let n1 = NullifierSet::generate("src", "dst", 100, 1);
    let n2 = NullifierSet::generate("src", "dst", 100, 2);
    assert_ne!(n1, n2);
}

#[test]
fn test_nullifier_deterministic() {
    let n1 = NullifierSet::generate("a", "b", 50, 0);
    let n2 = NullifierSet::generate("a", "b", 50, 0);
    assert_eq!(n1, n2);
}

#[test]
fn test_empty() {
    let set = NullifierSet::new();
    assert!(set.is_empty());
    assert_eq!(set.len(), 0);
}

#[test]
fn deposit_hash_must_be_hex() {
    let bridge = EthereumBridge::new("0xcontract", 1);
    let event = |h: String| EthDepositEvent {
        tx_hash: h,
        sender: "s".into(),
        recipient: "r".into(),
        amount: 100,
        token: "ETH".into(),
        block_number: 1,
    };
    assert!(!bridge.validate_deposit(&event("0x".to_string() + &"z".repeat(64))).unwrap());
    assert!(!bridge.validate_deposit(&event("0x".to_string() + &"a".repeat(63) + "g")).unwrap());
    assert!(bridge.validate_deposit(&event("0x".to_string() + &"aF09".repeat(16))).unwrap());
    assert!(!bridge.validate_deposit(&event("0X".to_string() + &"ab".repeat(32))).unwrap());
}
