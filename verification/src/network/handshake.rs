//! The connection handshake: chain and genesis checks, and the responses
//! that accept or reject a peer.
use vstd::prelude::*;
use vstd::string::*;
use crate::crypto::hash::{blake3_of, Blake3Hash};
use crate::crypto::keys::{MlDsaPublicKey, WalletAddress, PUBKEY_SIZE};
use crate::crypto::hash::zero32;
use crate::text::{decimal, push_decimal};

verus! {

/// Handshake request sent to initiate a connection.
#[derive(Debug, Clone)]
pub struct HandshakeRequest {
    pub version: String,
    pub chain_id: u64,
    pub pubkey: MlDsaPublicKey,
    pub node_address: WalletAddress,
    pub genesis_hash: Blake3Hash,
    pub best_block_height: u64,
    pub best_block_hash: Blake3Hash,
    pub shard_ids: Vec<u16>,
    pub timestamp: u64,
    pub nonce: u64,
}

/// Handshake response.
#[derive(Debug, Clone)]
pub struct HandshakeResponse {
    pub accepted: bool,
    pub version: String,
    pub chain_id: u64,
    pub pubkey: MlDsaPublicKey,
    pub node_address: WalletAddress,
    pub best_block_height: u64,
    pub best_block_hash: Blake3Hash,
    pub shard_ids: Vec<u16>,
    pub reason: Option<String>,
}

/// Validate a handshake request: same chain, same genesis, and at least
/// one shard served.
pub fn validate_handshake(request: &HandshakeRequest, our_chain_id: u64, our_genesis_hash: &Blake3Hash) -> (r: Result<
    (),
    String,
>)
    ensures
        request.chain_id != our_chain_id ==> (r matches Err(m) && m@ == "Chain ID mismatch: expected "@ + decimal(
            our_chain_id as nat,
        ) + ", got "@ + decimal(request.chain_id as nat)),
        request.chain_id == our_chain_id && request.genesis_hash.0@ != our_genesis_hash.0@ ==> (r matches Err(m)
            && m@ == "Genesis hash mismatch"@),
        request.chain_id == our_chain_id && request.genesis_hash.0@ == our_genesis_hash.0@ && request.shard_ids@.len()
            == 0 ==> (r matches Err(m) && m@ == "Peer must serve at least one shard"@),
        request.chain_id == our_chain_id && request.genesis_hash.0@ == our_genesis_hash.0@ && request.shard_ids@.len()
            > 0 ==> r is Ok,
{
    if request.chain_id != our_chain_id {
        let mut m = String::new();
        m.push_str("Chain ID mismatch: expected ");
        push_decimal(&mut m, our_chain_id as u128);
        m.push_str(", got ");
        push_decimal(&mut m, request.chain_id as u128);
        return Err(m);
    }
    if request.genesis_hash != *our_genesis_hash {
        return Err("Genesis hash mismatch".to_owned());
    }
    if request.shard_ids.len() == 0 {
        return Err("Peer must serve at least one shard".to_owned());
    }
    Ok(())
}

/// A response accepting the connection, with our identity and best block.
pub fn accept_handshake(
    our_pubkey: MlDsaPublicKey,
    our_address: WalletAddress,
    chain_id: u64,
    best_height: u64,
    best_hash: Blake3Hash,
    shard_ids: Vec<u16>,
) -> (resp: HandshakeResponse)
    ensures
        resp.accepted,
        resp.version@ == "0.1.0"@,
        resp.chain_id == chain_id,
        resp.pubkey == our_pubkey,
        resp.node_address == our_address,
        resp.best_block_height == best_height,
        resp.best_block_hash == best_hash,
        resp.shard_ids == shard_ids,
        resp.reason is None,
{
    HandshakeResponse {
        accepted: true,
        version: "0.1.0".to_owned(),
        chain_id,
        pubkey: our_pubkey,
        node_address: our_address,
        best_block_height: best_height,
        best_block_hash: best_hash,
        shard_ids,
        reason: None,
    }
}

/// A response rejecting the connection for the given reason, carrying no
/// identity: chain 0, a zero public key and address, and the digest of the
/// empty input as best block hash.
pub fn reject_handshake(reason: String) -> (resp: HandshakeResponse)
    ensures
        !resp.accepted,
        resp.version@ == "0.1.0"@,
        resp.chain_id == 0,
        resp.pubkey.0@ == Seq::new(PUBKEY_SIZE as nat, |i: int| 0u8),
        resp.node_address.0@ == zero32(),
        resp.best_block_height == 0,
        resp.best_block_hash.0@ == blake3_of(Seq::<u8>::empty()),
        resp.shard_ids@.len() == 0,
        resp.reason == Some(reason),
{
    let key = vec![0u8; PUBKEY_SIZE];
    assert(key@ =~= Seq::new(PUBKEY_SIZE as nat, |i: int| 0u8));
    let empty: Vec<u8> = Vec::new();
    HandshakeResponse {
        accepted: false,
        version: "0.1.0".to_owned(),
        chain_id: 0,
        pubkey: MlDsaPublicKey(key),
        node_address: WalletAddress::zero(),
        best_block_height: 0,
        best_block_hash: Blake3Hash::compute(empty.as_slice()),
        shard_ids: Vec::new(),
        reason: Some(reason),
    }
}

} // verus!
