//! Bitcoin bridge adapter, based on hash time-locked contracts.
use vstd::prelude::*;
use vstd::string::*;
use crate::bridge::error::BridgeError;
use crate::bytes::array32_eq;
use crate::crypto::hash::{blake3_digest, blake3_of};

verus! {

/// Bitcoin bridge configuration.
#[derive(Debug, Clone)]
pub struct BitcoinBridge {
    pub network: BitcoinNetwork,
    pub confirmations_required: u32,
    pub htlc_timeout_blocks: u32,
    pub enabled: bool,
}

/// The Bitcoin network the bridge watches.
#[derive(Debug, Clone, Copy, PartialEq, Eq, Structural)]
pub enum BitcoinNetwork {
    Mainnet,
    Testnet,
    Regtest,
}

/// Bitcoin HTLC lock event.
#[derive(Debug, Clone)]
pub struct BtcLockEvent {
    pub txid: String,
    pub vout: u32,
    pub amount_sats: u64,
    pub hash_lock: [u8; 32],
    pub timeout_block: u64,
    pub sender_pubkey: String,
    pub recipient: String,
}

impl BitcoinBridge {
    /// An enabled bridge requiring 6 confirmations, with a 144-block HTLC
    /// timeout (about a day).
    pub fn new(network: BitcoinNetwork) -> (b: Self)
        ensures
            b.network == network,
            b.confirmations_required == 6,
            b.htlc_timeout_blocks == 144,
            b.enabled,
    {
        BitcoinBridge { network, confirmations_required: 6, htlc_timeout_blocks: 144, enabled: true }
    }

    /// Validate a lock: the bridge must be enabled, the amount non-zero and
    /// the txid present; the result says whether the hash lock is non-zero.
    pub fn validate_lock(&self, event: &BtcLockEvent) -> (r: Result<bool, BridgeError>)
        ensures
            !self.enabled ==> (r matches Err(BridgeError::BridgePaused(m)) && m@ == "Bitcoin"@),
            self.enabled && event.amount_sats == 0 ==> (r matches Err(BridgeError::InvalidMessage(m)) && m@
                == "Zero amount"@),
            self.enabled && event.amount_sats > 0 && event.txid@.len() == 0 ==> (r matches Err(
                BridgeError::InvalidProof(m),
            ) && m@ == "Empty txid"@),
            self.enabled && event.amount_sats > 0 && event.txid@.len() > 0 ==> r == Ok::<bool, BridgeError>(
                event.hash_lock@ != Seq::new(32, |i: int| 0u8),
            ),
    {
        if !self.enabled {
            return Err(BridgeError::BridgePaused("Bitcoin".to_owned()));
        }
        if event.amount_sats == 0 {
            return Err(BridgeError::InvalidMessage("Zero amount".to_owned()));
        }
        if event.txid.as_str().is_empty() {
            return Err(BridgeError::InvalidProof("Empty txid".to_owned()));
        }
        let zero = [0u8; 32];
        let same = array32_eq(&event.hash_lock, &zero);
        assert(zero@ =~= Seq::new(32, |i: int| 0u8));
        Ok(!same)
    }

    /// The hash lock of a secret: its BLAKE3 digest.
    pub fn generate_hash_lock(secret: &[u8]) -> (h: [u8; 32])
        ensures
            h@ == blake3_of(secret@),
    {
        blake3_digest(secret)
    }

    /// Whether a preimage opens a hash lock: its BLAKE3 digest equals it.
    pub fn verify_preimage(preimage: &[u8], hash_lock: &[u8; 32]) -> (r: bool)
        ensures
            r == (blake3_of(preimage@) == hash_lock@),
    {
        let computed = blake3_digest(preimage);
        array32_eq(&computed, hash_lock)
    }
}

/// A secret always opens the hash lock generated from it.
pub proof fn secret_opens_its_hash_lock(secret: Seq<u8>, lock: Seq<u8>)
    requires
        lock == blake3_of(secret),
    ensures
        blake3_of(secret) == lock,
{
}

} // verus!
