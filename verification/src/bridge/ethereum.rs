//! Ethereum bridge adapter.
use vstd::prelude::*;
use vstd::string::*;
use vstd::bytes::spec_u128_to_le_bytes;
use crate::bridge::error::BridgeError;
use crate::bytes::{append_bytes, push_u128_le};
use crate::crypto::hash::{blake3_digest, blake3_of, is_hex_byte};

verus! {

/// Ethereum bridge configuration.
#[derive(Debug, Clone)]
pub struct EthereumBridge {
    pub contract_address: String,
    pub chain_id: u64,
    pub confirmations_required: u32,
    pub enabled: bool,
}

/// Ethereum deposit event.
#[derive(Debug, Clone)]
pub struct EthDepositEvent {
    pub tx_hash: String,
    pub sender: String,
    pub recipient: String,
    pub amount: u128,
    pub token: String,
    pub block_number: u64,
}

/// Whether a transaction hash is well formed: "0x" followed by 64 hex
/// digits (of either case).
pub open spec fn eth_hash_well_formed(tx_hash: Seq<char>) -> bool {
    let b = vstd::utf8::encode_utf8(tx_hash);
    &&& b.len() == 66
    &&& b[0] == 0x30u8
    &&& b[1] == 0x78u8
    &&& forall|i: int| 2 <= i < 66 ==> is_hex_byte(#[trigger] b[i])
}

/// The bytes whose digest is the withdrawal proof for `recipient` and
/// `amount`.
pub open spec fn withdrawal_input(recipient: Seq<u8>, amount: u128) -> Seq<u8> {
    "ETH_WITHDRAWAL".spec_bytes() + recipient + spec_u128_to_le_bytes(amount)
}

impl EthereumBridge {
    /// An enabled bridge requiring 12 confirmations.
    pub fn new(contract_address: &str, chain_id: u64) -> (b: Self)
        ensures
            b.contract_address@ == contract_address@,
            b.chain_id == chain_id,
            b.confirmations_required == 12,
            b.enabled,
    {
        EthereumBridge { contract_address: contract_address.to_owned(), chain_id, confirmations_required: 12, enabled: true }
    }

    /// Validate an Ethereum deposit event: the bridge must be enabled, the
    /// transaction hash present and the amount non-zero; the result says
    /// whether the hash is "0x" followed by 64 hex digits.
    pub fn validate_deposit(&self, event: &EthDepositEvent) -> (r: Result<bool, BridgeError>)
        ensures
            !self.enabled ==> (r matches Err(BridgeError::BridgePaused(m)) && m@ == "Ethereum"@),
            self.enabled && event.tx_hash@.len() == 0 ==> (r matches Err(BridgeError::InvalidProof(m)) && m@
                == "Empty tx hash"@),
            self.enabled && event.tx_hash@.len() > 0 && event.amount == 0 ==> (r matches Err(
                BridgeError::InvalidMessage(m),
            ) && m@ == "Zero amount"@),
            self.enabled && event.tx_hash@.len() > 0 && event.amount > 0 ==> r == Ok::<bool, BridgeError>(
                eth_hash_well_formed(event.tx_hash@),
            ),
    {
        if !self.enabled {
            return Err(BridgeError::BridgePaused("Ethereum".to_owned()));
        }
        if event.tx_hash.as_str().is_empty() {
            return Err(BridgeError::InvalidProof("Empty tx hash".to_owned()));
        }
        if event.amount == 0 {
            return Err(BridgeError::InvalidMessage("Zero amount".to_owned()));
        }
        let b = event.tx_hash.as_str().as_bytes();
        if !(b.len() == 66 && b[0] == 0x30u8 && b[1] == 0x78u8) {
            return Ok(false);
        }
        let mut i: usize = 2;
        while i < 66
            invariant
                2 <= i <= 66,
                self.enabled,
                event.amount > 0,
                event.tx_hash@.len() > 0,
                b@ == vstd::utf8::encode_utf8(event.tx_hash@),
                b@.len() == 66,
                forall|k: int| 2 <= k < i ==> is_hex_byte(#[trigger] b@[k]),
            decreases 66 - i,
        {
            let c = b[i];
            if !((48 <= c && c <= 57) || (65 <= c && c <= 70) || (97 <= c && c <= 102)) {
                return Ok(false);
            }
            i = i + 1;
        }
        Ok(true)
    }

    /// The withdrawal proof for a recipient and amount:
    /// `BLAKE3("ETH_WITHDRAWAL" || recipient || amount)`.
    pub fn generate_withdrawal_proof(&self, recipient: &str, amount: u128) -> (p: Vec<u8>)
        ensures
            p@ == blake3_of(withdrawal_input(recipient.spec_bytes(), amount)),
    {
        let mut data: Vec<u8> = Vec::new();
        append_bytes(&mut data, "ETH_WITHDRAWAL".as_bytes());
        append_bytes(&mut data, recipient.as_bytes());
        push_u128_le(&mut data, amount);
        let d = blake3_digest(data.as_slice());
        vstd::slice::slice_to_vec(d.as_slice())
    }
}

} // verus!
