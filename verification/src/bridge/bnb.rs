//! BNB Chain bridge adapter.
use vstd::prelude::*;
use vstd::string::*;
use crate::bridge::error::BridgeError;

verus! {

/// BNB Chain bridge configuration.
#[derive(Debug, Clone)]
pub struct BnbBridge {
    pub contract_address: String,
    pub chain_id: u64,
    pub confirmations_required: u32,
    pub enabled: bool,
}

/// BNB deposit event.
#[derive(Debug, Clone)]
pub struct BnbDepositEvent {
    pub tx_hash: String,
    pub sender: String,
    pub recipient: String,
    pub amount: u128,
    pub block_number: u64,
}

impl BnbBridge {
    /// An enabled bridge on chain 56 requiring 15 confirmations.
    pub fn new(contract_address: &str) -> (b: Self)
        ensures
            b.contract_address@ == contract_address@,
            b.chain_id == 56,
            b.confirmations_required == 15,
            b.enabled,
    {
        BnbBridge { contract_address: contract_address.to_owned(), chain_id: 56, confirmations_required: 15, enabled: true }
    }

    /// Validate a deposit: the bridge must be enabled and the amount
    /// non-zero; the result says whether the transaction hash is present.
    pub fn validate_deposit(&self, event: &BnbDepositEvent) -> (r: Result<bool, BridgeError>)
        ensures
            !self.enabled ==> (r matches Err(BridgeError::BridgePaused(m)) && m@ == "BNB"@),
            self.enabled && event.amount == 0 ==> (r matches Err(BridgeError::InvalidMessage(m)) && m@ == "Zero amount"@),
            self.enabled && event.amount > 0 ==> r == Ok::<bool, BridgeError>(event.tx_hash@.len() > 0),
    {
        if !self.enabled {
            return Err(BridgeError::BridgePaused("BNB".to_owned()));
        }
        if event.amount == 0 {
            return Err(BridgeError::InvalidMessage("Zero amount".to_owned()));
        }
        Ok(!event.tx_hash.as_str().is_empty())
    }
}

} // verus!
