//! Solana bridge adapter.
use vstd::prelude::*;
use vstd::string::*;
use crate::bridge::error::BridgeError;

verus! {

/// Solana bridge configuration.
#[derive(Debug, Clone)]
pub struct SolanaBridge {
    pub program_id: String,
    pub confirmations_required: u32,
    pub enabled: bool,
}

/// Solana deposit event.
#[derive(Debug, Clone)]
pub struct SolanaDepositEvent {
    pub signature: String,
    pub sender: String,
    pub recipient: String,
    pub amount: u128,
    pub slot: u64,
}

impl SolanaBridge {
    /// An enabled bridge requiring 32 confirmations.
    pub fn new(program_id: &str) -> (b: Self)
        ensures
            b.program_id@ == program_id@,
            b.confirmations_required == 32,
            b.enabled,
    {
        SolanaBridge { program_id: program_id.to_owned(), confirmations_required: 32, enabled: true }
    }

    /// Validate a deposit: the bridge must be enabled and the amount
    /// non-zero; the result says whether the signature is present.
    pub fn validate_deposit(&self, event: &SolanaDepositEvent) -> (r: Result<bool, BridgeError>)
        ensures
            !self.enabled ==> (r matches Err(BridgeError::BridgePaused(m)) && m@ == "Solana"@),
            self.enabled && event.amount == 0 ==> (r matches Err(BridgeError::InvalidMessage(m)) && m@ == "Zero amount"@),
            self.enabled && event.amount > 0 ==> r == Ok::<bool, BridgeError>(event.signature@.len() > 0),
    {
        if !self.enabled {
            return Err(BridgeError::BridgePaused("Solana".to_owned()));
        }
        if event.amount == 0 {
            return Err(BridgeError::InvalidMessage("Zero amount".to_owned()));
        }
        Ok(!event.signature.as_str().is_empty())
    }
}

} // verus!
