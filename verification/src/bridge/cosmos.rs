//! Cosmos IBC bridge adapter.
use vstd::prelude::*;
use vstd::string::*;
use crate::bridge::error::BridgeError;

verus! {

/// Cosmos IBC bridge configuration.
#[derive(Debug, Clone)]
pub struct CosmosBridge {
    pub channel_id: String,
    pub port_id: String,
    pub enabled: bool,
}

/// IBC packet event.
#[derive(Debug, Clone)]
pub struct IbcPacketEvent {
    pub sequence: u64,
    pub source_channel: String,
    pub dest_channel: String,
    pub sender: String,
    pub recipient: String,
    pub amount: u128,
    pub denom: String,
}

impl CosmosBridge {
    /// An enabled bridge on the given channel of the "transfer" port.
    pub fn new(channel_id: &str) -> (b: Self)
        ensures
            b.channel_id@ == channel_id@,
            b.port_id@ == "transfer"@,
            b.enabled,
    {
        CosmosBridge { channel_id: channel_id.to_owned(), port_id: "transfer".to_owned(), enabled: true }
    }

    /// Validate a packet: the bridge must be enabled and the amount
    /// non-zero; the result says whether the packet is for this channel.
    pub fn validate_packet(&self, packet: &IbcPacketEvent) -> (r: Result<bool, BridgeError>)
        ensures
            !self.enabled ==> (r matches Err(BridgeError::BridgePaused(m)) && m@ == "Cosmos"@),
            self.enabled && packet.amount == 0 ==> (r matches Err(BridgeError::InvalidMessage(m)) && m@ == "Zero amount"@),
            self.enabled && packet.amount > 0 ==> r == Ok::<bool, BridgeError>(packet.dest_channel@ == self.channel_id@),
    {
        if !self.enabled {
            return Err(BridgeError::BridgePaused("Cosmos".to_owned()));
        }
        if packet.amount == 0 {
            return Err(BridgeError::InvalidMessage("Zero amount".to_owned()));
        }
        Ok(packet.dest_channel == self.channel_id)
    }
}

} // verus!
