//! Cross-links and cross-shard messages.
use vstd::prelude::*;
use vstd::bytes::{spec_u16_to_le_bytes, spec_u64_to_le_bytes, spec_u128_to_le_bytes};
use crate::bytes::{append_bytes, push_u16_le, push_u64_le, push_u128_le};
use crate::crypto::hash::{blake3_of, Blake3Hash};
use crate::crypto::keys::WalletAddress;

verus! {

/// A cross-link proving a shard block is finalized.
#[derive(Debug, Clone, Copy)]
pub struct CrossLink {
    pub source_shard: u16,
    pub target_shard: u16,
    pub block_height: u64,
    pub block_hash: Blake3Hash,
    pub state_root: Blake3Hash,
    pub receipt_root: Blake3Hash,
}

/// A cross-shard message (e.g. for cross-shard transfers).
#[derive(Debug, Clone)]
pub struct CrossShardMessage {
    pub id: Blake3Hash,
    pub source_shard: u16,
    pub target_shard: u16,
    pub payload: CrossShardPayload,
    pub source_block_height: u64,
    pub proof: Vec<u8>,
    pub status: CrossShardStatus,
}

/// The payload of a cross-shard message.
#[derive(Debug, Clone)]
pub enum CrossShardPayload {
    Transfer { from: WalletAddress, to: WalletAddress, amount: u128 },
    ContractCall { contract: WalletAddress, data: Vec<u8> },
    Receipt { original_msg_id: Blake3Hash, success: bool, return_data: Vec<u8> },
}

/// Status of a cross-shard message.
#[derive(Debug, Clone, Copy, PartialEq, Eq, Structural)]
pub enum CrossShardStatus {
    Pending,
    Delivered,
    Confirmed,
    Failed,
}

/// The bytes whose digest identifies a cross-shard transfer.
pub open spec fn transfer_id_input(
    source_shard: u16,
    target_shard: u16,
    from: Seq<u8>,
    to: Seq<u8>,
    amount: u128,
    source_block_height: u64,
) -> Seq<u8> {
    spec_u16_to_le_bytes(source_shard) + spec_u16_to_le_bytes(target_shard) + from + to + spec_u128_to_le_bytes(amount)
        + spec_u64_to_le_bytes(source_block_height)
}

impl CrossShardMessage {
    /// A pending cross-shard transfer without proof, identified by the
    /// digest of its shards, parties, amount and source height.
    pub fn new_transfer(
        source_shard: u16,
        target_shard: u16,
        from: WalletAddress,
        to: WalletAddress,
        amount: u128,
        source_block_height: u64,
    ) -> (m: Self)
        ensures
            m.id.0@ == blake3_of(transfer_id_input(source_shard, target_shard, from.0@, to.0@, amount, source_block_height)),
            m.source_shard == source_shard,
            m.target_shard == target_shard,
            m.payload == (CrossShardPayload::Transfer { from, to, amount }),
            m.source_block_height == source_block_height,
            m.proof@.len() == 0,
            m.status == CrossShardStatus::Pending,
    {
        let mut id_data: Vec<u8> = Vec::new();
        push_u16_le(&mut id_data, source_shard);
        push_u16_le(&mut id_data, target_shard);
        append_bytes(&mut id_data, from.0.as_slice());
        append_bytes(&mut id_data, to.0.as_slice());
        push_u128_le(&mut id_data, amount);
        push_u64_le(&mut id_data, source_block_height);
        let id = Blake3Hash::compute(id_data.as_slice());
        CrossShardMessage {
            id,
            source_shard,
            target_shard,
            payload: CrossShardPayload::Transfer { from, to, amount },
            source_block_height,
            proof: Vec::new(),
            status: CrossShardStatus::Pending,
        }
    }

    /// Mark as delivered.
    pub fn mark_delivered(&mut self)
        ensures
            *final(self) == (CrossShardMessage { status: CrossShardStatus::Delivered, ..*old(self) }),
    {
        self.status = CrossShardStatus::Delivered;
    }

    /// Mark as confirmed.
    pub fn mark_confirmed(&mut self)
        ensures
            *final(self) == (CrossShardMessage { status: CrossShardStatus::Confirmed, ..*old(self) }),
    {
        self.status = CrossShardStatus::Confirmed;
    }

    /// Mark as failed.
    pub fn mark_failed(&mut self)
        ensures
            *final(self) == (CrossShardMessage { status: CrossShardStatus::Failed, ..*old(self) }),
    {
        self.status = CrossShardStatus::Failed;
    }
}

/// Verify a cross-link: it joins two different shards, both in range.
pub fn verify_cross_link(link: &CrossLink) -> (r: bool)
    ensures
        r == (link.source_shard != link.target_shard && link.source_shard < 100 && link.target_shard < 100),
{
    link.source_shard != link.target_shard && link.source_shard < 100 && link.target_shard < 100
}

} // verus!
