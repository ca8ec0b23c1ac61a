//! Gossip: messages that spread through the network with a hop limit, and
//! deduplication of the messages already seen.
use vstd::prelude::*;
use vstd::bytes::spec_u16_to_le_bytes;
use crate::bytes::{append_bytes, push_u16_le};
use crate::crypto::hash::{blake3_of, Blake3Hash};
use crate::network::p2p::PeerId;

verus! {

/// Types of gossip messages.
#[derive(Debug, Clone, Copy, PartialEq, Eq, Structural)]
pub enum GossipMessageType {
    NewBlock,
    NewTransaction,
    Attestation,
    CrossShardReceipt,
    PeerAnnounce,
}

/// The hop limit of a new message.
pub const INITIAL_TTL: u8 = 8;

/// A gossip message propagated through the network.
#[derive(Debug, Clone)]
pub struct GossipMessage {
    pub msg_type: GossipMessageType,
    pub payload: Vec<u8>,
    pub sender: PeerId,
    pub message_id: Blake3Hash,
    pub shard_id: u16,
    pub ttl: u8,
}

/// A message's id: `BLAKE3(sender || payload || shard)`.
pub open spec fn message_id_of(sender: Seq<u8>, payload: Seq<u8>, shard_id: u16) -> Seq<u8> {
    blake3_of(sender + payload + spec_u16_to_le_bytes(shard_id))
}

impl GossipMessage {
    /// Create a new message with the full hop limit.
    pub fn new(msg_type: GossipMessageType, payload: Vec<u8>, sender: PeerId, shard_id: u16) -> (m: Self)
        ensures
            m.msg_type == msg_type,
            m.payload == payload,
            m.sender == sender,
            m.message_id.0@ == message_id_of(sender@, payload@, shard_id),
            m.shard_id == shard_id,
            m.ttl == INITIAL_TTL,
    {
        let mut id_data: Vec<u8> = Vec::new();
        append_bytes(&mut id_data, sender.as_slice());
        append_bytes(&mut id_data, payload.as_slice());
        push_u16_le(&mut id_data, shard_id);
        let message_id = Blake3Hash::compute(id_data.as_slice());
        GossipMessage { msg_type, payload, sender, message_id, shard_id, ttl: INITIAL_TTL }
    }

    /// Whether the message should still propagate: its hop limit is not
    /// spent.
    pub fn should_propagate(&self) -> (r: bool)
        ensures
            r == (self.ttl > 0),
    {
        self.ttl > 0
    }

    /// A forwarded copy, one hop fewer (never below zero).
    pub fn forwarded(&self) -> (m: Self)
        ensures
            m.msg_type == self.msg_type,
            m.payload@ == self.payload@,
            m.sender == self.sender,
            m.message_id == self.message_id,
            m.shard_id == self.shard_id,
            m.ttl == self.ttl.saturating_sub(1),
    {
        GossipMessage {
            msg_type: self.msg_type,
            payload: vstd::slice::slice_to_vec(self.payload.as_slice()),
            sender: self.sender,
            message_id: self.message_id,
            shard_id: self.shard_id,
            ttl: self.ttl.saturating_sub(1),
        }
    }
}

/// Message deduplication tracker.
pub struct MessageDedup {
    seen: Vec<Blake3Hash>,
    max_size: usize,
}

impl MessageDedup {
    /// The ids seen, oldest first.
    pub closed spec fn spec_seen(&self) -> Seq<Seq<u8>> {
        self.seen@.map_values(|h: Blake3Hash| h.0@)
    }

    /// The capacity before eviction.
    pub closed spec fn spec_max_size(&self) -> usize {
        self.max_size
    }

    /// A tracker that has seen nothing.
    pub fn new(max_size: usize) -> (d: Self)
        ensures
            d.spec_seen().len() == 0,
            d.spec_max_size() == max_size,
    {
        let d = MessageDedup { seen: Vec::new(), max_size };
        assert(d.spec_seen() =~= Seq::<Seq<u8>>::empty());
        d
    }

    /// Returns true if the message is new, and marks it seen. At capacity,
    /// the oldest half (rounded down) of the seen ids is forgotten first.
    pub fn check_and_mark(&mut self, id: &Blake3Hash) -> (r: bool)
        ensures
            final(self).spec_max_size() == old(self).spec_max_size(),
            r == !old(self).spec_seen().contains(id.0@),
            !r ==> final(self).spec_seen() == old(self).spec_seen(),
            r && old(self).spec_seen().len() < old(self).spec_max_size() ==> final(self).spec_seen() == old(self).spec_seen().push(id.0@),
            r && old(self).spec_seen().len() >= old(self).spec_max_size() ==> final(self).spec_seen() == old(self).spec_seen().subrange(
                (old(self).spec_max_size() / 2) as int,
                old(self).spec_seen().len() as int,
            ).push(id.0@),
    {
        let n = self.seen.len();
        let mut i: usize = 0;
        while i < n
            invariant
                n == self.seen@.len(),
                i <= n,
                forall|j: int| 0 <= j < i ==> self.seen@[j].0@ != id.0@,
            decreases n - i,
        {
            if self.seen[i] == *id {
                assert(self.spec_seen()[i as int] == id.0@);
                return false;
            }
            i = i + 1;
        }
        proof {
            if self.spec_seen().contains(id.0@) {
                let k = choose|k: int| 0 <= k < self.spec_seen().len() && self.spec_seen()[k] == id.0@;
                assert(self.seen@[k].0@ == id.0@);
            }
        }
        let ghost s = self.seen@;
        if self.seen.len() >= self.max_size {
            let half = self.max_size / 2;
            let mut kept: Vec<Blake3Hash> = Vec::new();
            let mut j: usize = half;
            while j < n
                invariant
                    n == s.len(),
                    self.seen@ == s,
                    half <= j <= n,
                    kept@ == s.subrange(half as int, j as int),
                decreases n - j,
            {
                kept.push(self.seen[j]);
                j = j + 1;
                assert(kept@ =~= s.subrange(half as int, j as int));
            }
            self.seen = kept;
        }
        self.seen.push(*id);
        proof {
            if s.len() >= self.max_size {
                assert(self.spec_seen() =~= old(self).spec_seen().subrange((self.max_size / 2) as int, s.len() as int).push(id.0@));
            } else {
                assert(self.spec_seen() =~= old(self).spec_seen().push(id.0@));
            }
        }
        true
    }

    /// Number of ids remembered.
    pub fn len(&self) -> (n: usize)
        ensures
            n == self.spec_seen().len(),
    {
        self.seen.len()
    }

    /// Whether no id is remembered.
    pub fn is_empty(&self) -> (r: bool)
        ensures
            r == (self.spec_seen().len() == 0),
    {
        self.seen.len() == 0
    }
}

/// With a capacity of at least two, the tracker never remembers more ids
/// than its capacity.
pub proof fn dedup_stays_within_capacity(len: nat, max_size: nat)
    requires
        max_size >= 2,
        len <= max_size,
    ensures
        len < max_size ==> len + 1 <= max_size,
        len >= max_size ==> (len - max_size / 2) + 1 <= max_size,
{
}

/// A message, once marked, is recognised as seen until the tracker
/// forgets it.
pub proof fn marked_message_is_seen(seen: Seq<Seq<u8>>, kept_from: int, id: Seq<u8>)
    requires
        0 <= kept_from <= seen.len(),
    ensures
        seen.push(id).contains(id),
        seen.subrange(kept_from, seen.len() as int).push(id).contains(id),
{
    assert(seen.push(id)[seen.len() as int] == id);
    let t = seen.subrange(kept_from, seen.len() as int);
    assert(t.push(id)[t.len() as int] == id);
}

} // verus!
