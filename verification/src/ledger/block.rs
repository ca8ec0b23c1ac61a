//! Blocks: a header of cryptographic commitments and a body of
//! transactions and cross-shard receipts.
use vstd::prelude::*;
use vstd::bytes::{spec_u16_to_le_bytes, spec_u64_to_le_bytes};
use crate::bytes::{append_bytes, push_u16_le, push_u64_le};
use crate::crypto::hash::{blake3_of, zero32, Blake3Hash};
use crate::crypto::keys::WalletAddress;
use crate::ledger::error::CoreError;
use crate::ledger::transaction::{framed, push_framed, tx_hashes, Transaction, NUM_SHARDS};

verus! {

/// Maximum block size in bytes (2 MB).
pub const MAX_BLOCK_SIZE: usize = 2097152;

/// Block header containing all cryptographic commitments.
#[derive(Debug, Clone)]
pub struct BlockHeader {
    /// Protocol version.
    pub version: u8,
    /// Which shard this block belongs to (0-99).
    pub shard_id: u16,
    /// Block height (0 = genesis).
    pub height: u64,
    /// Unix timestamp in milliseconds.
    pub timestamp: u64,
    /// Hash of the parent block.
    pub parent_hash: Blake3Hash,
    /// Merkle root of the world state after executing this block.
    pub state_root: Blake3Hash,
    /// Merkle root of all transactions in this block.
    pub tx_root: Blake3Hash,
    /// Hash of the current validator set.
    pub validator_set_hash: Blake3Hash,
    /// Address of the block proposer.
    pub proposer_address: WalletAddress,
    /// PLONK ZK finality proof (~300 bytes).
    pub zk_finality_proof: Vec<u8>,
    /// Bitfield indicating which validators attested to this block.
    pub attestation_bitfield: Vec<u8>,
}

/// A complete block (header + body).
#[derive(Debug, Clone)]
pub struct Block {
    pub header: BlockHeader,
    pub transactions: Vec<Transaction>,
    pub cross_shard_receipts: Vec<CrossShardReceipt>,
}

/// A receipt proving a cross-shard transaction was executed.
#[derive(Debug, Clone)]
pub struct CrossShardReceipt {
    /// Source shard that initiated the transaction.
    pub source_shard: u16,
    /// Destination shard.
    pub dest_shard: u16,
    /// Hash of the original transaction.
    pub tx_hash: Blake3Hash,
    /// Merkle proof of inclusion in the source shard's state.
    pub proof: Vec<u8>,
}

impl CrossShardReceipt {
    /// The canonical byte form of the receipt.
    pub open spec fn encoding(&self) -> Seq<u8> {
        spec_u16_to_le_bytes(self.source_shard) + spec_u16_to_le_bytes(self.dest_shard)
            + self.tx_hash.0@ + framed(self.proof@)
    }
}

/// The concatenated canonical forms of a sequence of transactions.
pub open spec fn txs_encoding(s: Seq<Transaction>) -> Seq<u8>
    decreases s.len(),
{
    if s.len() == 0 {
        Seq::empty()
    } else {
        txs_encoding(s.drop_last()) + s.last().encoding()
    }
}

/// The concatenated canonical forms of a sequence of receipts.
pub open spec fn receipts_encoding(s: Seq<CrossShardReceipt>) -> Seq<u8>
    decreases s.len(),
{
    if s.len() == 0 {
        Seq::empty()
    } else {
        receipts_encoding(s.drop_last()) + s.last().encoding()
    }
}

impl BlockHeader {
    /// The canonical byte form of the header.
    pub open spec fn encoding(&self) -> Seq<u8> {
        seq![self.version] + spec_u16_to_le_bytes(self.shard_id) + spec_u64_to_le_bytes(self.height)
            + spec_u64_to_le_bytes(self.timestamp) + self.parent_hash.0@ + self.state_root.0@
            + self.tx_root.0@ + self.validator_set_hash.0@ + self.proposer_address.0@ + framed(
            self.zk_finality_proof@,
        ) + framed(self.attestation_bitfield@)
    }

    /// Serialize the header to its canonical bytes.
    pub fn serialize(&self) -> (out: Vec<u8>)
        ensures
            out@ == self.encoding(),
    {
        let mut buf: Vec<u8> = Vec::new();
        buf.push(self.version);
        push_u16_le(&mut buf, self.shard_id);
        push_u64_le(&mut buf, self.height);
        push_u64_le(&mut buf, self.timestamp);
        append_bytes(&mut buf, self.parent_hash.0.as_slice());
        append_bytes(&mut buf, self.state_root.0.as_slice());
        append_bytes(&mut buf, self.tx_root.0.as_slice());
        append_bytes(&mut buf, self.validator_set_hash.0.as_slice());
        append_bytes(&mut buf, self.proposer_address.0.as_slice());
        push_framed(&mut buf, self.zk_finality_proof.as_slice());
        push_framed(&mut buf, self.attestation_bitfield.as_slice());
        assert(buf@ =~= self.encoding());
        buf
    }

    /// Compute the BLAKE3 hash of the header.
    pub fn hash(&self) -> (h: Blake3Hash)
        ensures
            h.0@ == blake3_of(self.encoding()),
    {
        Blake3Hash::compute(self.serialize().as_slice())
    }
}

impl Block {
    /// The canonical byte form of the whole block.
    pub open spec fn encoding(&self) -> Seq<u8> {
        self.header.encoding() + spec_u64_to_le_bytes(self.transactions@.len() as u64) + txs_encoding(
            self.transactions@,
        ) + spec_u64_to_le_bytes(self.cross_shard_receipts@.len() as u64) + receipts_encoding(
            self.cross_shard_receipts@,
        )
    }

    /// Create a new block from a header and transactions.
    pub fn new(header: BlockHeader, txs: Vec<Transaction>) -> (b: Self)
        ensures
            b.header == header,
            b.transactions == txs,
            b.cross_shard_receipts@ == Seq::<CrossShardReceipt>::empty(),
    {
        Block { header, transactions: txs, cross_shard_receipts: Vec::new() }
    }

    /// Compute the BLAKE3 hash of this block (hash of the header).
    pub fn hash(&self) -> (h: Blake3Hash)
        ensures
            h.0@ == blake3_of(self.header.encoding()),
    {
        self.header.hash()
    }

    /// Serialize the entire block.
    pub fn serialize(&self) -> (out: Vec<u8>)
        ensures
            out@ == self.encoding(),
    {
        let mut buf = self.header.serialize();
        push_u64_le(&mut buf, self.transactions.len() as u64);
        let n = self.transactions.len();
        let mut i: usize = 0;
        while i < n
            invariant
                n == self.transactions@.len(),
                i <= n,
                buf@ == self.header.encoding() + spec_u64_to_le_bytes(n as u64) + txs_encoding(
                    self.transactions@.subrange(0, i as int),
                ),
            decreases n - i,
        {
            let enc = self.transactions[i].serialize();
            append_bytes(&mut buf, enc.as_slice());
            proof {
                assert(self.transactions@.subrange(0, i + 1).drop_last() =~= self.transactions@.subrange(
                    0,
                    i as int,
                ));
            }
            i = i + 1;
        }
        assert(self.transactions@.subrange(0, n as int) =~= self.transactions@);
        let ghost prefix = buf@;
        push_u64_le(&mut buf, self.cross_shard_receipts.len() as u64);
        let m = self.cross_shard_receipts.len();
        let mut j: usize = 0;
        while j < m
            invariant
                m == self.cross_shard_receipts@.len(),
                j <= m,
                buf@ == prefix + spec_u64_to_le_bytes(m as u64) + receipts_encoding(
                    self.cross_shard_receipts@.subrange(0, j as int),
                ),
            decreases m - j,
        {
            let r = &self.cross_shard_receipts[j];
            let ghost before = buf@;
            push_u16_le(&mut buf, r.source_shard);
            push_u16_le(&mut buf, r.dest_shard);
            append_bytes(&mut buf, r.tx_hash.0.as_slice());
            push_framed(&mut buf, r.proof.as_slice());
            proof {
                assert(buf@ =~= before + r.encoding());
                assert(self.cross_shard_receipts@.subrange(0, j + 1).drop_last()
                    =~= self.cross_shard_receipts@.subrange(0, j as int));
            }
            j = j + 1;
        }
        assert(self.cross_shard_receipts@.subrange(0, m as int) =~= self.cross_shard_receipts@);
        assert(buf@ =~= self.encoding());
        buf
    }

    /// Number of transactions in this block.
    pub fn tx_count(&self) -> (n: usize)
        ensures
            n == self.transactions@.len(),
    {
        self.transactions.len()
    }

    /// Total size of the block in bytes.
    pub fn size_bytes(&self) -> (n: usize)
        ensures
            n == self.encoding().len(),
    {
        self.serialize().len()
    }

    /// Verify that the tx_root in the header matches the transactions.
    pub fn verify_tx_root(&self) -> (r: bool)
        ensures
            r == (self.header.tx_root.0@ == merkle_root(tx_hashes(self.transactions@))),
    {
        let mut hashes: Vec<Blake3Hash> = Vec::new();
        let n = self.transactions.len();
        let mut i: usize = 0;
        while i < n
            invariant
                n == self.transactions@.len(),
                i <= n,
                hashes@.len() == i,
                forall|j: int| 0 <= j < i ==> #[trigger] hashes@[j].0@ == self.transactions@[j].spec_hash(),
            decreases n - i,
        {
            hashes.push(self.transactions[i].hash());
            i = i + 1;
        }
        assert(hash_views(hashes@) =~= tx_hashes(self.transactions@));
        let computed_root = calculate_merkle_root(hashes.as_slice());
        self.header.tx_root == computed_root
    }

    /// Check if this is the genesis block (height 0).
    pub fn is_genesis(&self) -> (r: bool)
        ensures
            r == (self.header.height == 0),
    {
        self.header.height == 0
    }

    /// Validate block structure (not consensus): size first, then shard.
    pub fn validate_structure(&self) -> (r: Result<(), CoreError>)
        ensures
            self.encoding().len() > MAX_BLOCK_SIZE ==> r == Err::<(), CoreError>(
                CoreError::BlockTooLarge { size: self.encoding().len() as usize, max: MAX_BLOCK_SIZE },
            ),
            self.encoding().len() <= MAX_BLOCK_SIZE && self.header.shard_id >= NUM_SHARDS ==> r
                == Err::<(), CoreError>(CoreError::ShardOutOfRange(self.header.shard_id)),
            self.encoding().len() <= MAX_BLOCK_SIZE && self.header.shard_id < NUM_SHARDS ==> r is Ok,
    {
        let size = self.size_bytes();
        if size > MAX_BLOCK_SIZE {
            return Err(CoreError::BlockTooLarge { size, max: MAX_BLOCK_SIZE });
        }
        if self.header.shard_id >= NUM_SHARDS {
            return Err(CoreError::ShardOutOfRange(self.header.shard_id));
        }
        Ok(())
    }
}

/// The byte views of a sequence of hashes.
pub open spec fn hash_views(s: Seq<Blake3Hash>) -> Seq<Seq<u8>> {
    Seq::new(s.len(), |i: int| s[i].0@)
}

/// A Merkle level padded to even length by repeating its last node.
pub open spec fn pad_level(level: Seq<Seq<u8>>) -> Seq<Seq<u8>> {
    if level.len() % 2 == 1 { level.push(level.last()) } else { level }
}

/// The next Merkle level: the BLAKE3 digest of each adjacent pair of the
/// padded level.
pub open spec fn next_level(level: Seq<Seq<u8>>) -> Seq<Seq<u8>> {
    let p = pad_level(level);
    Seq::new(p.len() / 2, |i: int| blake3_of(p[2 * i] + p[2 * i + 1]))
}

/// Reduce a non-empty level to a single node.
pub open spec fn merkle_reduce(level: Seq<Seq<u8>>) -> Seq<u8>
    decreases level.len(),
{
    if level.len() <= 1 {
        level[0]
    } else {
        merkle_reduce(next_level(level))
    }
}

/// The binary Merkle root of a list of leaves: zero for no leaves, the leaf
/// itself for one, otherwise pairwise BLAKE3 levels where an odd last node
/// is paired with itself.
pub open spec fn merkle_root(leaves: Seq<Seq<u8>>) -> Seq<u8> {
    if leaves.len() == 0 { zero32() } else { merkle_reduce(leaves) }
}

/// The Merkle root of an odd number (at least three) of leaves is the root
/// of the same leaves with the last one repeated: an odd last node is
/// paired with itself.
pub proof fn merkle_odd_last_leaf_is_duplicated(leaves: Seq<Seq<u8>>)
    requires
        leaves.len() >= 3,
        leaves.len() % 2 == 1,
    ensures
        merkle_root(leaves) == merkle_root(leaves.push(leaves[leaves.len() - 1])),
{
    let d = leaves.push(leaves[leaves.len() - 1]);
    assert(next_level(leaves) =~= next_level(d));
}

/// The Merkle root of an even number (at least two) of leaves is the root
/// of the level above: the BLAKE3 digest of each adjacent pair, in order.
pub proof fn merkle_even_level_hashes_pairs(leaves: Seq<Seq<u8>>)
    requires
        leaves.len() >= 2,
        leaves.len() % 2 == 0,
    ensures
        merkle_root(leaves) == merkle_root(
            Seq::new(leaves.len() / 2, |i: int| blake3_of(leaves[2 * i] + leaves[2 * i + 1])),
        ),
{
    let up = Seq::new(leaves.len() / 2, |i: int| blake3_of(leaves[2 * i] + leaves[2 * i + 1]));
    assert(next_level(leaves) =~= up);
}

/// No leaves give the zero root, one leaf is its own root, and two leaves
/// give the BLAKE3 digest of their concatenation.
pub proof fn merkle_small_roots(a: Seq<u8>, b: Seq<u8>)
    ensures
        merkle_root(Seq::<Seq<u8>>::empty()) == zero32(),
        merkle_root(seq![a]) == a,
        merkle_root(seq![a, b]) == blake3_of(a + b),
{
    let two = seq![a, b];
    let up = next_level(two);
    assert(up =~= seq![blake3_of(a + b)]);
    assert(merkle_reduce(up) == blake3_of(a + b));
}

/// Calculate a binary Merkle tree root from a list of BLAKE3 hashes.
///
/// If the number of leaves is odd, the last leaf is duplicated.
/// An empty list produces a zero hash.
pub fn calculate_merkle_root(hashes: &[Blake3Hash]) -> (root: Blake3Hash)
    ensures
        root.0@ == merkle_root(hash_views(hashes@)),
{
    if hashes.len() == 0 {
        return Blake3Hash::zero();
    }
    if hashes.len() == 1 {
        return hashes[0];
    }
    let mut level: Vec<Blake3Hash> = Vec::new();
    let n = hashes.len();
    let mut i: usize = 0;
    while i < n
        invariant
            n == hashes@.len(),
            i <= n,
            level@ == hashes@.subrange(0, i as int),
        decreases n - i,
    {
        level.push(hashes[i]);
        i = i + 1;
        assert(level@ =~= hashes@.subrange(0, i as int));
    }
    assert(level@ =~= hashes@);
    while level.len() > 1
        invariant
            level@.len() >= 1,
            merkle_reduce(hash_views(level@)) == merkle_reduce(hash_views(hashes@)),
        decreases level@.len(),
    {
        let ghost before = hash_views(level@);
        if level.len() % 2 == 1 {
            let last = level[level.len() - 1];
            level.push(last);
        }
        assert(hash_views(level@) =~= pad_level(before));
        let half = level.len() / 2;
        let mut next: Vec<Blake3Hash> = Vec::new();
        let mut k: usize = 0;
        while k < half
            invariant
                half == level@.len() / 2,
                level@.len() <= usize::MAX,
                k <= half,
                next@.len() == k,
                forall|j: int| 0 <= j < k ==> #[trigger] next@[j].0@ == blake3_of(
                    level@[2 * j].0@ + level@[2 * j + 1].0@,
                ),
            decreases half - k,
        {
            let mut combined: Vec<u8> = Vec::new();
            append_bytes(&mut combined, level[2 * k].0.as_slice());
            append_bytes(&mut combined, level[2 * k + 1].0.as_slice());
            next.push(Blake3Hash::compute(combined.as_slice()));
            k = k + 1;
        }
        assert(hash_views(next@) =~= next_level(before));
        level = next;
    }
    level[0]
}

} // verus!
