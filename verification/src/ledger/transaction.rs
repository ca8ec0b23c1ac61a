//! Transactions and the pending-transaction pool.
//!
//! A transaction's canonical byte form is its bincode encoding (fixed-width
//! little-endian integers, 8-byte length prefixes, 4-byte enum tags, a
//! 1-byte option tag); its hash is the BLAKE3 digest of that form.
use vstd::prelude::*;
use vstd::bytes::{spec_u16_to_le_bytes, spec_u32_to_le_bytes, spec_u64_to_le_bytes, spec_u128_to_le_bytes};
use crate::bytes::{append_bytes, push_u16_le, push_u32_le, push_u64_le, push_u128_le};
use crate::crypto::hash::{blake3_of, Blake3Hash};
use crate::crypto::keys::{MlDsaSignature, WalletAddress, SIGNATURE_SIZE};
use crate::ledger::error::CoreError;

verus! {

/// The base unit of NXR (10^18 base units = 1 NXR).
pub const NXR_DECIMALS: u32 = 18;

/// 1 NXR in base units.
pub const ONE_NXR: u128 = 1_000_000_000_000_000_000;

/// Maximum number of shards.
pub const NUM_SHARDS: u16 = 100;

/// Base fee rate per byte (in base units).
pub const BASE_FEE_PER_BYTE: u128 = 1_000_000_000;

/// Reads the current Unix time in seconds (`chrono::Utc::now().timestamp()`,
/// as `u64`). Nothing is claimed of the value: it is the clock's.
#[verifier::external_body]
pub(crate) fn unix_time_now() -> (t: u64) {
    chrono::Utc::now().timestamp() as u64
}

/// Transaction types supported by the NEXARA blockchain.
#[derive(Debug, Clone, Copy, PartialEq, Eq, Structural)]
pub enum TransactionType {
    Transfer,
    ContractDeploy,
    ContractCall,
    Stake,
    Unstake,
    CrossChain,
    GovernanceVote,
}

/// The encoding tag of a transaction type (its declaration index).
pub open spec fn tx_type_tag(t: TransactionType) -> u32 {
    match t {
        TransactionType::Transfer => 0,
        TransactionType::ContractDeploy => 1,
        TransactionType::ContractCall => 2,
        TransactionType::Stake => 3,
        TransactionType::Unstake => 4,
        TransactionType::CrossChain => 5,
        TransactionType::GovernanceVote => 6,
    }
}

fn tx_type_tag_exec(t: TransactionType) -> (tag: u32)
    ensures
        tag == tx_type_tag(t),
{
    match t {
        TransactionType::Transfer => 0,
        TransactionType::ContractDeploy => 1,
        TransactionType::ContractCall => 2,
        TransactionType::Stake => 3,
        TransactionType::Unstake => 4,
        TransactionType::CrossChain => 5,
        TransactionType::GovernanceVote => 6,
    }
}

/// A byte vector framed with its 8-byte little-endian length.
pub open spec fn framed(v: Seq<u8>) -> Seq<u8> {
    spec_u64_to_le_bytes(v.len() as u64) + v
}

/// Appends `v` framed with its length.
pub fn push_framed(buf: &mut Vec<u8>, v: &[u8])
    ensures
        final(buf)@ == old(buf)@ + framed(v@),
{
    push_u64_le(buf, v.len() as u64);
    append_bytes(buf, v);
    assert(final(buf)@ =~= old(buf)@ + framed(v@));
}

/// An optional byte vector: tag 0, or tag 1 followed by the framed bytes.
pub open spec fn framed_option(o: Option<Vec<u8>>) -> Seq<u8> {
    match o {
        None => seq![0u8],
        Some(v) => seq![1u8] + framed(v@),
    }
}

/// A NEXARA blockchain transaction.
#[derive(Debug, Clone)]
pub struct Transaction {
    /// Protocol version for forward compatibility.
    pub version: u8,
    /// Type of transaction.
    pub tx_type: TransactionType,
    /// Sender's wallet address (32 bytes).
    pub sender: WalletAddress,
    /// Recipient's wallet address (32 bytes).
    pub recipient: WalletAddress,
    /// Amount in base units (10^18 per NXR).
    pub amount: u128,
    /// Transaction fee in base units.
    pub fee: u128,
    /// Sender nonce for replay protection.
    pub nonce: u64,
    /// Target shard ID (0-99).
    pub shard_id: u16,
    /// Contract calldata or auxiliary data.
    pub data: Vec<u8>,
    /// ML-DSA-65 signature (3309 bytes).
    pub signature: MlDsaSignature,
    /// Full public key, included only on sender's first transaction.
    pub pubkey_first_use: Option<Vec<u8>>,
    /// Unix timestamp in seconds.
    pub timestamp: u64,
}

/// `n` zero bytes.
pub open spec fn zero_bytes(n: nat) -> Seq<u8> {
    Seq::new(n, |i: int| 0u8)
}

impl Transaction {
    /// The canonical byte form of the transaction.
    pub open spec fn encoding(&self) -> Seq<u8> {
        seq![self.version] + spec_u32_to_le_bytes(tx_type_tag(self.tx_type)) + self.sender.0@
            + self.recipient.0@ + spec_u128_to_le_bytes(self.amount) + spec_u128_to_le_bytes(self.fee)
            + spec_u64_to_le_bytes(self.nonce) + spec_u16_to_le_bytes(self.shard_id) + framed(
            self.data@,
        ) + framed(self.signature.0@) + framed_option(self.pubkey_first_use)
            + spec_u64_to_le_bytes(self.timestamp)
    }

    /// The transaction's hash: BLAKE3 of its canonical byte form.
    pub open spec fn spec_hash(&self) -> Seq<u8> {
        blake3_of(self.encoding())
    }

    /// Whether the transaction is structurally valid.
    pub open spec fn spec_valid_structure(&self) -> bool {
        &&& self.version > 0
        &&& self.shard_id < NUM_SHARDS
        &&& self.fee > 0
        &&& self.signature.0@.len() == SIGNATURE_SIZE
    }

    /// The unsigned transfer of `amount` from `sender` to `recipient` with
    /// the given fee, nonce, shard and timestamp: version 1, no data, a
    /// signature of 3309 zero bytes and no first-use public key.
    pub open spec fn spec_transfer(
        sender: WalletAddress,
        recipient: WalletAddress,
        amount: u128,
        fee: u128,
        nonce: u64,
        shard_id: u16,
        timestamp: u64,
        tx: Self,
    ) -> bool {
        &&& tx.version == 1
        &&& tx.tx_type == TransactionType::Transfer
        &&& tx.sender == sender
        &&& tx.recipient == recipient
        &&& tx.amount == amount
        &&& tx.fee == fee
        &&& tx.nonce == nonce
        &&& tx.shard_id == shard_id
        &&& tx.data@ == Seq::<u8>::empty()
        &&& tx.signature.0@ == zero_bytes(SIGNATURE_SIZE as nat)
        &&& tx.pubkey_first_use is None
        &&& tx.timestamp == timestamp
    }

    /// Create a new unsigned transfer transaction stamped with `timestamp`
    /// (Unix seconds); the signature is 3309 zero bytes.
    pub fn new_transfer_at(
        sender: WalletAddress,
        recipient: WalletAddress,
        amount: u128,
        fee: u128,
        nonce: u64,
        shard_id: u16,
        timestamp: u64,
    ) -> (tx: Self)
        ensures
            Self::spec_transfer(sender, recipient, amount, fee, nonce, shard_id, timestamp, tx),
            tx.spec_valid_structure() <==> (fee > 0 && shard_id < NUM_SHARDS),
    {
        let sig = vec![0u8; SIGNATURE_SIZE];
        assert(sig@ =~= zero_bytes(SIGNATURE_SIZE as nat));
        Transaction {
            version: 1,
            tx_type: TransactionType::Transfer,
            sender,
            recipient,
            amount,
            fee,
            nonce,
            shard_id,
            data: Vec::new(),
            signature: MlDsaSignature(sig),
            pubkey_first_use: None,
            timestamp,
        }
    }

    /// Create a new unsigned transfer transaction stamped with the current
    /// time read from the clock; the signature is 3309 zero bytes. The
    /// stamp is the clock's reading, which nothing here states.
    pub fn new_transfer(
        sender: WalletAddress,
        recipient: WalletAddress,
        amount: u128,
        fee: u128,
        nonce: u64,
        shard_id: u16,
    ) -> (tx: Self)
        ensures
            Self::spec_transfer(sender, recipient, amount, fee, nonce, shard_id, tx.timestamp, tx),
            tx.spec_valid_structure() <==> (fee > 0 && shard_id < NUM_SHARDS),
    {
        let now = unix_time_now();
        Self::new_transfer_at(sender, recipient, amount, fee, nonce, shard_id, now)
    }

    /// Compute the BLAKE3 hash of this transaction.
    pub fn hash(&self) -> (h: Blake3Hash)
        ensures
            h.0@ == self.spec_hash(),
    {
        let bytes = self.serialize();
        Blake3Hash::compute(bytes.as_slice())
    }

    /// Serialize this transaction to its canonical bytes.
    pub fn serialize(&self) -> (out: Vec<u8>)
        ensures
            out@ == self.encoding(),
    {
        let mut buf: Vec<u8> = Vec::new();
        buf.push(self.version);
        push_u32_le(&mut buf, tx_type_tag_exec(self.tx_type));
        append_bytes(&mut buf, self.sender.0.as_slice());
        append_bytes(&mut buf, self.recipient.0.as_slice());
        push_u128_le(&mut buf, self.amount);
        push_u128_le(&mut buf, self.fee);
        push_u64_le(&mut buf, self.nonce);
        push_u16_le(&mut buf, self.shard_id);
        push_framed(&mut buf, self.data.as_slice());
        push_framed(&mut buf, self.signature.0.as_slice());
        match &self.pubkey_first_use {
            None => {
                buf.push(0u8);
            },
            Some(pk) => {
                buf.push(1u8);
                push_framed(&mut buf, pk.as_slice());
            },
        }
        push_u64_le(&mut buf, self.timestamp);
        assert(buf@ =~= self.encoding());
        buf
    }

    /// Check structural validity (does not verify signature).
    pub fn is_valid_structure(&self) -> (r: bool)
        ensures
            r == self.spec_valid_structure(),
    {
        self.version > 0 && self.shard_id < NUM_SHARDS && self.fee > 0 && self.signature.0.len()
            == SIGNATURE_SIZE
    }

    /// Total size of the transaction in bytes.
    pub fn size_bytes(&self) -> (n: usize)
        ensures
            n == self.encoding().len(),
    {
        self.serialize().len()
    }

    /// The minimum fee for the transaction's size: size times the base fee
    /// per byte.
    pub fn base_fee_nxr(&self) -> (fee: u128)
        ensures
            fee == self.encoding().len() * BASE_FEE_PER_BYTE,
    {
        let size = self.size_bytes() as u128;
        assert(size * BASE_FEE_PER_BYTE <= u128::MAX) by (nonlinear_arith)
            requires size <= u64::MAX;
        size * BASE_FEE_PER_BYTE
    }
}

/// The hashes of a sequence of transactions.
pub open spec fn tx_hashes(txs: Seq<Transaction>) -> Seq<Seq<u8>> {
    Seq::new(txs.len(), |i: int| txs[i].spec_hash())
}

/// A pool of pending transactions waiting for inclusion in a block.
pub struct TransactionPool {
    pending: Vec<Transaction>,
    max_size: usize,
}

/// The transactions of `s` whose hash differs from `h`, in order.
pub open spec fn without_hash(s: Seq<Transaction>, h: Seq<u8>) -> Seq<Transaction>
    decreases s.len(),
{
    if s.len() == 0 {
        s
    } else if s.last().spec_hash() == h {
        without_hash(s.drop_last(), h)
    } else {
        without_hash(s.drop_last(), h).push(s.last())
    }
}

impl TransactionPool {
    /// The pending transactions, oldest first.
    pub closed spec fn spec_pending(&self) -> Seq<Transaction> {
        self.pending@
    }

    /// The pool's capacity.
    pub closed spec fn spec_max_size(&self) -> usize {
        self.max_size
    }

    /// Create a pool with a maximum capacity.
    pub fn new(max_size: usize) -> (p: Self)
        ensures
            p.spec_pending() == Seq::<Transaction>::empty(),
            p.spec_max_size() == max_size,
    {
        TransactionPool { pending: Vec::new(), max_size }
    }

    /// Add a transaction to the pool: refused when the pool is full, then
    /// when the transaction is structurally invalid.
    pub fn add(&mut self, tx: Transaction) -> (r: Result<(), CoreError>)
        ensures
            final(self).spec_max_size() == old(self).spec_max_size(),
            old(self).spec_pending().len() >= old(self).spec_max_size() ==> r == Err::<(), CoreError>(
                CoreError::MempoolFull) && final(self).spec_pending() == old(self).spec_pending(),
            old(self).spec_pending().len() < old(self).spec_max_size() && !tx.spec_valid_structure()
                ==> r is Err && r->Err_0 is InvalidTransaction && final(self).spec_pending() == old(
                self,
            ).spec_pending(),
            old(self).spec_pending().len() < old(self).spec_max_size() && tx.spec_valid_structure()
                ==> r is Ok && final(self).spec_pending() == old(self).spec_pending().push(tx),
    {
        if self.pending.len() >= self.max_size {
            return Err(CoreError::MempoolFull);
        }
        if !tx.is_valid_structure() {
            return Err(CoreError::InvalidTransaction("invalid structure".to_string()));
        }
        self.pending.push(tx);
        Ok(())
    }

    /// Remove every pending transaction with the given hash.
    pub fn remove(&mut self, tx_hash: &Blake3Hash)
        ensures
            final(self).spec_pending() == without_hash(old(self).spec_pending(), tx_hash.0@),
            final(self).spec_max_size() == old(self).spec_max_size(),
    {
        let mut rest: Vec<Transaction> = Vec::new();
        std::mem::swap(&mut rest, &mut self.pending);
        let ghost orig = rest@;
        let mut kept: Vec<Transaction> = Vec::new();
        let n = rest.len();
        let mut i: usize = 0;
        while i < n
            invariant
                n == orig.len(),
                i <= n,
                rest@ == orig.subrange(i as int, n as int),
                kept@ == without_hash(orig.subrange(0, i as int), tx_hash.0@),
            decreases n - i,
        {
            let tx = rest.remove(0);
            let h = tx.hash();
            proof {
                assert(orig.subrange(0, i + 1).drop_last() =~= orig.subrange(0, i as int));
                assert(orig.subrange(0, i + 1).last() == tx);
            }
            if h != *tx_hash {
                kept.push(tx);
            }
            i = i + 1;
            assert(rest@ =~= orig.subrange(i as int, n as int));
        }
        proof {
            assert(orig.subrange(0, n as int) =~= orig);
        }
        self.pending = kept;
    }

    /// The pending transactions, oldest first.
    pub fn pending(&self) -> (p: &[Transaction])
        ensures
            p@ == self.spec_pending(),
    {
        self.pending.as_slice()
    }

    /// Number of pending transactions.
    pub fn len(&self) -> (n: usize)
        ensures
            n == self.spec_pending().len(),
    {
        self.pending.len()
    }

    /// Check if the pool is empty.
    pub fn is_empty(&self) -> (r: bool)
        ensures
            r == (self.spec_pending().len() == 0),
    {
        self.pending.len() == 0
    }
}


/// The byte count a fee rate divides by: the encoded size, and at least 1.
pub open spec fn rate_bytes(tx: Transaction) -> int {
    if tx.encoding().len() == 0 { 1 } else { tx.encoding().len() as int }
}

/// Whether `a` pays strictly more fee per byte than `b`, compared exactly
/// as fractions.
pub open spec fn pays_more_per_byte(a: Transaction, b: Transaction) -> bool {
    a.fee * rate_bytes(b) > b.fee * rate_bytes(a)
}

/// Where a later transaction goes in a fee-rate-ordered list: after the
/// last transaction whose fee per byte is at least its own.
pub open spec fn rate_slot(s: Seq<Transaction>, tx: Transaction) -> int
    decreases s.len(),
{
    if s.len() == 0 {
        0
    } else if !pays_more_per_byte(tx, s.last()) {
        s.len() as int
    } else {
        rate_slot(s.drop_last(), tx)
    }
}

/// The stable sort of `s` by fee per byte, highest first: transactions
/// with equal rates keep their relative order.
pub open spec fn sorted_by_fee_rate(s: Seq<Transaction>) -> Seq<Transaction>
    decreases s.len(),
{
    if s.len() == 0 {
        s
    } else {
        let r = sorted_by_fee_rate(s.drop_last());
        r.insert(rate_slot(r, s.last()), s.last())
    }
}

/// No transaction in `s` pays more per byte than one before it.
pub open spec fn fee_rate_descending(s: Seq<Transaction>) -> bool {
    forall|i: int, j: int| 0 <= i < j < s.len() ==> !pays_more_per_byte(#[trigger] s[j], #[trigger] s[i])
}

/// Paying at least as much per byte is transitive.
proof fn lemma_rate_at_least_transitive(a: Transaction, b: Transaction, c: Transaction)
    requires
        !pays_more_per_byte(b, a),
        !pays_more_per_byte(c, b),
    ensures
        !pays_more_per_byte(c, a),
{
    let sa = rate_bytes(a);
    let sb = rate_bytes(b);
    let sc = rate_bytes(c);
    let fa = a.fee as int;
    let fb = b.fee as int;
    let fc = c.fee as int;
    assert(fc * sa <= fa * sc) by (nonlinear_arith)
        requires
            sa > 0, sb > 0, sc > 0,
            fb * sa <= fa * sb,
            fc * sb <= fb * sc,
    {
        assert(fb * sa * sc <= fa * sb * sc);
        assert(fc * sb * sa <= fb * sc * sa);
        assert(fc * sa * sb <= fa * sc * sb);
    }
}

proof fn lemma_rate_slot(s: Seq<Transaction>, tx: Transaction, p: int)
    requires
        0 <= p <= s.len(),
        p == 0 || !pays_more_per_byte(tx, s[p - 1]),
        forall|j: int| p <= j < s.len() ==> pays_more_per_byte(tx, #[trigger] s[j]),
    ensures
        rate_slot(s, tx) == p,
    decreases s.len(),
{
    if s.len() > p {
        lemma_rate_slot(s.drop_last(), tx, p);
    }
}

proof fn lemma_rate_slot_props(r: Seq<Transaction>, tx: Transaction)
    requires
        fee_rate_descending(r),
    ensures
        0 <= rate_slot(r, tx) <= r.len(),
        forall|i: int| 0 <= i < rate_slot(r, tx) ==> !pays_more_per_byte(tx, #[trigger] r[i]),
        forall|i: int| rate_slot(r, tx) <= i < r.len() ==> pays_more_per_byte(tx, #[trigger] r[i]),
    decreases r.len(),
{
    if r.len() > 0 {
        let d = r.drop_last();
        assert forall|i: int, j: int| 0 <= i < j < d.len() implies !pays_more_per_byte(#[trigger] d[j], #[trigger] d[i]) by {
            assert(d[i] == r[i] && d[j] == r[j]);
        }
        lemma_rate_slot_props(d, tx);
        if !pays_more_per_byte(tx, r.last()) {
            assert forall|i: int| 0 <= i < r.len() implies !pays_more_per_byte(tx, #[trigger] r[i]) by {
                if i < r.len() - 1 {
                    assert(!pays_more_per_byte(r[r.len() - 1], r[i]));
                    lemma_rate_at_least_transitive(r[i], r[r.len() - 1], tx);
                }
            }
        } else {
            let q = rate_slot(d, tx);
            assert forall|i: int| 0 <= i < q implies !pays_more_per_byte(tx, #[trigger] r[i]) by {
                assert(d[i] == r[i]);
            }
            assert forall|i: int| q <= i < r.len() implies pays_more_per_byte(tx, #[trigger] r[i]) by {
                if i < d.len() {
                    assert(d[i] == r[i]);
                }
            }
        }
    }
}

/// The fee-rate sort orders by fee per byte and keeps exactly the same
/// transactions.
pub proof fn lemma_sorted_by_fee_rate(s: Seq<Transaction>)
    ensures
        fee_rate_descending(sorted_by_fee_rate(s)),
        sorted_by_fee_rate(s).to_multiset() == s.to_multiset(),
        sorted_by_fee_rate(s).len() == s.len(),
    decreases s.len(),
{
    broadcast use vstd::seq_lib::to_multiset_insert;
    if s.len() > 0 {
        let r = sorted_by_fee_rate(s.drop_last());
        lemma_sorted_by_fee_rate(s.drop_last());
        let x = s.last();
        let p = rate_slot(r, x);
        lemma_rate_slot_props(r, x);
        let t = r.insert(p, x);
        assert forall|i: int, j: int| 0 <= i < j < t.len() implies !pays_more_per_byte(#[trigger] t[j], #[trigger] t[i]) by {
            if i < p && j == p {
                assert(t[i] == r[i]);
            } else if i == p && j > p {
                assert(t[j] == r[j - 1]);
            } else if i < p && j > p {
                assert(t[i] == r[i]);
                assert(t[j] == r[j - 1]);
            } else if i > p {
                assert(t[i] == r[i - 1]);
                assert(t[j] == r[j - 1]);
            } else {
                assert(t[i] == r[i]);
                assert(t[j] == r[j]);
            }
        }
        assert(s =~= s.drop_last().push(x));
        vstd::seq_lib::to_multiset_build(s.drop_last(), x);
    }
}

/// Whether `a` pays strictly more fee per byte than `b`, computed without
/// overflow from quotients and remainders.
fn pays_more_per_byte_exec(a: &Transaction, b: &Transaction) -> (r: bool)
    ensures
        r == pays_more_per_byte(*a, *b),
{
    let la = a.size_bytes();
    let lb = b.size_bytes();
    let sa: u128 = if la == 0 { 1 } else { la as u128 };
    let sb: u128 = if lb == 0 { 1 } else { lb as u128 };
    let qa = a.fee / sa;
    let ra = a.fee % sa;
    let qb = b.fee / sb;
    let rb = b.fee % sb;
    let ghost fa = a.fee as int;
    let ghost fb = b.fee as int;
    assert(fa == qa * sa + ra && 0 <= ra < sa) by (nonlinear_arith)
        requires sa > 0, qa == fa / (sa as int), ra == fa % (sa as int);
    assert(fb == qb * sb + rb && 0 <= rb < sb) by (nonlinear_arith)
        requires sb > 0, qb == fb / (sb as int), rb == fb % (sb as int);
    assert(ra * sb <= u128::MAX && rb * sa <= u128::MAX) by (nonlinear_arith)
        requires ra < sa, rb < sb, sa <= u64::MAX, sb <= u64::MAX, ra >= 0, rb >= 0;
    if qa != qb {
        assert((qa > qb) == (fa * sb > fb * sa)) by (nonlinear_arith)
            requires
                fa == qa * sa + ra, fb == qb * sb + rb,
                0 <= ra < sa, 0 <= rb < sb, qa != qb, qa >= 0, qb >= 0;
        qa > qb
    } else {
        assert((ra * sb > rb * sa) == (fa * sb > fb * sa)) by (nonlinear_arith)
            requires
                fa == qa * sa + ra, fb == qb * sb + rb, qa == qb;
        ra * sb > rb * sa
    }
}

impl TransactionPool {
    /// Get transactions ordered by fee per byte, highest first (ties keep
    /// pool order), at most `limit` of them.
    pub fn get_ordered(&self, limit: usize) -> (r: Vec<&Transaction>)
        ensures
            r@.len() == if limit < self.spec_pending().len() { limit as int } else { self.spec_pending().len() as int },
            forall|k: int| 0 <= k < r@.len() ==> *(#[trigger] r@[k]) == sorted_by_fee_rate(self.spec_pending())[k],
    {
        let mut out: Vec<&Transaction> = Vec::new();
        let n = self.pending.len();
        let ghost orig = self.pending@;
        let mut i: usize = 0;
        while i < n
            invariant
                n == orig.len(),
                orig == self.pending@,
                i <= n,
                out@.len() == i,
                sorted_by_fee_rate(orig.subrange(0, i as int)).len() == i,
                forall|k: int| 0 <= k < out@.len() ==> *(#[trigger] out@[k]) == sorted_by_fee_rate(orig.subrange(0, i as int))[k],
            decreases n - i,
        {
            let tx = &self.pending[i];
            let ghost pre = orig.subrange(0, i as int);
            let ghost r = sorted_by_fee_rate(pre);
            let mut p = out.len();
            while p > 0 && pays_more_per_byte_exec(tx, out[p - 1])
                invariant
                    p <= out@.len(),
                    out@.len() == r.len(),
                    forall|k: int| 0 <= k < out@.len() ==> *(#[trigger] out@[k]) == r[k],
                    forall|j: int| p <= j < r.len() ==> pays_more_per_byte(*tx, #[trigger] r[j]),
                decreases p,
            {
                p = p - 1;
            }
            proof {
                lemma_rate_slot(r, *tx, p as int);
                assert(orig.subrange(0, i + 1).drop_last() =~= pre);
                assert(orig.subrange(0, i + 1).last() == *tx);
                lemma_sorted_by_fee_rate(orig.subrange(0, i + 1));
            }
            let ghost before = out@;
            out.insert(p, tx);
            proof {
                let t = r.insert(p as int, *tx);
                assert(t == sorted_by_fee_rate(orig.subrange(0, i + 1)));
                assert forall|k: int| 0 <= k < out@.len() implies *(#[trigger] out@[k]) == t[k] by {
                    if k < p {
                        assert(out@[k] == before[k]);
                    } else if k > p {
                        assert(out@[k] == before[k - 1]);
                    }
                }
            }
            i = i + 1;
        }
        proof {
            assert(orig.subrange(0, n as int) =~= orig);
        }
        let ghost full = out@;
        out.truncate(limit);
        proof {
            assert forall|k: int| 0 <= k < out@.len() implies *(#[trigger] out@[k]) == sorted_by_fee_rate(self.spec_pending())[k] by {
                assert(out@[k] == full[k]);
            }
        }
        out
    }
}

} // verus!
