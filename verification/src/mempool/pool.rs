//! The mempool: transactions kept in priority order (highest fee first,
//! earlier arrivals first among equal fees), with a size bound that evicts
//! the cheapest transaction.
use vstd::prelude::*;
use crate::crypto::hash::{hex_encode, hex_lower, Blake3Hash};
use crate::ledger::transaction::Transaction;
use crate::mempool::error::MempoolError;
use crate::mempool::ordering::{fee_descending, fee_slot};

verus! {

/// The position of the transaction evicted from a full pool: the earliest
/// arrival among those with the lowest fee, which in priority order is the
/// first transaction whose fee equals the last one's.
pub open spec fn evict_index(s: Seq<Transaction>) -> int
    decreases s.len(),
{
    if s.len() <= 1 {
        0
    } else if s[s.len() - 2].fee == s.last().fee {
        evict_index(s.drop_last())
    } else {
        s.len() - 1
    }
}

/// Whether some pooled transaction has hash `h`.
pub open spec fn pooled(s: Seq<Transaction>, h: Seq<u8>) -> bool {
    exists|i: int| 0 <= i < s.len() && (#[trigger] s[i]).spec_hash() == h
}

/// Transaction mempool with priority ordering.
pub struct Mempool {
    txs: Vec<Transaction>,
    hashes: Vec<Blake3Hash>,
    max_size: usize,
    min_fee: u128,
}

impl Mempool {
    /// The pooled transactions in priority order.
    pub closed spec fn spec_txs(&self) -> Seq<Transaction> {
        self.txs@
    }

    /// The pool's capacity.
    pub closed spec fn spec_max_size(&self) -> usize {
        self.max_size
    }

    /// The minimum fee for admission.
    pub closed spec fn spec_min_fee(&self) -> u128 {
        self.min_fee
    }

    closed spec fn hashes_match(&self) -> bool {
        &&& self.hashes@.len() == self.txs@.len()
        &&& forall|i: int| 0 <= i < self.txs@.len() ==> (#[trigger] self.hashes@[i]).0@ == self.txs@[i].spec_hash()
    }

    /// The pool is consistent: in priority order, without two transactions
    /// of the same hash, and within its capacity.
    pub open spec fn wf(&self) -> bool {
        &&& fee_descending(self.spec_txs())
        &&& forall|i: int, j: int| 0 <= i < j < self.spec_txs().len() ==> (#[trigger] self.spec_txs()[i]).spec_hash()
            != (#[trigger] self.spec_txs()[j]).spec_hash()
        &&& self.spec_txs().len() <= self.spec_max_size()
        &&& self.hashes_consistent()
    }

    /// The cached hashes agree with the transactions.
    pub closed spec fn hashes_consistent(&self) -> bool {
        self.hashes_match()
    }

    /// Create a new empty mempool.
    pub fn new(max_size: usize, min_fee: u128) -> (p: Self)
        ensures
            p.wf(),
            p.spec_txs().len() == 0,
            p.spec_max_size() == max_size,
            p.spec_min_fee() == min_fee,
    {
        Mempool { txs: Vec::new(), hashes: Vec::new(), max_size, min_fee }
    }

    fn position(&self, hash: &Blake3Hash) -> (r: Option<usize>)
        requires
            self.hashes_match(),
        ensures
            match r {
                Some(i) => i < self.txs@.len() && self.txs@[i as int].spec_hash() == hash.0@,
                None => !pooled(self.txs@, hash.0@),
            },
    {
        let n = self.hashes.len();
        let mut i: usize = 0;
        while i < n
            invariant
                self.hashes_match(),
                n == self.hashes@.len(),
                i <= n,
                forall|j: int| 0 <= j < i ==> (#[trigger] self.txs@[j]).spec_hash() != hash.0@,
            decreases n - i,
        {
            if self.hashes[i] == *hash {
                return Some(i);
            }
            i = i + 1;
        }
        None
    }

    /// Add a transaction: refused when already pooled, then when its fee is
    /// below the minimum. A full pool first evicts its cheapest transaction
    /// (the earliest of equal fee); an empty full pool refuses. The
    /// transaction goes after every pooled transaction with a fee at least
    /// its own, and its hash is returned.
    pub fn add_transaction(&mut self, tx: Transaction) -> (r: Result<Blake3Hash, MempoolError>)
        requires
            old(self).wf(),
        ensures
            final(self).wf(),
            final(self).spec_max_size() == old(self).spec_max_size(),
            final(self).spec_min_fee() == old(self).spec_min_fee(),
            ({
                let s = old(self).spec_txs();
                if pooled(s, tx.spec_hash()) {
                    (r matches Err(MempoolError::Duplicate(m)) && m@ == hex_lower(tx.spec_hash()))
                        && final(self).spec_txs() == s
                } else if tx.fee < old(self).spec_min_fee() {
                    r == Err::<Blake3Hash, MempoolError>(MempoolError::FeeTooLow { minimum: old(self).spec_min_fee() })
                        && final(self).spec_txs() == s
                } else if s.len() >= old(self).spec_max_size() && s.len() == 0 {
                    (r matches Err(MempoolError::PoolFull(m)) && m@ == "Cannot evict"@) && final(self).spec_txs() == s
                } else {
                    let kept = if s.len() >= old(self).spec_max_size() { s.remove(evict_index(s)) } else { s };
                    &&& r matches Ok(h) && h.0@ == tx.spec_hash()
                    &&& final(self).spec_txs() == kept.insert(fee_slot(kept, tx.fee), tx)
                }
            }),
    {
        let hash = tx.hash();
        if self.position(&hash).is_some() {
            return Err(MempoolError::Duplicate(hex_encode(hash.0.as_slice())));
        }
        if tx.fee < self.min_fee {
            return Err(MempoolError::FeeTooLow { minimum: self.min_fee });
        }
        if self.txs.len() >= self.max_size {
            if self.txs.len() == 0 {
                return Err(MempoolError::PoolFull("Cannot evict".to_owned()));
            }
            self.evict_lowest();
        }
        self.insert_sorted(tx, hash);
        Ok(hash)
    }

    /// Removes the cheapest transaction (the earliest among equal fees).
    fn evict_lowest(&mut self)
        requires
            old(self).txs@.len() > 0,
            old(self).hashes_match(),
            fee_descending(old(self).txs@),
            forall|i: int, j: int| 0 <= i < j < old(self).txs@.len() ==> (#[trigger] old(self).txs@[i]).spec_hash()
                != (#[trigger] old(self).txs@[j]).spec_hash(),
        ensures
            final(self).txs@ == old(self).txs@.remove(evict_index(old(self).txs@)),
            forall|h: Seq<u8>| pooled(final(self).txs@, h) ==> pooled(old(self).txs@, h),
            final(self).txs@.len() == old(self).txs@.len() - 1,
            0 <= evict_index(old(self).txs@) < old(self).txs@.len(),
            final(self).hashes_match(),
            fee_descending(final(self).txs@),
            forall|i: int, j: int| 0 <= i < j < final(self).txs@.len() ==> (#[trigger] final(self).txs@[i]).spec_hash()
                != (#[trigger] final(self).txs@[j]).spec_hash(),
            final(self).max_size == old(self).max_size,
            final(self).min_fee == old(self).min_fee,
    {
        let ghost s = self.txs@;
        let ghost hs = self.hashes@;
        let e = self.lowest_fee_index();
        self.txs.remove(e);
        self.hashes.remove(e);
        proof {
            assert forall|i: int, j: int| 0 <= i < j < self.txs@.len() implies (#[trigger] self.txs@[i]).fee
                >= (#[trigger] self.txs@[j]).fee && self.txs@[i].spec_hash() != self.txs@[j].spec_hash() by {
                let i0 = if i < e { i } else { i + 1 };
                let j0 = if j < e { j } else { j + 1 };
                assert(self.txs@[i] == s[i0]);
                assert(self.txs@[j] == s[j0]);
            }
            assert forall|i: int| 0 <= i < self.txs@.len() implies (#[trigger] self.hashes@[i]).0@
                == self.txs@[i].spec_hash() by {
                let i0 = if i < e { i } else { i + 1 };
                assert(self.txs@[i] == s[i0]);
                assert(self.hashes@[i] == hs[i0]);
            }
            assert forall|h: Seq<u8>| pooled(self.txs@, h) implies pooled(s, h) by {
                let w = choose|x: int| 0 <= x < self.txs@.len() && (#[trigger] self.txs@[x]).spec_hash() == h;
                let w0 = if w < e { w } else { w + 1 };
                assert(self.txs@[w] == s[w0]);
            }
        }
    }

    /// Inserts a transaction that is not pooled after every transaction with
    /// a fee at least its own.
    fn insert_sorted(&mut self, tx: Transaction, hash: Blake3Hash)
        requires
            old(self).hashes_match(),
            fee_descending(old(self).txs@),
            forall|i: int, j: int| 0 <= i < j < old(self).txs@.len() ==> (#[trigger] old(self).txs@[i]).spec_hash()
                != (#[trigger] old(self).txs@[j]).spec_hash(),
            !pooled(old(self).txs@, tx.spec_hash()),
            hash.0@ == tx.spec_hash(),
        ensures
            final(self).txs@ == old(self).txs@.insert(fee_slot(old(self).txs@, tx.fee), tx),
            0 <= fee_slot(old(self).txs@, tx.fee) <= old(self).txs@.len(),
            final(self).txs@.len() == old(self).txs@.len() + 1,
            final(self).hashes_match(),
            fee_descending(final(self).txs@),
            forall|i: int, j: int| 0 <= i < j < final(self).txs@.len() ==> (#[trigger] final(self).txs@[i]).spec_hash()
                != (#[trigger] final(self).txs@[j]).spec_hash(),
            final(self).max_size == old(self).max_size,
            final(self).min_fee == old(self).min_fee,
    {
        let ghost kept = self.txs@;
        let ghost kept_hashes = self.hashes@;
        let mut p = self.txs.len();
        while p > 0 && self.txs[p - 1].fee < tx.fee
            invariant
                p <= self.txs@.len(),
                self.txs@ == kept,
                forall|j: int| p <= j < self.txs@.len() ==> (#[trigger] self.txs@[j]).fee < tx.fee,
            decreases p,
        {
            p = p - 1;
        }
        proof {
            crate::mempool::ordering::lemma_fee_slot_exact(kept, tx.fee, p as int);
        }
        let ghost txv = tx;
        self.txs.insert(p, tx);
        self.hashes.insert(p, hash);
        proof {
            let t = self.txs@;
            assert forall|i: int, j: int| 0 <= i < j < t.len() implies (#[trigger] t[i]).fee >= (#[trigger] t[j]).fee
                && t[i].spec_hash() != t[j].spec_hash() by {
                if i < p && j == p {
                    assert(t[i] == kept[i]);
                    assert(kept[i].fee >= kept[p - 1].fee || i == p - 1);
                } else if i == p && j > p {
                    assert(t[j] == kept[j - 1]);
                } else if i < p && j > p {
                    assert(t[i] == kept[i]);
                    assert(t[j] == kept[j - 1]);
                } else if i > p {
                    assert(t[i] == kept[i - 1]);
                    assert(t[j] == kept[j - 1]);
                } else {
                    assert(t[i] == kept[i]);
                    assert(t[j] == kept[j]);
                }
            }
            assert forall|i: int| 0 <= i < t.len() implies (#[trigger] self.hashes@[i]).0@ == t[i].spec_hash() by {
                if i < p {
                    assert(self.hashes@[i] == kept_hashes[i]);
                    assert(t[i] == kept[i]);
                } else if i > p {
                    assert(self.hashes@[i] == kept_hashes[i - 1]);
                    assert(t[i] == kept[i - 1]);
                }
            }
        }
    }

    fn lowest_fee_index(&self) -> (e: usize)
        requires
            self.txs@.len() > 0,
            fee_descending(self.txs@),
        ensures
            e == evict_index(self.txs@),
            e < self.txs@.len(),
    {
        let n = self.txs.len();
        let last_fee = self.txs[n - 1].fee;
        let mut e = n - 1;
        while e > 0 && self.txs[e - 1].fee == last_fee
            invariant
                e < n,
                n == self.txs@.len(),
                last_fee == self.txs@[n - 1].fee,
                forall|j: int| e <= j < n ==> (#[trigger] self.txs@[j]).fee == last_fee,
                fee_descending(self.txs@),
            decreases e,
        {
            e = e - 1;
        }
        proof { lemma_evict_index(self.txs@, e as int); }
        e
    }

    /// Remove a transaction by hash, returning it.
    pub fn remove_transaction(&mut self, hash: &Blake3Hash) -> (r: Option<Transaction>)
        requires
            old(self).wf(),
        ensures
            final(self).wf(),
            final(self).spec_max_size() == old(self).spec_max_size(),
            final(self).spec_min_fee() == old(self).spec_min_fee(),
            !pooled(old(self).spec_txs(), hash.0@) ==> r is None && final(self).spec_txs() == old(self).spec_txs(),
            forall|i: int| 0 <= i < old(self).spec_txs().len() && (#[trigger] old(self).spec_txs()[i]).spec_hash()
                == hash.0@ ==> r == Some(old(self).spec_txs()[i]) && final(self).spec_txs() == old(self).spec_txs().remove(i),
    {
        let ghost s = self.txs@;
        let ghost hs = self.hashes@;
        match self.position(hash) {
            None => None,
            Some(i) => {
                let tx = self.txs.remove(i);
                self.hashes.remove(i);
                proof {
                    assert forall|k: int| 0 <= k < s.len() && (#[trigger] s[k]).spec_hash() == hash.0@ implies k == i by {
                        if k < i {
                            assert(s[k].spec_hash() != s[i as int].spec_hash());
                        } else if k > i {
                            assert(s[i as int].spec_hash() != s[k].spec_hash());
                        }
                    }
                    assert forall|a: int, b: int| 0 <= a < b < self.txs@.len() implies (#[trigger] self.txs@[a]).fee
                        >= (#[trigger] self.txs@[b]).fee && self.txs@[a].spec_hash() != self.txs@[b].spec_hash() by {
                        let a0 = if a < i { a } else { a + 1 };
                        let b0 = if b < i { b } else { b + 1 };
                        assert(self.txs@[a] == s[a0]);
                        assert(self.txs@[b] == s[b0]);
                    }
                    assert forall|k: int| 0 <= k < self.txs@.len() implies (#[trigger] self.hashes@[k]).0@
                        == self.txs@[k].spec_hash() by {
                        let k0 = if k < i { k } else { k + 1 };
                        assert(self.txs@[k] == s[k0]);
                        assert(self.hashes@[k] == hs[k0]);
                    }
                }
                Some(tx)
            },
        }
    }

    /// Up to `n` highest-priority transactions, in priority order.
    pub fn get_top_transactions(&self, n: usize) -> (r: Vec<&Transaction>)
        ensures
            r@.len() == if n < self.spec_txs().len() { n as int } else { self.spec_txs().len() as int },
            forall|k: int| 0 <= k < r@.len() ==> *r@[k] == self.spec_txs()[k],
    {
        let mut out: Vec<&Transaction> = Vec::new();
        let m = self.txs.len();
        let mut i: usize = 0;
        while i < m && i < n
            invariant
                m == self.txs@.len(),
                i <= m,
                i <= n,
                out@.len() == i,
                forall|k: int| 0 <= k < i ==> *out@[k] == self.txs@[k],
            decreases m - i,
        {
            out.push(&self.txs[i]);
            i = i + 1;
        }
        out
    }

    /// Number of transactions in the pool.
    pub fn len(&self) -> (n: usize)
        ensures
            n == self.spec_txs().len(),
    {
        self.txs.len()
    }

    /// Check if pool is empty.
    pub fn is_empty(&self) -> (r: bool)
        ensures
            r == (self.spec_txs().len() == 0),
    {
        self.txs.len() == 0
    }

    /// Check if a transaction is in the pool.
    pub fn contains(&self, hash: &Blake3Hash) -> (r: bool)
        requires
            self.wf(),
        ensures
            r == pooled(self.spec_txs(), hash.0@),
    {
        self.position(hash).is_some()
    }

    /// Clear all transactions.
    pub fn clear(&mut self)
        ensures
            final(self).wf(),
            final(self).spec_txs().len() == 0,
            final(self).spec_max_size() == old(self).spec_max_size(),
            final(self).spec_min_fee() == old(self).spec_min_fee(),
    {
        self.txs.clear();
        self.hashes.clear();
    }

    /// Remove the transactions included in a finalized block.
    pub fn remove_finalized(&mut self, tx_hashes: &[Blake3Hash])
        requires
            old(self).wf(),
        ensures
            final(self).wf(),
            final(self).spec_max_size() == old(self).spec_max_size(),
            final(self).spec_min_fee() == old(self).spec_min_fee(),
            forall|k: int| 0 <= k < tx_hashes@.len() ==> !pooled(final(self).spec_txs(), (#[trigger] tx_hashes@[k]).0@),
            forall|i: int| 0 <= i < final(self).spec_txs().len() ==> old(self).spec_txs().contains(#[trigger] final(self).spec_txs()[i]),
    {
        let n = tx_hashes.len();
        let mut i: usize = 0;
        while i < n
            invariant
                n == tx_hashes@.len(),
                i <= n,
                self.wf(),
                self.spec_max_size() == old(self).spec_max_size(),
                self.spec_min_fee() == old(self).spec_min_fee(),
                forall|k: int| 0 <= k < i ==> !pooled(self.spec_txs(), (#[trigger] tx_hashes@[k]).0@),
                forall|j: int| 0 <= j < self.spec_txs().len() ==> old(self).spec_txs().contains(#[trigger] self.spec_txs()[j]),
            decreases n - i,
        {
            let ghost before = self.spec_txs();
            let removed = self.remove_transaction(&tx_hashes[i]);
            proof {
                let after = self.spec_txs();
                if removed is Some {
                    let idx = choose|x: int| 0 <= x < before.len() && (#[trigger] before[x]).spec_hash() == tx_hashes@[i as int].0@;
                    assert(after == before.remove(idx));
                    assert forall|k: int| 0 <= k <= i implies !pooled(after, (#[trigger] tx_hashes@[k]).0@) by {
                        if pooled(after, tx_hashes@[k].0@) {
                            let w = choose|x: int| 0 <= x < after.len() && (#[trigger] after[x]).spec_hash() == tx_hashes@[k].0@;
                            let w0 = if w < idx { w } else { w + 1 };
                            assert(after[w] == before[w0]);
                            if k == i {
                                assert(before[w0].spec_hash() == before[idx].spec_hash());
                            }
                        }
                    }
                    assert forall|j: int| 0 <= j < after.len() implies old(self).spec_txs().contains(#[trigger] after[j]) by {
                        let j0 = if j < idx { j } else { j + 1 };
                        assert(after[j] == before[j0]);
                    }
                }
            }
            i = i + 1;
        }
    }
}

proof fn lemma_evict_index(s: Seq<Transaction>, e: int)
    requires
        0 <= e < s.len(),
        e == 0 || s[e - 1].fee != s.last().fee,
        forall|j: int| e <= j < s.len() ==> (#[trigger] s[j]).fee == s.last().fee,
    ensures
        evict_index(s) == e,
    decreases s.len(),
{
    if s.len() > 1 && e < s.len() - 1 {
        let d = s.drop_last();
        assert(s[s.len() - 2].fee == s.last().fee);
        assert forall|j: int| e <= j < d.len() implies (#[trigger] d[j]).fee == d.last().fee by {
            assert(d[j] == s[j]);
        }
        lemma_evict_index(d, e);
    }
}

/// The pool serves its transactions by priority: the top transactions come
/// in non-increasing fee order.
pub proof fn top_transactions_by_fee(p: Mempool, i: int, j: int)
    requires
        p.wf(),
        0 <= i < j < p.spec_txs().len(),
    ensures
        p.spec_txs()[i].fee >= p.spec_txs()[j].fee,
{
}

} // verus!
