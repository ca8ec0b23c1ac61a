//! Transaction ordering strategies: stable sorts by fee and by nonce, and
//! grouping by sender.
use vstd::prelude::*;
use crate::ledger::transaction::Transaction;

verus! {

broadcast use vstd::seq_lib::to_multiset_insert;

/// Transaction ordering methods.
#[derive(Debug, Clone, Copy, PartialEq, Eq, Structural)]
pub enum TransactionOrdering {
    /// Order by fee (highest first).
    ByFee,
    /// Order by nonce (lowest first per sender).
    ByNonce,
    /// First-in-first-out.
    Fifo,
}

/// Where a later transaction with fee `fee` goes in a fee-ordered list:
/// after the last transaction whose fee is at least `fee`.
pub open spec fn fee_slot(s: Seq<Transaction>, fee: u128) -> int
    decreases s.len(),
{
    if s.len() == 0 {
        0
    } else if s.last().fee >= fee {
        s.len() as int
    } else {
        fee_slot(s.drop_last(), fee)
    }
}

/// Where a later transaction with nonce `nonce` goes in a nonce-ordered
/// list: after the last transaction whose nonce is at most `nonce`.
pub open spec fn nonce_slot(s: Seq<Transaction>, nonce: u64) -> int
    decreases s.len(),
{
    if s.len() == 0 {
        0
    } else if s.last().nonce <= nonce {
        s.len() as int
    } else {
        nonce_slot(s.drop_last(), nonce)
    }
}

/// The stable sort of `s` by fee, highest first: transactions with equal
/// fees keep their relative order.
pub open spec fn sorted_by_fee(s: Seq<Transaction>) -> Seq<Transaction>
    decreases s.len(),
{
    if s.len() == 0 {
        s
    } else {
        let r = sorted_by_fee(s.drop_last());
        r.insert(fee_slot(r, s.last().fee), s.last())
    }
}

/// The stable sort of `s` by nonce, lowest first.
pub open spec fn sorted_by_nonce(s: Seq<Transaction>) -> Seq<Transaction>
    decreases s.len(),
{
    if s.len() == 0 {
        s
    } else {
        let r = sorted_by_nonce(s.drop_last());
        r.insert(nonce_slot(r, s.last().nonce), s.last())
    }
}

/// Fees never increase along `s`.
pub open spec fn fee_descending(s: Seq<Transaction>) -> bool {
    forall|i: int, j: int| 0 <= i < j < s.len() ==> (#[trigger] s[i]).fee >= (#[trigger] s[j]).fee
}

/// Nonces never decrease along `s`.
pub open spec fn nonce_ascending(s: Seq<Transaction>) -> bool {
    forall|i: int, j: int| 0 <= i < j < s.len() ==> (#[trigger] s[i]).nonce <= (#[trigger] s[j]).nonce
}

/// The slot of a fee is the position after which only lower fees follow.
pub proof fn lemma_fee_slot_exact(s: Seq<Transaction>, fee: u128, p: int)
    requires
        0 <= p <= s.len(),
        p == 0 || s[p - 1].fee >= fee,
        forall|j: int| p <= j < s.len() ==> (#[trigger] s[j]).fee < fee,
    ensures
        fee_slot(s, fee) == p,
{
    lemma_fee_slot(s, fee, p);
}

proof fn lemma_fee_slot(s: Seq<Transaction>, fee: u128, p: int)
    requires
        0 <= p <= s.len(),
        p == 0 || s[p - 1].fee >= fee,
        forall|j: int| p <= j < s.len() ==> (#[trigger] s[j]).fee < fee,
    ensures
        fee_slot(s, fee) == p,
    decreases s.len(),
{
    if s.len() > p {
        lemma_fee_slot(s.drop_last(), fee, p);
    }
}

proof fn lemma_nonce_slot(s: Seq<Transaction>, nonce: u64, p: int)
    requires
        0 <= p <= s.len(),
        p == 0 || s[p - 1].nonce <= nonce,
        forall|j: int| p <= j < s.len() ==> (#[trigger] s[j]).nonce > nonce,
    ensures
        nonce_slot(s, nonce) == p,
    decreases s.len(),
{
    if s.len() > p {
        lemma_nonce_slot(s.drop_last(), nonce, p);
    }
}

/// Inserts `tx` into `out` after the last transaction with a fee at least
/// its own.
fn insert_by_fee(out: &mut Vec<Transaction>, tx: Transaction)
    ensures
        final(out)@ == old(out)@.insert(fee_slot(old(out)@, tx.fee), tx),
{
    let mut p = out.len();
    while p > 0 && out[p - 1].fee < tx.fee
        invariant
            p <= out@.len(),
            out@ == old(out)@,
            forall|j: int| p <= j < out@.len() ==> (#[trigger] out@[j]).fee < tx.fee,
        decreases p,
    {
        p = p - 1;
    }
    proof { lemma_fee_slot(out@, tx.fee, p as int); }
    out.insert(p, tx);
}

/// Inserts `tx` into `out` after the last transaction with a nonce at most
/// its own.
fn insert_by_nonce(out: &mut Vec<Transaction>, tx: Transaction)
    ensures
        final(out)@ == old(out)@.insert(nonce_slot(old(out)@, tx.nonce), tx),
{
    let mut p = out.len();
    while p > 0 && out[p - 1].nonce > tx.nonce
        invariant
            p <= out@.len(),
            out@ == old(out)@,
            forall|j: int| p <= j < out@.len() ==> (#[trigger] out@[j]).nonce > tx.nonce,
        decreases p,
    {
        p = p - 1;
    }
    proof { lemma_nonce_slot(out@, tx.nonce, p as int); }
    out.insert(p, tx);
}

/// Sort transactions by fee, highest first, keeping the order of equal
/// fees.
pub fn sort_by_fee(txs: &mut Vec<Transaction>)
    ensures
        final(txs)@ == sorted_by_fee(old(txs)@),
        fee_descending(final(txs)@),
        final(txs)@.to_multiset() == old(txs)@.to_multiset(),
{
    let mut rest: Vec<Transaction> = Vec::new();
    std::mem::swap(&mut rest, txs);
    let ghost orig = rest@;
    let mut out: Vec<Transaction> = Vec::new();
    let n = rest.len();
    let mut i: usize = 0;
    while i < n
        invariant
            n == orig.len(),
            i <= n,
            rest@ == orig.subrange(i as int, n as int),
            out@ == sorted_by_fee(orig.subrange(0, i as int)),
        decreases n - i,
    {
        let tx = rest.remove(0);
        proof {
            assert(orig.subrange(0, i + 1).drop_last() =~= orig.subrange(0, i as int));
        }
        insert_by_fee(&mut out, tx);
        i = i + 1;
        assert(rest@ =~= orig.subrange(i as int, n as int));
    }
    assert(orig.subrange(0, n as int) =~= orig);
    proof {
        lemma_sorted_by_fee(orig);
    }
    *txs = out;
}

/// Sort transactions by nonce, lowest first, keeping the order of equal
/// nonces.
pub fn sort_by_nonce(txs: &mut Vec<Transaction>)
    ensures
        final(txs)@ == sorted_by_nonce(old(txs)@),
        nonce_ascending(final(txs)@),
        final(txs)@.to_multiset() == old(txs)@.to_multiset(),
{
    let mut rest: Vec<Transaction> = Vec::new();
    std::mem::swap(&mut rest, txs);
    let ghost orig = rest@;
    let mut out: Vec<Transaction> = Vec::new();
    let n = rest.len();
    let mut i: usize = 0;
    while i < n
        invariant
            n == orig.len(),
            i <= n,
            rest@ == orig.subrange(i as int, n as int),
            out@ == sorted_by_nonce(orig.subrange(0, i as int)),
        decreases n - i,
    {
        let tx = rest.remove(0);
        proof {
            assert(orig.subrange(0, i + 1).drop_last() =~= orig.subrange(0, i as int));
        }
        insert_by_nonce(&mut out, tx);
        i = i + 1;
        assert(rest@ =~= orig.subrange(i as int, n as int));
    }
    assert(orig.subrange(0, n as int) =~= orig);
    proof {
        lemma_sorted_by_nonce(orig);
    }
    *txs = out;
}

/// The fee sort orders by fee and keeps exactly the same transactions.
pub proof fn lemma_sorted_by_fee(s: Seq<Transaction>)
    ensures
        fee_descending(sorted_by_fee(s)),
        sorted_by_fee(s).to_multiset() == s.to_multiset(),
        sorted_by_fee(s).len() == s.len(),
    decreases s.len(),
{
    if s.len() > 0 {
        let r = sorted_by_fee(s.drop_last());
        lemma_sorted_by_fee(s.drop_last());
        let x = s.last();
        let p = fee_slot(r, x.fee);
        lemma_fee_slot_props(r, x.fee);
        let t = r.insert(p, x);
        assert forall|i: int, j: int| 0 <= i < j < t.len() implies (#[trigger] t[i]).fee >= (#[trigger] t[j]).fee by {
            if i < p && j == p {
                assert(r[i].fee >= r[p - 1].fee || i == p - 1);
            } else if i == p && j > p {
                assert(t[j] == r[j - 1]);
            } else if i < p && j > p {
                assert(t[j] == r[j - 1]);
            } else if i > p {
                assert(t[i] == r[i - 1]);
                assert(t[j] == r[j - 1]);
            }
        }
        assert(s =~= s.drop_last().push(x));
        vstd::seq_lib::to_multiset_build(s.drop_last(), x);
    }
}

proof fn lemma_fee_slot_props(r: Seq<Transaction>, fee: u128)
    requires
        fee_descending(r),
    ensures
        0 <= fee_slot(r, fee) <= r.len(),
        forall|i: int| 0 <= i < fee_slot(r, fee) ==> (#[trigger] r[i]).fee >= fee,
        forall|i: int| fee_slot(r, fee) <= i < r.len() ==> (#[trigger] r[i]).fee < fee,
    decreases r.len(),
{
    if r.len() > 0 {
        lemma_fee_slot_props(r.drop_last(), fee);
        let d = r.drop_last();
        assert forall|i: int| 0 <= i < d.len() implies #[trigger] r[i] == d[i] by {}
        if r.last().fee >= fee {
            assert forall|i: int| 0 <= i < r.len() implies (#[trigger] r[i]).fee >= fee by {
                if i < r.len() - 1 {
                    assert(r[i].fee >= r[r.len() - 1].fee);
                }
            }
        } else {
            let q = fee_slot(d, fee);
            assert forall|i: int| 0 <= i < q implies (#[trigger] r[i]).fee >= fee by {
                assert(d[i].fee >= fee);
            }
            assert forall|i: int| q <= i < r.len() implies (#[trigger] r[i]).fee < fee by {
                if i < d.len() {
                    assert(d[i].fee < fee);
                }
            }
        }
    }
}

/// The nonce sort orders by nonce and keeps exactly the same transactions.
pub proof fn lemma_sorted_by_nonce(s: Seq<Transaction>)
    ensures
        nonce_ascending(sorted_by_nonce(s)),
        sorted_by_nonce(s).to_multiset() == s.to_multiset(),
        sorted_by_nonce(s).len() == s.len(),
    decreases s.len(),
{
    if s.len() > 0 {
        let r = sorted_by_nonce(s.drop_last());
        lemma_sorted_by_nonce(s.drop_last());
        let x = s.last();
        let p = nonce_slot(r, x.nonce);
        lemma_nonce_slot_props(r, x.nonce);
        let t = r.insert(p, x);
        assert forall|i: int, j: int| 0 <= i < j < t.len() implies (#[trigger] t[i]).nonce <= (#[trigger] t[j]).nonce by {
            if i < p && j == p {
                assert(r[i].nonce <= r[p - 1].nonce || i == p - 1);
            } else if i == p && j > p {
                assert(t[j] == r[j - 1]);
            } else if i < p && j > p {
                assert(t[j] == r[j - 1]);
            } else if i > p {
                assert(t[i] == r[i - 1]);
                assert(t[j] == r[j - 1]);
            }
        }
        assert(s =~= s.drop_last().push(x));
        vstd::seq_lib::to_multiset_build(s.drop_last(), x);
    }
}

proof fn lemma_nonce_slot_props(r: Seq<Transaction>, nonce: u64)
    requires
        nonce_ascending(r),
    ensures
        0 <= nonce_slot(r, nonce) <= r.len(),
        forall|i: int| 0 <= i < nonce_slot(r, nonce) ==> (#[trigger] r[i]).nonce <= nonce,
        forall|i: int| nonce_slot(r, nonce) <= i < r.len() ==> (#[trigger] r[i]).nonce > nonce,
    decreases r.len(),
{
    if r.len() > 0 {
        lemma_nonce_slot_props(r.drop_last(), nonce);
        let d = r.drop_last();
        assert forall|i: int| 0 <= i < d.len() implies #[trigger] r[i] == d[i] by {}
        if r.last().nonce <= nonce {
            assert forall|i: int| 0 <= i < r.len() implies (#[trigger] r[i]).nonce <= nonce by {
                if i < r.len() - 1 {
                    assert(r[i].nonce <= r[r.len() - 1].nonce);
                }
            }
        } else {
            let q = nonce_slot(d, nonce);
            assert forall|i: int| 0 <= i < q implies (#[trigger] r[i]).nonce <= nonce by {
                assert(d[i].nonce <= nonce);
            }
            assert forall|i: int| q <= i < r.len() implies (#[trigger] r[i]).nonce > nonce by {
                if i < d.len() {
                    assert(d[i].nonce > nonce);
                }
            }
        }
    }
}

/// The group of `sender` among `gs`: the first whose transactions come from
/// it, or -1.
spec fn group_of(gs: Seq<Seq<Transaction>>, sender: Seq<u8>) -> int
    decreases gs.len(),
{
    if gs.len() == 0 {
        -1
    } else if group_of(gs.drop_last(), sender) >= 0 {
        group_of(gs.drop_last(), sender)
    } else if gs.last().len() > 0 && gs.last()[0].sender.0@ == sender {
        gs.len() - 1
    } else {
        -1
    }
}

/// The groups of `s` as grouping builds them, one transaction at a time.
spec fn grouped(s: Seq<Transaction>) -> Seq<Seq<Transaction>>
    decreases s.len(),
{
    if s.len() == 0 {
        Seq::empty()
    } else {
        let gs = grouped(s.drop_last());
        let x = s.last();
        let g = group_of(gs, x.sender.0@);
        if g >= 0 {
            gs.update(g, gs[g].insert(nonce_slot(gs[g], x.nonce), x))
        } else {
            gs.push(seq![x])
        }
    }
}

proof fn lemma_group_of(gs: Seq<Seq<Transaction>>, sender: Seq<u8>, g: int)
    requires
        -1 <= g < gs.len(),
        forall|k: int| 0 <= k < gs.len() ==> (#[trigger] gs[k]).len() > 0,
        g >= 0 ==> gs[g][0].sender.0@ == sender,
        forall|k: int| 0 <= k < gs.len() && (g < 0 || k < g) ==> (#[trigger] gs[k])[0].sender.0@ != sender,
    ensures
        group_of(gs, sender) == g,
    decreases gs.len(),
{
    if gs.len() > 0 {
        let d = gs.drop_last();
        assert forall|k: int| 0 <= k < d.len() implies #[trigger] d[k] == gs[k] by {}
        if g == gs.len() - 1 {
            lemma_group_of(d, sender, -1);
        } else {
            lemma_group_of(d, sender, g);
        }
    }
}

proof fn lemma_grouped_nonempty(s: Seq<Transaction>)
    ensures
        forall|k: int| 0 <= k < grouped(s).len() ==> (#[trigger] grouped(s)[k]).len() > 0,
        group_of(grouped(s), s.last().sender.0@) < grouped(s).len(),
    decreases s.len(),
{
    if s.len() > 0 {
        lemma_grouped_nonempty(s.drop_last());
        lemma_group_of_range(grouped(s.drop_last()), s.last().sender.0@);
    }
    lemma_group_of_range(grouped(s), s.last().sender.0@);
}

proof fn lemma_group_of_range(gs: Seq<Seq<Transaction>>, sender: Seq<u8>)
    ensures
        -1 <= group_of(gs, sender) < gs.len(),
    decreases gs.len(),
{
    if gs.len() > 0 {
        lemma_group_of_range(gs.drop_last(), sender);
    }
}

/// The senders of `s`, each once, in the order of their first
/// transaction.
pub open spec fn first_senders(s: Seq<Transaction>) -> Seq<Seq<u8>>
    decreases s.len(),
{
    if s.len() == 0 {
        Seq::empty()
    } else {
        let f = first_senders(s.drop_last());
        if f.contains(s.last().sender.0@) { f } else { f.push(s.last().sender.0@) }
    }
}

/// The transactions of `s` sent by `sender`, in order.
pub open spec fn from_sender(s: Seq<Transaction>, sender: Seq<u8>) -> Seq<Transaction>
    decreases s.len(),
{
    if s.len() == 0 {
        s
    } else if s.last().sender.0@ == sender {
        from_sender(s.drop_last(), sender).push(s.last())
    } else {
        from_sender(s.drop_last(), sender)
    }
}

/// The transactions of `s` grouped by sender: one group per sender, in the
/// order of each sender's first transaction, each group holding exactly
/// that sender's transactions in stable nonce order.
pub open spec fn groups_by_sender(s: Seq<Transaction>) -> Seq<Seq<Transaction>> {
    Seq::new(first_senders(s).len(), |g: int| sorted_by_nonce(from_sender(s, first_senders(s)[g])))
}

proof fn lemma_first_senders(s: Seq<Transaction>)
    ensures
        first_senders(s).no_duplicates(),
        forall|k: Seq<u8>| #[trigger] first_senders(s).contains(k) <==> exists|i: int| 0 <= i < s.len() && s[i].sender.0@ == k,
    decreases s.len(),
{
    if s.len() > 0 {
        let d = s.drop_last();
        lemma_first_senders(d);
        let f = first_senders(d);
        let x = s.last();
        assert forall|k: Seq<u8>| #[trigger] first_senders(s).contains(k) <==> exists|i: int| 0 <= i < s.len() && s[i].sender.0@ == k by {
            if first_senders(s).contains(k) {
                if f.contains(k) {
                    let i = choose|i: int| 0 <= i < d.len() && d[i].sender.0@ == k;
                    assert(s[i] == d[i]);
                } else {
                    assert(first_senders(s) == f.push(x.sender.0@));
                    let j = choose|j: int| 0 <= j < first_senders(s).len() && first_senders(s)[j] == k;
                    if j < f.len() {
                        assert(f.contains(k));
                    }
                    assert(s[s.len() - 1].sender.0@ == k);
                }
            }
            if exists|i: int| 0 <= i < s.len() && s[i].sender.0@ == k {
                let i = choose|i: int| 0 <= i < s.len() && s[i].sender.0@ == k;
                if i < d.len() {
                    assert(d[i] == s[i]);
                    assert(f.contains(k));
                    if !f.contains(x.sender.0@) {
                        assert(f[f.index_of(k)] == k);
                        assert(f.push(x.sender.0@)[f.index_of(k)] == k);
                    }
                } else {
                    if !f.contains(x.sender.0@) {
                        assert(f.push(x.sender.0@)[f.len() as int] == k);
                    }
                }
            }
        }
    }
}

proof fn lemma_from_sender_members(s: Seq<Transaction>, k: Seq<u8>)
    ensures
        forall|i: int| 0 <= i < from_sender(s, k).len() ==> (#[trigger] from_sender(s, k)[i]).sender.0@ == k,
        (exists|i: int| 0 <= i < s.len() && s[i].sender.0@ == k) ==> from_sender(s, k).len() > 0,
        (forall|i: int| 0 <= i < s.len() ==> s[i].sender.0@ != k) ==> from_sender(s, k).len() == 0,
    decreases s.len(),
{
    if s.len() > 0 {
        let d = s.drop_last();
        lemma_from_sender_members(d, k);
        if exists|i: int| 0 <= i < s.len() && s[i].sender.0@ == k {
            let i = choose|i: int| 0 <= i < s.len() && s[i].sender.0@ == k;
            if i < d.len() {
                assert(d[i] == s[i]);
            }
        }
        if forall|i: int| 0 <= i < s.len() ==> s[i].sender.0@ != k {
            assert forall|i: int| 0 <= i < d.len() implies d[i].sender.0@ != k by {
                assert(d[i] == s[i]);
            }
        }
    }
}

/// The first transaction of a non-empty group comes from the group's sender.
proof fn lemma_group_head(f: Seq<Transaction>, k: Seq<u8>)
    requires
        f.len() > 0,
        forall|i: int| 0 <= i < f.len() ==> (#[trigger] f[i]).sender.0@ == k,
    ensures
        sorted_by_nonce(f).len() > 0,
        sorted_by_nonce(f)[0].sender.0@ == k,
{
    broadcast use vstd::seq_lib::to_multiset_contains;
    lemma_sorted_by_nonce(f);
    let r = sorted_by_nonce(f);
    assert(r.contains(r[0]));
    assert(r.to_multiset().count(r[0]) > 0);
    assert(f.contains(r[0]));
}

/// Grouping step by step builds the groups by sender.
proof fn lemma_grouped_by_sender(s: Seq<Transaction>)
    ensures
        grouped(s) == groups_by_sender(s),
    decreases s.len(),
{
    if s.len() > 0 {
        let d = s.drop_last();
        let x = s.last();
        let k = x.sender.0@;
        lemma_grouped_by_sender(d);
        lemma_first_senders(d);
        let f = first_senders(d);
        let gs = grouped(d);
        assert forall|j: int| 0 <= j < gs.len() implies (#[trigger] gs[j]).len() > 0 && gs[j][0].sender.0@ == f[j] by {
            assert(f.contains(f[j]));
            lemma_from_sender_members(d, f[j]);
            lemma_group_head(from_sender(d, f[j]), f[j]);
        }
        assert forall|j: int| 0 <= j < gs.len() implies (#[trigger] gs[j]).len() > 0 by {}
        let idx: int = if f.contains(k) { f.index_of(k) } else { -1 };
        if f.contains(k) {
            assert(f[f.index_of(k)] == k);
        }
        assert forall|j: int| 0 <= j < gs.len() && (idx < 0 || j < idx) implies (#[trigger] gs[j])[0].sender.0@ != k by {
            if f[j] == k {
                assert(f.contains(k));
                assert(f[idx] == k);
            }
        }
        lemma_group_of(gs, k, idx);
        let gn = groups_by_sender(s);
        assert(s =~= d.push(x));
        assert forall|k2: Seq<u8>| k2 != k implies #[trigger] from_sender(s, k2) == from_sender(d, k2) by {}
        assert(from_sender(s, k) == from_sender(d, k).push(x));
        assert(from_sender(d, k).push(x).drop_last() =~= from_sender(d, k));
        assert(sorted_by_nonce(from_sender(s, k)) == sorted_by_nonce(from_sender(d, k)).insert(
            nonce_slot(sorted_by_nonce(from_sender(d, k)), x.nonce),
            x,
        ));
        if f.contains(k) {
            assert(first_senders(s) == f);
            let ng = gs.update(idx, gs[idx].insert(nonce_slot(gs[idx], x.nonce), x));
            assert forall|g: int| 0 <= g < gn.len() implies #[trigger] gn[g] == ng[g] by {
                if g != idx {
                    assert(f[g] != k);
                }
            }
            assert(gn =~= ng);
        } else {
            assert(first_senders(s) == f.push(k));
            lemma_from_sender_members(d, k);
            assert(from_sender(d, k) =~= Seq::<Transaction>::empty());
            assert(seq![x].drop_last() =~= Seq::<Transaction>::empty());
            assert(sorted_by_nonce(seq![x]) =~= seq![x]);
            assert(from_sender(s, k) =~= seq![x]);
            let ng = gs.push(seq![x]);
            assert forall|g: int| 0 <= g < gn.len() implies #[trigger] gn[g] == ng[g] by {
                if g < f.len() {
                    assert(f.push(k)[g] == f[g]);
                    assert(f.contains(f[g]));
                    assert(f[g] != k);
                }
            }
            assert(gn =~= ng);
        }
    } else {
        assert(grouped(s) =~= groups_by_sender(s));
    }
}

/// Group transactions by sender; within a group they are in stable nonce
/// order, and groups come in the order of their sender's first
/// transaction.
pub fn group_by_sender(txs: &[Transaction]) -> (r: Vec<Vec<&Transaction>>)
    ensures
        r@.len() == groups_by_sender(txs@).len(),
        forall|g: int| 0 <= g < r@.len() ==> (#[trigger] r@[g])@.len() == groups_by_sender(txs@)[g].len(),
        forall|g: int, k: int| 0 <= g < r@.len() && 0 <= k < r@[g]@.len() ==> *(#[trigger] r@[g]@[k]) == groups_by_sender(txs@)[g][k],
{
    let mut out: Vec<Vec<&Transaction>> = Vec::new();
    let n = txs.len();
    let mut i: usize = 0;
    while i < n
        invariant
            n == txs@.len(),
            i <= n,
            out@.len() == grouped(txs@.subrange(0, i as int)).len(),
            forall|g: int| 0 <= g < out@.len() ==> (#[trigger] out@[g])@.len() == grouped(txs@.subrange(0, i as int))[g].len(),
            forall|g: int, k: int| 0 <= g < out@.len() && 0 <= k < out@[g]@.len() ==> *(#[trigger] out@[g]@[k]) == grouped(txs@.subrange(0, i as int))[g][k],
        decreases n - i,
    {
        let ghost pre = txs@.subrange(0, i as int);
        let ghost gs = grouped(pre);
        proof {
            assert(txs@.subrange(0, i + 1).drop_last() =~= pre);
            if i > 0 {
                lemma_grouped_nonempty(pre);
            }
        }
        let tx = &txs[i];
        let mut g: usize = 0;
        let m = out.len();
        while g < m && !(out[g][0].sender == tx.sender)
            invariant
                m == out@.len(),
                g <= m,
                out@.len() == gs.len(),
                forall|k: int| 0 <= k < gs.len() ==> (#[trigger] gs[k]).len() > 0,
                forall|h: int| 0 <= h < out@.len() ==> (#[trigger] out@[h])@.len() == gs[h].len(),
                forall|h: int, k: int| 0 <= h < out@.len() && 0 <= k < out@[h]@.len() ==> *(#[trigger] out@[h]@[k]) == gs[h][k],
                forall|h: int| 0 <= h < g ==> (#[trigger] gs[h])[0].sender.0@ != tx.sender.0@,
            decreases m - g,
        {
            g = g + 1;
        }
        if g < m {
            proof { lemma_group_of(gs, tx.sender.0@, g as int); }
            let ghost old_group = gs[g as int];
            let mut p = out[g].len();
            while p > 0 && out[g][p - 1].nonce > tx.nonce
                invariant
                    g < out@.len(),
                    p <= out@[g as int]@.len(),
                    out@[g as int]@.len() == old_group.len(),
                    forall|k: int| 0 <= k < old_group.len() ==> *(#[trigger] out@[g as int]@[k]) == old_group[k],
                    forall|j: int| p <= j < old_group.len() ==> (#[trigger] old_group[j]).nonce > tx.nonce,
                decreases p,
            {
                p = p - 1;
            }
            proof { lemma_nonce_slot(old_group, tx.nonce, p as int); }
            let ghost before = out@;
            out[g].insert(p, tx);
            proof {
                let ng = old_group.insert(p as int, *tx);
                assert forall|h: int| 0 <= h < out@.len() implies (#[trigger] out@[h])@.len() == gs.update(g as int, ng)[h].len() by {
                    if h != g {
                        assert(out@[h] == before[h]);
                    }
                }
                assert forall|h: int, k: int| 0 <= h < out@.len() && 0 <= k < out@[h]@.len() implies *(#[trigger] out@[h]@[k]) == gs.update(g as int, ng)[h][k] by {
                    if h != g {
                        assert(out@[h] == before[h]);
                    } else {
                        if k < p {
                            assert(out@[h]@[k] == before[h]@[k]);
                        } else if k > p {
                            assert(out@[h]@[k] == before[h]@[k - 1]);
                        }
                    }
                }
            }
        } else {
            proof { lemma_group_of(gs, tx.sender.0@, -1); }
            let mut group: Vec<&Transaction> = Vec::new();
            group.push(tx);
            let ghost before = out@;
            out.push(group);
            proof {
                assert forall|h: int| 0 <= h < out@.len() implies (#[trigger] out@[h])@.len() == gs.push(seq![*tx])[h].len() by {
                    if h < before.len() {
                        assert(out@[h] == before[h]);
                    }
                }
                assert forall|h: int, k: int| 0 <= h < out@.len() && 0 <= k < out@[h]@.len() implies *(#[trigger] out@[h]@[k]) == gs.push(seq![*tx])[h][k] by {
                    if h < before.len() {
                        assert(out@[h] == before[h]);
                    }
                }
            }
        }
        i = i + 1;
    }
    assert(txs@.subrange(0, n as int) =~= txs@);
    proof {
        lemma_grouped_by_sender(txs@);
    }
    out
}

} // verus!
