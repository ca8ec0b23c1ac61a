//! Chain state: account balances, nonces and contract markers, and the
//! state root that commits to them.
//!
//! Accounts are kept in a vector ordered by address bytes, so the state
//! root walks them in address order.
use vstd::prelude::*;
use vstd::bytes::{spec_u64_to_le_bytes, spec_u128_to_le_bytes};
use crate::bytes::{append_bytes, push_u64_le, push_u128_le};
use crate::crypto::hash::{blake3_of, zero32, zero_hash, Blake3Hash};
use crate::crypto::keys::WalletAddress;
use crate::ledger::block::{calculate_merkle_root, hash_views, merkle_root};
use crate::ledger::error::CoreError;

verus! {

/// State of a single account on the NEXARA blockchain.
#[derive(Debug, Clone, Copy)]
pub struct AccountState {
    /// Account balance in base units (10^18 per NXR).
    pub balance: u128,
    /// Next expected transaction nonce.
    pub nonce: u64,
    /// If this account is a contract, its code hash.
    pub code_hash: Option<Blake3Hash>,
    /// Contract storage root (Merkle root of storage trie).
    pub storage_root: Blake3Hash,
}

/// A fresh account holding `balance`: nonce 0, no code, zero storage root.
pub open spec fn fresh_account(balance: u128) -> AccountState {
    AccountState { balance, nonce: 0, code_hash: None, storage_root: zero_hash() }
}

impl AccountState {
    /// Create a new account with a given balance.
    pub fn new(balance: u128) -> (a: Self)
        ensures
            a.balance == balance,
            a.nonce == 0,
            a.code_hash is None,
            a.storage_root.0@ == zero32(),
            a == fresh_account(balance),
    {
        AccountState { balance, nonce: 0, code_hash: None, storage_root: Blake3Hash::zero() }
    }

    /// Create a new contract account.
    pub fn new_contract(balance: u128, code_hash: Blake3Hash) -> (a: Self)
        ensures
            a.balance == balance,
            a.nonce == 0,
            a.code_hash == Some(code_hash),
            a.storage_root.0@ == zero32(),
    {
        AccountState { balance, nonce: 0, code_hash: Some(code_hash), storage_root: Blake3Hash::zero() }
    }

    /// Check if this account is a smart contract.
    pub fn is_contract(&self) -> (r: bool)
        ensures
            r == self.code_hash is Some,
    {
        self.code_hash.is_some()
    }
}

impl Default for AccountState {
    fn default() -> (a: Self)
        ensures
            a.balance == 0,
            a.nonce == 0,
            a.code_hash is None,
            a.storage_root.0@ == zero32(),
    {
        Self::new(0)
    }
}

/// Lexicographic order on byte sequences: the first differing byte decides.
pub open spec fn lex_lt(a: Seq<u8>, b: Seq<u8>) -> bool {
    exists|i: int|
        0 <= i < a.len() && i < b.len() && a[i] < b[i] && forall|j: int| 0 <= j < i ==> a[j] == b[j]
}

/// No sequence is lexicographically below itself.
pub proof fn lemma_lex_irrefl(a: Seq<u8>)
    ensures
        !lex_lt(a, a),
{
}

/// The lexicographic order on sequences of one length is transitive.
pub proof fn lemma_lex_trans(a: Seq<u8>, b: Seq<u8>, c: Seq<u8>)
    requires
        a.len() == b.len(),
        b.len() == c.len(),
        lex_lt(a, b),
        lex_lt(b, c),
    ensures
        lex_lt(a, c),
{
    let i = choose|i: int|
        0 <= i < a.len() && i < b.len() && a[i] < b[i] && forall|j: int| 0 <= j < i ==> a[j] == b[j];
    let k = choose|k: int|
        0 <= k < b.len() && k < c.len() && b[k] < c[k] && forall|j: int| 0 <= j < k ==> b[j] == c[j];
    let m = if i < k { i } else { k };
    assert(a[m] < c[m]);
    assert(forall|j: int| 0 <= j < m ==> a[j] == c[j]);
}

/// Three-way comparison of two addresses' bytes: -1, 0 or 1.
pub fn compare_bytes32(a: &[u8; 32], b: &[u8; 32]) -> (r: i8)
    ensures
        r == -1 ==> lex_lt(a@, b@),
        r == 0 ==> a@ == b@,
        r == 1 ==> lex_lt(b@, a@),
        r == -1 || r == 0 || r == 1,
{
    let mut i: usize = 0;
    while i < 32
        invariant
            i <= 32,
            forall|j: int| 0 <= j < i ==> a@[j] == b@[j],
        decreases 32 - i,
    {
        if a[i] < b[i] {
            assert(lex_lt(a@, b@)) by {
                assert(0 <= i < 32 && a@[i as int] < b@[i as int]);
            }
            return -1;
        }
        if a[i] > b[i] {
            assert(lex_lt(b@, a@)) by {
                assert(0 <= i < 32 && b@[i as int] < a@[i as int]);
            }
            return 1;
        }
        i = i + 1;
    }
    assert(a@ =~= b@);
    0
}

/// The key bytes of entry `i`.
pub open spec fn key_at(s: Seq<(WalletAddress, AccountState)>, i: int) -> Seq<u8> {
    s[i].0.0@
}

/// Entries strictly ordered by address bytes (so no address repeats).
pub open spec fn sorted_entries(s: Seq<(WalletAddress, AccountState)>) -> bool {
    forall|i: int, j: int| 0 <= i < j < s.len() ==> lex_lt(#[trigger] key_at(s, i), #[trigger] key_at(s, j))
}

/// Whether some entry has address bytes `k`.
pub open spec fn has_key(s: Seq<(WalletAddress, AccountState)>, k: Seq<u8>) -> bool {
    exists|i: int| 0 <= i < s.len() && key_at(s, i) == k
}

/// The accounts as a map from address bytes to account state.
pub open spec fn entries_map(s: Seq<(WalletAddress, AccountState)>) -> Map<Seq<u8>, AccountState> {
    Map::new(
        |k: Seq<u8>| has_key(s, k),
        |k: Seq<u8>| s[choose|i: int| 0 <= i < s.len() && key_at(s, i) == k].1,
    )
}

proof fn lemma_sorted_unique(s: Seq<(WalletAddress, AccountState)>, i: int, j: int)
    requires
        sorted_entries(s),
        0 <= i < s.len(),
        0 <= j < s.len(),
        key_at(s, i) == key_at(s, j),
    ensures
        i == j,
{
    if i < j {
        assert(lex_lt(key_at(s, i), key_at(s, j)));
        lemma_lex_irrefl(key_at(s, i));
    } else if j < i {
        assert(lex_lt(key_at(s, j), key_at(s, i)));
        lemma_lex_irrefl(key_at(s, i));
    }
}

proof fn lemma_map_at(s: Seq<(WalletAddress, AccountState)>, i: int)
    requires
        sorted_entries(s),
        0 <= i < s.len(),
    ensures
        entries_map(s).contains_key(key_at(s, i)),
        entries_map(s)[key_at(s, i)] == s[i].1,
{
    let k = key_at(s, i);
    assert(has_key(s, k));
    let c = choose|c: int| 0 <= c < s.len() && key_at(s, c) == k;
    lemma_sorted_unique(s, i, c);
}

/// Replacing entry `p` with the same address and a new state updates the
/// map at that address.
proof fn lemma_map_update(s: Seq<(WalletAddress, AccountState)>, p: int, a: WalletAddress, v: AccountState)
    requires
        sorted_entries(s),
        0 <= p < s.len(),
        key_at(s, p) == a.0@,
    ensures
        sorted_entries(s.update(p, (a, v))),
        entries_map(s.update(p, (a, v))) == entries_map(s).insert(a.0@, v),
{
    let t = s.update(p, (a, v));
    assert forall|i: int, j: int| 0 <= i < j < t.len() implies lex_lt(
        #[trigger] key_at(t, i),
        #[trigger] key_at(t, j),
    ) by {
        assert(key_at(t, i) == key_at(s, i));
        assert(key_at(t, j) == key_at(s, j));
    }
    assert forall|k: Seq<u8>| #[trigger] has_key(t, k) == has_key(s, k) by {
        if has_key(s, k) {
            let i = choose|i: int| 0 <= i < s.len() && key_at(s, i) == k;
            assert(key_at(t, i) == k);
        }
        if has_key(t, k) {
            let i = choose|i: int| 0 <= i < t.len() && key_at(t, i) == k;
            assert(key_at(s, i) == k);
        }
    }
    assert forall|k: Seq<u8>| has_key(t, k) implies #[trigger] entries_map(t)[k] == entries_map(s).insert(
        a.0@,
        v,
    )[k] by {
        let i = choose|i: int| 0 <= i < t.len() && key_at(t, i) == k;
        lemma_map_at(t, i);
        if i == p {
        } else {
            lemma_map_at(s, i);
        }
    }
    assert(entries_map(t) =~= entries_map(s).insert(a.0@, v));
}

/// Inserting a new address at its ordered position extends the map.
proof fn lemma_map_insert(s: Seq<(WalletAddress, AccountState)>, p: int, a: WalletAddress, v: AccountState)
    requires
        sorted_entries(s),
        0 <= p <= s.len(),
        forall|i: int| 0 <= i < p ==> lex_lt(#[trigger] key_at(s, i), a.0@),
        p < s.len() ==> lex_lt(a.0@, key_at(s, p)),
    ensures
        sorted_entries(s.insert(p, (a, v))),
        entries_map(s.insert(p, (a, v))) == entries_map(s).insert(a.0@, v),
        !entries_map(s).contains_key(a.0@),
{
    let t = s.insert(p, (a, v));
    assert forall|i: int, j: int| 0 <= i < j < t.len() implies lex_lt(
        #[trigger] key_at(t, i),
        #[trigger] key_at(t, j),
    ) by {
        if j < p {
            assert(key_at(t, i) == key_at(s, i) && key_at(t, j) == key_at(s, j));
        } else if j == p {
            assert(key_at(t, i) == key_at(s, i));
        } else if i == p {
            assert(key_at(t, j) == key_at(s, j - 1));
            if j - 1 > p {
                assert(lex_lt(key_at(s, p), key_at(s, j - 1)));
                lemma_lex_trans(a.0@, key_at(s, p), key_at(s, j - 1));
            }
        } else if i < p {
            assert(key_at(t, i) == key_at(s, i) && key_at(t, j) == key_at(s, j - 1));
        } else {
            assert(key_at(t, i) == key_at(s, i - 1) && key_at(t, j) == key_at(s, j - 1));
        }
    }
    assert(!has_key(s, a.0@)) by {
        if has_key(s, a.0@) {
            let i = choose|i: int| 0 <= i < s.len() && key_at(s, i) == a.0@;
            if i < p {
                lemma_lex_irrefl(a.0@);
            } else if i == p {
                lemma_lex_irrefl(a.0@);
            } else {
                assert(lex_lt(key_at(s, p), key_at(s, i)));
                lemma_lex_trans(a.0@, key_at(s, p), key_at(s, i));
                lemma_lex_irrefl(a.0@);
            }
        }
    }
    assert forall|k: Seq<u8>| #[trigger] has_key(t, k) == (has_key(s, k) || k == a.0@) by {
        if has_key(s, k) {
            let i = choose|i: int| 0 <= i < s.len() && key_at(s, i) == k;
            if i < p {
                assert(key_at(t, i) == k);
            } else {
                assert(key_at(t, i + 1) == k);
            }
        }
        if k == a.0@ {
            assert(key_at(t, p) == k);
        }
        if has_key(t, k) {
            let i = choose|i: int| 0 <= i < t.len() && key_at(t, i) == k;
            if i < p {
                assert(key_at(s, i) == k);
            } else if i > p {
                assert(key_at(s, i - 1) == k);
            }
        }
    }
    assert forall|k: Seq<u8>| has_key(t, k) implies #[trigger] entries_map(t)[k] == entries_map(s).insert(
        a.0@,
        v,
    )[k] by {
        let i = choose|i: int| 0 <= i < t.len() && key_at(t, i) == k;
        lemma_map_at(t, i);
        if i < p {
            lemma_map_at(s, i);
        } else if i > p {
            lemma_map_at(s, i - 1);
        }
    }
    assert(entries_map(t) =~= entries_map(s).insert(a.0@, v));
}

/// The total of the balances of a sequence of entries.
pub open spec fn sum_balances(s: Seq<(WalletAddress, AccountState)>) -> int
    decreases s.len(),
{
    if s.len() == 0 {
        0
    } else {
        sum_balances(s.drop_last()) + s.last().1.balance
    }
}

/// The number of contract accounts among the entries.
pub open spec fn count_contracts(s: Seq<(WalletAddress, AccountState)>) -> int
    decreases s.len(),
{
    if s.len() == 0 {
        0
    } else {
        count_contracts(s.drop_last()) + if s.last().1.code_hash is Some { 1int } else { 0int }
    }
}

proof fn lemma_sum_update(s: Seq<(WalletAddress, AccountState)>, p: int, e: (WalletAddress, AccountState))
    requires
        0 <= p < s.len(),
    ensures
        sum_balances(s.update(p, e)) == sum_balances(s) - s[p].1.balance + e.1.balance,
    decreases s.len(),
{
    if p == s.len() - 1 {
        assert(s.update(p, e).drop_last() =~= s.drop_last());
    } else {
        lemma_sum_update(s.drop_last(), p, e);
        assert(s.update(p, e).drop_last() =~= s.drop_last().update(p, e));
    }
}

proof fn lemma_sum_insert(s: Seq<(WalletAddress, AccountState)>, p: int, e: (WalletAddress, AccountState))
    requires
        0 <= p <= s.len(),
    ensures
        sum_balances(s.insert(p, e)) == sum_balances(s) + e.1.balance,
    decreases s.len(),
{
    if p == s.len() {
        assert(s.insert(p, e).drop_last() =~= s);
    } else {
        lemma_sum_insert(s.drop_last(), p, e);
        assert(s.insert(p, e).drop_last() =~= s.drop_last().insert(p, e));
    }
}

proof fn lemma_sum_nonneg(s: Seq<(WalletAddress, AccountState)>)
    ensures
        sum_balances(s) >= 0,
    decreases s.len(),
{
    if s.len() > 0 {
        lemma_sum_nonneg(s.drop_last());
    }
}

/// The lexicographic order on sequences of one length is asymmetric.
pub proof fn lemma_lex_asym(a: Seq<u8>, b: Seq<u8>)
    requires
        a.len() == b.len(),
        lex_lt(a, b),
    ensures
        !lex_lt(b, a),
{
    if lex_lt(b, a) {
        lemma_lex_trans(a, b, a);
        lemma_lex_irrefl(a);
    }
}

proof fn lemma_map_drop_last(s: Seq<(WalletAddress, AccountState)>)
    requires
        sorted_entries(s),
        s.len() > 0,
    ensures
        sorted_entries(s.drop_last()),
        entries_map(s.drop_last()) == entries_map(s).remove(key_at(s, s.len() - 1)),
{
    let d = s.drop_last();
    let kl = key_at(s, s.len() - 1);
    assert forall|i: int, j: int| 0 <= i < j < d.len() implies lex_lt(
        #[trigger] key_at(d, i),
        #[trigger] key_at(d, j),
    ) by {
        assert(key_at(d, i) == key_at(s, i) && key_at(d, j) == key_at(s, j));
    }
    assert forall|k: Seq<u8>| #[trigger] has_key(d, k) == (has_key(s, k) && k != kl) by {
        if has_key(d, k) {
            let i = choose|i: int| 0 <= i < d.len() && key_at(d, i) == k;
            assert(key_at(s, i) == k);
            assert(lex_lt(key_at(s, i), kl));
            lemma_lex_irrefl(k);
        }
        if has_key(s, k) && k != kl {
            let i = choose|i: int| 0 <= i < s.len() && key_at(s, i) == k;
            assert(key_at(d, i) == k);
        }
    }
    assert forall|k: Seq<u8>| has_key(d, k) implies #[trigger] entries_map(d)[k] == entries_map(s)[k] by {
        let i = choose|i: int| 0 <= i < d.len() && key_at(d, i) == k;
        lemma_map_at(d, i);
        lemma_map_at(s, i);
    }
    assert(entries_map(d) =~= entries_map(s).remove(kl));
}

/// Two address-ordered entry sequences with the same accounts are equal:
/// the ordered representation of a set of accounts is unique.
pub proof fn lemma_sorted_representation_unique(s: Seq<(WalletAddress, AccountState)>, t: Seq<
    (WalletAddress, AccountState),
>)
    requires
        sorted_entries(s),
        sorted_entries(t),
        entries_map(s) == entries_map(t),
    ensures
        s == t,
    decreases s.len(),
{
    if s.len() == 0 {
        if t.len() > 0 {
            assert(has_key(t, key_at(t, 0)));
            assert(entries_map(t).contains_key(key_at(t, 0)));
        }
        assert(s =~= t);
    } else {
        let ks = key_at(s, s.len() - 1);
        assert(has_key(s, ks));
        assert(entries_map(t).contains_key(ks));
        assert(t.len() > 0);
        let kt = key_at(t, t.len() - 1);
        assert(has_key(t, kt));
        assert(entries_map(s).contains_key(kt));
        let i = choose|i: int| 0 <= i < t.len() && key_at(t, i) == ks;
        let j = choose|j: int| 0 <= j < s.len() && key_at(s, j) == kt;
        if i < t.len() - 1 && j < s.len() - 1 {
            assert(lex_lt(ks, kt));
            assert(lex_lt(kt, ks));
            lemma_lex_asym(ks, kt);
        }
        if i == t.len() - 1 {
            assert(ks == kt);
        } else {
            assert(j == s.len() - 1);
            assert(ks == kt);
        }
        lemma_map_at(s, s.len() - 1);
        lemma_map_at(t, t.len() - 1);
        lemma_map_drop_last(s);
        lemma_map_drop_last(t);
        lemma_sorted_representation_unique(s.drop_last(), t.drop_last());
        assert(s.last().0.0 =~= t.last().0.0);
        assert(s.last() == t.last());
        assert(s =~= t.drop_last().push(t.last()));
        assert(t =~= t.drop_last().push(t.last()));
    }
}

/// The address-ordered entries holding the accounts of `m`.
pub open spec fn canonical_entries(m: Map<Seq<u8>, AccountState>) -> Seq<(WalletAddress, AccountState)> {
    choose|s: Seq<(WalletAddress, AccountState)>| sorted_entries(s) && entries_map(s) == m
}

/// The state root that commits to the accounts `m`: the Merkle root of the
/// account leaves in address order.
pub open spec fn accounts_root(m: Map<Seq<u8>, AccountState>) -> Seq<u8> {
    state_root_of(canonical_entries(m))
}

proof fn lemma_canonical(s: Seq<(WalletAddress, AccountState)>)
    requires
        sorted_entries(s),
    ensures
        canonical_entries(entries_map(s)) == s,
{
    let c = canonical_entries(entries_map(s));
    assert(sorted_entries(s) && entries_map(s) == entries_map(s));
    lemma_sorted_representation_unique(c, s);
}

/// The complete chain state (all accounts).
pub struct ChainState {
    accounts: Vec<(WalletAddress, AccountState)>,
}

/// Statistics about the chain state.
#[derive(Debug, Clone)]
pub struct StateStats {
    pub total_accounts: usize,
    pub total_balance: u128,
    pub contract_count: usize,
}

/// The balance recorded for `k` in `m`, 0 when absent.
pub open spec fn balance_in(m: Map<Seq<u8>, AccountState>, k: Seq<u8>) -> u128 {
    if m.contains_key(k) { m[k].balance } else { 0 }
}

/// The account `k` has in `m`, or a fresh empty one.
pub open spec fn account_or_fresh(m: Map<Seq<u8>, AccountState>, k: Seq<u8>) -> AccountState {
    if m.contains_key(k) { m[k] } else { fresh_account(0) }
}

/// The leaf that commits to one account in the state root:
/// BLAKE3(address || balance as 16 LE bytes || nonce as 8 LE bytes).
pub open spec fn account_leaf(e: (WalletAddress, AccountState)) -> Seq<u8> {
    blake3_of(e.0.0@ + spec_u128_to_le_bytes(e.1.balance) + spec_u64_to_le_bytes(e.1.nonce))
}

/// The state root of entries in address order.
pub open spec fn state_root_of(s: Seq<(WalletAddress, AccountState)>) -> Seq<u8> {
    if s.len() == 0 { zero32() } else { merkle_root(Seq::new(s.len(), |i: int| account_leaf(s[i]))) }
}

/// What the state root sees of an account: its balance and nonce.
pub open spec fn root_view(a: AccountState) -> AccountState {
    AccountState { balance: a.balance, nonce: a.nonce, code_hash: None, storage_root: zero_hash() }
}

/// The entries with each account reduced to what the state root sees.
pub open spec fn root_views(s: Seq<(WalletAddress, AccountState)>) -> Seq<(WalletAddress, AccountState)> {
    Seq::new(s.len(), |i: int| (s[i].0, root_view(s[i].1)))
}

/// Two account maps with the same addresses, each holding the same balance
/// and nonce in both.
pub open spec fn same_balances_and_nonces(m1: Map<Seq<u8>, AccountState>, m2: Map<Seq<u8>, AccountState>) -> bool {
    &&& m1.dom() == m2.dom()
    &&& forall|k: Seq<u8>| #[trigger] m1.contains_key(k) ==> m1[k].balance == m2[k].balance && m1[k].nonce == m2[k].nonce
}

proof fn lemma_root_views_map(s: Seq<(WalletAddress, AccountState)>)
    requires
        sorted_entries(s),
    ensures
        sorted_entries(root_views(s)),
        entries_map(root_views(s)).dom() == entries_map(s).dom(),
        forall|k: Seq<u8>| #[trigger] entries_map(s).contains_key(k) ==> entries_map(root_views(s))[k] == root_view(entries_map(s)[k]),
{
    let p = root_views(s);
    assert forall|i: int, j: int| 0 <= i < j < p.len() implies lex_lt(#[trigger] key_at(p, i), #[trigger] key_at(p, j)) by {
        assert(key_at(p, i) == key_at(s, i) && key_at(p, j) == key_at(s, j));
    }
    assert forall|k: Seq<u8>| #[trigger] has_key(p, k) == has_key(s, k) by {
        if has_key(p, k) {
            let i = choose|i: int| 0 <= i < p.len() && key_at(p, i) == k;
            assert(key_at(s, i) == k);
        }
        if has_key(s, k) {
            let i = choose|i: int| 0 <= i < s.len() && key_at(s, i) == k;
            assert(key_at(p, i) == k);
        }
    }
    assert(entries_map(p).dom() =~= entries_map(s).dom());
    assert forall|k: Seq<u8>| #[trigger] entries_map(s).contains_key(k) implies entries_map(p)[k] == root_view(entries_map(s)[k]) by {
        let i = choose|i: int| 0 <= i < s.len() && key_at(s, i) == k;
        lemma_map_at(s, i);
        lemma_map_at(p, i);
        assert(key_at(p, i) == k);
    }
}

proof fn lemma_root_of_balances_and_nonces(m1: Map<Seq<u8>, AccountState>, m2: Map<Seq<u8>, AccountState>)
    requires
        exists|s: Seq<(WalletAddress, AccountState)>| sorted_entries(s) && entries_map(s) == m1,
        exists|s: Seq<(WalletAddress, AccountState)>| sorted_entries(s) && entries_map(s) == m2,
        same_balances_and_nonces(m1, m2),
    ensures
        accounts_root(m1) == accounts_root(m2),
{
    let e1 = canonical_entries(m1);
    let e2 = canonical_entries(m2);
    lemma_root_views_map(e1);
    lemma_root_views_map(e2);
    let p1 = root_views(e1);
    let p2 = root_views(e2);
    assert(entries_map(p1).dom() =~= entries_map(p2).dom());
    assert forall|k: Seq<u8>| #[trigger] entries_map(p1).contains_key(k) implies entries_map(p1)[k] == entries_map(p2)[k] by {
        assert(m1.contains_key(k));
    }
    assert(entries_map(p1) =~= entries_map(p2));
    lemma_sorted_representation_unique(p1, p2);
    assert(e1.len() == e2.len());
    let l1 = Seq::new(e1.len(), |i: int| account_leaf(e1[i]));
    let l2 = Seq::new(e2.len(), |i: int| account_leaf(e2[i]));
    assert forall|i: int| 0 <= i < e1.len() implies #[trigger] l1[i] == l2[i] by {
        assert(p1[i] == p2[i]);
        assert(e1[i].0.0@ == p1[i].0.0@ && e2[i].0.0@ == p2[i].0.0@);
    }
    assert(l1 =~= l2);
}

/// The state root commits only to addresses, balances and nonces: two
/// states holding the same balance and nonce at the same addresses have
/// the same root (the one `state_root` returns), whatever order their
/// accounts were added in and whatever their code hashes and storage roots.
pub proof fn state_root_sees_only_balances_and_nonces(s1: ChainState, s2: ChainState)
    requires
        s1.wf(),
        s2.wf(),
        same_balances_and_nonces(s1@, s2@),
    ensures
        accounts_root(s1@) == accounts_root(s2@),
{
    assert(sorted_entries(s1.spec_entries()) && entries_map(s1.spec_entries()) == s1@);
    assert(sorted_entries(s2.spec_entries()) && entries_map(s2.spec_entries()) == s2@);
    lemma_root_of_balances_and_nonces(s1@, s2@);
}

impl View for ChainState {
    type V = Map<Seq<u8>, AccountState>;

    open spec fn view(&self) -> Map<Seq<u8>, AccountState> {
        entries_map(self.spec_entries())
    }
}

impl ChainState {
    /// The accounts in address order.
    pub closed spec fn spec_entries(&self) -> Seq<(WalletAddress, AccountState)> {
        self.accounts@
    }

    /// The state's internal invariant: accounts strictly ordered by address.
    pub open spec fn wf(&self) -> bool {
        sorted_entries(self.spec_entries())
    }

    /// Create a new empty chain state.
    pub fn new() -> (s: Self)
        ensures
            s.wf(),
            s@ == Map::<Seq<u8>, AccountState>::empty(),
            s.spec_entries() == Seq::<(WalletAddress, AccountState)>::empty(),
    {
        let s = ChainState { accounts: Vec::new() };
        assert(s@ =~= Map::<Seq<u8>, AccountState>::empty());
        s
    }

    /// Where `address` is, or where it would be inserted.
    fn locate(&self, address: &WalletAddress) -> (r: Result<usize, usize>)
        requires
            self.wf(),
        ensures
            r matches Ok(i) ==> i < self.spec_entries().len() && key_at(self.spec_entries(), i as int)
                == address.0@,
            r matches Err(p) ==> p <= self.spec_entries().len() && (forall|i: int|
                0 <= i < p ==> lex_lt(#[trigger] key_at(self.spec_entries(), i), address.0@)) && (p
                < self.spec_entries().len() ==> lex_lt(
                address.0@,
                key_at(self.spec_entries(), p as int),
            )),
    {
        let n = self.accounts.len();
        let mut i: usize = 0;
        while i < n
            invariant
                n == self.accounts@.len(),
                i <= n,
                forall|j: int| 0 <= j < i ==> lex_lt(#[trigger] key_at(self.accounts@, j), address.0@),
            decreases n - i,
        {
            let c = compare_bytes32(&self.accounts[i].0.0, &address.0);
            if c == 0 {
                return Ok(i);
            }
            if c == 1 {
                return Err(i);
            }
            i = i + 1;
        }
        Err(n)
    }

    /// Get the state of an account.
    pub fn get_account(&self, address: &WalletAddress) -> (r: Option<&AccountState>)
        requires
            self.wf(),
        ensures
            r is Some == self@.contains_key(address.0@),
            r matches Some(a) ==> *a == self@[address.0@],
    {
        match self.locate(address) {
            Ok(i) => {
                proof {
                    lemma_map_at(self.spec_entries(), i as int);
                }
                Some(&self.accounts[i].1)
            },
            Err(p) => {
                proof {
                    lemma_map_insert(self.spec_entries(), p as int, *address, fresh_account(0));
                }
                None
            },
        }
    }

    /// Make sure `address` has an entry (a fresh one if absent) and return
    /// its index.
    fn ensure_account(&mut self, address: WalletAddress) -> (idx: usize)
        requires
            old(self).wf(),
        ensures
            final(self).wf(),
            idx < final(self).spec_entries().len(),
            key_at(final(self).spec_entries(), idx as int) == address.0@,
            final(self).spec_entries()[idx as int].1 == account_or_fresh(old(self)@, address.0@),
            final(self)@ == old(self)@.insert(address.0@, account_or_fresh(old(self)@, address.0@)),
            sum_balances(final(self).spec_entries()) == sum_balances(old(self).spec_entries()),
    {
        match self.locate(&address) {
            Ok(i) => {
                proof {
                    lemma_map_at(self.spec_entries(), i as int);
                    assert(self@.insert(address.0@, self@[address.0@]) =~= self@);
                }
                i
            },
            Err(p) => {
                let fresh = AccountState::new(0);
                proof {
                    lemma_map_insert(self.spec_entries(), p as int, address, fresh);
                    lemma_sum_insert(self.spec_entries(), p as int, (address, fresh));
                    assert(fresh == fresh_account(0));
                }
                self.accounts.insert(p, (address, fresh));
                p
            },
        }
    }

    /// Get or create account (returns mutable reference).
    pub fn get_or_create_account(&mut self, address: WalletAddress) -> (r: &mut AccountState)
        requires
            old(self).wf(),
        ensures
            *r == account_or_fresh(old(self)@, address.0@),
            final(self).wf(),
            final(self)@ == old(self)@.insert(address.0@, *final(r)),
    {
        let i = self.ensure_account(address);
        let ghost e = self.spec_entries();
        proof {
            assert forall|v: AccountState| #[trigger] sorted_entries(e.update(i as int, (e[i as int].0, v)))
                && entries_map(e.update(i as int, (e[i as int].0, v))) == entries_map(e).insert(
                address.0@,
                v,
            ) by {
                lemma_map_update(e, i as int, e[i as int].0, v);
            }
            assert forall|v: AccountState| #[trigger] entries_map(e).insert(address.0@, v) == old(self)@.insert(
                address.0@,
                v,
            ) by {
                assert(entries_map(e).insert(address.0@, v) =~= old(self)@.insert(address.0@, v));
            }
        }
        &mut self.accounts[i].1
    }

    /// Set the state of an account.
    pub fn set_account(&mut self, address: WalletAddress, state: AccountState)
        requires
            old(self).wf(),
        ensures
            final(self).wf(),
            final(self)@ == old(self)@.insert(address.0@, state),
    {
        self.put(address, state);
    }

    fn put(&mut self, address: WalletAddress, state: AccountState)
        requires
            old(self).wf(),
        ensures
            final(self).wf(),
            final(self)@ == old(self)@.insert(address.0@, state),
            old(self)@.contains_key(address.0@) ==> sum_balances(final(self).spec_entries()) == sum_balances(
                old(self).spec_entries(),
            ) - old(self)@[address.0@].balance + state.balance,
            !old(self)@.contains_key(address.0@) ==> sum_balances(final(self).spec_entries())
                == sum_balances(old(self).spec_entries()) + state.balance,
    {
        match self.locate(&address) {
            Ok(i) => {
                proof {
                    lemma_map_at(self.spec_entries(), i as int);
                    lemma_map_update(self.spec_entries(), i as int, address, state);
                    lemma_sum_update(self.spec_entries(), i as int, (address, state));
                }
                self.accounts.set(i, (address, state));
            },
            Err(p) => {
                proof {
                    lemma_map_insert(self.spec_entries(), p as int, address, state);
                    lemma_sum_insert(self.spec_entries(), p as int, (address, state));
                }
                self.accounts.insert(p, (address, state));
            },
        }
    }

    /// Get the balance of an account (0 if not found).
    pub fn balance_of(&self, address: &WalletAddress) -> (b: u128)
        requires
            self.wf(),
        ensures
            b == balance_in(self@, address.0@),
    {
        match self.get_account(address) {
            Some(a) => a.balance,
            None => 0,
        }
    }

    /// Get the nonce of an account (0 if not found).
    pub fn nonce_of(&self, address: &WalletAddress) -> (n: u64)
        requires
            self.wf(),
        ensures
            n == (if self@.contains_key(address.0@) { self@[address.0@].nonce } else { 0 }),
    {
        match self.get_account(address) {
            Some(a) => a.nonce,
            None => 0,
        }
    }
}


/// `a` with its balance replaced by `b`.
pub open spec fn with_balance(a: AccountState, b: u128) -> AccountState {
    AccountState { balance: b, nonce: a.nonce, code_hash: a.code_hash, storage_root: a.storage_root }
}

/// The map after the sender of a transfer is debited (created if absent).
pub open spec fn debited(m: Map<Seq<u8>, AccountState>, from: Seq<u8>, amount: u128) -> Map<Seq<u8>, AccountState> {
    m.insert(from, with_balance(account_or_fresh(m, from), (balance_in(m, from) - amount) as u128))
}

proof fn lemma_sum_prefix_le(s: Seq<(WalletAddress, AccountState)>, i: int)
    requires
        0 <= i <= s.len(),
    ensures
        sum_balances(s.subrange(0, i)) <= sum_balances(s),
    decreases s.len(),
{
    if i < s.len() {
        lemma_sum_prefix_le(s.drop_last(), i);
        assert(s.drop_last().subrange(0, i) =~= s.subrange(0, i));
    } else {
        assert(s.subrange(0, i) =~= s);
    }
}

impl ChainState {
    /// The total balance held by all accounts.
    pub open spec fn total_balance(&self) -> int {
        sum_balances(self.spec_entries())
    }

    /// Transfer funds between accounts.
    ///
    /// Refused, with nothing changed, when the sender's balance is below
    /// `amount`. Otherwise the sender (created if absent) is debited, then
    /// the recipient (created if absent) is credited; if the credit would
    /// overflow, the error is returned with the sender already debited.
    /// A successful transfer keeps the total balance unchanged.
    pub fn transfer(&mut self, from: &WalletAddress, to: &WalletAddress, amount: u128) -> (r: Result<
        (),
        CoreError,
    >)
        requires
            old(self).wf(),
        ensures
            final(self).wf(),
            balance_in(old(self)@, from.0@) < amount ==> r == Err::<(), CoreError>(
                CoreError::InsufficientBalance { have: balance_in(old(self)@, from.0@), need: amount },
            ) && final(self)@ == old(self)@,
            balance_in(old(self)@, from.0@) >= amount ==> ({
                let m1 = debited(old(self)@, from.0@, amount);
                let a2 = account_or_fresh(m1, to.0@);
                if a2.balance + amount > u128::MAX {
                    &&& r is Err
                    &&& r->Err_0 is InvalidTransaction
                    &&& final(self)@ == m1.insert(to.0@, a2)
                } else {
                    &&& r is Ok
                    &&& final(self)@ == m1.insert(to.0@, with_balance(a2, (a2.balance + amount) as u128))
                }
            }),
            r is Ok ==> final(self).total_balance() == old(self).total_balance(),
    {
        let sender_balance = self.balance_of(from);
        if sender_balance < amount {
            return Err(CoreError::InsufficientBalance { have: sender_balance, need: amount });
        }
        let ghost s0 = self.total_balance();
        let i = self.ensure_account(*from);
        let mut acct = self.accounts[i].1;
        proof {
            lemma_map_at(self.spec_entries(), i as int);
        }
        acct.balance = acct.balance - amount;
        self.put(*from, acct);
        proof {
            assert(self@ =~= debited(old(self)@, from.0@, amount));
        }
        let ghost s1 = self.total_balance();
        assert(s1 == s0 - amount);
        let j = self.ensure_account(*to);
        let mut acct2 = self.accounts[j].1;
        proof {
            lemma_map_at(self.spec_entries(), j as int);
        }
        match acct2.balance.checked_add(amount) {
            None => {
                proof {
                    assert(self@ =~= debited(old(self)@, from.0@, amount).insert(
                        to.0@,
                        account_or_fresh(debited(old(self)@, from.0@, amount), to.0@),
                    ));
                }
                Err(CoreError::InvalidTransaction("balance overflow".to_string()))
            },
            Some(b) => {
                let ghost m2 = self@;
                acct2.balance = b;
                self.put(*to, acct2);
                proof {
                    assert(self@ =~= debited(old(self)@, from.0@, amount).insert(
                        to.0@,
                        with_balance(account_or_fresh(debited(old(self)@, from.0@, amount), to.0@), b),
                    ));
                }
                Ok(())
            },
        }
    }

    /// Compute the state root: the Merkle root of the account leaves in
    /// address order (zero when there are no accounts).
    pub fn state_root(&self) -> (h: Blake3Hash)
        requires
            self.wf(),
        ensures
            h.0@ == state_root_of(self.spec_entries()),
            h.0@ == accounts_root(self@),
    {
        proof {
            lemma_canonical(self.spec_entries());
        }
        if self.accounts.len() == 0 {
            return Blake3Hash::zero();
        }
        let n = self.accounts.len();
        let mut hashes: Vec<Blake3Hash> = Vec::new();
        let mut i: usize = 0;
        while i < n
            invariant
                n == self.accounts@.len(),
                i <= n,
                hashes@.len() == i,
                forall|j: int| 0 <= j < i ==> #[trigger] hashes@[j].0@ == account_leaf(self.accounts@[j]),
            decreases n - i,
        {
            let (addr, st) = self.accounts[i];
            let mut data: Vec<u8> = Vec::new();
            append_bytes(&mut data, addr.0.as_slice());
            push_u128_le(&mut data, st.balance);
            push_u64_le(&mut data, st.nonce);
            hashes.push(Blake3Hash::compute(data.as_slice()));
            i = i + 1;
        }
        assert(hash_views(hashes@) =~= Seq::new(n as nat, |k: int| account_leaf(self.accounts@[k])));
        calculate_merkle_root(hashes.as_slice())
    }

    /// Get statistics about the current state.
    pub fn stats(&self) -> (st: StateStats)
        requires
            self.wf(),
            self.total_balance() <= u128::MAX,
        ensures
            st.total_accounts == self.spec_entries().len(),
            st.total_balance == self.total_balance(),
            st.contract_count == count_contracts(self.spec_entries()),
    {
        let n = self.accounts.len();
        let mut total: u128 = 0;
        let mut contracts: usize = 0;
        let mut i: usize = 0;
        while i < n
            invariant
                n == self.accounts@.len(),
                i <= n,
                sum_balances(self.accounts@) <= u128::MAX,
                total == sum_balances(self.accounts@.subrange(0, i as int)),
                contracts == count_contracts(self.accounts@.subrange(0, i as int)),
                contracts <= i,
            decreases n - i,
        {
            proof {
                assert(self.accounts@.subrange(0, i + 1).drop_last() =~= self.accounts@.subrange(0, i as int));
                lemma_sum_prefix_le(self.accounts@, i + 1);
            }
            total = total + self.accounts[i].1.balance;
            if self.accounts[i].1.code_hash.is_some() {
                contracts = contracts + 1;
            }
            i = i + 1;
        }
        assert(self.accounts@.subrange(0, n as int) =~= self.accounts@);
        StateStats { total_accounts: n, total_balance: total, contract_count: contracts }
    }

    /// Number of accounts in the state.
    pub fn account_count(&self) -> (n: usize)
        ensures
            n == self.spec_entries().len(),
    {
        self.accounts.len()
    }
}

impl Default for ChainState {
    fn default() -> (s: Self)
        ensures
            s.wf(),
            s@ == Map::<Seq<u8>, AccountState>::empty(),
            s.spec_entries() == Seq::<(WalletAddress, AccountState)>::empty(),
    {
        Self::new()
    }
}

} // verus!
