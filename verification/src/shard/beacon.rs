//! The beacon chain: it tracks every shard's state, aggregates their state
//! roots, and chains beacon blocks by hash.
use vstd::prelude::*;
use vstd::string::*;
use vstd::multiset::Multiset;
use vstd::bytes::{spec_u16_to_le_bytes, spec_u64_to_le_bytes};
use crate::bytes::{append_bytes, push_u16_le, push_u64_le};
use crate::crypto::hash::{blake3_of, Blake3Hash};
use crate::shard::shard::ShardState;

verus! {

/// A beacon block that coordinates all shards.
#[derive(Debug, Clone)]
pub struct BeaconBlock {
    pub height: u64,
    pub epoch: u64,
    pub timestamp: u64,
    pub previous_hash: Blake3Hash,
    pub shard_state_roots: Vec<(u16, Blake3Hash)>,
    pub aggregate_state_root: Blake3Hash,
    pub cross_links: Vec<BeaconCrossLink>,
}

/// A cross-link included in a beacon block.
#[derive(Debug, Clone, Copy)]
pub struct BeaconCrossLink {
    pub shard_id: u16,
    pub block_height: u64,
    pub block_hash: Blake3Hash,
    pub state_root: Blake3Hash,
}

/// The byte form of a list of shard state roots.
pub open spec fn roots_encoding(s: Seq<(u16, Blake3Hash)>) -> Seq<u8>
    decreases s.len(),
{
    if s.len() == 0 {
        Seq::empty()
    } else {
        roots_encoding(s.drop_last()) + spec_u16_to_le_bytes(s.last().0) + s.last().1.0@
    }
}

/// The byte form of a list of cross-links.
pub open spec fn links_encoding(s: Seq<BeaconCrossLink>) -> Seq<u8>
    decreases s.len(),
{
    if s.len() == 0 {
        Seq::empty()
    } else {
        links_encoding(s.drop_last()) + spec_u16_to_le_bytes(s.last().shard_id) + spec_u64_to_le_bytes(
            s.last().block_height,
        ) + s.last().block_hash.0@ + s.last().state_root.0@
    }
}

/// The canonical byte form of a beacon block: its fields in order, each
/// list prefixed with its length as eight little-endian bytes.
pub open spec fn beacon_encoding(b: BeaconBlock) -> Seq<u8> {
    spec_u64_to_le_bytes(b.height) + spec_u64_to_le_bytes(b.epoch) + spec_u64_to_le_bytes(b.timestamp)
        + b.previous_hash.0@ + spec_u64_to_le_bytes(b.shard_state_roots@.len() as u64) + roots_encoding(
        b.shard_state_roots@,
    ) + b.aggregate_state_root.0@ + spec_u64_to_le_bytes(b.cross_links@.len() as u64) + links_encoding(
        b.cross_links@,
    )
}

/// Whether two beacon blocks hold the same values.
pub open spec fn same_block(a: BeaconBlock, b: BeaconBlock) -> bool {
    &&& a.height == b.height
    &&& a.epoch == b.epoch
    &&& a.timestamp == b.timestamp
    &&& a.previous_hash == b.previous_hash
    &&& a.shard_state_roots@ == b.shard_state_roots@
    &&& a.aggregate_state_root == b.aggregate_state_root
    &&& a.cross_links@ == b.cross_links@
}

impl BeaconBlock {
    /// The block's canonical bytes.
    pub fn serialize(&self) -> (out: Vec<u8>)
        ensures
            out@ == beacon_encoding(*self),
    {
        let mut buf: Vec<u8> = Vec::new();
        push_u64_le(&mut buf, self.height);
        push_u64_le(&mut buf, self.epoch);
        push_u64_le(&mut buf, self.timestamp);
        append_bytes(&mut buf, self.previous_hash.0.as_slice());
        push_u64_le(&mut buf, self.shard_state_roots.len() as u64);
        let ghost base = buf@;
        let n = self.shard_state_roots.len();
        let mut i: usize = 0;
        while i < n
            invariant
                n == self.shard_state_roots@.len(),
                i <= n,
                buf@ == base + roots_encoding(self.shard_state_roots@.subrange(0, i as int)),
            decreases n - i,
        {
            proof {
                assert(self.shard_state_roots@.subrange(0, i + 1).drop_last() =~= self.shard_state_roots@.subrange(0, i as int));
            }
            push_u16_le(&mut buf, self.shard_state_roots[i].0);
            append_bytes(&mut buf, self.shard_state_roots[i].1.0.as_slice());
            i = i + 1;
        }
        assert(self.shard_state_roots@.subrange(0, n as int) =~= self.shard_state_roots@);
        append_bytes(&mut buf, self.aggregate_state_root.0.as_slice());
        push_u64_le(&mut buf, self.cross_links.len() as u64);
        let ghost base2 = buf@;
        let m = self.cross_links.len();
        let mut j: usize = 0;
        while j < m
            invariant
                m == self.cross_links@.len(),
                j <= m,
                buf@ == base2 + links_encoding(self.cross_links@.subrange(0, j as int)),
            decreases m - j,
        {
            proof {
                assert(self.cross_links@.subrange(0, j + 1).drop_last() =~= self.cross_links@.subrange(0, j as int));
            }
            let l = self.cross_links[j];
            push_u16_le(&mut buf, l.shard_id);
            push_u64_le(&mut buf, l.block_height);
            append_bytes(&mut buf, l.block_hash.0.as_slice());
            append_bytes(&mut buf, l.state_root.0.as_slice());
            j = j + 1;
        }
        assert(self.cross_links@.subrange(0, m as int) =~= self.cross_links@);
        assert(buf@ =~= beacon_encoding(*self));
        buf
    }
}

/// Where a later shard state goes among states ordered by shard id: after
/// the last one whose id is at most its own.
pub open spec fn id_slot(s: Seq<ShardState>, id: u16) -> int
    decreases s.len(),
{
    if s.len() == 0 {
        0
    } else if s.last().shard_id <= id {
        s.len() as int
    } else {
        id_slot(s.drop_last(), id)
    }
}

/// The shard states ordered by shard id (stable).
pub open spec fn by_shard_id(s: Seq<ShardState>) -> Seq<ShardState>
    decreases s.len(),
{
    if s.len() == 0 {
        s
    } else {
        let r = by_shard_id(s.drop_last());
        r.insert(id_slot(r, s.last().shard_id), s.last())
    }
}

/// The bytes of the aggregate root: each state's shard id and state root,
/// in order.
pub open spec fn aggregate_input(s: Seq<ShardState>) -> Seq<u8>
    decreases s.len(),
{
    if s.len() == 0 {
        Seq::empty()
    } else {
        aggregate_input(s.drop_last()) + spec_u16_to_le_bytes(s.last().shard_id) + s.last().state_root.0@
    }
}

/// The shard ids and state roots of the shard states, in order.
pub open spec fn roots_of(s: Seq<ShardState>) -> Seq<(u16, Blake3Hash)> {
    s.map_values(|st: ShardState| (st.shard_id, st.state_root))
}

/// No two shard states share a shard id.
pub open spec fn unique_shards(s: Seq<ShardState>) -> bool {
    forall|i: int, j: int| 0 <= i < s.len() && 0 <= j < s.len() && i != j ==> (#[trigger] s[i]).shard_id != (
    #[trigger] s[j]).shard_id
}

proof fn lemma_id_slot(s: Seq<ShardState>, id: u16, p: int)
    requires
        0 <= p <= s.len(),
        p == 0 || s[p - 1].shard_id <= id,
        forall|j: int| p <= j < s.len() ==> (#[trigger] s[j]).shard_id > id,
    ensures
        id_slot(s, id) == p,
    decreases s.len(),
{
    if s.len() > p {
        lemma_id_slot(s.drop_last(), id, p);
    }
}

/// The beacon chain.
pub struct BeaconChain {
    pub blocks: Vec<BeaconBlock>,
    pub current_epoch: u64,
    pub shard_states: Vec<ShardState>,
}

impl BeaconChain {
    /// A beacon chain at epoch 0 with no blocks or shard states.
    pub fn new() -> (b: Self)
        ensures
            b.blocks@.len() == 0,
            b.current_epoch == 0,
            b.shard_states@.len() == 0,
    {
        BeaconChain { blocks: Vec::new(), current_epoch: 0, shard_states: Vec::new() }
    }

    /// Record a shard's state: it replaces the first state of the same
    /// shard, or is appended.
    pub fn update_shard_state(&mut self, state: ShardState)
        ensures
            final(self).blocks@ == old(self).blocks@,
            final(self).current_epoch == old(self).current_epoch,
            (forall|j: int| 0 <= j < old(self).shard_states@.len() ==> (#[trigger] old(self).shard_states@[j]).shard_id
                != state.shard_id) ==> final(self).shard_states@ == old(self).shard_states@.push(state),
            forall|i: int| 0 <= i < old(self).shard_states@.len() && (#[trigger] old(self).shard_states@[i]).shard_id
                == state.shard_id && (forall|j: int| 0 <= j < i ==> old(self).shard_states@[j].shard_id != state.shard_id)
                ==> final(self).shard_states@ == old(self).shard_states@.update(i, state),
            unique_shards(old(self).shard_states@) ==> unique_shards(final(self).shard_states@),
    {
        let n = self.shard_states.len();
        let mut i: usize = 0;
        while i < n
            invariant
                n == self.shard_states@.len(),
                self.shard_states@ == old(self).shard_states@,
                self.blocks@ == old(self).blocks@,
                self.current_epoch == old(self).current_epoch,
                i <= n,
                forall|j: int| 0 <= j < i ==> (#[trigger] self.shard_states@[j]).shard_id != state.shard_id,
            decreases n - i,
        {
            if self.shard_states[i].shard_id == state.shard_id {
                let ghost s = self.shard_states@;
                self.shard_states.set(i, state);
                proof {
                    assert forall|k: int| 0 <= k < s.len() && (#[trigger] s[k]).shard_id == state.shard_id
                        && (forall|j: int| 0 <= j < k ==> s[j].shard_id != state.shard_id) implies k == i by {
                        if k > i {
                            assert(s[i as int].shard_id == state.shard_id);
                        }
                    }
                    if unique_shards(s) {
                        assert forall|a: int, b: int| 0 <= a < self.shard_states@.len() && 0 <= b < self.shard_states@.len()
                            && a != b implies (#[trigger] self.shard_states@[a]).shard_id != (#[trigger] self.shard_states@[b]).shard_id by {
                            if a == i {
                                assert(self.shard_states@[b] == s[b]);
                            } else if b == i {
                                assert(self.shard_states@[a] == s[a]);
                            } else {
                                assert(self.shard_states@[a] == s[a] && self.shard_states@[b] == s[b]);
                            }
                        }
                    }
                }
                return;
            }
            i = i + 1;
        }
        let ghost s = self.shard_states@;
        self.shard_states.push(state);
        proof {
            if unique_shards(s) {
                assert forall|a: int, b: int| 0 <= a < self.shard_states@.len() && 0 <= b < self.shard_states@.len()
                    && a != b implies (#[trigger] self.shard_states@[a]).shard_id != (#[trigger] self.shard_states@[b]).shard_id by {
                    if a < s.len() {
                        assert(self.shard_states@[a] == s[a]);
                    }
                    if b < s.len() {
                        assert(self.shard_states@[b] == s[b]);
                    }
                }
            }
        }
    }

    /// The aggregate state root across all shards: BLAKE3 over each shard's
    /// id and state root, in order of shard id.
    pub fn compute_aggregate_root(&self) -> (h: Blake3Hash)
        ensures
            h.0@ == blake3_of(aggregate_input(by_shard_id(self.shard_states@))),
    {
        let n = self.shard_states.len();
        let mut sorted: Vec<ShardState> = Vec::new();
        let mut i: usize = 0;
        while i < n
            invariant
                n == self.shard_states@.len(),
                i <= n,
                sorted@ == by_shard_id(self.shard_states@.subrange(0, i as int)),
            decreases n - i,
        {
            proof {
                assert(self.shard_states@.subrange(0, i + 1).drop_last() =~= self.shard_states@.subrange(0, i as int));
            }
            let st = self.shard_states[i];
            let mut p = sorted.len();
            while p > 0 && sorted[p - 1].shard_id > st.shard_id
                invariant
                    p <= sorted@.len(),
                    sorted@ == by_shard_id(self.shard_states@.subrange(0, i as int)),
                    forall|j: int| p <= j < sorted@.len() ==> (#[trigger] sorted@[j]).shard_id > st.shard_id,
                decreases p,
            {
                p = p - 1;
            }
            proof { lemma_id_slot(sorted@, st.shard_id, p as int); }
            sorted.insert(p, st);
            i = i + 1;
        }
        assert(self.shard_states@.subrange(0, n as int) =~= self.shard_states@);
        let mut data: Vec<u8> = Vec::new();
        let m = sorted.len();
        let mut j: usize = 0;
        while j < m
            invariant
                m == sorted@.len(),
                j <= m,
                data@ == aggregate_input(sorted@.subrange(0, j as int)),
            decreases m - j,
        {
            proof {
                assert(sorted@.subrange(0, j + 1).drop_last() =~= sorted@.subrange(0, j as int));
            }
            push_u16_le(&mut data, sorted[j].shard_id);
            append_bytes(&mut data, sorted[j].state_root.0.as_slice());
            j = j + 1;
        }
        assert(sorted@.subrange(0, m as int) =~= sorted@);
        Blake3Hash::compute(data.as_slice())
    }

    /// Create the next beacon block: its height is the number of blocks so
    /// far, it links to the digest of the previous block's bytes (or of
    /// "genesis-beacon" for the first), and it carries every shard's state
    /// root and the aggregate root. The block is appended and returned.
    pub fn create_beacon_block(&mut self, timestamp: u64, cross_links: Vec<BeaconCrossLink>) -> (b: BeaconBlock)
        ensures
            b.height == old(self).blocks@.len() as u64,
            b.epoch == old(self).current_epoch,
            b.timestamp == timestamp,
            old(self).blocks@.len() == 0 ==> b.previous_hash.0@ == blake3_of("genesis-beacon".spec_bytes()),
            old(self).blocks@.len() > 0 ==> b.previous_hash.0@ == blake3_of(beacon_encoding(old(self).blocks@.last())),
            b.shard_state_roots@ == roots_of(old(self).shard_states@),
            b.aggregate_state_root.0@ == blake3_of(aggregate_input(by_shard_id(old(self).shard_states@))),
            b.cross_links@ == cross_links@,
            final(self).blocks@.len() == old(self).blocks@.len() + 1,
            final(self).blocks@.drop_last() == old(self).blocks@,
            same_block(final(self).blocks@.last(), b),
            final(self).current_epoch == old(self).current_epoch,
            final(self).shard_states@ == old(self).shard_states@,
    {
        let prev_hash = if self.blocks.len() > 0 {
            let bytes = self.blocks[self.blocks.len() - 1].serialize();
            Blake3Hash::compute(bytes.as_slice())
        } else {
            Blake3Hash::compute("genesis-beacon".as_bytes())
        };
        let n = self.shard_states.len();
        let mut roots: Vec<(u16, Blake3Hash)> = Vec::new();
        let mut i: usize = 0;
        while i < n
            invariant
                n == self.shard_states@.len(),
                i <= n,
                roots@ == roots_of(self.shard_states@.subrange(0, i as int)),
            decreases n - i,
        {
            roots.push((self.shard_states[i].shard_id, self.shard_states[i].state_root));
            i = i + 1;
            assert(roots@ =~= roots_of(self.shard_states@.subrange(0, i as int)));
        }
        assert(self.shard_states@.subrange(0, n as int) =~= self.shard_states@);
        let aggregate_state_root = self.compute_aggregate_root();
        let height = self.blocks.len() as u64;
        let stored = BeaconBlock {
            height,
            epoch: self.current_epoch,
            timestamp,
            previous_hash: prev_hash,
            shard_state_roots: vstd::slice::slice_to_vec(roots.as_slice()),
            aggregate_state_root,
            cross_links: vstd::slice::slice_to_vec(cross_links.as_slice()),
        };
        self.blocks.push(stored);
        BeaconBlock {
            height,
            epoch: self.current_epoch,
            timestamp,
            previous_hash: prev_hash,
            shard_state_roots: roots,
            aggregate_state_root,
            cross_links,
        }
    }

    /// Advance to the next epoch.
    pub fn advance_epoch(&mut self)
        requires
            old(self).current_epoch < u64::MAX,
        ensures
            final(self).current_epoch == old(self).current_epoch + 1,
            final(self).blocks@ == old(self).blocks@,
            final(self).shard_states@ == old(self).shard_states@,
    {
        self.current_epoch += 1;
    }

    /// The beacon chain's height: its number of blocks.
    pub fn height(&self) -> (h: u64)
        ensures
            h == self.blocks@.len() as u64,
    {
        self.blocks.len() as u64
    }
}

impl Default for BeaconChain {
    fn default() -> (b: Self)
        ensures
            b.blocks@.len() == 0,
            b.current_epoch == 0,
            b.shard_states@.len() == 0,
    {
        Self::new()
    }
}


/// Shard ids never decrease along `s`.
pub open spec fn id_ascending(s: Seq<ShardState>) -> bool {
    forall|i: int, j: int| 0 <= i < j < s.len() ==> (#[trigger] s[i]).shard_id <= (#[trigger] s[j]).shard_id
}

proof fn lemma_id_slot_props(r: Seq<ShardState>, id: u16)
    requires
        id_ascending(r),
    ensures
        0 <= id_slot(r, id) <= r.len(),
        forall|i: int| 0 <= i < id_slot(r, id) ==> (#[trigger] r[i]).shard_id <= id,
        forall|i: int| id_slot(r, id) <= i < r.len() ==> (#[trigger] r[i]).shard_id > id,
    decreases r.len(),
{
    if r.len() > 0 {
        let d = r.drop_last();
        assert forall|i: int, j: int| 0 <= i < j < d.len() implies (#[trigger] d[i]).shard_id <= (#[trigger] d[j]).shard_id by {
            assert(d[i] == r[i] && d[j] == r[j]);
        }
        lemma_id_slot_props(d, id);
        if r.last().shard_id <= id {
            assert forall|i: int| 0 <= i < r.len() implies (#[trigger] r[i]).shard_id <= id by {
                if i < r.len() - 1 {
                    assert(r[i].shard_id <= r[r.len() - 1].shard_id);
                }
            }
        } else {
            let q = id_slot(d, id);
            assert forall|i: int| 0 <= i < q implies (#[trigger] r[i]).shard_id <= id by {
                assert(d[i] == r[i]);
            }
            assert forall|i: int| q <= i < r.len() implies (#[trigger] r[i]).shard_id > id by {
                if i < d.len() {
                    assert(d[i] == r[i]);
                }
            }
        }
    }
}

/// Ordering by shard id orders by shard id and keeps exactly the same
/// states.
proof fn lemma_by_shard_id(s: Seq<ShardState>)
    ensures
        id_ascending(by_shard_id(s)),
        by_shard_id(s).to_multiset() == s.to_multiset(),
    decreases s.len(),
{
    broadcast use vstd::seq_lib::to_multiset_insert;
    if s.len() > 0 {
        let r = by_shard_id(s.drop_last());
        lemma_by_shard_id(s.drop_last());
        let x = s.last();
        let p = id_slot(r, x.shard_id);
        lemma_id_slot_props(r, x.shard_id);
        let t = r.insert(p, x);
        assert forall|i: int, j: int| 0 <= i < j < t.len() implies (#[trigger] t[i]).shard_id <= (#[trigger] t[j]).shard_id by {
            if i < p && j == p {
                assert(t[i] == r[i]);
            } else if i == p && j > p {
                assert(t[j] == r[j - 1]);
            } else if i < p && j > p {
                assert(t[i] == r[i]);
                assert(t[j] == r[j - 1]);
            } else if i > p {
                assert(t[i] == r[i - 1]);
                assert(t[j] == r[j - 1]);
            } else {
                assert(t[i] == r[i]);
                assert(t[j] == r[j]);
            }
        }
        assert(s =~= s.drop_last().push(x));
        vstd::seq_lib::to_multiset_build(s.drop_last(), x);
    }
}

/// Within `m`, a shard id determines the shard state.
pub open spec fn ids_determine_states(m: Multiset<ShardState>) -> bool {
    forall|x: ShardState, y: ShardState| m.count(x) > 0 && m.count(y) > 0 && x.shard_id == y.shard_id ==> x == y
}

/// Two id-ordered sequences of the same states, in which an id determines
/// the state, are equal.
proof fn lemma_id_ordered_unique(a: Seq<ShardState>, b: Seq<ShardState>)
    requires
        id_ascending(a),
        id_ascending(b),
        a.to_multiset() == b.to_multiset(),
        ids_determine_states(a.to_multiset()),
    ensures
        a == b,
    decreases a.len(),
{
    broadcast use vstd::seq_lib::to_multiset_len, vstd::seq_lib::to_multiset_contains, vstd::seq_lib::to_multiset_remove;
    assert(a.len() == a.to_multiset().len());
    assert(b.len() == b.to_multiset().len());
    if a.len() == 0 {
        assert(a =~= b);
    } else {
        let n = a.len() - 1;
        let xa = a[n];
        let xb = b[n];
        assert(a.to_multiset().count(xa) > 0) by {
            assert(a.contains(xa));
        }
        assert(b.to_multiset().count(xb) > 0) by {
            assert(b.contains(xb));
        }
        assert(b.contains(xa));
        assert(a.contains(xb));
        let j = choose|j: int| 0 <= j < b.len() && b[j] == xa;
        let i = choose|i: int| 0 <= i < a.len() && a[i] == xb;
        assert(xb.shard_id <= xa.shard_id) by {
            if i < n {
                assert(a[i].shard_id <= a[n].shard_id);
            }
        }
        assert(xa.shard_id <= xb.shard_id) by {
            if j < n {
                assert(b[j].shard_id <= b[n].shard_id);
            }
        }
        assert(xa == xb);
        let a1 = a.drop_last();
        let b1 = b.drop_last();
        assert(a.remove(n) =~= a1);
        assert(b.remove(n) =~= b1);
        assert(a1.to_multiset() == a.to_multiset().remove(xa));
        assert(b1.to_multiset() == b.to_multiset().remove(xb));
        assert forall|i2: int, j2: int| 0 <= i2 < j2 < a1.len() implies (#[trigger] a1[i2]).shard_id <= (#[trigger] a1[j2]).shard_id by {
            assert(a1[i2] == a[i2] && a1[j2] == a[j2]);
        }
        assert forall|i2: int, j2: int| 0 <= i2 < j2 < b1.len() implies (#[trigger] b1[i2]).shard_id <= (#[trigger] b1[j2]).shard_id by {
            assert(b1[i2] == b[i2] && b1[j2] == b[j2]);
        }
        assert forall|x: ShardState, y: ShardState| a1.to_multiset().count(x) > 0 && a1.to_multiset().count(y) > 0 && x.shard_id == y.shard_id implies x == y by {
            assert(a.to_multiset().count(x) > 0);
            assert(a.to_multiset().count(y) > 0);
        }
        lemma_id_ordered_unique(a1, b1);
        assert(a =~= a1.push(xa));
        assert(b =~= b1.push(xb));
    }
}

/// The aggregate root does not depend on the order in which shard states
/// were recorded: any two recordings of the same states, with one state
/// per shard, aggregate to the same bytes.
pub proof fn aggregate_root_ignores_recording_order(s1: Seq<ShardState>, s2: Seq<ShardState>)
    requires
        unique_shards(s1),
        s1.to_multiset() == s2.to_multiset(),
    ensures
        aggregate_input(by_shard_id(s1)) == aggregate_input(by_shard_id(s2)),
{
    broadcast use vstd::seq_lib::to_multiset_contains;
    lemma_by_shard_id(s1);
    lemma_by_shard_id(s2);
    let m = s1.to_multiset();
    assert forall|x: ShardState, y: ShardState| m.count(x) > 0 && m.count(y) > 0 && x.shard_id == y.shard_id implies x == y by {
        assert(s1.contains(x));
        assert(s1.contains(y));
        let i = choose|i: int| 0 <= i < s1.len() && s1[i] == x;
        let j = choose|j: int| 0 <= j < s1.len() && s1[j] == y;
        if i != j {
            assert(s1[i].shard_id != s1[j].shard_id);
        }
    }
    lemma_id_ordered_unique(by_shard_id(s1), by_shard_id(s2));
}
} // verus!
