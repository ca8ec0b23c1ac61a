//! Peer discovery: known peers, and the peers closest to a target by XOR
//! distance for Kademlia-style routing.
use vstd::prelude::*;
use crate::crypto::mpc::xor_seq;
use crate::ledger::state::{compare_bytes32, lemma_lex_asym, lemma_lex_trans, lex_lt};
use crate::network::p2p::{put_peer, take_peer, has_peer, unique_peers, with_peer, NetworkConfig, PeerId, PeerInfo};

verus! {

/// The XOR distance of a peer from a target.
pub open spec fn distance(p: PeerInfo, target: Seq<u8>) -> Seq<u8> {
    xor_seq(p.peer_id@, target)
}

/// Where peer `x` goes among peers ordered by distance: after the last one
/// that is not farther than it.
pub open spec fn distance_slot(s: Seq<PeerInfo>, x: PeerInfo, target: Seq<u8>) -> int
    decreases s.len(),
{
    if s.len() == 0 {
        0
    } else if !lex_lt(distance(x, target), distance(s.last(), target)) {
        s.len() as int
    } else {
        distance_slot(s.drop_last(), x, target)
    }
}

/// The peers of `s` in increasing order of distance from `target` (equal
/// distances keep their order).
pub open spec fn by_distance(s: Seq<PeerInfo>, target: Seq<u8>) -> Seq<PeerInfo>
    decreases s.len(),
{
    if s.len() == 0 {
        s
    } else {
        let r = by_distance(s.drop_last(), target);
        r.insert(distance_slot(r, s.last(), target), s.last())
    }
}

/// Compute the XOR distance between two 32-byte ids.
pub fn xor_distance(a: &[u8; 32], b: &[u8; 32]) -> (d: [u8; 32])
    ensures
        d@ == xor_seq(a@, b@),
{
    let mut result = [0u8; 32];
    let mut i: usize = 0;
    while i < 32
        invariant
            i <= 32,
            forall|j: int| 0 <= j < i ==> result@[j] == a@[j] ^ b@[j],
        decreases 32 - i,
    {
        result[i] = a[i] ^ b[i];
        i = i + 1;
    }
    assert(result@ =~= xor_seq(a@, b@));
    result
}

proof fn lemma_distance_slot(s: Seq<PeerInfo>, x: PeerInfo, target: Seq<u8>, p: int)
    requires
        0 <= p <= s.len(),
        p == 0 || !lex_lt(distance(x, target), distance(s[p - 1], target)),
        forall|j: int| p <= j < s.len() ==> lex_lt(distance(x, target), distance(#[trigger] s[j], target)),
    ensures
        distance_slot(s, x, target) == p,
    decreases s.len(),
{
    if s.len() > p {
        lemma_distance_slot(s.drop_last(), x, target, p);
    }
}

/// Peer discovery service.
pub struct PeerDiscovery {
    pub known_peers: Vec<PeerInfo>,
    pub boot_nodes: Vec<String>,
    pub max_peers: usize,
}

impl PeerDiscovery {
    /// One known peer per id.
    pub open spec fn wf(&self) -> bool {
        unique_peers(self.known_peers@)
    }

    /// A discovery service with the configuration's boot nodes and peer
    /// limit, knowing no peer.
    pub fn new(config: &NetworkConfig) -> (d: Self)
        ensures
            d.wf(),
            d.known_peers@.len() == 0,
            d.boot_nodes@.len() == config.boot_nodes@.len(),
            d.max_peers == config.max_peers,
    {
        PeerDiscovery { known_peers: Vec::new(), boot_nodes: config.boot_nodes.clone(), max_peers: config.max_peers }
    }

    /// Register a discovered peer while below the limit (replacing a peer
    /// with the same id); returns whether it was registered.
    pub fn register_peer(&mut self, info: PeerInfo) -> (r: bool)
        requires
            old(self).wf(),
        ensures
            final(self).wf(),
            final(self).max_peers == old(self).max_peers,
            r == (old(self).known_peers@.len() < old(self).max_peers),
            r ==> final(self).known_peers@ == with_peer(old(self).known_peers@, info),
            !r ==> final(self).known_peers@ == old(self).known_peers@,
    {
        if self.known_peers.len() >= self.max_peers {
            return false;
        }
        put_peer(&mut self.known_peers, info);
        true
    }

    /// Remove a peer from discovery.
    pub fn remove_peer(&mut self, peer_id: &PeerId)
        requires
            old(self).wf(),
        ensures
            final(self).wf(),
            final(self).max_peers == old(self).max_peers,
            !has_peer(old(self).known_peers@, peer_id@) ==> final(self).known_peers@ == old(self).known_peers@,
            forall|i: int| 0 <= i < old(self).known_peers@.len() && (#[trigger] old(self).known_peers@[i]).peer_id@
                == peer_id@ ==> final(self).known_peers@ == old(self).known_peers@.remove(i),
    {
        take_peer(&mut self.known_peers, peer_id);
    }

    /// The `count` known peers closest to `target` by XOR distance, closest
    /// first.
    pub fn closest_peers(&self, target: &[u8; 32], count: usize) -> (r: Vec<&PeerInfo>)
        ensures
            r@.len() == if count < self.known_peers@.len() { count as int } else { self.known_peers@.len() as int },
            forall|k: int| 0 <= k < r@.len() ==> *r@[k] == by_distance(self.known_peers@, target@)[k],
    {
        let n = self.known_peers.len();
        let mut out: Vec<&PeerInfo> = Vec::new();
        let mut dists: Vec<[u8; 32]> = Vec::new();
        let mut i: usize = 0;
        while i < n
            invariant
                n == self.known_peers@.len(),
                i <= n,
                out@.len() == by_distance(self.known_peers@.subrange(0, i as int), target@).len(),
                dists@.len() == out@.len(),
                forall|k: int| 0 <= k < out@.len() ==> *out@[k] == by_distance(self.known_peers@.subrange(0, i as int), target@)[k],
                forall|k: int| 0 <= k < out@.len() ==> (#[trigger] dists@[k])@ == distance(*out@[k], target@),
            decreases n - i,
        {
            let ghost r = by_distance(self.known_peers@.subrange(0, i as int), target@);
            proof {
                assert(self.known_peers@.subrange(0, i + 1).drop_last() =~= self.known_peers@.subrange(0, i as int));
            }
            let p_ref = &self.known_peers[i];
            let d = xor_distance(&p_ref.peer_id, target);
            let mut p = out.len();
            while p > 0 && compare_bytes32(&d, &dists[p - 1]) == -1
                invariant
                    p <= out@.len(),
                    out@.len() == r.len(),
                    dists@.len() == out@.len(),
                    forall|k: int| 0 <= k < out@.len() ==> *out@[k] == r[k],
                    forall|k: int| 0 <= k < out@.len() ==> (#[trigger] dists@[k])@ == distance(*out@[k], target@),
                    forall|j: int| p <= j < r.len() ==> lex_lt(d@, distance(#[trigger] r[j], target@)),
                decreases p,
            {
                p = p - 1;
            }
            proof {
                if p > 0 {
                    assert(dists@[p - 1]@ == distance(r[p - 1], target@));
                }
                lemma_distance_slot(r, *p_ref, target@, p as int);
            }
            let ghost before = out@;
            let ghost before_d = dists@;
            out.insert(p, p_ref);
            dists.insert(p, d);
            proof {
                let nr = r.insert(p as int, *p_ref);
                assert forall|k: int| 0 <= k < out@.len() implies *out@[k] == nr[k] by {
                    if k < p {
                        assert(out@[k] == before[k]);
                    } else if k > p {
                        assert(out@[k] == before[k - 1]);
                    }
                }
                assert forall|k: int| 0 <= k < out@.len() implies (#[trigger] dists@[k])@ == distance(*out@[k], target@) by {
                    if k < p {
                        assert(out@[k] == before[k] && dists@[k] == before_d[k]);
                    } else if k > p {
                        assert(out@[k] == before[k - 1] && dists@[k] == before_d[k - 1]);
                    }
                }
            }
            i = i + 1;
        }
        assert(self.known_peers@.subrange(0, n as int) =~= self.known_peers@);
        proof { lemma_by_distance_len(self.known_peers@, target@); }
        out.truncate(count);
        out
    }

    /// Number of known peers.
    pub fn known_peer_count(&self) -> (n: usize)
        ensures
            n == self.known_peers@.len(),
    {
        self.known_peers.len()
    }

    /// The ids of all known peers.
    pub fn all_peer_ids(&self) -> (ids: Vec<PeerId>)
        ensures
            ids@.len() == self.known_peers@.len(),
            forall|k: int| 0 <= k < ids@.len() ==> ids@[k] == self.known_peers@[k].peer_id,
    {
        let n = self.known_peers.len();
        let mut out: Vec<PeerId> = Vec::new();
        let mut i: usize = 0;
        while i < n
            invariant
                n == self.known_peers@.len(),
                i <= n,
                out@.len() == i,
                forall|k: int| 0 <= k < i ==> out@[k] == self.known_peers@[k].peer_id,
            decreases n - i,
        {
            out.push(self.known_peers[i].peer_id);
            i = i + 1;
        }
        out
    }
}

proof fn lemma_by_distance_len(s: Seq<PeerInfo>, target: Seq<u8>)
    ensures
        by_distance(s, target).len() == s.len(),
        by_distance(s, target).to_multiset() == s.to_multiset(),
    decreases s.len(),
{
    if s.len() > 0 {
        lemma_by_distance_len(s.drop_last(), target);
        let r = by_distance(s.drop_last(), target);
        lemma_slot_range(r, s.last(), target);
        vstd::seq_lib::to_multiset_insert(r, distance_slot(r, s.last(), target), s.last());
        assert(s =~= s.drop_last().push(s.last()));
        vstd::seq_lib::to_multiset_build(s.drop_last(), s.last());
    }
}

proof fn lemma_slot_range(s: Seq<PeerInfo>, x: PeerInfo, target: Seq<u8>)
    ensures
        0 <= distance_slot(s, x, target) <= s.len(),
    decreases s.len(),
{
    if s.len() > 0 {
        lemma_slot_range(s.drop_last(), x, target);
    }
}

/// The closest peers are exactly the known peers, reordered: ordering by
/// distance neither loses nor duplicates a peer.
pub proof fn closest_peers_are_known_peers(s: Seq<PeerInfo>, target: Seq<u8>)
    ensures
        by_distance(s, target).to_multiset() == s.to_multiset(),
{
    lemma_by_distance_len(s, target);
}


proof fn lemma_lex_total(a: Seq<u8>, b: Seq<u8>)
    requires
        a.len() == b.len(),
    ensures
        a == b || lex_lt(a, b) || lex_lt(b, a),
    decreases a.len(),
{
    if a.len() == 0 {
        assert(a =~= b);
    } else if a[0] != b[0] {
        if a[0] < b[0] {
            assert(lex_lt(a, b));
        } else {
            assert(lex_lt(b, a));
        }
    } else {
        let a1 = a.drop_first();
        let b1 = b.drop_first();
        lemma_lex_total(a1, b1);
        if a1 == b1 {
            assert(a =~= b) by {
                assert forall|j: int| 0 <= j < a.len() implies a[j] == b[j] by {
                    if j > 0 {
                        assert(a[j] == a1[j - 1] && b[j] == b1[j - 1]);
                    }
                }
            }
        } else if lex_lt(a1, b1) {
            let i = choose|i: int|
                0 <= i < a1.len() && i < b1.len() && a1[i] < b1[i] && forall|j: int| 0 <= j < i ==> a1[j] == b1[j];
            assert(a[i + 1] == a1[i] && b[i + 1] == b1[i]);
            assert forall|j: int| 0 <= j < i + 1 implies a[j] == b[j] by {
                if j > 0 {
                    assert(a[j] == a1[j - 1] && b[j] == b1[j - 1]);
                }
            }
            assert(lex_lt(a, b));
        } else {
            let i = choose|i: int|
                0 <= i < b1.len() && i < a1.len() && b1[i] < a1[i] && forall|j: int| 0 <= j < i ==> b1[j] == a1[j];
            assert(a[i + 1] == a1[i] && b[i + 1] == b1[i]);
            assert forall|j: int| 0 <= j < i + 1 implies b[j] == a[j] by {
                if j > 0 {
                    assert(a[j] == a1[j - 1] && b[j] == b1[j - 1]);
                }
            }
            assert(lex_lt(b, a));
        }
    }
}

/// Not being lexicographically smaller is transitive on sequences of one
/// length.
proof fn lemma_lex_le_trans(a: Seq<u8>, b: Seq<u8>, c: Seq<u8>)
    requires
        a.len() == b.len(),
        b.len() == c.len(),
        !lex_lt(b, a),
        !lex_lt(c, b),
    ensures
        !lex_lt(c, a),
{
    lemma_lex_total(a, b);
    lemma_lex_total(b, c);
    if lex_lt(c, a) {
        if a == b {
            assert(b == c || lex_lt(b, c));
            if lex_lt(b, c) {
                lemma_lex_asym(b, c);
            }
        } else if b == c {
            lemma_lex_asym(a, b);
        } else {
            lemma_lex_trans(a, b, c);
            lemma_lex_asym(a, c);
        }
    }
}

/// The distances of `s` from `target` never decrease along `s`.
pub open spec fn distance_ascending(s: Seq<PeerInfo>, target: Seq<u8>) -> bool {
    forall|i: int, j: int| 0 <= i < j < s.len() ==> !lex_lt(distance(#[trigger] s[j], target), distance(#[trigger] s[i], target))
}

proof fn lemma_distance_slot_props(r: Seq<PeerInfo>, x: PeerInfo, target: Seq<u8>)
    requires
        target.len() == 32,
        distance_ascending(r, target),
    ensures
        0 <= distance_slot(r, x, target) <= r.len(),
        forall|i: int| 0 <= i < distance_slot(r, x, target) ==> !lex_lt(distance(x, target), distance(#[trigger] r[i], target)),
        forall|i: int| distance_slot(r, x, target) <= i < r.len() ==> lex_lt(distance(x, target), distance(#[trigger] r[i], target)),
    decreases r.len(),
{
    if r.len() > 0 {
        let d = r.drop_last();
        assert forall|i: int, j: int| 0 <= i < j < d.len() implies !lex_lt(distance(#[trigger] d[j], target), distance(#[trigger] d[i], target)) by {
            assert(d[i] == r[i] && d[j] == r[j]);
        }
        lemma_distance_slot_props(d, x, target);
        let last = r[r.len() - 1];
        if !lex_lt(distance(x, target), distance(last, target)) {
            assert forall|i: int| 0 <= i < r.len() implies !lex_lt(distance(x, target), distance(#[trigger] r[i], target)) by {
                if i < r.len() - 1 {
                    assert(!lex_lt(distance(last, target), distance(r[i], target)));
                    lemma_lex_le_trans(distance(r[i], target), distance(last, target), distance(x, target));
                }
            }
        } else {
            let q = distance_slot(d, x, target);
            assert forall|i: int| 0 <= i < q implies !lex_lt(distance(x, target), distance(#[trigger] r[i], target)) by {
                assert(d[i] == r[i]);
            }
            assert forall|i: int| q <= i < r.len() implies lex_lt(distance(x, target), distance(#[trigger] r[i], target)) by {
                if i < d.len() {
                    assert(d[i] == r[i]);
                }
            }
        }
    }
}

/// Peers come out closest first: along the distance order, no peer is
/// nearer the target than one before it.
pub proof fn closest_peers_come_nearest_first(s: Seq<PeerInfo>, target: Seq<u8>)
    requires
        target.len() == 32,
    ensures
        distance_ascending(by_distance(s, target), target),
    decreases s.len(),
{
    if s.len() > 0 {
        let r = by_distance(s.drop_last(), target);
        closest_peers_come_nearest_first(s.drop_last(), target);
        let x = s.last();
        let p = distance_slot(r, x, target);
        lemma_distance_slot_props(r, x, target);
        let t = r.insert(p, x);
        assert forall|i: int, j: int| 0 <= i < j < t.len() implies !lex_lt(distance(#[trigger] t[j], target), distance(#[trigger] t[i], target)) by {
            if i < p && j == p {
                assert(t[i] == r[i]);
            } else if i == p && j > p {
                assert(t[j] == r[j - 1]);
                lemma_lex_asym(distance(x, target), distance(r[j - 1], target));
            } else if i < p && j > p {
                assert(t[i] == r[i]);
                assert(t[j] == r[j - 1]);
            } else if i > p {
                assert(t[i] == r[i - 1]);
                assert(t[j] == r[j - 1]);
            } else {
                assert(t[i] == r[i]);
                assert(t[j] == r[j]);
            }
        }
    }
}
} // verus!
