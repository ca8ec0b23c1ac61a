//! Peers, network configuration and the peer manager.
use vstd::prelude::*;
use vstd::string::*;
use crate::arith::sat_sub;
use crate::bytes::array32_eq;

verus! {

/// Unique identifier for a peer (BLAKE3 hash of their public key).
pub type PeerId = [u8; 32];

/// Information about a connected peer.
#[derive(Debug, Clone)]
pub struct PeerInfo {
    pub peer_id: PeerId,
    pub address: String,
    pub port: u16,
    pub version: String,
    pub chain_id: u64,
    pub shard_ids: Vec<u16>,
    pub connected_at: u64,
    pub last_seen: u64,
    pub latency_ms: u64,
}

/// Network configuration.
#[derive(Debug, Clone)]
pub struct NetworkConfig {
    pub listen_addr: String,
    pub listen_port: u16,
    pub max_peers: usize,
    pub chain_id: u64,
    pub boot_nodes: Vec<String>,
    pub shard_ids: Vec<u16>,
    pub gossip_interval_ms: u64,
    pub peer_timeout_secs: u64,
}

impl Default for NetworkConfig {
    fn default() -> (c: Self)
        ensures
            c.listen_addr@ == "0.0.0.0"@,
            c.listen_port == 30303,
            c.max_peers == 50,
            c.chain_id == 20240101,
            c.boot_nodes@.len() == 0,
            c.shard_ids@ == seq![0u16],
            c.gossip_interval_ms == 100,
            c.peer_timeout_secs == 30,
    {
        let mut shards: Vec<u16> = Vec::new();
        shards.push(0);
        NetworkConfig {
            listen_addr: "0.0.0.0".to_owned(),
            listen_port: 30303,
            max_peers: 50,
            chain_id: 20240101,
            boot_nodes: Vec::new(),
            shard_ids: shards,
            gossip_interval_ms: 100,
            peer_timeout_secs: 30,
        }
    }
}

/// No two peers share an id.
pub open spec fn unique_peers(s: Seq<PeerInfo>) -> bool {
    forall|i: int, j: int| 0 <= i < s.len() && 0 <= j < s.len() && i != j ==> (#[trigger] s[i]).peer_id@ != (
    #[trigger] s[j]).peer_id@
}

/// Whether some peer has id `id`.
pub open spec fn has_peer(s: Seq<PeerInfo>, id: Seq<u8>) -> bool {
    exists|i: int| 0 <= i < s.len() && (#[trigger] s[i]).peer_id@ == id
}

/// `s` with `p` recorded: replacing the peer with the same id, or added at
/// the end.
pub open spec fn with_peer(s: Seq<PeerInfo>, p: PeerInfo) -> Seq<PeerInfo> {
    if has_peer(s, p.peer_id@) {
        s.update(choose|i: int| 0 <= i < s.len() && (#[trigger] s[i]).peer_id@ == p.peer_id@, p)
    } else {
        s.push(p)
    }
}

/// The peers of `s` that serve `shard`, in order.
pub open spec fn serving(s: Seq<PeerInfo>, shard: u16) -> Seq<PeerInfo>
    decreases s.len(),
{
    if s.len() == 0 {
        s
    } else if s.last().shard_ids@.contains(shard) {
        serving(s.drop_last(), shard).push(s.last())
    } else {
        serving(s.drop_last(), shard)
    }
}

/// The peers of `s` seen less than `timeout` seconds before `now`, in
/// order.
pub open spec fn fresh(s: Seq<PeerInfo>, now: u64, timeout: u64) -> Seq<PeerInfo>
    decreases s.len(),
{
    if s.len() == 0 {
        s
    } else if sat_sub(now as int, s.last().last_seen as int) < timeout {
        fresh(s.drop_last(), now, timeout).push(s.last())
    } else {
        fresh(s.drop_last(), now, timeout)
    }
}

/// Finds the index of the peer with the given id.
pub fn find_peer(peers: &Vec<PeerInfo>, id: &PeerId) -> (r: Option<usize>)
    ensures
        match r {
            Some(i) => i < peers@.len() && peers@[i as int].peer_id@ == id@,
            None => !has_peer(peers@, id@),
        },
{
    let n = peers.len();
    let mut i: usize = 0;
    while i < n
        invariant
            n == peers@.len(),
            i <= n,
            forall|j: int| 0 <= j < i ==> (#[trigger] peers@[j]).peer_id@ != id@,
        decreases n - i,
    {
        if array32_eq(&peers[i].peer_id, id) {
            return Some(i);
        }
        i = i + 1;
    }
    None
}

/// Records a peer: replaces the one with the same id or appends it.
pub fn put_peer(peers: &mut Vec<PeerInfo>, info: PeerInfo)
    requires
        unique_peers(old(peers)@),
    ensures
        unique_peers(final(peers)@),
        final(peers)@ == with_peer(old(peers)@, info),
{
    let ghost s = peers@;
    match find_peer(peers, &info.peer_id) {
        Some(i) => {
            proof {
                let k = choose|k: int| 0 <= k < s.len() && (#[trigger] s[k]).peer_id@ == info.peer_id@;
                if k != i {
                    assert(s[k].peer_id@ != s[i as int].peer_id@);
                }
            }
            peers.set(i, info);
            proof {
                assert forall|a: int, b: int| 0 <= a < peers@.len() && 0 <= b < peers@.len() && a != b implies (#[trigger] peers@[a]).peer_id@
                    != (#[trigger] peers@[b]).peer_id@ by {
                    if a != i && b != i {
                        assert(peers@[a] == s[a] && peers@[b] == s[b]);
                    } else if a == i {
                        assert(peers@[b] == s[b]);
                        assert(s[b].peer_id@ != s[i as int].peer_id@);
                    } else {
                        assert(peers@[a] == s[a]);
                        assert(s[a].peer_id@ != s[i as int].peer_id@);
                    }
                }
            }
        },
        None => {
            peers.push(info);
            proof {
                assert forall|a: int, b: int| 0 <= a < peers@.len() && 0 <= b < peers@.len() && a != b implies (#[trigger] peers@[a]).peer_id@
                    != (#[trigger] peers@[b]).peer_id@ by {
                    if a < s.len() {
                        assert(peers@[a] == s[a]);
                    }
                    if b < s.len() {
                        assert(peers@[b] == s[b]);
                    }
                }
            }
        },
    }
}

/// Removes the peer with the given id, returning it.
pub fn take_peer(peers: &mut Vec<PeerInfo>, id: &PeerId) -> (r: Option<PeerInfo>)
    requires
        unique_peers(old(peers)@),
    ensures
        unique_peers(final(peers)@),
        !has_peer(old(peers)@, id@) ==> r is None && final(peers)@ == old(peers)@,
        forall|i: int| 0 <= i < old(peers)@.len() && (#[trigger] old(peers)@[i]).peer_id@ == id@ ==> r == Some(
            old(peers)@[i],
        ) && final(peers)@ == old(peers)@.remove(i),
{
    let ghost s = peers@;
    match find_peer(peers, id) {
        None => None,
        Some(i) => {
            proof {
                assert forall|k: int| 0 <= k < s.len() && (#[trigger] s[k]).peer_id@ == id@ implies k == i by {
                    if k != i {
                        assert(s[k].peer_id@ != s[i as int].peer_id@);
                    }
                }
            }
            let p = peers.remove(i);
            proof {
                assert forall|a: int, b: int| 0 <= a < peers@.len() && 0 <= b < peers@.len() && a != b implies (#[trigger] peers@[a]).peer_id@
                    != (#[trigger] peers@[b]).peer_id@ by {
                    let a0 = if a < i { a } else { a + 1 };
                    let b0 = if b < i { b } else { b + 1 };
                    assert(peers@[a] == s[a0]);
                    assert(peers@[b] == s[b0]);
                }
            }
            Some(p)
        },
    }
}

fn serves_shard(p: &PeerInfo, shard: u16) -> (r: bool)
    ensures
        r == p.shard_ids@.contains(shard),
{
    let n = p.shard_ids.len();
    let mut i: usize = 0;
    while i < n
        invariant
            n == p.shard_ids@.len(),
            i <= n,
            forall|j: int| 0 <= j < i ==> p.shard_ids@[j] != shard,
        decreases n - i,
    {
        if p.shard_ids[i] == shard {
            return true;
        }
        i = i + 1;
    }
    false
}

/// Peer manager tracking connected peers, one per id.
pub struct PeerManager {
    pub peers: Vec<PeerInfo>,
    pub config: NetworkConfig,
}

impl PeerManager {
    /// One peer per id.
    pub open spec fn wf(&self) -> bool {
        unique_peers(self.peers@)
    }

    /// A manager without peers.
    pub fn new(config: NetworkConfig) -> (m: Self)
        ensures
            m.wf(),
            m.peers@.len() == 0,
            m.config == config,
    {
        PeerManager { peers: Vec::new(), config }
    }

    /// Add a peer on our chain while below capacity (replacing a peer with
    /// the same id); returns whether it was added.
    pub fn add_peer(&mut self, info: PeerInfo) -> (r: bool)
        requires
            old(self).wf(),
        ensures
            final(self).wf(),
            final(self).config == old(self).config,
            r == (old(self).peers@.len() < old(self).config.max_peers && info.chain_id == old(self).config.chain_id),
            r ==> final(self).peers@ == with_peer(old(self).peers@, info),
            !r ==> final(self).peers@ == old(self).peers@,
    {
        if self.peers.len() >= self.config.max_peers {
            return false;
        }
        if info.chain_id != self.config.chain_id {
            return false;
        }
        put_peer(&mut self.peers, info);
        true
    }

    /// Remove a peer, returning it.
    pub fn remove_peer(&mut self, peer_id: &PeerId) -> (r: Option<PeerInfo>)
        requires
            old(self).wf(),
        ensures
            final(self).wf(),
            final(self).config == old(self).config,
            !has_peer(old(self).peers@, peer_id@) ==> r is None && final(self).peers@ == old(self).peers@,
            forall|i: int| 0 <= i < old(self).peers@.len() && (#[trigger] old(self).peers@[i]).peer_id@ == peer_id@
                ==> r == Some(old(self).peers@[i]) && final(self).peers@ == old(self).peers@.remove(i),
    {
        take_peer(&mut self.peers, peer_id)
    }

    /// Get a peer by id.
    pub fn get_peer(&self, peer_id: &PeerId) -> (r: Option<&PeerInfo>)
        requires
            self.wf(),
        ensures
            !has_peer(self.peers@, peer_id@) ==> r is None,
            forall|i: int| 0 <= i < self.peers@.len() && (#[trigger] self.peers@[i]).peer_id@ == peer_id@ ==> r == Some(
                &self.peers@[i],
            ),
    {
        match find_peer(&self.peers, peer_id) {
            Some(i) => {
                proof {
                    assert forall|k: int| 0 <= k < self.peers@.len() && (#[trigger] self.peers@[k]).peer_id@ == peer_id@ implies k == i by {
                        if k != i {
                            assert(self.peers@[k].peer_id@ != self.peers@[i as int].peer_id@);
                        }
                    }
                }
                Some(&self.peers[i])
            },
            None => None,
        }
    }

    /// The peers that serve a shard.
    pub fn peers_for_shard(&self, shard_id: u16) -> (r: Vec<&PeerInfo>)
        ensures
            r@.len() == serving(self.peers@, shard_id).len(),
            forall|k: int| 0 <= k < r@.len() ==> *r@[k] == serving(self.peers@, shard_id)[k],
    {
        let n = self.peers.len();
        let mut out: Vec<&PeerInfo> = Vec::new();
        let mut i: usize = 0;
        while i < n
            invariant
                n == self.peers@.len(),
                i <= n,
                out@.len() == serving(self.peers@.subrange(0, i as int), shard_id).len(),
                forall|k: int| 0 <= k < out@.len() ==> *out@[k] == serving(self.peers@.subrange(0, i as int), shard_id)[k],
            decreases n - i,
        {
            proof {
                assert(self.peers@.subrange(0, i + 1).drop_last() =~= self.peers@.subrange(0, i as int));
            }
            if serves_shard(&self.peers[i], shard_id) {
                out.push(&self.peers[i]);
            }
            i = i + 1;
        }
        assert(self.peers@.subrange(0, n as int) =~= self.peers@);
        out
    }

    /// Number of connected peers.
    pub fn peer_count(&self) -> (n: usize)
        ensures
            n == self.peers@.len(),
    {
        self.peers.len()
    }

    /// Whether there is room for more peers.
    pub fn has_capacity(&self) -> (r: bool)
        ensures
            r == (self.peers@.len() < self.config.max_peers),
    {
        self.peers.len() < self.config.max_peers
    }

    /// The ids of all connected peers.
    pub fn connected_peer_ids(&self) -> (ids: Vec<PeerId>)
        ensures
            ids@.len() == self.peers@.len(),
            forall|k: int| 0 <= k < ids@.len() ==> ids@[k] == self.peers@[k].peer_id,
    {
        let n = self.peers.len();
        let mut out: Vec<PeerId> = Vec::new();
        let mut i: usize = 0;
        while i < n
            invariant
                n == self.peers@.len(),
                i <= n,
                out@.len() == i,
                forall|k: int| 0 <= k < i ==> out@[k] == self.peers@[k].peer_id,
            decreases n - i,
        {
            out.push(self.peers[i].peer_id);
            i = i + 1;
        }
        out
    }

    /// Drop the peers not seen within the timeout before `current_time`.
    pub fn prune_stale_peers(&mut self, current_time: u64)
        requires
            old(self).wf(),
        ensures
            final(self).wf(),
            final(self).config == old(self).config,
            final(self).peers@ == fresh(old(self).peers@, current_time, old(self).config.peer_timeout_secs),
    {
        let timeout = self.config.peer_timeout_secs;
        let mut rest: Vec<PeerInfo> = Vec::new();
        std::mem::swap(&mut rest, &mut self.peers);
        let ghost orig = rest@;
        let mut kept: Vec<PeerInfo> = Vec::new();
        let n = rest.len();
        let mut i: usize = 0;
        while i < n
            invariant
                n == orig.len(),
                i <= n,
                rest@ == orig.subrange(i as int, n as int),
                kept@ == fresh(orig.subrange(0, i as int), current_time, timeout),
            decreases n - i,
        {
            let p = rest.remove(0);
            proof {
                assert(orig.subrange(0, i + 1).drop_last() =~= orig.subrange(0, i as int));
            }
            if current_time.saturating_sub(p.last_seen) < timeout {
                kept.push(p);
            }
            i = i + 1;
            assert(rest@ =~= orig.subrange(i as int, n as int));
        }
        assert(orig.subrange(0, n as int) =~= orig);
        proof { lemma_fresh_subseq(orig, current_time, timeout); }
        self.peers = kept;
    }
}

/// The fresh peers are a subsequence of all peers: no id is duplicated.
proof fn lemma_fresh_subseq(s: Seq<PeerInfo>, now: u64, timeout: u64)
    requires
        unique_peers(s),
    ensures
        unique_peers(fresh(s, now, timeout)),
        forall|k: int| 0 <= k < fresh(s, now, timeout).len() ==> s.contains(#[trigger] fresh(s, now, timeout)[k]),
    decreases s.len(),
{
    if s.len() > 0 {
        let d = s.drop_last();
        assert forall|i: int, j: int| 0 <= i < d.len() && 0 <= j < d.len() && i != j implies (#[trigger] d[i]).peer_id@
            != (#[trigger] d[j]).peer_id@ by {
            assert(d[i] == s[i] && d[j] == s[j]);
        }
        lemma_fresh_subseq(d, now, timeout);
        let f = fresh(d, now, timeout);
        assert forall|k: int| 0 <= k < f.len() implies s.contains(#[trigger] f[k]) by {
            let w = choose|w: int| 0 <= w < d.len() && d[w] == f[k];
            assert(s[w] == f[k]);
        }
        if sat_sub(now as int, s.last().last_seen as int) < timeout {
            let g = f.push(s.last());
            assert forall|k: int| 0 <= k < f.len() implies (#[trigger] f[k]).peer_id@ != s.last().peer_id@ by {
                let w = choose|w: int| 0 <= w < d.len() && d[w] == f[k];
                assert(s[w] == f[k]);
                assert(s[w].peer_id@ != s[s.len() - 1].peer_id@);
            }
            assert forall|i: int, j: int| 0 <= i < g.len() && 0 <= j < g.len() && i != j implies (#[trigger] g[i]).peer_id@
                != (#[trigger] g[j]).peer_id@ by {
                if i < f.len() && j < f.len() {
                    assert(g[i] == f[i] && g[j] == f[j]);
                } else if i < f.len() {
                    assert(g[i] == f[i]);
                } else {
                    assert(g[j] == f[j]);
                }
            }
            assert forall|k: int| 0 <= k < g.len() implies s.contains(#[trigger] g[k]) by {
                if k < f.len() {
                    assert(g[k] == f[k]);
                } else {
                    assert(s[s.len() - 1] == g[k]);
                }
            }
        }
    }
}

} // verus!
