//! NCCP core: chains, bridge transfers and the protocol engine that locks,
//! completes and guards them.
use vstd::prelude::*;
use vstd::string::*;
use vstd::bytes::{spec_u64_to_le_bytes, spec_u128_to_le_bytes};
use crate::arith::sat_sub;
use crate::bridge::error::BridgeError;
use crate::bridge::nullifier::NullifierSet;
use crate::bytes::{append_bytes, push_u64_le, push_u128_le};
use crate::crypto::hash::{blake3_digest, blake3_of, hex_encode, hex_lower};
use crate::text::str_eq;

verus! {

/// Supported chains.
#[derive(Debug, Clone, PartialEq, Eq, Hash)]
pub enum ChainId {
    Nexara,
    Ethereum,
    BNBChain,
    Solana,
    Cosmos,
    Bitcoin,
    Custom(String),
}

/// The display name of a chain: its ticker, or a custom chain's name.
pub open spec fn chain_name(c: ChainId) -> Seq<char> {
    match c {
        ChainId::Nexara => "NEXARA"@,
        ChainId::Ethereum => "ETH"@,
        ChainId::BNBChain => "BNB"@,
        ChainId::Solana => "SOL"@,
        ChainId::Cosmos => "ATOM"@,
        ChainId::Bitcoin => "BTC"@,
        ChainId::Custom(name) => name@,
    }
}

/// Whether two chains are the same chain (custom chains by name).
pub open spec fn same_chain(a: ChainId, b: ChainId) -> bool {
    match (a, b) {
        (ChainId::Nexara, ChainId::Nexara) => true,
        (ChainId::Ethereum, ChainId::Ethereum) => true,
        (ChainId::BNBChain, ChainId::BNBChain) => true,
        (ChainId::Solana, ChainId::Solana) => true,
        (ChainId::Cosmos, ChainId::Cosmos) => true,
        (ChainId::Bitcoin, ChainId::Bitcoin) => true,
        (ChainId::Custom(x), ChainId::Custom(y)) => x@ == y@,
        _ => false,
    }
}

/// Whether a list of chains holds `c`.
pub open spec fn chain_in(list: Seq<ChainId>, c: ChainId) -> bool {
    exists|i: int| 0 <= i < list.len() && same_chain(#[trigger] list[i], c)
}

/// The chains of `list` other than `c`, in order.
pub open spec fn without_chain(list: Seq<ChainId>, c: ChainId) -> Seq<ChainId>
    decreases list.len(),
{
    if list.len() == 0 {
        list
    } else if same_chain(list.last(), c) {
        without_chain(list.drop_last(), c)
    } else {
        without_chain(list.drop_last(), c).push(list.last())
    }
}

impl ChainId {
    /// The display name of the chain.
    pub fn to_string(&self) -> (s: String)
        ensures
            s@ == chain_name(*self),
    {
        match self {
            ChainId::Nexara => "NEXARA".to_owned(),
            ChainId::Ethereum => "ETH".to_owned(),
            ChainId::BNBChain => "BNB".to_owned(),
            ChainId::Solana => "SOL".to_owned(),
            ChainId::Cosmos => "ATOM".to_owned(),
            ChainId::Bitcoin => "BTC".to_owned(),
            ChainId::Custom(name) => name.clone(),
        }
    }

    /// Whether two chains are the same chain.
    pub fn same(&self, other: &ChainId) -> (r: bool)
        ensures
            r == same_chain(*self, *other),
    {
        match (self, other) {
            (ChainId::Nexara, ChainId::Nexara) => true,
            (ChainId::Ethereum, ChainId::Ethereum) => true,
            (ChainId::BNBChain, ChainId::BNBChain) => true,
            (ChainId::Solana, ChainId::Solana) => true,
            (ChainId::Cosmos, ChainId::Cosmos) => true,
            (ChainId::Bitcoin, ChainId::Bitcoin) => true,
            (ChainId::Custom(x), ChainId::Custom(y)) => str_eq(x.as_str(), y.as_str()),
            _ => false,
        }
    }

    /// A copy of the chain.
    pub fn duplicate(&self) -> (c: ChainId)
        ensures
            c == *self,
    {
        match self {
            ChainId::Nexara => ChainId::Nexara,
            ChainId::Ethereum => ChainId::Ethereum,
            ChainId::BNBChain => ChainId::BNBChain,
            ChainId::Solana => ChainId::Solana,
            ChainId::Cosmos => ChainId::Cosmos,
            ChainId::Bitcoin => ChainId::Bitcoin,
            ChainId::Custom(name) => ChainId::Custom(name.clone()),
        }
    }
}

fn contains_chain(list: &Vec<ChainId>, c: &ChainId) -> (r: bool)
    ensures
        r == chain_in(list@, *c),
{
    let n = list.len();
    let mut i: usize = 0;
    while i < n
        invariant
            n == list@.len(),
            i <= n,
            forall|j: int| 0 <= j < i ==> !same_chain(#[trigger] list@[j], *c),
        decreases n - i,
    {
        if list[i].same(c) {
            return true;
        }
        i = i + 1;
    }
    false
}

/// Bridge transfer status.
#[derive(Debug, Clone, Copy, PartialEq, Eq, Structural)]
pub enum BridgeStatus {
    Pending,
    Locked,
    Confirmed,
    Completed,
    Failed,
    Refunded,
}

/// A cross-chain bridge transfer.
#[derive(Debug, Clone)]
pub struct BridgeTransfer {
    pub id: String,
    pub source_chain: ChainId,
    pub dest_chain: ChainId,
    pub sender: String,
    pub recipient: String,
    pub amount: u128,
    pub token: String,
    pub status: BridgeStatus,
    pub proof: Option<Vec<u8>>,
    pub nullifier: [u8; 32],
    pub created_at: u64,
    pub completed_at: Option<u64>,
}

/// A cross-chain message.
#[derive(Debug, Clone)]
pub struct BridgeMessage {
    pub source_chain: ChainId,
    pub dest_chain: ChainId,
    pub payload: Vec<u8>,
    pub nonce: u64,
    pub signature: Vec<u8>,
}

/// The digest behind a transfer's id: BLAKE3 of sender, recipient, amount
/// and the number of transfers made before it.
pub open spec fn transfer_digest(sender: Seq<u8>, recipient: Seq<u8>, amount: u128, count: u64) -> Seq<u8> {
    blake3_of(sender + recipient + spec_u128_to_le_bytes(amount) + spec_u64_to_le_bytes(count))
}

/// A transfer's id: the lowercase hex of the first 16 bytes of its digest.
pub open spec fn transfer_id_of(sender: Seq<u8>, recipient: Seq<u8>, amount: u128, count: u64) -> Seq<char> {
    hex_lower(transfer_digest(sender, recipient, amount, count).subrange(0, 16))
}

/// A transfer's nullifier: `BLAKE3("NCCP_NULLIFIER_V1" || id)`.
pub open spec fn transfer_nullifier(id: Seq<char>) -> Seq<u8> {
    blake3_of("NCCP_NULLIFIER_V1".spec_bytes() + vstd::utf8::encode_utf8(id))
}

/// The liquidity held for `token` (0 if none).
pub open spec fn liquidity_in(pools: Seq<(String, u128)>, token: Seq<char>) -> int {
    if exists|i: int| 0 <= i < pools.len() && (#[trigger] pools[i]).0@ == token {
        pools[choose|i: int| 0 <= i < pools.len() && (#[trigger] pools[i]).0@ == token].1 as int
    } else {
        0
    }
}

/// No token has two liquidity entries.
pub open spec fn unique_tokens(pools: Seq<(String, u128)>) -> bool {
    forall|i: int, j: int| 0 <= i < pools.len() && 0 <= j < pools.len() && i != j ==> (#[trigger] pools[i]).0@ != (
    #[trigger] pools[j]).0@
}

/// Whether `i` is the first transfer with id `id`.
pub open spec fn is_first_transfer(ts: Seq<BridgeTransfer>, id: Seq<char>, i: int) -> bool {
    &&& 0 <= i < ts.len()
    &&& ts[i].id@ == id
    &&& forall|j: int| 0 <= j < i ==> (#[trigger] ts[j]).id@ != id
}

/// Whether a transfer can be completed with `proof`: it is pending or
/// locked, the proof is not empty, and its nullifier is unspent.
pub open spec fn completable(t: BridgeTransfer, proof: Seq<u8>, spent: NullifierSet) -> bool {
    &&& (t.status == BridgeStatus::Pending || t.status == BridgeStatus::Locked)
    &&& proof.len() > 0
    &&& !spent.spec_contains(t.nullifier@)
}

/// Bridge protocol engine.
pub struct BridgeProtocol {
    nullifiers: NullifierSet,
    transfers: Vec<BridgeTransfer>,
    supported_chains: Vec<ChainId>,
    paused_chains: Vec<ChainId>,
    liquidity: Vec<(String, u128)>,
}

impl BridgeProtocol {
    /// The spent nullifiers.
    pub closed spec fn spec_nullifiers(&self) -> NullifierSet {
        self.nullifiers
    }

    /// The transfers made, in order.
    pub closed spec fn spec_transfers(&self) -> Seq<BridgeTransfer> {
        self.transfers@
    }

    /// The supported chains.
    pub closed spec fn spec_supported(&self) -> Seq<ChainId> {
        self.supported_chains@
    }

    /// The paused chains.
    pub closed spec fn spec_paused(&self) -> Seq<ChainId> {
        self.paused_chains@
    }

    /// The liquidity per token.
    pub closed spec fn spec_liquidity(&self) -> Seq<(String, u128)> {
        self.liquidity@
    }

    /// The engine is consistent: one liquidity entry per token, and no
    /// nullifier spent twice.
    pub open spec fn wf(&self) -> bool {
        &&& unique_tokens(self.spec_liquidity())
        &&& self.spec_nullifiers().wf()
    }

    /// A new engine supporting NEXARA, Ethereum, BNB Chain, Solana, Cosmos
    /// and Bitcoin, with nothing paused, no liquidity and no transfers.
    pub fn new() -> (b: Self)
        ensures
            b.wf(),
            b.spec_supported() == seq![ChainId::Nexara, ChainId::Ethereum, ChainId::BNBChain, ChainId::Solana, ChainId::Cosmos, ChainId::Bitcoin],
            b.spec_paused().len() == 0,
            b.spec_liquidity().len() == 0,
            b.spec_transfers().len() == 0,
            b.spec_nullifiers().spec_spent().len() == 0,
    {
        let mut supported: Vec<ChainId> = Vec::new();
        supported.push(ChainId::Nexara);
        supported.push(ChainId::Ethereum);
        supported.push(ChainId::BNBChain);
        supported.push(ChainId::Solana);
        supported.push(ChainId::Cosmos);
        supported.push(ChainId::Bitcoin);
        let b = BridgeProtocol {
            nullifiers: NullifierSet::new(),
            transfers: Vec::new(),
            supported_chains: supported,
            paused_chains: Vec::new(),
            liquidity: Vec::new(),
        };
        assert(b.spec_supported() =~= seq![ChainId::Nexara, ChainId::Ethereum, ChainId::BNBChain, ChainId::Solana, ChainId::Cosmos, ChainId::Bitcoin]);
        b
    }

    fn find_token(&self, token: &str) -> (r: Option<usize>)
        ensures
            match r {
                Some(i) => i < self.liquidity@.len() && self.liquidity@[i as int].0@ == token@,
                None => forall|j: int| 0 <= j < self.liquidity@.len() ==> (#[trigger] self.liquidity@[j]).0@ != token@,
            },
    {
        let n = self.liquidity.len();
        let mut i: usize = 0;
        while i < n
            invariant
                n == self.liquidity@.len(),
                i <= n,
                forall|j: int| 0 <= j < i ==> (#[trigger] self.liquidity@[j]).0@ != token@,
            decreases n - i,
        {
            if str_eq(self.liquidity[i].0.as_str(), token) {
                return Some(i);
            }
            i = i + 1;
        }
        None
    }

    /// The liquidity held for a token (0 if none).
    pub fn liquidity_of(&self, token: &str) -> (l: u128)
        requires
            self.wf(),
        ensures
            l == liquidity_in(self.spec_liquidity(), token@),
    {
        match self.find_token(token) {
            Some(i) => {
                proof {
                    let s = self.liquidity@;
                    let k = choose|k: int| 0 <= k < s.len() && (#[trigger] s[k]).0@ == token@;
                    assert(k == i);
                }
                self.liquidity[i].1
            },
            None => 0,
        }
    }

    /// Add liquidity for a token (saturating).
    pub fn add_liquidity(&mut self, token: &str, amount: u128)
        requires
            old(self).wf(),
        ensures
            final(self).wf(),
            liquidity_in(final(self).spec_liquidity(), token@) == (liquidity_in(old(self).spec_liquidity(), token@)
                as u128).saturating_add(amount),
            forall|t: Seq<char>| t != token@ ==> liquidity_in(final(self).spec_liquidity(), t) == liquidity_in(
                old(self).spec_liquidity(),
                t,
            ),
            final(self).spec_transfers() == old(self).spec_transfers(),
            final(self).spec_supported() == old(self).spec_supported(),
            final(self).spec_paused() == old(self).spec_paused(),
            final(self).spec_nullifiers() == old(self).spec_nullifiers(),
    {
        let ghost s = self.liquidity@;
        match self.find_token(token) {
            Some(i) => {
                let v = self.liquidity[i].1.saturating_add(amount);
                self.liquidity[i].1 = v;
                proof {
                    let f = self.liquidity@;
                    assert(f =~= s.update(i as int, (s[i as int].0, v)));
                    assert forall|t: Seq<char>| true implies liquidity_in(f, t) == if t == token@ { v as int } else { liquidity_in(s, t) } by {
                        if t == token@ {
                            let k = choose|k: int| 0 <= k < f.len() && (#[trigger] f[k]).0@ == t;
                            assert(f[i as int].0@ == t);
                            assert(k == i);
                            let k0 = choose|k: int| 0 <= k < s.len() && (#[trigger] s[k]).0@ == t;
                            assert(s[i as int].0@ == t);
                            assert(k0 == i);
                        } else {
                            if exists|k: int| 0 <= k < s.len() && (#[trigger] s[k]).0@ == t {
                                let k0 = choose|k: int| 0 <= k < s.len() && (#[trigger] s[k]).0@ == t;
                                assert(f[k0].0@ == t);
                                let k1 = choose|k: int| 0 <= k < f.len() && (#[trigger] f[k]).0@ == t;
                                assert(s[k1].0@ == t);
                            } else {
                                assert forall|k: int| 0 <= k < f.len() implies (#[trigger] f[k]).0@ != t by {
                                    assert(s[k].0@ != t || k == i);
                                }
                            }
                        }
                    }
                }
            },
            None => {
                self.liquidity.push((token.to_owned(), 0u128.saturating_add(amount)));
                proof {
                    let f = self.liquidity@;
                    assert(f.drop_last() =~= s);
                    assert forall|i: int, j: int| 0 <= i < f.len() && 0 <= j < f.len() && i != j implies (#[trigger] f[i]).0@
                        != (#[trigger] f[j]).0@ by {
                        if i == s.len() {
                            assert(f[j] == s[j]);
                        } else if j == s.len() {
                            assert(f[i] == s[i]);
                        } else {
                            assert(f[i] == s[i]);
                            assert(f[j] == s[j]);
                        }
                    }
                    assert forall|t: Seq<char>| true implies liquidity_in(f, t) == if t == token@ { amount as int } else { liquidity_in(s, t) } by {
                        if t == token@ {
                            assert(f[s.len() as int].0@ == t);
                            let k = choose|k: int| 0 <= k < f.len() && (#[trigger] f[k]).0@ == t;
                            assert(k == s.len());
                        } else {
                            if exists|k: int| 0 <= k < s.len() && (#[trigger] s[k]).0@ == t {
                                let k0 = choose|k: int| 0 <= k < s.len() && (#[trigger] s[k]).0@ == t;
                                assert(f[k0].0@ == t);
                                let k1 = choose|k: int| 0 <= k < f.len() && (#[trigger] f[k]).0@ == t;
                                assert(k1 != s.len());
                                assert(s[k1].0@ == t);
                            } else {
                                assert forall|k: int| 0 <= k < f.len() implies (#[trigger] f[k]).0@ != t by {
                                    if k < s.len() {
                                        assert(f[k] == s[k]);
                                    }
                                }
                            }
                        }
                    }
                }
            },
        }
    }

    fn generate_transfer_id(&self, sender: &str, recipient: &str, amount: u128) -> (id: String)
        ensures
            id@ == transfer_id_of(sender.spec_bytes(), recipient.spec_bytes(), amount, self.transfers@.len() as u64),
    {
        let mut data: Vec<u8> = Vec::new();
        append_bytes(&mut data, sender.as_bytes());
        append_bytes(&mut data, recipient.as_bytes());
        push_u128_le(&mut data, amount);
        push_u64_le(&mut data, self.transfers.len() as u64);
        let digest = blake3_digest(data.as_slice());
        let mut first: Vec<u8> = Vec::new();
        let mut i: usize = 0;
        while i < 16
            invariant
                i <= 16,
                digest@.len() == 32,
                first@ == digest@.subrange(0, i as int),
            decreases 16 - i,
        {
            first.push(digest[i]);
            i = i + 1;
            assert(first@ =~= digest@.subrange(0, i as int));
        }
        hex_encode(first.as_slice())
    }

    fn generate_nullifier(&self, transfer_id: &str) -> (n: [u8; 32])
        ensures
            n@ == transfer_nullifier(transfer_id@),
    {
        let mut data: Vec<u8> = Vec::new();
        append_bytes(&mut data, "NCCP_NULLIFIER_V1".as_bytes());
        append_bytes(&mut data, transfer_id.as_bytes());
        blake3_digest(data.as_slice())
    }

    /// Initiate a bridge transfer between two supported chains that are not
    /// paused, within the token's liquidity. Its id is derived from sender,
    /// recipient, amount and the number of earlier transfers; its nullifier
    /// from the id. The transfer is recorded as pending and returned.
    pub fn initiate_transfer(
        &mut self,
        source: ChainId,
        dest: ChainId,
        sender: &str,
        recipient: &str,
        amount: u128,
        token: &str,
    ) -> (r: Result<BridgeTransfer, BridgeError>)
        requires
            old(self).wf(),
        ensures
            final(self).wf(),
            final(self).spec_supported() == old(self).spec_supported(),
            final(self).spec_paused() == old(self).spec_paused(),
            final(self).spec_liquidity() == old(self).spec_liquidity(),
            final(self).spec_nullifiers() == old(self).spec_nullifiers(),
            ({
                let sup = old(self).spec_supported();
                let paused = old(self).spec_paused();
                let have = liquidity_in(old(self).spec_liquidity(), token@);
                let id = transfer_id_of(sender.spec_bytes(), recipient.spec_bytes(), amount, old(self).spec_transfers().len() as u64);
                let nf = transfer_nullifier(id);
                if !chain_in(sup, source) {
                    (r matches Err(BridgeError::UnsupportedChain(m)) && m@ == chain_name(source))
                        && final(self).spec_transfers() == old(self).spec_transfers()
                } else if !chain_in(sup, dest) {
                    (r matches Err(BridgeError::UnsupportedChain(m)) && m@ == chain_name(dest))
                        && final(self).spec_transfers() == old(self).spec_transfers()
                } else if chain_in(paused, source) {
                    (r matches Err(BridgeError::BridgePaused(m)) && m@ == chain_name(source))
                        && final(self).spec_transfers() == old(self).spec_transfers()
                } else if chain_in(paused, dest) {
                    (r matches Err(BridgeError::BridgePaused(m)) && m@ == chain_name(dest))
                        && final(self).spec_transfers() == old(self).spec_transfers()
                } else if have < amount {
                    r == Err::<BridgeTransfer, BridgeError>(BridgeError::InsufficientLiquidity { need: amount, have: have as u128 })
                        && final(self).spec_transfers() == old(self).spec_transfers()
                } else if old(self).spec_nullifiers().spec_contains(nf) {
                    (r matches Err(BridgeError::DuplicateTransfer(m)) && m@ == id)
                        && final(self).spec_transfers() == old(self).spec_transfers()
                } else {
                    &&& r matches Ok(t)
                    &&& t.id@ == id
                    &&& t.source_chain == source
                    &&& t.dest_chain == dest
                    &&& t.sender@ == sender@
                    &&& t.recipient@ == recipient@
                    &&& t.amount == amount
                    &&& t.token@ == token@
                    &&& t.status == BridgeStatus::Pending
                    &&& t.proof is None
                    &&& t.nullifier@ == nf
                    &&& t.created_at == 0
                    &&& t.completed_at is None
                    &&& final(self).spec_transfers() == old(self).spec_transfers().push(t)
                }
            }),
    {
        if !contains_chain(&self.supported_chains, &source) {
            return Err(BridgeError::UnsupportedChain(source.to_string()));
        }
        if !contains_chain(&self.supported_chains, &dest) {
            return Err(BridgeError::UnsupportedChain(dest.to_string()));
        }
        if contains_chain(&self.paused_chains, &source) {
            return Err(BridgeError::BridgePaused(source.to_string()));
        }
        if contains_chain(&self.paused_chains, &dest) {
            return Err(BridgeError::BridgePaused(dest.to_string()));
        }
        let available = self.liquidity_of(token);
        if available < amount {
            return Err(BridgeError::InsufficientLiquidity { need: amount, have: available });
        }
        let id = self.generate_transfer_id(sender, recipient, amount);
        let nullifier = self.generate_nullifier(id.as_str());
        if self.nullifiers.contains(&nullifier) {
            return Err(BridgeError::DuplicateTransfer(id));
        }
        let transfer = BridgeTransfer {
            id,
            source_chain: source,
            dest_chain: dest,
            sender: sender.to_owned(),
            recipient: recipient.to_owned(),
            amount,
            token: token.to_owned(),
            status: BridgeStatus::Pending,
            proof: None,
            nullifier,
            created_at: 0,
            completed_at: None,
        };
        let stored = BridgeTransfer {
            id: transfer.id.clone(),
            source_chain: transfer.source_chain.duplicate(),
            dest_chain: transfer.dest_chain.duplicate(),
            sender: transfer.sender.clone(),
            recipient: transfer.recipient.clone(),
            amount,
            token: transfer.token.clone(),
            status: BridgeStatus::Pending,
            proof: None,
            nullifier,
            created_at: 0,
            completed_at: None,
        };
        self.transfers.push(stored);
        Ok(transfer)
    }

    fn find_transfer(&self, id: &str) -> (r: Option<usize>)
        ensures
            match r {
                Some(i) => is_first_transfer(self.transfers@, id@, i as int),
                None => forall|j: int| 0 <= j < self.transfers@.len() ==> (#[trigger] self.transfers@[j]).id@ != id@,
            },
    {
        let n = self.transfers.len();
        let mut i: usize = 0;
        while i < n
            invariant
                n == self.transfers@.len(),
                i <= n,
                forall|j: int| 0 <= j < i ==> (#[trigger] self.transfers@[j]).id@ != id@,
            decreases n - i,
        {
            if str_eq(self.transfers[i].id.as_str(), id) {
                return Some(i);
            }
            i = i + 1;
        }
        None
    }

    /// Complete a pending (or locked) transfer with a non-empty proof: its
    /// nullifier is spent, the token's liquidity is reduced by its amount and
    /// it is marked completed.
    pub fn complete_transfer(&mut self, transfer_id: &str, proof: Vec<u8>) -> (r: Result<(), BridgeError>)
        requires
            old(self).wf(),
        ensures
            final(self).wf(),
            final(self).spec_supported() == old(self).spec_supported(),
            final(self).spec_paused() == old(self).spec_paused(),
            (forall|j: int| 0 <= j < old(self).spec_transfers().len() ==> (#[trigger] old(self).spec_transfers()[j]).id@
                != transfer_id@) ==> (r matches Err(BridgeError::InvalidProof(m)) && m@ == transfer_id@)
                && *final(self) == *old(self),
            forall|i: int| #[trigger] is_first_transfer(old(self).spec_transfers(), transfer_id@, i) ==> {
                let t = old(self).spec_transfers()[i];
                if !(t.status == BridgeStatus::Pending || t.status == BridgeStatus::Locked) || proof@.len() == 0 {
                    (r matches Err(BridgeError::InvalidProof(m)) && m@ == transfer_id@) && *final(self) == *old(self)
                } else if old(self).spec_nullifiers().spec_contains(t.nullifier@) {
                    (r matches Err(BridgeError::NullifierSpent(m)) && m@ == hex_lower(t.nullifier@))
                        && *final(self) == *old(self)
                } else {
                    &&& r is Ok
                    &&& completable(t, proof@, old(self).spec_nullifiers())
                    &&& final(self).spec_nullifiers().spec_spent() == old(self).spec_nullifiers().spec_spent().push(t.nullifier@)
                    &&& final(self).spec_transfers() == old(self).spec_transfers().update(i, BridgeTransfer {
                        proof: Some(proof),
                        status: BridgeStatus::Completed,
                        ..t
                    })
                    &&& liquidity_in(final(self).spec_liquidity(), t.token@) == sat_sub(
                        liquidity_in(old(self).spec_liquidity(), t.token@),
                        t.amount as int,
                    )
                    &&& forall|tok: Seq<char>| tok != t.token@ ==> liquidity_in(final(self).spec_liquidity(), tok)
                        == liquidity_in(old(self).spec_liquidity(), tok)
                }
            },
    {
        let i = match self.find_transfer(transfer_id) {
            Some(i) => i,
            None => {
                return Err(BridgeError::InvalidProof(transfer_id.to_owned()));
            },
        };
        let ghost ts = self.transfers@;
        proof {
            assert forall|k: int| #[trigger] is_first_transfer(ts, transfer_id@, k) implies k == i by {
                if k > i {
                    assert(ts[i as int].id@ != transfer_id@);
                }
            }
        }
        let status = self.transfers[i].status;
        if status != BridgeStatus::Pending && status != BridgeStatus::Locked {
            return Err(BridgeError::InvalidProof(transfer_id.to_owned()));
        }
        if proof.len() == 0 {
            return Err(BridgeError::InvalidProof(transfer_id.to_owned()));
        }
        let nullifier = self.transfers[i].nullifier;
        if self.nullifiers.contains(&nullifier) {
            return Err(BridgeError::NullifierSpent(hex_encode(nullifier.as_slice())));
        }
        self.nullifiers.insert(nullifier);
        let amount = self.transfers[i].amount;
        match self.find_token(self.transfers[i].token.as_str()) {
            Some(k) => {
                let ghost s = self.liquidity@;
                let ghost tok = self.transfers@[i as int].token@;
                let v = self.liquidity[k].1.saturating_sub(amount);
                self.liquidity[k].1 = v;
                proof {
                    let f = self.liquidity@;
                    assert(f =~= s.update(k as int, (s[k as int].0, v)));
                    assert forall|t: Seq<char>| true implies liquidity_in(f, t) == if t == tok { v as int } else { liquidity_in(s, t) } by {
                        if t == tok {
                            let k1 = choose|j: int| 0 <= j < f.len() && (#[trigger] f[j]).0@ == t;
                            assert(f[k as int].0@ == t);
                            assert(k1 == k);
                            let k0 = choose|j: int| 0 <= j < s.len() && (#[trigger] s[j]).0@ == t;
                            assert(s[k as int].0@ == t);
                            assert(k0 == k);
                        } else {
                            if exists|j: int| 0 <= j < s.len() && (#[trigger] s[j]).0@ == t {
                                let k0 = choose|j: int| 0 <= j < s.len() && (#[trigger] s[j]).0@ == t;
                                assert(f[k0].0@ == t);
                                let k1 = choose|j: int| 0 <= j < f.len() && (#[trigger] f[j]).0@ == t;
                                assert(s[k1].0@ == t);
                            } else {
                                assert forall|j: int| 0 <= j < f.len() implies (#[trigger] f[j]).0@ != t by {
                                    assert(s[j].0@ != t || j == k);
                                }
                            }
                        }
                    }
                    let kk = choose|j: int| 0 <= j < s.len() && (#[trigger] s[j]).0@ == tok;
                    assert(s[k as int].0@ == tok);
                    assert(kk == k);
                }
            },
            None => {
                proof {
                    let s = self.liquidity@;
                    let tok = self.transfers@[i as int].token@;
                    assert(!(exists|j: int| 0 <= j < s.len() && (#[trigger] s[j]).0@ == tok));
                }
            },
        }
        self.transfers[i].proof = Some(proof);
        self.transfers[i].status = BridgeStatus::Completed;
        proof {
            assert(self.transfers@ =~= ts.update(i as int, self.transfers@[i as int]));
        }
        Ok(())
    }

    /// Pause a chain's bridge (once).
    pub fn pause_chain(&mut self, chain: ChainId)
        ensures
            chain_in(old(self).spec_paused(), chain) ==> final(self).spec_paused() == old(self).spec_paused(),
            !chain_in(old(self).spec_paused(), chain) ==> final(self).spec_paused() == old(self).spec_paused().push(chain),
            final(self).spec_supported() == old(self).spec_supported(),
            final(self).spec_transfers() == old(self).spec_transfers(),
            final(self).spec_liquidity() == old(self).spec_liquidity(),
            final(self).spec_nullifiers() == old(self).spec_nullifiers(),
    {
        if !contains_chain(&self.paused_chains, &chain) {
            self.paused_chains.push(chain);
        }
    }

    /// Resume a chain's bridge: it leaves the paused chains.
    pub fn resume_chain(&mut self, chain: &ChainId)
        ensures
            final(self).spec_paused() == without_chain(old(self).spec_paused(), *chain),
            !chain_in(final(self).spec_paused(), *chain),
            final(self).spec_supported() == old(self).spec_supported(),
            final(self).spec_transfers() == old(self).spec_transfers(),
            final(self).spec_liquidity() == old(self).spec_liquidity(),
            final(self).spec_nullifiers() == old(self).spec_nullifiers(),
    {
        let n = self.paused_chains.len();
        let mut kept: Vec<ChainId> = Vec::new();
        let mut i: usize = 0;
        while i < n
            invariant
                n == self.paused_chains@.len(),
                self.paused_chains@ == old(self).paused_chains@,
                i <= n,
                kept@ == without_chain(self.paused_chains@.subrange(0, i as int), *chain),
            decreases n - i,
        {
            proof {
                assert(self.paused_chains@.subrange(0, i + 1).drop_last() =~= self.paused_chains@.subrange(0, i as int));
            }
            if !self.paused_chains[i].same(chain) {
                kept.push(self.paused_chains[i].duplicate());
            }
            i = i + 1;
        }
        assert(self.paused_chains@.subrange(0, n as int) =~= self.paused_chains@);
        self.paused_chains = kept;
        proof {
            lemma_without_excludes(old(self).paused_chains@, *chain);
        }
    }

    /// All transfers, in the order they were made.
    pub fn transfers(&self) -> (ts: &[BridgeTransfer])
        ensures
            ts@ == self.spec_transfers(),
    {
        self.transfers.as_slice()
    }
}

proof fn lemma_without_excludes(list: Seq<ChainId>, c: ChainId)
    ensures
        !chain_in(without_chain(list, c), c),
    decreases list.len(),
{
    if list.len() > 0 {
        lemma_without_excludes(list.drop_last(), c);
        let w = without_chain(list.drop_last(), c);
        if !same_chain(list.last(), c) {
            assert forall|i: int| 0 <= i < w.push(list.last()).len() implies !same_chain(#[trigger] w.push(list.last())[i], c) by {
                if i < w.len() {
                    assert(w.push(list.last())[i] == w[i]);
                }
            }
        }
    }
}

impl Default for BridgeProtocol {
    fn default() -> (b: Self)
        ensures
            b.wf(),
            b.spec_paused().len() == 0,
            b.spec_liquidity().len() == 0,
            b.spec_transfers().len() == 0,
    {
        Self::new()
    }
}

/// Verify a bridge message: it needs a payload and a signature.
pub fn verify_bridge_message(msg: &BridgeMessage) -> (r: Result<bool, BridgeError>)
    ensures
        msg.payload@.len() == 0 ==> (r matches Err(BridgeError::InvalidMessage(m)) && m@ == "Empty payload"@),
        msg.payload@.len() > 0 && msg.signature@.len() == 0 ==> (r matches Err(BridgeError::InvalidMessage(m)) && m@
            == "Missing signature"@),
        msg.payload@.len() > 0 && msg.signature@.len() > 0 ==> r == Ok::<bool, BridgeError>(true),
{
    if msg.payload.len() == 0 {
        return Err(BridgeError::InvalidMessage("Empty payload".to_owned()));
    }
    if msg.signature.len() == 0 {
        return Err(BridgeError::InvalidMessage("Missing signature".to_owned()));
    }
    let hash = blake3_digest(msg.payload.as_slice());
    Ok(hash.len() == 32)
}

/// A completed transfer cannot be completed again: once marked completed
/// with its nullifier spent, it is no longer completable with any proof.
pub proof fn completed_transfer_not_completable_again(
    t: BridgeTransfer,
    proof: Vec<u8>,
    spent_after: NullifierSet,
    again: Seq<u8>,
)
    requires
        spent_after.spec_contains(t.nullifier@),
    ensures
        !completable(BridgeTransfer { proof: Some(proof), status: BridgeStatus::Completed, ..t }, again, spent_after),
{
}

} // verus!
