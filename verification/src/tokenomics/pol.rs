//! Protocol-owned liquidity: treasury NXR deployed into liquidity pools, one
//! pool per paired asset.
use vstd::prelude::*;
use vstd::string::*;
use crate::arith::mul_div_floor;
use crate::text::str_eq;
use crate::tokenomics::error::TokenomicsError;

verus! {

/// A liquidity pool pairing NXR with another asset.
#[derive(Debug, Clone)]
pub struct LiquidityPool {
    pub pair_asset: String,
    pub nxr_amount: u128,
    pub pair_amount: u128,
    pub lp_tokens: u128,
}

/// The share `part / whole` of `amount`, rounded down; nothing of an
/// empty whole.
pub open spec fn pro_rata(amount: u128, part: u128, whole: u128) -> u128 {
    if whole == 0 { 0 } else { (amount * part / (whole as int)) as u128 }
}

/// Compute `pro_rata` for a part no larger than the whole.
pub fn pro_rata_exec(amount: u128, part: u128, whole: u128) -> (r: u128)
    requires
        part <= whole,
    ensures
        r == pro_rata(amount, part, whole),
        r <= amount,
{
    if whole == 0 {
        0
    } else {
        mul_div_floor(amount, part, whole)
    }
}

/// A payout never exceeds what the pool holds, and redeeming every LP
/// token pays out the whole pool.
pub proof fn pro_rata_bounded_and_complete(amount: u128, part: u128, whole: u128)
    requires
        part <= whole,
    ensures
        pro_rata(amount, part, whole) <= amount,
        whole > 0 ==> pro_rata(amount, whole, whole) == amount,
{
    if whole > 0 {
        assert(amount * part <= amount * whole) by (nonlinear_arith)
            requires part <= whole, amount >= 0;
        vstd::arithmetic::div_mod::lemma_div_is_ordered(amount * part, amount * whole, whole as int);
        vstd::arithmetic::div_mod::lemma_div_multiples_vanish(amount as int, whole as int);
        assert(amount * whole == whole * amount) by (nonlinear_arith);
    }
}

/// Whether some pool in `s` pairs NXR with `asset`.
pub open spec fn has_pool(s: Seq<LiquidityPool>, asset: Seq<char>) -> bool {
    exists|i: int| 0 <= i < s.len() && (#[trigger] s[i]).pair_asset@ == asset
}

/// No two pools pair the same asset.
pub open spec fn unique_assets(s: Seq<LiquidityPool>) -> bool {
    forall|i: int, j: int| 0 <= i < s.len() && 0 <= j < s.len() && i != j ==> (#[trigger] s[i]).pair_asset@ != (
    #[trigger] s[j]).pair_asset@
}

/// The value locked in a sequence of pools: NXR and the paired asset counted
/// one to one, each pool's sum saturating at `u128::MAX`.
pub open spec fn spec_tvl(s: Seq<LiquidityPool>) -> int
    decreases s.len(),
{
    if s.len() == 0 {
        0
    } else {
        spec_tvl(s.drop_last()) + s.last().nxr_amount.saturating_add(s.last().pair_amount)
    }
}

/// Protocol-owned liquidity manager.
#[derive(Debug, Clone)]
pub struct ProtocolOwnedLiquidity {
    pub pools: Vec<LiquidityPool>,
    pub total_nxr_deployed: u128,
    pub treasury_balance: u128,
}

impl ProtocolOwnedLiquidity {
    /// At most one pool per paired asset.
    pub open spec fn wf(&self) -> bool {
        unique_assets(self.pools@)
    }

    /// A manager with the given treasury and no pools.
    pub fn new(treasury_balance: u128) -> (p: Self)
        ensures
            p.wf(),
            p.pools@.len() == 0,
            p.total_nxr_deployed == 0,
            p.treasury_balance == treasury_balance,
    {
        ProtocolOwnedLiquidity { pools: Vec::new(), total_nxr_deployed: 0, treasury_balance }
    }

    fn find(&self, asset: &str) -> (r: Option<usize>)
        ensures
            match r {
                Some(i) => i < self.pools@.len() && self.pools@[i as int].pair_asset@ == asset@,
                None => !has_pool(self.pools@, asset@),
            },
    {
        let n = self.pools.len();
        let mut i: usize = 0;
        while i < n
            invariant
                n == self.pools@.len(),
                i <= n,
                forall|j: int| 0 <= j < i ==> (#[trigger] self.pools@[j]).pair_asset@ != asset@,
            decreases n - i,
        {
            if str_eq(self.pools[i].pair_asset.as_str(), asset) {
                return Some(i);
            }
            i = i + 1;
        }
        None
    }

    /// The pool of a paired asset, if any.
    pub fn pool(&self, pair_asset: &str) -> (r: Option<&LiquidityPool>)
        ensures
            match r {
                Some(p) => exists|i: int| 0 <= i < self.pools@.len() && self.pools@[i] == *p
                    && p.pair_asset@ == pair_asset@,
                None => !has_pool(self.pools@, pair_asset@),
            },
    {
        match self.find(pair_asset) {
            Some(i) => Some(&self.pools[i]),
            None => None,
        }
    }

    /// Add liquidity to a pool from the treasury; returns the LP tokens
    /// minted, half the sum of the two amounts.
    pub fn add_liquidity(&mut self, pair_asset: &str, nxr_amount: u128, pair_amount: u128) -> (r: Result<
        u128,
        TokenomicsError,
    >)
        requires
            old(self).wf(),
            nxr_amount <= old(self).treasury_balance ==> nxr_amount + pair_amount <= u128::MAX,
        ensures
            final(self).wf(),
            nxr_amount > old(self).treasury_balance ==> r == Err::<u128, TokenomicsError>(
                TokenomicsError::InsufficientBalance { need: nxr_amount, have: old(self).treasury_balance })
                && *final(self) == *old(self),
            nxr_amount <= old(self).treasury_balance ==> {
                let lp = ((nxr_amount + pair_amount) / 2) as u128;
                &&& r == Ok::<u128, TokenomicsError>(lp)
                &&& final(self).treasury_balance == old(self).treasury_balance - nxr_amount
                &&& final(self).total_nxr_deployed == old(self).total_nxr_deployed.saturating_add(nxr_amount)
                &&& forall|i: int| 0 <= i < old(self).pools@.len() && (#[trigger] old(self).pools@[i]).pair_asset@
                    == pair_asset@ ==> {
                    let p = old(self).pools@[i];
                    final(self).pools@ == old(self).pools@.update(i, LiquidityPool {
                        nxr_amount: p.nxr_amount.saturating_add(nxr_amount),
                        pair_amount: p.pair_amount.saturating_add(pair_amount),
                        lp_tokens: p.lp_tokens.saturating_add(lp),
                        ..p
                    })
                }
                &&& !has_pool(old(self).pools@, pair_asset@) ==> {
                    &&& final(self).pools@.len() == old(self).pools@.len() + 1
                    &&& final(self).pools@.drop_last() == old(self).pools@
                    &&& final(self).pools@.last().pair_asset@ == pair_asset@
                    &&& final(self).pools@.last().nxr_amount == nxr_amount
                    &&& final(self).pools@.last().pair_amount == pair_amount
                    &&& final(self).pools@.last().lp_tokens == lp
                }
            },
    {
        if nxr_amount > self.treasury_balance {
            return Err(TokenomicsError::InsufficientBalance { need: nxr_amount, have: self.treasury_balance });
        }
        self.treasury_balance = self.treasury_balance.saturating_sub(nxr_amount);
        self.total_nxr_deployed = self.total_nxr_deployed.saturating_add(nxr_amount);
        let lp_tokens = (nxr_amount + pair_amount) / 2;
        let ghost s = self.pools@;
        match self.find(pair_asset) {
            Some(i) => {
                let nxr = self.pools[i].nxr_amount.saturating_add(nxr_amount);
                let pair = self.pools[i].pair_amount.saturating_add(pair_amount);
                let lp = self.pools[i].lp_tokens.saturating_add(lp_tokens);
                self.pools[i].nxr_amount = nxr;
                self.pools[i].pair_amount = pair;
                self.pools[i].lp_tokens = lp;
                proof {
                    assert forall|k: int| 0 <= k < s.len() && (#[trigger] s[k]).pair_asset@ == pair_asset@ implies k == i by {}
                    assert(self.pools@ =~= s.update(i as int, self.pools@[i as int]));
                }
            },
            None => {
                self.pools.push(LiquidityPool {
                    pair_asset: pair_asset.to_owned(),
                    nxr_amount: 0u128.saturating_add(nxr_amount),
                    pair_amount: 0u128.saturating_add(pair_amount),
                    lp_tokens: 0u128.saturating_add(lp_tokens),
                });
                proof {
                    assert(self.pools@.drop_last() =~= s);
                    assert forall|i: int, j: int| 0 <= i < self.pools@.len() && 0 <= j < self.pools@.len() && i
                        != j implies (#[trigger] self.pools@[i]).pair_asset@ != (#[trigger] self.pools@[j]).pair_asset@ by {
                        if i == s.len() {
                            assert(s[j] == self.pools@[j]);
                        } else if j == s.len() {
                            assert(s[i] == self.pools@[i]);
                        }
                    }
                }
            },
        }
        Ok(lp_tokens)
    }

    /// Remove liquidity from a pool: burns `lp_tokens_to_remove` LP tokens
    /// and pays out the same share of the pool's NXR, which returns to the
    /// treasury, and of its paired asset, each rounded down.
    pub fn remove_liquidity(&mut self, pair_asset: &str, lp_tokens_to_remove: u128) -> (r: Result<(u128, u128), TokenomicsError>)
        requires
            old(self).wf(),
        ensures
            final(self).wf(),
            !has_pool(old(self).pools@, pair_asset@) ==> r == Err::<(u128, u128), TokenomicsError>(
                TokenomicsError::InsufficientBalance { need: lp_tokens_to_remove, have: 0 })
                && *final(self) == *old(self),
            forall|i: int| 0 <= i < old(self).pools@.len() && (#[trigger] old(self).pools@[i]).pair_asset@
                == pair_asset@ ==> {
                let p = old(self).pools@[i];
                let nxr_out = pro_rata(p.nxr_amount, lp_tokens_to_remove, p.lp_tokens);
                let pair_out = pro_rata(p.pair_amount, lp_tokens_to_remove, p.lp_tokens);
                &&& lp_tokens_to_remove > p.lp_tokens ==> r == Err::<(u128, u128), TokenomicsError>(
                    TokenomicsError::InsufficientBalance { need: lp_tokens_to_remove, have: p.lp_tokens })
                    && *final(self) == *old(self)
                &&& lp_tokens_to_remove <= p.lp_tokens ==> {
                    &&& r == Ok::<(u128, u128), TokenomicsError>((nxr_out, pair_out))
                    &&& final(self).pools@ == old(self).pools@.update(i, LiquidityPool {
                        nxr_amount: (p.nxr_amount - nxr_out) as u128,
                        pair_amount: (p.pair_amount - pair_out) as u128,
                        lp_tokens: (p.lp_tokens - lp_tokens_to_remove) as u128,
                        ..p
                    })
                    &&& final(self).total_nxr_deployed == old(self).total_nxr_deployed.saturating_sub(nxr_out)
                    &&& final(self).treasury_balance == old(self).treasury_balance.saturating_add(nxr_out)
                }
            },
    {
        let ghost s = self.pools@;
        match self.find(pair_asset) {
            None => Err(TokenomicsError::InsufficientBalance { need: lp_tokens_to_remove, have: 0 }),
            Some(i) => {
                proof {
                    assert forall|k: int| 0 <= k < s.len() && (#[trigger] s[k]).pair_asset@ == pair_asset@ implies k == i by {}
                }
                let have = self.pools[i].lp_tokens;
                if lp_tokens_to_remove > have {
                    return Err(TokenomicsError::InsufficientBalance { need: lp_tokens_to_remove, have });
                }
                let nxr_out = pro_rata_exec(self.pools[i].nxr_amount, lp_tokens_to_remove, have);
                let pair_out = pro_rata_exec(self.pools[i].pair_amount, lp_tokens_to_remove, have);
                let nxr = self.pools[i].nxr_amount - nxr_out;
                let pair = self.pools[i].pair_amount - pair_out;
                self.pools[i].nxr_amount = nxr;
                self.pools[i].pair_amount = pair;
                self.pools[i].lp_tokens = have - lp_tokens_to_remove;
                self.total_nxr_deployed = self.total_nxr_deployed.saturating_sub(nxr_out);
                self.treasury_balance = self.treasury_balance.saturating_add(nxr_out);
                proof {
                    assert(self.pools@ =~= s.update(i as int, self.pools@[i as int]));
                }
                Ok((nxr_out, pair_out))
            },
        }
    }

    /// The total value locked across all pools, the paired asset counted one
    /// to one with NXR.
    pub fn total_value_locked(&self) -> (t: u128)
        requires
            spec_tvl(self.pools@) <= u128::MAX,
        ensures
            t == spec_tvl(self.pools@),
    {
        let n = self.pools.len();
        let mut total: u128 = 0;
        let mut i: usize = 0;
        while i < n
            invariant
                n == self.pools@.len(),
                i <= n,
                spec_tvl(self.pools@) <= u128::MAX,
                total == spec_tvl(self.pools@.subrange(0, i as int)),
            decreases n - i,
        {
            proof {
                assert(self.pools@.subrange(0, i + 1).drop_last() =~= self.pools@.subrange(0, i as int));
                lemma_tvl_prefix_bound(self.pools@, i + 1);
            }
            total = total + self.pools[i].nxr_amount.saturating_add(self.pools[i].pair_amount);
            i = i + 1;
        }
        assert(self.pools@.subrange(0, n as int) =~= self.pools@);
        total
    }

    /// Number of pools.
    pub fn pool_count(&self) -> (n: usize)
        ensures
            n == self.pools@.len(),
    {
        self.pools.len()
    }
}

proof fn lemma_tvl_prefix_bound(s: Seq<LiquidityPool>, k: int)
    requires
        0 <= k <= s.len(),
    ensures
        spec_tvl(s.subrange(0, k)) <= spec_tvl(s),
    decreases s.len() - k,
{
    if k < s.len() {
        lemma_tvl_prefix_bound(s, k + 1);
        assert(s.subrange(0, k + 1).drop_last() =~= s.subrange(0, k));
    } else {
        assert(s.subrange(0, k) =~= s);
    }
}

} // verus!
