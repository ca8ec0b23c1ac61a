//! AI-enhanced Byzantine fault tolerance: anomaly detection over validator
//! behaviour, and trust scores built from what was observed.
//!
//! Trust scores are held in parts per million: full trust is 1,000,000. A
//! score weighs correct votes 40%, participation 40% and the anomaly rate,
//! capped at one half, 20%, and is computed exactly, rounded down.
use vstd::prelude::*;
use crate::crypto::keys::WalletAddress;

verus! {

/// Full trust, in parts per million.
pub const FULL_TRUST_PPM: u32 = 1_000_000;

/// A behavioural observation of a validator.
#[derive(Debug, Clone, Copy)]
pub struct ValidatorObservation {
    pub validator: WalletAddress,
    pub block_height: u64,
    pub response_time_ms: u64,
    pub voted_correctly: bool,
    pub participated: bool,
}

/// The response-time limit above which a response is anomalous: the
/// baseline times the threshold multiplier.
pub open spec fn anomaly_limit(avg_response_time_ms: u64, threshold_multiplier: u64) -> int {
    avg_response_time_ms * threshold_multiplier
}

/// Whether a response time is anomalous against the baseline.
pub fn is_slow_response(response_time_ms: u64, avg_response_time_ms: u64, threshold_multiplier: u64) -> (r: bool)
    requires
        anomaly_limit(avg_response_time_ms, threshold_multiplier) <= u64::MAX,
    ensures
        r == (response_time_ms > anomaly_limit(avg_response_time_ms, threshold_multiplier)),
{
    response_time_ms > avg_response_time_ms * threshold_multiplier
}

/// Detect if an observation is anomalous: the validator did not take
/// part, voted wrongly, or answered too slowly.
pub fn is_anomalous(obs: &ValidatorObservation, avg_response_time_ms: u64, threshold_multiplier: u64) -> (r: bool)
    requires
        anomaly_limit(avg_response_time_ms, threshold_multiplier) <= u64::MAX,
    ensures
        r == (!obs.participated || !obs.voted_correctly || obs.response_time_ms > anomaly_limit(
            avg_response_time_ms,
            threshold_multiplier,
        )),
{
    if !obs.participated {
        return true;
    }
    if !obs.voted_correctly {
        return true;
    }
    is_slow_response(obs.response_time_ms, avg_response_time_ms, threshold_multiplier)
}

/// `x` limited to the range from zero to full trust.
pub open spec fn clamp_ppm(x: int) -> int {
    if x < 0 { 0 } else if x > FULL_TRUST_PPM { FULL_TRUST_PPM as int } else { x }
}

/// The trust, in parts per million, of `n` observations with `c` correct
/// votes, `m` missed rounds and `a` anomalies: 40% correctness, 40%
/// participation and 20% for the anomaly rate capped at one half, rounded
/// down and limited to the range of scores. No observations is full trust.
pub open spec fn trust_ppm(n: u64, c: u64, m: u64, a: u64) -> int {
    if n == 0 {
        FULL_TRUST_PPM as int
    } else {
        let capped = if 2 * a >= n { n as int } else { 2 * a };
        clamp_ppm((400_000 * c + 400_000 * (n - m) + 200_000 * n - 100_000 * capped) / (n as int))
    }
}

/// Trust score tracking for validators.
#[derive(Debug, Clone, Copy, PartialEq, Eq, Structural)]
pub struct TrustScore {
    pub score_ppm: u32,
    pub observations: u64,
    pub correct_votes: u64,
    pub missed_rounds: u64,
    pub anomaly_count: u64,
}

impl TrustScore {
    /// No count exceeds the number of observations, and the score is the
    /// one the counts give.
    pub open spec fn wf(&self) -> bool {
        &&& self.correct_votes <= self.observations
        &&& self.missed_rounds <= self.observations
        &&& self.anomaly_count <= self.observations
        &&& self.score_ppm == trust_ppm(self.observations, self.correct_votes, self.missed_rounds, self.anomaly_count)
    }

    /// The score after one more observation, against the given limit.
    pub open spec fn spec_observed(self, obs: ValidatorObservation, limit: int) -> TrustScore {
        let n = (self.observations + 1) as u64;
        let c = (self.correct_votes + if obs.voted_correctly { 1int } else { 0int }) as u64;
        let m = (self.missed_rounds + if obs.participated { 0int } else { 1int }) as u64;
        let a = (self.anomaly_count + if obs.response_time_ms > limit { 1int } else { 0int }) as u64;
        TrustScore { score_ppm: trust_ppm(n, c, m, a) as u32, observations: n, correct_votes: c, missed_rounds: m, anomaly_count: a }
    }
}

/// Full trust and no observations.
pub open spec fn fresh_score() -> TrustScore {
    TrustScore { score_ppm: FULL_TRUST_PPM, observations: 0, correct_votes: 0, missed_rounds: 0, anomaly_count: 0 }
}

impl Default for TrustScore {
    /// Full trust and no observations.
    fn default() -> (t: Self)
        ensures
            t == fresh_score(),
    {
        TrustScore { score_ppm: FULL_TRUST_PPM, observations: 0, correct_votes: 0, missed_rounds: 0, anomaly_count: 0 }
    }
}

/// Compute `trust_ppm` without overflow.
pub fn calculate_trust(n: u64, c: u64, m: u64, a: u64) -> (r: u32)
    ensures
        r == trust_ppm(n, c, m, a),
{
    if n == 0 {
        return FULL_TRUST_PPM;
    }
    let nn = n as u128;
    let capped: u128 = if 2 * (a as u128) >= nn { nn } else { 2 * (a as u128) };
    let pos: u128 = 400_000 * (c as u128) + 400_000 * nn + 200_000 * nn;
    let neg: u128 = 400_000 * (m as u128) + 100_000 * capped;
    if neg > pos {
        proof {
            let x = 400_000 * c + 400_000 * (n - m) + 200_000 * n - 100_000 * capped;
            assert(x < 0);
            assert(x / (n as int) < 0) by (nonlinear_arith)
                requires x < 0, n > 0;
        }
        return 0;
    }
    let q = (pos - neg) / nn;
    if q > FULL_TRUST_PPM as u128 {
        FULL_TRUST_PPM
    } else {
        q as u32
    }
}

/// Whether some entry of `s` scores `addr`.
pub open spec fn has_validator(s: Seq<(WalletAddress, TrustScore)>, addr: Seq<u8>) -> bool {
    exists|i: int| 0 <= i < s.len() && (#[trigger] s[i]).0.0@ == addr
}

/// No validator is scored twice.
pub open spec fn unique_validators(s: Seq<(WalletAddress, TrustScore)>) -> bool {
    forall|i: int, j: int| 0 <= i < s.len() && 0 <= j < s.len() && i != j ==> (#[trigger] s[i]).0.0@ != (
    #[trigger] s[j]).0.0@
}

/// The entries of `s` whose score is below `min`, in order.
pub open spec fn untrusted(s: Seq<(WalletAddress, TrustScore)>, min: u32) -> Seq<(WalletAddress, u32)>
    decreases s.len(),
{
    if s.len() == 0 {
        Seq::empty()
    } else if s.last().1.score_ppm < min {
        untrusted(s.drop_last(), min).push((s.last().0, s.last().1.score_ppm))
    } else {
        untrusted(s.drop_last(), min)
    }
}

/// The AIBFT anomaly detection engine.
#[derive(Debug, Clone)]
pub struct AiBft {
    /// Scores by validator, in order of first observation.
    pub trust_scores: Vec<(WalletAddress, TrustScore)>,
    /// Average response time used as baseline.
    pub avg_response_time_ms: u64,
    /// A response slower than the baseline times this is anomalous.
    pub threshold_multiplier: u64,
    /// Minimum trust score, in parts per million, before a validator is flagged.
    pub min_trust_score_ppm: u32,
}

impl AiBft {
    /// One score per validator, each consistent with its counts.
    pub open spec fn wf(&self) -> bool {
        &&& unique_validators(self.trust_scores@)
        &&& forall|i: int| 0 <= i < self.trust_scores@.len() ==> (#[trigger] self.trust_scores@[i]).1.wf()
    }

    /// The response-time limit of this engine.
    pub open spec fn limit(&self) -> int {
        anomaly_limit(self.avg_response_time_ms, self.threshold_multiplier)
    }

    /// A new engine: no scores, a 100 ms baseline, a multiplier of 3 and a
    /// minimum trust of 30%.
    pub fn new() -> (e: Self)
        ensures
            e.trust_scores@.len() == 0,
            e.avg_response_time_ms == 100,
            e.threshold_multiplier == 3,
            e.min_trust_score_ppm == 300_000,
            e.wf(),
    {
        AiBft { trust_scores: Vec::new(), avg_response_time_ms: 100, threshold_multiplier: 3, min_trust_score_ppm: 300_000 }
    }

    fn find(&self, validator: &WalletAddress) -> (r: Option<usize>)
        ensures
            match r {
                Some(i) => i < self.trust_scores@.len() && self.trust_scores@[i as int].0.0@ == validator.0@,
                None => !has_validator(self.trust_scores@, validator.0@),
            },
    {
        let n = self.trust_scores.len();
        let mut i: usize = 0;
        while i < n
            invariant
                n == self.trust_scores@.len(),
                i <= n,
                forall|j: int| 0 <= j < i ==> (#[trigger] self.trust_scores@[j]).0.0@ != validator.0@,
            decreases n - i,
        {
            if self.trust_scores[i].0 == *validator {
                return Some(i);
            }
            i = i + 1;
        }
        None
    }

    /// Record an observation: the validator's counts (starting from none)
    /// take it in and its score is recomputed.
    pub fn record_observation(&mut self, obs: ValidatorObservation)
        requires
            old(self).wf(),
            old(self).limit() <= u64::MAX,
            forall|i: int| 0 <= i < old(self).trust_scores@.len() && (#[trigger] old(self).trust_scores@[i]).0.0@
                == obs.validator.0@ ==> old(self).trust_scores@[i].1.observations < u64::MAX,
        ensures
            final(self).wf(),
            final(self).avg_response_time_ms == old(self).avg_response_time_ms,
            final(self).threshold_multiplier == old(self).threshold_multiplier,
            final(self).min_trust_score_ppm == old(self).min_trust_score_ppm,
            forall|i: int| 0 <= i < old(self).trust_scores@.len() && (#[trigger] old(self).trust_scores@[i]).0.0@
                == obs.validator.0@ ==> final(self).trust_scores@ == old(self).trust_scores@.update(
                i,
                (old(self).trust_scores@[i].0, old(self).trust_scores@[i].1.spec_observed(obs, old(self).limit())),
            ),
            !has_validator(old(self).trust_scores@, obs.validator.0@) ==> final(self).trust_scores@
                == old(self).trust_scores@.push((obs.validator, fresh_score().spec_observed(obs, old(self).limit()))),
    {
        let ghost s = self.trust_scores@;
        let slow = is_slow_response(obs.response_time_ms, self.avg_response_time_ms, self.threshold_multiplier);
        match self.find(&obs.validator) {
            Some(i) => {
                proof {
                    assert forall|k: int| 0 <= k < s.len() && (#[trigger] s[k]).0.0@ == obs.validator.0@ implies k == i by {}
                }
                let (addr, ts) = self.trust_scores[i];
                let updated = observe(ts, &obs, slow);
                self.trust_scores.set(i, (addr, updated));
                proof {
                    assert forall|a: int, b: int| 0 <= a < self.trust_scores@.len() && 0 <= b < self.trust_scores@.len() && a != b
                        implies (#[trigger] self.trust_scores@[a]).0.0@ != (#[trigger] self.trust_scores@[b]).0.0@ by {
                        assert(s[a].0.0@ != s[b].0.0@);
                    }
                }
            },
            None => {
                let updated = observe(TrustScore::default(), &obs, slow);
                self.trust_scores.push((obs.validator, updated));
                proof {
                    assert forall|a: int, b: int| 0 <= a < self.trust_scores@.len() && 0 <= b < self.trust_scores@.len() && a != b
                        implies (#[trigger] self.trust_scores@[a]).0.0@ != (#[trigger] self.trust_scores@[b]).0.0@ by {
                        if a < s.len() && b < s.len() {
                            assert(s[a].0.0@ != s[b].0.0@);
                        }
                    }
                }
            },
        }
    }

    /// The trust score of a validator; full trust for one never observed.
    pub fn get_trust_score(&self, validator: &WalletAddress) -> (r: u32)
        ensures
            !has_validator(self.trust_scores@, validator.0@) ==> r == FULL_TRUST_PPM,
            forall|i: int| 0 <= i < self.trust_scores@.len() && (#[trigger] self.trust_scores@[i]).0.0@ == validator.0@
                && unique_validators(self.trust_scores@) ==> r == self.trust_scores@[i].1.score_ppm,
    {
        match self.find(validator) {
            Some(i) => {
                let ghost s = self.trust_scores@;
                proof {
                    assert forall|k: int| 0 <= k < s.len() && (#[trigger] s[k]).0.0@ == validator.0@ && unique_validators(s) implies k == i by {}
                }
                self.trust_scores[i].1.score_ppm
            },
            None => FULL_TRUST_PPM,
        }
    }

    /// The validators whose trust is below the minimum, with their scores,
    /// in order of first observation.
    pub fn get_untrusted_validators(&self) -> (r: Vec<(WalletAddress, u32)>)
        ensures
            r@ == untrusted(self.trust_scores@, self.min_trust_score_ppm),
    {
        let mut out: Vec<(WalletAddress, u32)> = Vec::new();
        let n = self.trust_scores.len();
        let mut i: usize = 0;
        while i < n
            invariant
                n == self.trust_scores@.len(),
                i <= n,
                out@ == untrusted(self.trust_scores@.subrange(0, i as int), self.min_trust_score_ppm),
            decreases n - i,
        {
            proof {
                assert(self.trust_scores@.subrange(0, i + 1).drop_last() =~= self.trust_scores@.subrange(0, i as int));
            }
            let (addr, ts) = self.trust_scores[i];
            if ts.score_ppm < self.min_trust_score_ppm {
                out.push((addr, ts.score_ppm));
            }
            i = i + 1;
        }
        proof {
            assert(self.trust_scores@.subrange(0, n as int) =~= self.trust_scores@);
        }
        out
    }

    /// Detect if a specific observation is anomalous against this engine's
    /// baseline.
    pub fn is_anomalous(&self, obs: &ValidatorObservation) -> (r: bool)
        requires
            self.limit() <= u64::MAX,
        ensures
            r == (!obs.participated || !obs.voted_correctly || obs.response_time_ms > self.limit()),
    {
        is_anomalous(obs, self.avg_response_time_ms, self.threshold_multiplier)
    }

    /// Reset trust scores (e.g., at epoch boundary).
    pub fn reset_scores(&mut self)
        ensures
            final(self).trust_scores@.len() == 0,
            final(self).avg_response_time_ms == old(self).avg_response_time_ms,
            final(self).threshold_multiplier == old(self).threshold_multiplier,
            final(self).min_trust_score_ppm == old(self).min_trust_score_ppm,
    {
        self.trust_scores.clear();
    }
}

impl Default for AiBft {
    /// The engine of `AiBft::new`.
    fn default() -> (e: Self)
        ensures
            e.trust_scores@.len() == 0,
            e.avg_response_time_ms == 100,
            e.threshold_multiplier == 3,
            e.min_trust_score_ppm == 300_000,
    {
        Self::new()
    }
}

/// The score after one more observation; `slow` says whether the response
/// exceeded the limit.
fn observe(ts: TrustScore, obs: &ValidatorObservation, slow: bool) -> (r: TrustScore)
    requires
        ts.observations < u64::MAX,
        ts.correct_votes <= ts.observations,
        ts.missed_rounds <= ts.observations,
        ts.anomaly_count <= ts.observations,
    ensures
        forall|limit: int| (slow == (obs.response_time_ms > limit)) ==> r == ts.spec_observed(*obs, limit),
        r.wf(),
{
    let n = ts.observations + 1;
    let c = if obs.voted_correctly { ts.correct_votes + 1 } else { ts.correct_votes };
    let m = if obs.participated { ts.missed_rounds } else { ts.missed_rounds + 1 };
    let a = if slow { ts.anomaly_count + 1 } else { ts.anomaly_count };
    let score = calculate_trust(n, c, m, a);
    TrustScore { score_ppm: score, observations: n, correct_votes: c, missed_rounds: m, anomaly_count: a }
}

/// A validator observed only behaving well keeps full trust.
pub proof fn good_behaviour_keeps_full_trust(n: u64)
    requires
        n > 0,
    ensures
        trust_ppm(n, n, 0, 0) == FULL_TRUST_PPM,
{
    assert((400_000 * n + 400_000 * (n - 0) + 200_000 * n - 100_000 * 0) / (n as int) == 1_000_000) by (nonlinear_arith)
        requires n > 0;
}

/// A validator that never votes correctly, never takes part and is always
/// slow falls to a tenth of full trust, below the default minimum.
pub proof fn bad_behaviour_loses_trust(n: u64)
    requires
        n > 0,
    ensures
        trust_ppm(n, 0, n, n) == 100_000,
{
    assert((400_000 * 0 + 400_000 * (n - n) + 200_000 * n - 100_000 * n) / (n as int) == 100_000) by (nonlinear_arith)
        requires n > 0;
}

/// The score the counts give never exceeds full trust; with consistent
/// counts it is at least a tenth of it.
pub proof fn trust_is_bounded(n: u64, c: u64, m: u64, a: u64)
    requires
        c <= n,
        m <= n,
        a <= n,
    ensures
        0 <= trust_ppm(n, c, m, a) <= FULL_TRUST_PPM,
        n > 0 ==> trust_ppm(n, c, m, a) >= 100_000,
{
    if n > 0 {
        let capped = if 2 * a >= n { n as int } else { 2 * a };
        let x = 400_000 * c + 400_000 * (n - m) + 200_000 * n - 100_000 * capped;
        assert(x >= 100_000 * n && x <= 1_000_000 * n);
        assert(x / (n as int) >= 100_000 && x / (n as int) <= 1_000_000) by (nonlinear_arith)
            requires x >= 100_000 * n, x <= 1_000_000 * n, n > 0;
    }
}

} // verus!
