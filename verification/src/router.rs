//! Candidate ranking: the health-scoring formula and the router that
//! orders upstream candidates by descending score, rotating ties with a
//! round-robin bias counter.

use vstd::prelude::*;
use vstd::seq_lib::lemma_multiset_commutative;

use crate::config::{RouteConfig, RoutingConfig, UpstreamConfig};

verus! {

/// A point-in-time copy of one upstream's live statistics.
#[derive(Clone, Copy, PartialEq, Eq, Structural)]
pub struct UpstreamSnapshot {
    pub in_flight: u64,
    pub consecutive_failures: u64,
    pub success_total: u64,
    pub failure_total: u64,
    pub avg_latency_ms: u64,
}

/// One upstream as the router sees it: its configuration, its statistics,
/// and whether its circuit breaker is open.
#[derive(Clone)]
pub struct RoutingCandidate {
    pub upstream: UpstreamConfig,
    pub stats: UpstreamSnapshot,
    pub breaker_open: bool,
}

/// A strategy ranks candidates into the order they should be tried.
pub trait RoutingStrategy {
    fn rank(&mut self, route: &RouteConfig, candidates: &[RoutingCandidate]) -> Vec<String>;
}

/// The score a candidate with an open breaker gets: effectively last.
pub const BREAKER_OPEN_SCORE: i64 = -1_000_000;

/// Cap on a single penalty term, far beyond any reachable statistic, so
/// that penalty sums stay representable.
pub const PENALTY_CAP: u128 = 0xFFFF_FFFF_FFFF_FFFF_FFFF;

/// One penalty term: events times the per-event penalty, saturated at
/// [`PENALTY_CAP`].
pub open spec fn penalty_term(count: u64, penalty: u64) -> int {
    if count * penalty > PENALTY_CAP {
        PENALTY_CAP as int
    } else {
        count * penalty
    }
}

/// Clamp a mathematical score into the representable range.
pub open spec fn clamp_score(x: int) -> i64 {
    if x > i64::MAX {
        i64::MAX
    } else if x < i64::MIN {
        i64::MIN
    } else {
        x as i64
    }
}

/// The scoring formula: weight times a thousand, plus a round-robin tie
/// bias, minus penalties for requests in flight, consecutive failures,
/// and (when preferred) smoothed latency. An open breaker scores
/// [`BREAKER_OPEN_SCORE`].
pub open spec fn spec_score(cfg: RoutingConfig, c: RoutingCandidate, seed: u64) -> i64 {
    if c.breaker_open {
        BREAKER_OPEN_SCORE
    } else {
        let w: int = if c.upstream.weight < 1 {
            1
        } else {
            c.upstream.weight as int
        };
        let base = w * 1000;
        let bias = (seed as int % w) * 8;
        let latency: int = if cfg.prefer_low_latency {
            c.stats.avg_latency_ms as int
        } else {
            0
        };
        clamp_score(
            base + bias - penalty_term(c.stats.in_flight, cfg.in_flight_penalty) - penalty_term(
                c.stats.consecutive_failures,
                cfg.failure_penalty,
            ) - latency,
        )
    }
}

/// Addition that wraps around the 64-bit boundary, as the bias counter
/// does.
pub open spec fn wrap_add(a: u64, b: int) -> u64 {
    if a + b > u64::MAX {
        (a + b - u64::MAX - 1) as u64
    } else {
        (a + b) as u64
    }
}

/// The score of the candidate at position `i` for a ranking pass seeded
/// with `seed`.
pub open spec fn score_at(cfg: RoutingConfig, cands: Seq<RoutingCandidate>, seed: u64, i: int) -> i64 {
    spec_score(cfg, cands[i], wrap_add(seed, i))
}

/// The (score, position) pairs a ranking pass starts from.
pub open spec fn scored_pairs(cfg: RoutingConfig, cands: Seq<RoutingCandidate>, seed: u64) -> Seq<
    (i64, usize),
> {
    Seq::new(cands.len(), |i: int| (score_at(cfg, cands, seed, i), i as usize))
}

/// Pairs ordered by descending score.
pub open spec fn sorted_desc(s: Seq<(i64, usize)>) -> bool {
    forall|k1: int, k2: int| 0 <= k1 <= k2 < s.len() ==> (#[trigger] s[k1]).0 >= (#[trigger] s[k2]).0
}

/// The health-scoring router.
pub struct IntelligentRouter {
    pub cfg: RoutingConfig,
    pub rr_counter: u64,
}

impl IntelligentRouter {
    /// A router with its bias counter at zero.
    pub fn new(cfg: RoutingConfig) -> (r: IntelligentRouter)
        ensures
            r.cfg == cfg,
            r.rr_counter == 0,
    {
        IntelligentRouter { cfg, rr_counter: 0 }
    }

    /// Computes the scoring formula for one candidate.
    pub fn score(&self, candidate: &RoutingCandidate, seed: u64) -> (r: i64)
        ensures
            r == spec_score(self.cfg, *candidate, seed),
    {
        if candidate.breaker_open {
            return BREAKER_OPEN_SCORE;
        }
        let w: u64 = if candidate.upstream.weight < 1 {
            1
        } else {
            candidate.upstream.weight as u64
        };
        let base: i128 = (w as i128) * 1000;
        let bias: i128 = ((seed % w) as i128) * 8;
        let p_in_flight: i128 = penalty_exec(
            candidate.stats.in_flight,
            self.cfg.in_flight_penalty,
        );
        let p_failures: i128 = penalty_exec(
            candidate.stats.consecutive_failures,
            self.cfg.failure_penalty,
        );
        let latency: i128 = if self.cfg.prefer_low_latency {
            candidate.stats.avg_latency_ms as i128
        } else {
            0
        };
        let total: i128 = base + bias - p_in_flight - p_failures - latency;
        if total > i64::MAX as i128 {
            i64::MAX
        } else if total < i64::MIN as i128 {
            i64::MIN
        } else {
            total as i64
        }
    }
}

fn penalty_exec(count: u64, penalty: u64) -> (r: i128)
    ensures
        r == penalty_term(count, penalty),
        0 <= r <= PENALTY_CAP,
{
    proof {
        assert((count as int) * (penalty as int) <= u128::MAX) by (nonlinear_arith)
            requires
                count <= u64::MAX,
                penalty <= u64::MAX,
        ;
        assert((count as int) * (penalty as int) >= 0) by (nonlinear_arith)
            requires
                count >= 0,
                penalty >= 0,
        ;
    }
    let p: u128 = (count as u128) * (penalty as u128);
    if p > PENALTY_CAP {
        PENALTY_CAP as i128
    } else {
        p as i128
    }
}

proof fn lemma_insert_multiset(s: Seq<(i64, usize)>, pos: int, x: (i64, usize))
    requires
        0 <= pos <= s.len(),
    ensures
        s.insert(pos, x).to_multiset() == s.to_multiset().insert(x),
{
    broadcast use vstd::seq_lib::group_to_multiset_ensures;

    let head = s.take(pos);
    let tail = s.skip(pos);
    assert(s.insert(pos, x) =~= head.push(x) + tail);
    lemma_multiset_commutative(head.push(x), tail);
    lemma_multiset_commutative(head, tail);
    assert(head + tail =~= s);
    assert(head.push(x).to_multiset() =~= head.to_multiset().insert(x));
    assert(head.to_multiset().insert(x).add(tail.to_multiset()) =~= head.to_multiset().add(
        tail.to_multiset(),
    ).insert(x));
}

impl RoutingStrategy for IntelligentRouter {
    /// Ranks the candidates: the result names the candidates in descending
    /// score order (ties in either order), each exactly once, scored with
    /// this pass's bias seed. The bias counter then advances.
    fn rank(&mut self, route: &RouteConfig, candidates: &[RoutingCandidate]) -> (r: Vec<String>)
        ensures
            final(self).cfg == old(self).cfg,
            final(self).rr_counter == wrap_add(old(self).rr_counter, 1),
            r@.len() == candidates@.len(),
            exists|scored: Seq<(i64, usize)>|
                {
                    &&& scored.to_multiset() == scored_pairs(
                        old(self).cfg,
                        candidates@,
                        old(self).rr_counter,
                    ).to_multiset()
                    &&& sorted_desc(scored)
                    &&& scored.len() == r@.len()
                    &&& forall|k: int|
                        0 <= k < scored.len() ==> (#[trigger] scored[k]).1 < candidates@.len()
                            && r@[k]@ == candidates@[scored[k].1 as int].upstream.name@
                },
    {
        let seed = self.rr_counter;
        self.rr_counter = if self.rr_counter == u64::MAX {
            0
        } else {
            self.rr_counter + 1
        };
        let ghost pairs = scored_pairs(self.cfg, candidates@, seed);
        let n = candidates.len();
        let mut out: Vec<(i64, usize)> = Vec::new();
        let mut i: usize = 0;
        proof {
            broadcast use vstd::seq_lib::group_to_multiset_ensures;

            assert(pairs.take(0) =~= Seq::<(i64, usize)>::empty());
            assert(out@.to_multiset() =~= pairs.take(0).to_multiset());
        }
        while i < n
            invariant
                n == candidates@.len(),
                i <= n,
                pairs == scored_pairs(self.cfg, candidates@, seed),
                self.cfg == old(self).cfg,
                out@.len() == i,
                out@.to_multiset() == pairs.take(i as int).to_multiset(),
                sorted_desc(out@),
                forall|k: int|
                    0 <= k < out@.len() ==> (#[trigger] out@[k]).1 < n && out@[k].0 == score_at(
                        self.cfg,
                        candidates@,
                        seed,
                        out@[k].1 as int,
                    ),
            decreases n - i,
        {
            let ghost wrapped = wrap_add(seed, i as int);
            let bias_seed: u64 = if seed > u64::MAX - (i as u64) {
                ((seed as u128 + i as u128) - (u64::MAX as u128) - 1) as u64
            } else {
                seed + (i as u64)
            };
            proof {
                assert(bias_seed == wrapped);
            }
            let sc = self.score(&candidates[i], bias_seed);
            let x = (sc, i);
            proof {
                assert(x.0 == score_at(self.cfg, candidates@, seed, i as int));
                assert(pairs[i as int] == (score_at(self.cfg, candidates@, seed, i as int),
                i as usize));
            }
            let mut pos: usize = 0;
            while pos < out.len() && out[pos].0 >= sc
                invariant
                    pos <= out@.len(),
                    forall|k: int| 0 <= k < pos ==> (#[trigger] out@[k]).0 >= sc,
                decreases out@.len() - pos,
            {
                pos = pos + 1;
            }
            let ghost pre = out@;
            out.insert(pos, x);
            proof {
                broadcast use vstd::seq_lib::group_to_multiset_ensures;

                lemma_insert_multiset(pre, pos as int, x);
                assert(pairs.take(i + 1).drop_last() =~= pairs.take(i as int));
                assert(pairs.take(i + 1) =~= pairs.take(i as int).push(pairs[i as int]));
                assert(out@.to_multiset() =~= pairs.take(i + 1).to_multiset());
                pre.insert_ensures(pos as int, x);
                assert(sorted_desc(out@)) by {
                    assert(forall|k: int| 0 <= k < pos ==> out@[k] == pre[k]);
                    assert(forall|k: int|
                        pos < k < out@.len() ==> out@[k] == pre[k - 1] && pre[k - 1].0 < sc);
                    assert(out@[pos as int] == x);
                }
            }
            i = i + 1;
        }
        proof {
            assert(pairs.take(n as int) =~= pairs);
        }
        let mut names: Vec<String> = Vec::new();
        let mut k: usize = 0;
        while k < out.len()
            invariant
                out@.len() <= n,
                n == candidates@.len(),
                k <= out@.len(),
                names@.len() == k,
                forall|j: int| 0 <= j < out@.len() ==> (#[trigger] out@[j]).1 < n,
                forall|j: int|
                    0 <= j < k ==> (#[trigger] names@[j])@ == candidates@[out@[j].1 as int
                    ].upstream.name@,
            decreases out@.len() - k,
        {
            let idx = out[k].1;
            names.push(candidates[idx].upstream.name.clone());
            k = k + 1;
        }
        proof {
            assert(out@.to_multiset().len() == out@.len());
            assert(pairs.to_multiset().len() == pairs.len());
        }
        names
    }
}

} // verus!
