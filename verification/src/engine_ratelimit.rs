//! The engine's per-tenant rate limiter: a token bucket per tenant,
//! refilled per minute, with stale tenants evicted on every call. Token
//! quantities are in millionths of a token so the per-minute refill rate
//! is exact.

use vstd::prelude::*;

use crate::keyed::{find_index, keyed_view, keys_unique, lemma_view_push, lemma_view_update};
use crate::ratelimit::MICRO;

verus! {

/// One tenant's bucket.
#[derive(Clone, Copy, PartialEq, Eq, Structural)]
pub struct TokenBucket {
    pub micro_tokens: u64,
    pub capacity_micro: u64,
    pub refill_micro_per_min: u64,
    pub last_refill_ms: u64,
}

/// The bucket contents after refilling for the elapsed time:
/// `elapsed_ms * refill / 60000` new micro-tokens, clamped to capacity. A
/// clock that moved backwards refills nothing.
pub open spec fn bucket_refilled(b: TokenBucket, now_ms: u64) -> int {
    let elapsed: int = if now_ms >= b.last_refill_ms {
        now_ms - b.last_refill_ms
    } else {
        0
    };
    let filled = b.micro_tokens + elapsed * b.refill_micro_per_min / 60000;
    if filled > b.capacity_micro {
        b.capacity_micro as int
    } else {
        filled
    }
}

/// One take: refill, then spend a whole token if one is there.
pub open spec fn spec_try_take(b: TokenBucket, now_ms: u64) -> (TokenBucket, bool) {
    let filled = bucket_refilled(b, now_ms);
    if filled >= MICRO {
        (
            TokenBucket { micro_tokens: (filled - MICRO) as u64, last_refill_ms: now_ms, ..b },
            true,
        )
    } else {
        (TokenBucket { micro_tokens: filled as u64, last_refill_ms: now_ms, ..b }, false)
    }
}

impl TokenBucket {
    /// A full bucket.
    pub fn new(capacity_micro: u64, refill_micro_per_min: u64, now_ms: u64) -> (r: TokenBucket)
        ensures
            r == (TokenBucket {
                micro_tokens: capacity_micro,
                capacity_micro,
                refill_micro_per_min,
                last_refill_ms: now_ms,
            }),
    {
        TokenBucket {
            micro_tokens: capacity_micro,
            capacity_micro,
            refill_micro_per_min,
            last_refill_ms: now_ms,
        }
    }

    /// Refills for the elapsed time, then takes one token if a whole one
    /// is there.
    pub fn try_take(&mut self, now_ms: u64) -> (r: bool)
        ensures
            *final(self) == spec_try_take(*old(self), now_ms).0,
            r == spec_try_take(*old(self), now_ms).1,
    {
        let elapsed: u64 = if now_ms >= self.last_refill_ms {
            now_ms - self.last_refill_ms
        } else {
            0
        };
        proof {
            assert((elapsed as int) * (self.refill_micro_per_min as int) <= u128::MAX)
                by (nonlinear_arith)
                requires
                    elapsed <= u64::MAX,
                    self.refill_micro_per_min <= u64::MAX,
            ;
        }
        let added: u128 = (elapsed as u128) * (self.refill_micro_per_min as u128) / 60000;
        let filled_wide: u128 = (self.micro_tokens as u128) + added;
        let filled: u64 = if filled_wide > (self.capacity_micro as u128) {
            self.capacity_micro
        } else {
            filled_wide as u64
        };
        self.last_refill_ms = now_ms;
        if filled >= MICRO {
            self.micro_tokens = filled - MICRO;
            true
        } else {
            self.micro_tokens = filled;
            false
        }
    }
}

/// Whether a bucket has gone stale: no refill for `stale_after_ms`.
pub open spec fn bucket_stale(b: TokenBucket, now_ms: u64, stale_after_ms: u64) -> bool {
    (if now_ms >= b.last_refill_ms {
        now_ms - b.last_refill_ms
    } else {
        0
    }) >= stale_after_ms
}

/// The tenant table with stale buckets dropped, in order.
pub open spec fn evicted(
    s: Seq<(String, TokenBucket)>,
    now_ms: u64,
    stale_after_ms: u64,
) -> Seq<(String, TokenBucket)>
    decreases s.len(),
{
    if s.len() == 0 {
        Seq::empty()
    } else if bucket_stale(s[0].1, now_ms, stale_after_ms) {
        evicted(s.drop_first(), now_ms, stale_after_ms)
    } else {
        seq![s[0]] + evicted(s.drop_first(), now_ms, stale_after_ms)
    }
}

proof fn lemma_evicted_unique(s: Seq<(String, TokenBucket)>, now_ms: u64, stale_after_ms: u64)
    requires
        keys_unique(s),
    ensures
        keys_unique(evicted(s, now_ms, stale_after_ms)),
        forall|i: int|
            0 <= i < evicted(s, now_ms, stale_after_ms).len() ==> exists|a: int|
                0 <= a < s.len() && #[trigger] evicted(s, now_ms, stale_after_ms)[i] == s[a],
    decreases s.len(),
{
    if s.len() > 0 {
        assert(keys_unique(s.drop_first())) by {
            assert(forall|a: int|
                0 <= a < s.drop_first().len() ==> s.drop_first()[a] == s[a + 1]);
        }
        lemma_evicted_unique(s.drop_first(), now_ms, stale_after_ms);
        let e = evicted(s, now_ms, stale_after_ms);
        let et = evicted(s.drop_first(), now_ms, stale_after_ms);
        if bucket_stale(s[0].1, now_ms, stale_after_ms) {
            assert(forall|i: int|
                0 <= i < et.len() ==> exists|a: int|
                    0 <= a < s.drop_first().len() && #[trigger] et[i] == s.drop_first()[a]);
            assert(forall|i: int|
                0 <= i < e.len() ==> exists|a: int| 0 <= a < s.len() && #[trigger] e[i] == s[a])
                by {
                assert(forall|a: int| 0 <= a < s.drop_first().len() ==> s.drop_first()[a] == s[a
                    + 1]);
            }
        } else {
            assert(e == seq![s[0]] + et);
            assert(e[0] == s[0]);
            assert(forall|i: int| 1 <= i < e.len() ==> e[i] == et[i - 1]);
            assert(forall|i: int|
                0 <= i < e.len() ==> exists|a: int| 0 <= a < s.len() && #[trigger] e[i] == s[a])
                by {
                assert(forall|a: int| 0 <= a < s.drop_first().len() ==> s.drop_first()[a] == s[a
                    + 1]);
                assert(e[0] == s[0]);
            }
            assert(keys_unique(e)) by {
                assert(forall|i: int, j: int|
                    0 <= i < j < e.len() ==> (#[trigger] e[i]).0@ != (#[trigger] e[j]).0@);
            }
        }
    }
}

/// A token bucket per tenant, stale tenants evicted on every call.
pub struct TenantRateLimiter {
    pub state: Vec<(String, TokenBucket)>,
    pub burst_micro: u64,
    pub refill_micro_per_min: u64,
    pub stale_after_ms: u64,
}

impl TenantRateLimiter {
    /// At most one bucket per tenant.
    pub open spec fn wf(&self) -> bool {
        keys_unique(self.state@)
    }

    /// A limiter allowing `burst` immediate calls per tenant, refilled at
    /// `rate_per_minute` (at least one) per minute, with buckets idle for
    /// thirty minutes evicted.
    pub fn new(rate_per_minute: u32, burst: u32) -> (r: TenantRateLimiter)
        ensures
            r.wf(),
            r.state@.len() == 0,
            r.burst_micro == (if burst < 1 {
                1u64
            } else {
                burst as u64
            }) * MICRO,
            r.refill_micro_per_min == (if rate_per_minute < 1 {
                1u64
            } else {
                rate_per_minute as u64
            }) * MICRO,
            r.stale_after_ms == 1_800_000,
    {
        let burst_whole: u64 = if burst < 1 {
            1
        } else {
            burst as u64
        };
        let rate_whole: u64 = if rate_per_minute < 1 {
            1
        } else {
            rate_per_minute as u64
        };
        proof {
            assert(burst_whole * MICRO <= u32::MAX * MICRO) by (nonlinear_arith)
                requires
                    burst_whole <= u32::MAX,
            ;
            assert(rate_whole * MICRO <= u32::MAX * MICRO) by (nonlinear_arith)
                requires
                    rate_whole <= u32::MAX,
            ;
        }
        TenantRateLimiter {
            state: Vec::new(),
            burst_micro: burst_whole * MICRO,
            refill_micro_per_min: rate_whole * MICRO,
            stale_after_ms: 1_800_000,
        }
    }

    /// One call for a tenant: stale buckets are evicted, the tenant's
    /// bucket (fresh and full if absent or evicted) refills for the
    /// elapsed time, and the call is allowed exactly when a whole token
    /// was there to take.
    pub fn allow(&mut self, tenant_id: &str, now_ms: u64) -> (r: bool)
        requires
            old(self).wf(),
        ensures
            final(self).wf(),
            final(self).burst_micro == old(self).burst_micro,
            final(self).refill_micro_per_min == old(self).refill_micro_per_min,
            final(self).stale_after_ms == old(self).stale_after_ms,
            ({
                let live = evicted(old(self).state@, now_ms, old(self).stale_after_ms);
                let b0 = if keyed_view(live).contains_key(tenant_id@) {
                    keyed_view(live).index(tenant_id@)
                } else {
                    TokenBucket {
                        micro_tokens: old(self).burst_micro,
                        capacity_micro: old(self).burst_micro,
                        refill_micro_per_min: old(self).refill_micro_per_min,
                        last_refill_ms: now_ms,
                    }
                };
                &&& r == spec_try_take(b0, now_ms).1
                &&& keyed_view(final(self).state@) == keyed_view(live).insert(
                    tenant_id@,
                    spec_try_take(b0, now_ms).0,
                )
            }),
    {
        let ghost pre = self.state@;
        self.evict_stale(now_ms);
        let ghost live = self.state@;
        let j: usize;
        match find_index(&self.state, tenant_id) {
            Some(j0) => {
                j = j0;
            },
            None => {
                let key = String::from_str(tenant_id);
                let fresh = TokenBucket::new(self.burst_micro, self.refill_micro_per_min, now_ms);
                proof {
                    lemma_view_push(self.state@, key, fresh);
                }
                j = self.state.len();
                self.state.push((key, fresh));
            },
        }
        let mut bucket = self.state[j].1;
        let allowed = bucket.try_take(now_ms);
        proof {
            lemma_view_update(self.state@, j as int, bucket);
        }
        let slot_key = self.state[j].0.clone();
        let ghost before_set = self.state@;
        self.state.set(j, (slot_key, bucket));
        proof {
            assert(self.state@ =~= before_set.update(
                j as int,
                (before_set[j as int].0, bucket),
            ));
            assert(keyed_view(self.state@) =~= keyed_view(live).insert(
                tenant_id@,
                bucket,
            ));
        }
        allowed
    }

    /// Drops every stale bucket, keeping the rest in order.
    fn evict_stale(&mut self, now_ms: u64)
        requires
            old(self).wf(),
        ensures
            final(self).wf(),
            final(self).state@ == evicted(old(self).state@, now_ms, old(self).stale_after_ms),
            final(self).burst_micro == old(self).burst_micro,
            final(self).refill_micro_per_min == old(self).refill_micro_per_min,
            final(self).stale_after_ms == old(self).stale_after_ms,
    {
        let ghost pre = self.state@;
        let mut out: Vec<(String, TokenBucket)> = Vec::new();
        let mut i: usize = 0;
        proof {
            assert(pre.skip(0) =~= pre);
            assert(out@ + evicted(pre, now_ms, self.stale_after_ms) =~= evicted(
                pre,
                now_ms,
                self.stale_after_ms,
            ));
        }
        while i < self.state.len()
            invariant
                pre == self.state@,
                i <= pre.len(),
                old(self).stale_after_ms == self.stale_after_ms,
                old(self).burst_micro == self.burst_micro,
                old(self).refill_micro_per_min == self.refill_micro_per_min,
                out@ + evicted(pre.skip(i as int), now_ms, self.stale_after_ms) == evicted(
                    pre,
                    now_ms,
                    self.stale_after_ms,
                ),
            decreases pre.len() - i,
        {
            proof {
                assert(pre.skip(i as int).len() > 0 && pre.skip(i as int)[0] == pre[i as int]);
                assert(pre.skip(i as int).drop_first() =~= pre.skip(i + 1));
            }
            let b = self.state[i].1;
            let age: u64 = if now_ms >= b.last_refill_ms {
                now_ms - b.last_refill_ms
            } else {
                0
            };
            if age < self.stale_after_ms {
                let ghost old_out = out@;
                let pair = (self.state[i].0.clone(), b);
                out.push(pair);
                proof {
                    assert(out@ =~= old_out.push(pre[i as int]));
                    assert(old_out.push(pre[i as int]) + evicted(
                        pre.skip(i + 1),
                        now_ms,
                        self.stale_after_ms,
                    ) =~= old_out + (seq![pre[i as int]] + evicted(
                        pre.skip(i + 1),
                        now_ms,
                        self.stale_after_ms,
                    )));
                }
            }
            i = i + 1;
        }
        proof {
            assert(pre.skip(pre.len() as int).len() == 0);
            assert(out@ + Seq::<(String, TokenBucket)>::empty() =~= out@);
            lemma_evicted_unique(pre, now_ms, old(self).stale_after_ms);
        }
        self.state = out;
    }
}

} // verus!
