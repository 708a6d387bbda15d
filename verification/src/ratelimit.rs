//! Rate limiting: the decision record, the two algorithmic policies, and
//! the in-process backend holding per-key state. Token quantities are in
//! millionths of a token, so fractional refill rates are exact integers.
//! The window laws for both policies are proved at the end of the module.

use vstd::prelude::*;

use crate::config::RateLimitPolicyConfig;
use crate::errors::GatewayError;
use crate::keyed::{find_index, keyed_view, keys_unique, lemma_view_push, lemma_view_update};

verus! {

/// One millionth of a token: the unit bucket contents are measured in.
pub const MICRO: u64 = 1_000_000;

/// What a backend answers for one call.
#[derive(Clone, Copy, PartialEq, Eq, Structural)]
pub struct RateLimitDecision {
    pub allowed: bool,
    pub remaining: u64,
    pub retry_after_secs: u64,
}

/// The policy a limiter enforces; field meanings follow
/// [`RateLimitPolicyConfig`].
#[derive(Clone)]
pub struct RateLimitPolicy {
    pub algorithm: RateLimitPolicyConfig,
}

/// The token-bucket state of one key.
#[derive(Clone, Copy, PartialEq, Eq, Structural)]
pub struct TokenBucketState {
    pub micro_tokens: u64,
    pub last_refill_ms: u64,
}

/// The sliding-window state of one key: timestamps of allowed calls, oldest
/// first.
#[derive(Clone)]
pub struct SlidingWindowState {
    pub entries: Vec<u64>,
}

/// The per-key state, matching whichever policy last touched the key.
#[derive(Clone)]
pub enum RateLimitState {
    TokenBucket(TokenBucketState),
    SlidingWindow(SlidingWindowState),
}

/// The mathematical content of a per-key state.
pub enum LimitStateView {
    Bucket(TokenBucketState),
    Window(Seq<u64>),
}

/// Relates a stored state to its mathematical content.
pub open spec fn state_matches(s: RateLimitState, v: LimitStateView) -> bool {
    match s {
        RateLimitState::TokenBucket(b) => v == LimitStateView::Bucket(b),
        RateLimitState::SlidingWindow(w) => v == LimitStateView::Window(w.entries@),
    }
}

/// A full bucket: `capacity` whole tokens.
pub open spec fn cap_micro(capacity: u32) -> int {
    capacity * MICRO
}

/// How old a timestamp is at `now_ms`, never negative: a clock that moved
/// backwards reads as no time passed.
pub open spec fn age_ms(t: u64, now_ms: u64) -> int {
    if now_ms >= t {
        now_ms - t
    } else {
        0
    }
}

/// The bucket contents after refilling for the time since the last call:
/// `elapsed * refill / 1000` new micro-tokens (refill is per second,
/// elapsed in milliseconds), clamped to capacity.
pub open spec fn tb_refilled(st: TokenBucketState, capacity: u32, refill: u64, now_ms: u64) -> int {
    let filled = st.micro_tokens + age_ms(st.last_refill_ms, now_ms) * refill / 1000;
    if filled > cap_micro(capacity) {
        cap_micro(capacity)
    } else {
        filled
    }
}

/// One token-bucket call: refill, then spend one token if a whole one is
/// there. On denial, the retry delay is the time to refill the missing
/// amount, at least one second.
pub open spec fn spec_tb_check(
    st: TokenBucketState,
    capacity: u32,
    refill: u64,
    now_ms: u64,
) -> (TokenBucketState, RateLimitDecision) {
    let filled = tb_refilled(st, capacity, refill, now_ms);
    if filled >= MICRO {
        (
            TokenBucketState { micro_tokens: (filled - MICRO) as u64, last_refill_ms: now_ms },
            RateLimitDecision {
                allowed: true,
                remaining: ((filled - MICRO) / (MICRO as int)) as u64,
                retry_after_secs: 0,
            },
        )
    } else {
        let needed = MICRO - filled;
        let wait = (needed + refill - 1) / (refill as int);
        (
            TokenBucketState { micro_tokens: filled as u64, last_refill_ms: now_ms },
            RateLimitDecision {
                allowed: false,
                remaining: 0,
                retry_after_secs: if wait < 1 {
                    1
                } else {
                    wait as u64
                },
            },
        )
    }
}

/// Whether a window entry has aged out: its age has reached the window.
pub open spec fn sw_expired(t: u64, window_ms: int, now_ms: u64) -> bool {
    age_ms(t, now_ms) >= window_ms
}

/// The entries left after dropping the expired ones from the front, the way
/// the backend walks the queue.
pub open spec fn sw_drop_expired(entries: Seq<u64>, window_ms: int, now_ms: u64) -> Seq<u64>
    decreases entries.len(),
{
    if entries.len() > 0 && sw_expired(entries[0], window_ms, now_ms) {
        sw_drop_expired(entries.drop_first(), window_ms, now_ms)
    } else {
        entries
    }
}

/// One sliding-window call: drop expired entries, then admit and record the
/// call if fewer than `max_requests` remain. On denial, the retry delay is
/// the time until the oldest entry leaves the window, at least one second.
pub open spec fn spec_sw_check(
    entries: Seq<u64>,
    window_seconds: u64,
    max_requests: u64,
    now_ms: u64,
) -> (Seq<u64>, RateLimitDecision) {
    let live = sw_drop_expired(entries, window_seconds * 1000, now_ms);
    if live.len() < max_requests {
        (
            live.push(now_ms),
            RateLimitDecision {
                allowed: true,
                remaining: (max_requests - live.len() - 1) as u64,
                retry_after_secs: 0,
            },
        )
    } else {
        let retry: int = if live.len() == 0 {
            1
        } else {
            let age_s = age_ms(live[0], now_ms) / 1000;
            let wait: int = if age_s > window_seconds {
                0
            } else {
                window_seconds - age_s
            };
            if wait < 1 {
                1
            } else {
                wait
            }
        };
        (
            live,
            RateLimitDecision { allowed: false, remaining: 0, retry_after_secs: retry as u64 },
        )
    }
}

/// What one backend call does to a key's state: the successor state and
/// the decision, or `None` for a rejected configuration (a token bucket
/// that never refills). A state left by the other policy is reset the way
/// the in-process backend resets it.
pub open spec fn spec_backend_check(
    prev: Option<LimitStateView>,
    alg: RateLimitPolicyConfig,
    now_ms: u64,
) -> Option<(LimitStateView, RateLimitDecision)> {
    match alg {
        RateLimitPolicyConfig::TokenBucket { capacity, refill_micro_tokens_per_sec } => {
            if refill_micro_tokens_per_sec == 0 {
                None
            } else {
                match prev {
                    Some(LimitStateView::Bucket(b)) => {
                        let (b2, d) = spec_tb_check(
                            b,
                            capacity,
                            refill_micro_tokens_per_sec,
                            now_ms,
                        );
                        Some((LimitStateView::Bucket(b2), d))
                    },
                    Some(LimitStateView::Window(_)) => Some(
                        (
                            LimitStateView::Bucket(
                                TokenBucketState {
                                    micro_tokens: (cap_micro(capacity)) as u64,
                                    last_refill_ms: now_ms,
                                },
                            ),
                            RateLimitDecision {
                                allowed: true,
                                remaining: if capacity == 0 {
                                    0
                                } else {
                                    (capacity - 1) as u64
                                },
                                retry_after_secs: 0,
                            },
                        ),
                    ),
                    None => {
                        let fresh = TokenBucketState {
                            micro_tokens: (cap_micro(capacity)) as u64,
                            last_refill_ms: now_ms,
                        };
                        let (b2, d) = spec_tb_check(
                            fresh,
                            capacity,
                            refill_micro_tokens_per_sec,
                            now_ms,
                        );
                        Some((LimitStateView::Bucket(b2), d))
                    },
                }
            }
        },
        RateLimitPolicyConfig::SlidingWindow { window_seconds, max_requests } => {
            match prev {
                Some(LimitStateView::Window(es)) => {
                    let (es2, d) = spec_sw_check(es, window_seconds, max_requests, now_ms);
                    Some((LimitStateView::Window(es2), d))
                },
                Some(LimitStateView::Bucket(_)) => Some(
                    (
                        LimitStateView::Window(Seq::empty()),
                        RateLimitDecision { allowed: true, remaining: 0, retry_after_secs: 0 },
                    ),
                ),
                None => {
                    let (es2, d) = spec_sw_check(
                        Seq::empty(),
                        window_seconds,
                        max_requests,
                        now_ms,
                    );
                    Some((LimitStateView::Window(es2), d))
                },
            }
        },
    }
}

/// The in-process backend: per-key state behind a keyed table, created
/// lazily.
pub struct InMemoryRateLimitBackend {
    pub state: Vec<(String, RateLimitState)>,
}

impl View for InMemoryRateLimitBackend {
    type V = Map<Seq<char>, RateLimitState>;

    open spec fn view(&self) -> Map<Seq<char>, RateLimitState> {
        keyed_view(self.state@)
    }
}

/// The stored state of `key` before a call, as mathematical content.
pub open spec fn prior_view(
    m: Map<Seq<char>, RateLimitState>,
    key: Seq<char>,
) -> Option<LimitStateView> {
    if m.contains_key(key) {
        match m[key] {
            RateLimitState::TokenBucket(b) => Some(LimitStateView::Bucket(b)),
            RateLimitState::SlidingWindow(w) => Some(LimitStateView::Window(w.entries@)),
        }
    } else {
        None
    }
}

/// The outcome the backend promises for one call on one key: the decision
/// is the specified one, the key's state advances to the specified content,
/// and no other key moves.
pub open spec fn check_outcome(
    pre: Map<Seq<char>, RateLimitState>,
    post: Map<Seq<char>, RateLimitState>,
    key: Seq<char>,
    alg: RateLimitPolicyConfig,
    now_ms: u64,
    r: Result<RateLimitDecision, GatewayError>,
) -> bool {
    match spec_backend_check(prior_view(pre, key), alg, now_ms) {
        None => {
            &&& r matches Err(GatewayError::Internal(m)) && m@
                == "token bucket refill rate must be > 0"@
            &&& post == pre
        },
        Some((v2, d)) => {
            &&& r == Ok::<_, GatewayError>(d)
            &&& post.dom() == pre.dom().insert(key)
            &&& state_matches(post[key], v2)
            &&& forall|k: Seq<char>| pre.contains_key(k) && k != key ==> post[k] == pre[k]
        },
    }
}

impl InMemoryRateLimitBackend {
    /// The table holds at most one state per key.
    pub open spec fn wf(&self) -> bool {
        keys_unique(self.state@)
    }

    /// A backend with no per-key state yet.
    pub fn new() -> (r: InMemoryRateLimitBackend)
        ensures
            r.wf(),
            r@ == Map::<Seq<char>, RateLimitState>::empty(),
    {
        InMemoryRateLimitBackend { state: Vec::new() }
    }

    /// One rate-limit check for `key` under `policy` at `now_ms`. The
    /// key's state advances exactly by [`spec_backend_check`]; no other key
    /// is touched. A token bucket with zero refill is a configuration
    /// error.
    pub fn check(&mut self, key: &str, policy: &RateLimitPolicy, now_ms: u64) -> (r: Result<
        RateLimitDecision,
        GatewayError,
    >)
        requires
            old(self).wf(),
        ensures
            final(self).wf(),
            check_outcome(old(self)@, final(self)@, key@, policy.algorithm, now_ms, r),
    {
        match &policy.algorithm {
            RateLimitPolicyConfig::TokenBucket { capacity, refill_micro_tokens_per_sec } => {
                let capacity: u32 = *capacity;
                let refill: u64 = *refill_micro_tokens_per_sec;
                if refill == 0 {
                    return Err(
                        GatewayError::Internal(
                            String::from_str("token bucket refill rate must be > 0"),
                        ),
                    );
                }
                proof {
                    assert(capacity * MICRO <= u32::MAX * MICRO) by (nonlinear_arith)
                        requires
                            capacity <= u32::MAX,
                    ;
                }
                let full: u64 = (capacity as u64) * MICRO;
                let j: usize;
                match find_index(&self.state, key) {
                    Some(j0) => {
                        match &self.state[j0].1 {
                            RateLimitState::TokenBucket(_) => {
                                j = j0;
                            },
                            RateLimitState::SlidingWindow(_) => {
                                // A key previously limited by the other
                                // policy starts over with a full bucket.
                                let next = RateLimitState::TokenBucket(
                                    TokenBucketState { micro_tokens: full, last_refill_ms: now_ms },
                                );
                                self.set_state(j0, next);
                                let remaining: u64 = if capacity == 0 {
                                    0
                                } else {
                                    (capacity - 1) as u64
                                };
                                proof {
                                    assert(final(self)@.dom() =~= old(self)@.dom().insert(key@));
                                }
                                return Ok(
                                    RateLimitDecision {
                                        allowed: true,
                                        remaining,
                                        retry_after_secs: 0,
                                    },
                                );
                            },
                        }
                    },
                    None => {
                        let key_string = String::from_str(key);
                        let fresh = RateLimitState::TokenBucket(
                            TokenBucketState { micro_tokens: full, last_refill_ms: now_ms },
                        );
                        proof {
                            lemma_view_push(self.state@, key_string, fresh);
                        }
                        j = self.state.len();
                        self.state.push((key_string, fresh));
                    },
                }
                let bucket: TokenBucketState = match &self.state[j].1 {
                    RateLimitState::TokenBucket(b) => *b,
                    RateLimitState::SlidingWindow(_) => {
                        proof {
                            assert(false);
                        }
                        TokenBucketState { micro_tokens: 0, last_refill_ms: 0 }
                    },
                };
                let elapsed: u64 = if now_ms >= bucket.last_refill_ms {
                    now_ms - bucket.last_refill_ms
                } else {
                    0
                };
                proof {
                    assert((elapsed as int) * (refill as int) <= u128::MAX) by (nonlinear_arith)
                        requires
                            elapsed <= u64::MAX,
                            refill <= u64::MAX,
                    ;
                }
                let added: u128 = (elapsed as u128) * (refill as u128) / 1000;
                let filled_wide: u128 = (bucket.micro_tokens as u128) + added;
                let filled: u64 = if filled_wide > (full as u128) {
                    full
                } else {
                    filled_wide as u64
                };
                proof {
                    assert(filled == tb_refilled(bucket, capacity, refill, now_ms));
                }
                if filled >= MICRO {
                    let left: u64 = filled - MICRO;
                    let next = RateLimitState::TokenBucket(
                        TokenBucketState { micro_tokens: left, last_refill_ms: now_ms },
                    );
                    self.set_state(j, next);
                    proof {
                        assert(final(self)@.dom() =~= old(self)@.dom().insert(key@));
                    }
                    Ok(
                        RateLimitDecision {
                            allowed: true,
                            remaining: left / MICRO,
                            retry_after_secs: 0,
                        },
                    )
                } else {
                    let needed: u64 = MICRO - filled;
                    let wait_wide: u128 = ((needed as u128) + (refill as u128) - 1) / (
                    refill as u128);
                    proof {
                        assert(((needed as int) + (refill as int) - 1) / (refill as int)
                            <= needed as int) by (nonlinear_arith)
                            requires
                                refill >= 1,
                                needed >= 1,
                        ;
                    }
                    let wait: u64 = if wait_wide < 1 {
                        1
                    } else {
                        wait_wide as u64
                    };
                    let next = RateLimitState::TokenBucket(
                        TokenBucketState { micro_tokens: filled, last_refill_ms: now_ms },
                    );
                    self.set_state(j, next);
                    proof {
                        assert(final(self)@.dom() =~= old(self)@.dom().insert(key@));
                    }
                    Ok(RateLimitDecision { allowed: false, remaining: 0, retry_after_secs: wait })
                }
            },
            RateLimitPolicyConfig::SlidingWindow { window_seconds, max_requests } => {
                let window_seconds: u64 = *window_seconds;
                let max_requests: u64 = *max_requests;
                let j: usize;
                match find_index(&self.state, key) {
                    Some(j0) => {
                        match &self.state[j0].1 {
                            RateLimitState::SlidingWindow(_) => {
                                j = j0;
                            },
                            RateLimitState::TokenBucket(_) => {
                                // A key previously limited by the other
                                // policy starts over with an empty window.
                                let next = RateLimitState::SlidingWindow(
                                    SlidingWindowState { entries: Vec::new() },
                                );
                                self.set_state(j0, next);
                                proof {
                                    assert(final(self)@.dom() =~= old(self)@.dom().insert(key@));
                                }
                                return Ok(
                                    RateLimitDecision {
                                        allowed: true,
                                        remaining: 0,
                                        retry_after_secs: 0,
                                    },
                                );
                            },
                        }
                    },
                    None => {
                        let key_string = String::from_str(key);
                        let fresh = RateLimitState::SlidingWindow(
                            SlidingWindowState { entries: Vec::new() },
                        );
                        proof {
                            lemma_view_push(self.state@, key_string, fresh);
                        }
                        j = self.state.len();
                        self.state.push((key_string, fresh));
                    },
                }
                let mut entries: Vec<u64> = match &self.state[j].1 {
                    RateLimitState::SlidingWindow(w) => copy_timestamps(&w.entries),
                    RateLimitState::TokenBucket(_) => {
                        proof {
                            assert(false);
                        }
                        Vec::new()
                    },
                };
                let ghost entries0: Seq<u64> = entries@;
                while entries.len() > 0 && sw_front_expired(&entries, window_seconds, now_ms)
                    invariant
                        sw_drop_expired(entries@, window_seconds * 1000, now_ms)
                            == sw_drop_expired(entries0, window_seconds * 1000, now_ms),
                    decreases entries@.len(),
                {
                    let ghost pre = entries@;
                    entries.remove(0);
                    proof {
                        assert(entries@ =~= pre.drop_first());
                    }
                }
                let ghost live = sw_drop_expired(entries0, window_seconds * 1000, now_ms);
                proof {
                    assert(entries@ == live);
                }
                if (entries.len() as u64) < max_requests {
                    entries.push(now_ms);
                    let remaining: u64 = max_requests - (entries.len() as u64);
                    self.set_state(
                        j,
                        RateLimitState::SlidingWindow(SlidingWindowState { entries }),
                    );
                    proof {
                        assert(final(self)@.dom() =~= old(self)@.dom().insert(key@));
                    }
                    Ok(RateLimitDecision { allowed: true, remaining, retry_after_secs: 0 })
                } else {
                    let retry: u64 = if entries.len() == 0 {
                        1
                    } else {
                        let front = entries[0];
                        let age: u64 = if now_ms >= front {
                            (now_ms - front) / 1000
                        } else {
                            0
                        };
                        let wait: u64 = if age > window_seconds {
                            0
                        } else {
                            window_seconds - age
                        };
                        if wait < 1 {
                            1
                        } else {
                            wait
                        }
                    };
                    self.set_state(
                        j,
                        RateLimitState::SlidingWindow(SlidingWindowState { entries }),
                    );
                    proof {
                        assert(final(self)@.dom() =~= old(self)@.dom().insert(key@));
                    }
                    Ok(RateLimitDecision { allowed: false, remaining: 0, retry_after_secs: retry })
                }
            },
        }
    }

    /// Stores a new state at entry `j`.
    fn set_state(&mut self, j: usize, next: RateLimitState)
        requires
            old(self).wf(),
            j < old(self).state@.len(),
        ensures
            final(self).wf(),
            final(self)@ == old(self)@.insert(old(self).state@[j as int].0@, next),
            final(self).state@.len() == old(self).state@.len(),
            final(self).state@[j as int].0 == old(self).state@[j as int].0,
            final(self).state@[j as int].1 == next,
    {
        proof {
            lemma_view_update(self.state@, j as int, next);
        }
        let key = self.state[j].0.clone();
        self.state.set(j, (key, next));
        proof {
            assert(final(self).state@ =~= old(self).state@.update(
                j as int,
                (old(self).state@[j as int].0, next),
            ));
        }
    }
}

/// A fresh vector with the same timestamps.
fn copy_timestamps(v: &Vec<u64>) -> (r: Vec<u64>)
    ensures
        r@ == v@,
{
    let mut r: Vec<u64> = Vec::new();
    let mut i: usize = 0;
    while i < v.len()
        invariant
            i <= v@.len(),
            r@ == v@.take(i as int),
        decreases v@.len() - i,
    {
        r.push(v[i]);
        proof {
            assert(r@ =~= v@.take(i + 1));
        }
        i = i + 1;
    }
    proof {
        assert(v@.take(v@.len() as int) =~= v@);
    }
    r
}

/// Whether the queue's front entry has aged out of the window.
fn sw_front_expired(entries: &Vec<u64>, window_seconds: u64, now_ms: u64) -> (r: bool)
    requires
        entries@.len() > 0,
    ensures
        r == sw_expired(entries@[0], window_seconds * 1000, now_ms),
{
    let front = entries[0];
    let age: u64 = if now_ms >= front {
        now_ms - front
    } else {
        0
    };
    // Age in whole seconds reaches the window length exactly when the age
    // in milliseconds reaches the window length in milliseconds.
    let r = age / 1000 >= window_seconds;
    proof {
        assert((age as int / 1000 >= window_seconds) == (age >= window_seconds * 1000))
            by (nonlinear_arith)
            requires
                age >= 0,
                window_seconds >= 0,
        ;
    }
    r
}

/// The times of a call sequence never go backwards.
pub open spec fn nondecreasing(ts: Seq<u64>) -> bool {
    forall|i: int, j: int| 0 <= i <= j < ts.len() ==> ts[i] <= ts[j]
}

/// The bucket state after a run of calls at the given times.
pub open spec fn tb_run(
    st: TokenBucketState,
    capacity: u32,
    refill: u64,
    ts: Seq<u64>,
) -> TokenBucketState
    decreases ts.len(),
{
    if ts.len() == 0 {
        st
    } else {
        tb_run(spec_tb_check(st, capacity, refill, ts[0]).0, capacity, refill, ts.drop_first())
    }
}

/// How many calls of a run are allowed.
pub open spec fn tb_allowed_count(
    st: TokenBucketState,
    capacity: u32,
    refill: u64,
    ts: Seq<u64>,
) -> int
    decreases ts.len(),
{
    if ts.len() == 0 {
        0
    } else {
        (if spec_tb_check(st, capacity, refill, ts[0]).1.allowed {
            1int
        } else {
            0int
        }) + tb_allowed_count(
            spec_tb_check(st, capacity, refill, ts[0]).0,
            capacity,
            refill,
            ts.drop_first(),
        )
    }
}

/// When a run ends: at its last call, or where it began for an empty run.
pub open spec fn run_end(st: TokenBucketState, ts: Seq<u64>) -> u64 {
    if ts.len() > 0 {
        ts.last()
    } else {
        st.last_refill_ms
    }
}

proof fn lemma_div_sum(a: int, b: int, d: int)
    requires
        a >= 0,
        b >= 0,
        d >= 1,
    ensures
        a / d + b / d <= (a + b) / d,
{
    assert(a / d + b / d <= (a + b) / d) by (nonlinear_arith)
        requires
            a >= 0,
            b >= 0,
            d >= 1,
    ;
}

/// Every token spent was in the bucket or refilled during the run: spent
/// tokens plus what is left never exceed the initial contents plus the
/// refill budget of the elapsed time.
proof fn lemma_tb_budget(st: TokenBucketState, capacity: u32, refill: u64, ts: Seq<u64>)
    requires
        refill >= 1,
        nondecreasing(ts),
        ts.len() > 0 ==> st.last_refill_ms <= ts[0],
    ensures
        tb_run(st, capacity, refill, ts).micro_tokens + MICRO * tb_allowed_count(
            st,
            capacity,
            refill,
            ts,
        ) <= st.micro_tokens + ((run_end(st, ts) - st.last_refill_ms) * refill) / 1000,
        tb_run(st, capacity, refill, ts).last_refill_ms == run_end(st, ts),
    decreases ts.len(),
{
    if ts.len() > 0 {
        let t0 = ts[0];
        let st1 = spec_tb_check(st, capacity, refill, t0).0;
        let e0 = t0 - st.last_refill_ms;
        let filled = tb_refilled(st, capacity, refill, t0);
        assert(filled <= st.micro_tokens + e0 * refill / 1000);
        assert(st1.last_refill_ms == t0);
        assert(st1.micro_tokens + MICRO * (if spec_tb_check(st, capacity, refill, t0).1.allowed {
            1int
        } else {
            0int
        }) <= filled);
        let rest = ts.drop_first();
        assert(nondecreasing(rest)) by {
            assert(forall|i: int, j: int|
                0 <= i <= j < rest.len() ==> rest[i] == ts[i + 1] && rest[j] == ts[j + 1]);
        }
        assert(rest.len() > 0 ==> st1.last_refill_ms <= rest[0]);
        lemma_tb_budget(st1, capacity, refill, rest);
        let end_t = run_end(st, ts);
        assert(run_end(st1, rest) == end_t) by {
            if rest.len() > 0 {
                assert(rest.last() == ts.last());
            }
        }
        assert(e0 * refill + (end_t - t0) * refill == (end_t - st.last_refill_ms) * refill)
            by (nonlinear_arith)
            requires
                e0 == t0 - st.last_refill_ms,
        ;
        lemma_div_sum(e0 * refill, (end_t - t0) * refill, 1000);
        assert((end_t - t0) * refill >= 0) by (nonlinear_arith)
            requires
                end_t >= t0,
                refill >= 1,
        ;
        assert(e0 * refill >= 0) by (nonlinear_arith)
            requires
                e0 >= 0,
                refill >= 1,
        ;
    }
}

/// The token-bucket window law. Over any run of calls whose times all lie
/// within a window of `window_seconds`, starting from any reachable bucket
/// (one holding at most `capacity` tokens), the number of allowed calls is
/// at most `capacity + refill * window_seconds / MICRO + 1`: the bucket's
/// capacity, plus what refills during the window, plus one call for the
/// fractional remainder.
pub proof fn lemma_token_bucket_window_bound(
    st: TokenBucketState,
    capacity: u32,
    refill: u64,
    ts: Seq<u64>,
    window_seconds: u64,
)
    requires
        refill >= 1,
        st.micro_tokens <= cap_micro(capacity),
        nondecreasing(ts),
        ts.len() > 0,
        st.last_refill_ms <= ts[0],
        ts.last() <= ts[0] + window_seconds * 1000,
    ensures
        tb_allowed_count(st, capacity, refill, ts) <= capacity + (window_seconds * refill) / (
        MICRO as int) + 1,
{
    let t0 = ts[0];
    let st1 = spec_tb_check(st, capacity, refill, t0).0;
    let filled = tb_refilled(st, capacity, refill, t0);
    assert(filled <= cap_micro(capacity));
    assert(st1.micro_tokens <= cap_micro(capacity));
    let rest = ts.drop_first();
    assert(nondecreasing(rest)) by {
        assert(forall|i: int, j: int|
            0 <= i <= j < rest.len() ==> rest[i] == ts[i + 1] && rest[j] == ts[j + 1]);
    }
    assert(rest.len() > 0 ==> st1.last_refill_ms <= rest[0]);
    lemma_tb_budget(st1, capacity, refill, rest);
    let count_rest = tb_allowed_count(st1, capacity, refill, rest);
    let end_t = run_end(st1, rest);
    assert(end_t <= t0 + window_seconds * 1000) by {
        if rest.len() > 0 {
            assert(rest.last() == ts.last());
        }
    }
    assert(MICRO * count_rest <= cap_micro(capacity) + ((end_t - t0) * refill) / 1000);
    assert(((end_t - t0) * refill) / 1000 <= (window_seconds * 1000 * refill) / 1000)
        by (nonlinear_arith)
        requires
            end_t - t0 <= window_seconds * 1000,
            end_t >= t0,
            refill >= 1,
    ;
    assert((window_seconds * 1000 * refill) / 1000 == window_seconds * refill)
        by (nonlinear_arith);
    assert(MICRO * count_rest <= cap_micro(capacity) + window_seconds * refill);
    assert(count_rest <= capacity + (window_seconds * refill) / (MICRO as int))
        by (nonlinear_arith)
        requires
            MICRO * count_rest <= cap_micro(capacity) + window_seconds * refill,
            cap_micro(capacity) == capacity * MICRO,
            window_seconds * refill >= 0,
            MICRO == 1_000_000,
    ;
    assert(tb_allowed_count(st, capacity, refill, ts) <= 1 + count_rest);
}

/// The window contents after a run of calls at the given times.
pub open spec fn sw_run(entries: Seq<u64>, w: u64, max: u64, ts: Seq<u64>) -> Seq<u64>
    decreases ts.len(),
{
    if ts.len() == 0 {
        entries
    } else {
        sw_run(spec_sw_check(entries, w, max, ts[0]).0, w, max, ts.drop_first())
    }
}

/// How many calls of a sliding-window run are allowed.
pub open spec fn sw_allowed_count(entries: Seq<u64>, w: u64, max: u64, ts: Seq<u64>) -> int
    decreases ts.len(),
{
    if ts.len() == 0 {
        0
    } else {
        (if spec_sw_check(entries, w, max, ts[0]).1.allowed {
            1int
        } else {
            0int
        }) + sw_allowed_count(spec_sw_check(entries, w, max, ts[0]).0, w, max, ts.drop_first())
    }
}

/// Dropping expired entries from the front never removes a tail whose
/// first element is still live.
proof fn lemma_drop_keeps_tail(l: Seq<u64>, a: Seq<u64>, w_ms: int, now: u64)
    requires
        a.len() > 0 ==> !sw_expired(a[0], w_ms, now),
    ensures
        exists|l2: Seq<u64>| sw_drop_expired(l + a, w_ms, now) == #[trigger] (l2 + a),
    decreases l.len(),
{
    if l.len() == 0 {
        assert(l + a =~= a);
        if a.len() == 0 {
            assert(sw_drop_expired(l + a, w_ms, now) == Seq::<u64>::empty() + a) by {
                assert(Seq::<u64>::empty() + a =~= a);
            }
        } else {
            assert(sw_drop_expired(a, w_ms, now) == a);
            assert(sw_drop_expired(l + a, w_ms, now) == Seq::<u64>::empty() + a) by {
                assert(Seq::<u64>::empty() + a =~= a);
            }
        }
    } else {
        let s = l + a;
        assert(s[0] == l[0]);
        if sw_expired(l[0], w_ms, now) {
            assert(s.drop_first() =~= l.drop_first() + a);
            lemma_drop_keeps_tail(l.drop_first(), a, w_ms, now);
            let l2 = choose|l2: Seq<u64>|
                sw_drop_expired(l.drop_first() + a, w_ms, now) == #[trigger] (l2 + a);
            assert(sw_drop_expired(l + a, w_ms, now) == l2 + a);
        } else {
            assert(sw_drop_expired(s, w_ms, now) == s);
            assert(sw_drop_expired(l + a, w_ms, now) == l + a);
        }
    }
}

/// The window invariant: running calls that all lie inside the trailing
/// window ending at `end_t`, over a queue that ends with the still-live
/// tail `a`, admits at most `max - a.len()` of them; the tail never
/// expires during the run, so every admitted call joins it.
proof fn lemma_sw_inv(l: Seq<u64>, a: Seq<u64>, w: u64, max: u64, ts: Seq<u64>, end_t: u64)
    requires
        nondecreasing(ts),
        a.len() <= max,
        forall|i: int| 0 <= i < a.len() ==> !sw_expired(#[trigger] a[i], w * 1000, end_t),
        forall|k: int|
            0 <= k < ts.len() ==> #[trigger] ts[k] <= end_t && !sw_expired(
                ts[k],
                w * 1000,
                end_t,
            ),
    ensures
        sw_allowed_count(l + a, w, max, ts) + a.len() <= max,
    decreases ts.len(),
{
    if ts.len() > 0 {
        let now = ts[0];
        assert(forall|i: int| 0 <= i < a.len() ==> !sw_expired(#[trigger] a[i], w * 1000, now))
            by {
            assert(forall|i: int|
                0 <= i < a.len() ==> age_ms(#[trigger] a[i], now) <= age_ms(a[i], end_t));
        }
        lemma_drop_keeps_tail(l, a, w * 1000, now);
        let l2 = choose|l2: Seq<u64>|
            sw_drop_expired(l + a, w * 1000, now) == #[trigger] (l2 + a);
        let live = sw_drop_expired(l + a, w * 1000, now);
        let rest = ts.drop_first();
        assert(nondecreasing(rest)) by {
            assert(forall|i: int, j: int|
                0 <= i <= j < rest.len() ==> rest[i] == ts[i + 1] && rest[j] == ts[j + 1]);
        }
        assert(forall|k: int|
            0 <= k < rest.len() ==> #[trigger] rest[k] <= end_t && !sw_expired(
                rest[k],
                w * 1000,
                end_t,
            )) by {
            assert(forall|k: int| 0 <= k < rest.len() ==> rest[k] == ts[k + 1]);
        }
        if live.len() < max {
            let a2 = a.push(now);
            assert(live.push(now) =~= l2 + a2);
            assert(a.len() <= live.len()) by {
                assert(live == l2 + a);
            }
            assert(a2.len() <= max);
            assert(forall|i: int|
                0 <= i < a2.len() ==> !sw_expired(#[trigger] a2[i], w * 1000, end_t)) by {
                assert(forall|i: int| 0 <= i < a.len() ==> a2[i] == a[i]);
                assert(a2[a.len() as int] == now);
            }
            lemma_sw_inv(l2, a2, w, max, rest, end_t);
            assert(sw_allowed_count(l + a, w, max, ts) == 1 + sw_allowed_count(
                l2 + a2,
                w,
                max,
                rest,
            ));
        } else {
            lemma_sw_inv(l2, a, w, max, rest, end_t);
            assert(sw_allowed_count(l + a, w, max, ts) == sw_allowed_count(l2 + a, w, max, rest));
        }
    }
}

/// The sliding-window law. Over any run of calls whose times all lie
/// within the trailing window ending at `end_t` (no later than `end_t`
/// and younger than `window_seconds`), starting from any prior per-key
/// history, at most `max_requests` calls are allowed.
pub proof fn lemma_sliding_window_bound(
    entries: Seq<u64>,
    window_seconds: u64,
    max_requests: u64,
    ts: Seq<u64>,
    end_t: u64,
)
    requires
        nondecreasing(ts),
        forall|k: int|
            0 <= k < ts.len() ==> #[trigger] ts[k] <= end_t && !sw_expired(
                ts[k],
                window_seconds * 1000,
                end_t,
            ),
    ensures
        sw_allowed_count(entries, window_seconds, max_requests, ts) <= max_requests,
{
    lemma_sw_inv(entries, Seq::empty(), window_seconds, max_requests, ts, end_t);
    assert(entries + Seq::<u64>::empty() =~= entries);
}

/// The store key a distributed check runs under: the configured prefix, a
/// colon, and the scope.
pub fn distributed_key(prefix: &str, scope: &str) -> (r: String)
    ensures
        r@ == prefix@ + ":"@ + scope@,
{
    let mut s = String::from_str(prefix);
    s.append(":");
    s.append(scope);
    proof {
        assert(s@ =~= prefix@ + ":"@ + scope@);
    }
    s
}

/// How long token-bucket state may live in the store: twice the whole
/// seconds, rounded up and at least one, that a full refill takes.
pub fn token_bucket_ttl_secs(capacity: u32, refill_micro_tokens_per_sec: u64) -> (r: u64)
    requires
        refill_micro_tokens_per_sec >= 1,
    ensures
        r == ({
            let fill = (cap_micro(capacity) + refill_micro_tokens_per_sec - 1) / (
            refill_micro_tokens_per_sec as int);
            (if fill < 1 {
                1int
            } else {
                fill
            }) * 2
        }),
{
    proof {
        assert(capacity * MICRO <= u32::MAX * MICRO) by (nonlinear_arith)
            requires
                capacity <= u32::MAX,
        ;
    }
    let full: u64 = (capacity as u64) * MICRO;
    let refill = refill_micro_tokens_per_sec;
    let fill_wide: u128 = ((full as u128) + (refill as u128) - 1) / (refill as u128);
    proof {
        assert(((full as int) + (refill as int) - 1) / (refill as int) <= full as int + 1)
            by (nonlinear_arith)
            requires
                refill >= 1,
                full >= 0,
        ;
    }
    let fill: u64 = if fill_wide < 1 {
        1
    } else {
        fill_wide as u64
    };
    fill * 2
}

/// How long sliding-window state may live in the store: one second past
/// the window.
pub fn sliding_window_ttl_secs(window_seconds: u64) -> (r: u64)
    ensures
        r == (if window_seconds == u64::MAX {
            u64::MAX
        } else {
            (window_seconds + 1) as u64
        }),
{
    if window_seconds == u64::MAX {
        u64::MAX
    } else {
        window_seconds + 1
    }
}

/// The member a distributed sliding window records for one allowed call:
/// the call's time and the request id, so concurrent inserts stay unique.
pub fn window_member(now_ms: u64, request_id: &str) -> (r: String)
    ensures
        r@ == crate::text::dec_str_of(now_ms as int) + "-"@ + request_id@,
{
    let mut s = crate::text::u64_to_dec(now_ms);
    s.append("-");
    s.append(request_id);
    proof {
        assert(s@ =~= crate::text::dec_str_of(now_ms as int) + "-"@ + request_id@);
    }
    s
}

} // verus!
