//! Per-service circuit breaker: a Closed / Open / HalfOpen state machine
//! per upstream name, created lazily and never removed. The transition
//! rules are spec functions, the keyed table of live states follows them
//! exactly, and the lifecycle law is proved below.

use vstd::prelude::*;

use crate::config::CircuitBreakerConfig;
use crate::keyed::{find_index, keyed_view, keys_unique, lemma_view_push, lemma_view_update};

verus! {

/// The phase of one breaker: admitting traffic, rejecting it until a
/// deadline, or probing recovery.
#[derive(Clone, Copy, PartialEq, Eq, Structural)]
pub enum BreakerPhase {
    Closed,
    Open { until_ms: u64 },
    HalfOpen,
}

/// The live state of one service's breaker.
#[derive(Clone, Copy, PartialEq, Eq, Structural)]
pub struct BreakerState {
    pub phase: BreakerPhase,
    pub consecutive_failures: u32,
    pub half_open_in_flight: u32,
}

/// The state a breaker is born in: Closed with clean counters.
pub open spec fn fresh_state() -> BreakerState {
    BreakerState { phase: BreakerPhase::Closed, consecutive_failures: 0, half_open_in_flight: 0 }
}

/// When an Open phase entered at `now_ms` ends: `open_seconds` later,
/// saturating instead of wrapping.
pub open spec fn open_deadline(now_ms: u64, cfg: CircuitBreakerConfig) -> u64 {
    if cfg.open_seconds > u64::MAX as int / 1000 {
        u64::MAX
    } else if now_ms + cfg.open_seconds * 1000 > u64::MAX {
        u64::MAX
    } else {
        (now_ms + cfg.open_seconds * 1000) as u64
    }
}

/// The admission decision: the successor state and whether the request may
/// proceed. Closed always admits; Open admits only once the deadline has
/// passed, becoming HalfOpen with one probe in flight; HalfOpen admits
/// while fewer than `half_open_max_requests` probes are in flight.
pub open spec fn spec_allow(s: BreakerState, cfg: CircuitBreakerConfig, now_ms: u64) -> (
    BreakerState,
    bool,
) {
    match s.phase {
        BreakerPhase::Closed => (s, true),
        BreakerPhase::Open { until_ms } => {
            if now_ms >= until_ms {
                (
                    BreakerState {
                        phase: BreakerPhase::HalfOpen,
                        consecutive_failures: s.consecutive_failures,
                        half_open_in_flight: 1,
                    },
                    true,
                )
            } else {
                (s, false)
            }
        },
        BreakerPhase::HalfOpen => {
            if s.half_open_in_flight < cfg.half_open_max_requests {
                (
                    BreakerState {
                        phase: BreakerPhase::HalfOpen,
                        consecutive_failures: s.consecutive_failures,
                        half_open_in_flight: (s.half_open_in_flight + 1) as u32,
                    },
                    true,
                )
            } else {
                (s, false)
            }
        },
    }
}

/// A success closes the breaker and clears both counters.
pub open spec fn spec_record_success(s: BreakerState) -> BreakerState {
    fresh_state()
}

/// A failure: in Closed it bumps the consecutive count and trips to Open at
/// the threshold; in HalfOpen it reopens with a fresh deadline; in Open it
/// is ignored.
pub open spec fn spec_record_failure(
    s: BreakerState,
    cfg: CircuitBreakerConfig,
    now_ms: u64,
) -> BreakerState {
    match s.phase {
        BreakerPhase::Closed => {
            let bumped = if s.consecutive_failures == u32::MAX {
                u32::MAX
            } else {
                (s.consecutive_failures + 1) as u32
            };
            if bumped >= cfg.failure_threshold {
                BreakerState {
                    phase: BreakerPhase::Open { until_ms: open_deadline(now_ms, cfg) },
                    consecutive_failures: 0,
                    half_open_in_flight: 0,
                }
            } else {
                BreakerState { phase: BreakerPhase::Closed, consecutive_failures: bumped, half_open_in_flight: s.half_open_in_flight }
            }
        },
        BreakerPhase::HalfOpen => BreakerState {
            phase: BreakerPhase::Open { until_ms: open_deadline(now_ms, cfg) },
            consecutive_failures: 0,
            half_open_in_flight: 0,
        },
        BreakerPhase::Open { .. } => s,
    }
}

/// The read-mostly probe: Open before the deadline reads true; Open at or
/// past the deadline turns HalfOpen (leaving the probe counter untouched)
/// and reads false; other phases read false.
pub open spec fn spec_is_open(s: BreakerState, now_ms: u64) -> (BreakerState, bool) {
    match s.phase {
        BreakerPhase::Open { until_ms } => {
            if now_ms >= until_ms {
                (
                    BreakerState {
                        phase: BreakerPhase::HalfOpen,
                        consecutive_failures: s.consecutive_failures,
                        half_open_in_flight: s.half_open_in_flight,
                    },
                    false,
                )
            } else {
                (s, true)
            }
        },
        _ => (s, false),
    }
}

/// The breaker state a service is in, a fresh one if none is recorded yet.
pub open spec fn state_or_fresh(m: Map<Seq<char>, BreakerState>, service: Seq<char>) -> BreakerState {
    if m.contains_key(service) {
        m[service]
    } else {
        fresh_state()
    }
}

/// One circuit breaker per service name, lazily created, never removed.
pub struct CircuitBreaker {
    pub cfg: CircuitBreakerConfig,
    pub states: Vec<(String, BreakerState)>,
}

impl View for CircuitBreaker {
    type V = Map<Seq<char>, BreakerState>;

    open spec fn view(&self) -> Map<Seq<char>, BreakerState> {
        keyed_view(self.states@)
    }
}

impl CircuitBreaker {
    /// The table holds at most one state per service.
    pub open spec fn wf(&self) -> bool {
        keys_unique(self.states@)
    }

    /// A breaker with no recorded services.
    pub fn new(cfg: CircuitBreakerConfig) -> (r: CircuitBreaker)
        ensures
            r.wf(),
            r@ == Map::<Seq<char>, BreakerState>::empty(),
            r.cfg == cfg,
    {
        CircuitBreaker { cfg, states: Vec::new() }
    }

    /// Looks the service up, creating its state if needed, and returns the
    /// index of its entry.
    fn state_index(&mut self, service: &str) -> (j: usize)
        requires
            old(self).wf(),
        ensures
            final(self).wf(),
            final(self).cfg == old(self).cfg,
            j < final(self).states@.len(),
            final(self).states@[j as int].0@ == service@,
            final(self).states@[j as int].1 == state_or_fresh(old(self)@, service@),
            final(self)@ == old(self)@.insert(service@, state_or_fresh(old(self)@, service@)),
            keyed_view(final(self).states@) == final(self)@,
    {
        match find_index(&self.states, service) {
            Some(j) => {
                proof {
                    assert(old(self)@.insert(service@, old(self)@[service@]) =~= old(self)@);
                }
                j
            },
            None => {
                let j = self.states.len();
                let fresh = BreakerState {
                    phase: BreakerPhase::Closed,
                    consecutive_failures: 0,
                    half_open_in_flight: 0,
                };
                let key = String::from_str(service);
                proof {
                    lemma_view_push(self.states@, key, fresh);
                }
                self.states.push((key, fresh));
                j
            },
        }
    }

    /// Decides whether a request to `service` may proceed, advancing that
    /// service's state by the admission rule and touching no other service.
    pub fn allow_request(&mut self, service: &str, now_ms: u64) -> (r: bool)
        requires
            old(self).wf(),
        ensures
            final(self).wf(),
            final(self).cfg == old(self).cfg,
            r == spec_allow(state_or_fresh(old(self)@, service@), old(self).cfg, now_ms).1,
            final(self)@ == old(self)@.insert(
                service@,
                spec_allow(state_or_fresh(old(self)@, service@), old(self).cfg, now_ms).0,
            ),
    {
        let ghost s0 = state_or_fresh(old(self)@, service@);
        let j = self.state_index(service);
        let st = self.states[j].1;
        let (next, allowed) = match st.phase {
            BreakerPhase::Closed => (st, true),
            BreakerPhase::Open { until_ms } => {
                if now_ms >= until_ms {
                    (
                        BreakerState {
                            phase: BreakerPhase::HalfOpen,
                            consecutive_failures: st.consecutive_failures,
                            half_open_in_flight: 1,
                        },
                        true,
                    )
                } else {
                    (st, false)
                }
            },
            BreakerPhase::HalfOpen => {
                if st.half_open_in_flight < self.cfg.half_open_max_requests {
                    (
                        BreakerState {
                            phase: BreakerPhase::HalfOpen,
                            consecutive_failures: st.consecutive_failures,
                            half_open_in_flight: st.half_open_in_flight + 1,
                        },
                        true,
                    )
                } else {
                    (st, false)
                }
            },
        };
        self.set_state(j, next);
        proof {
            assert(final(self)@ =~= old(self)@.insert(service@, spec_allow(s0, old(self).cfg, now_ms).0));
        }
        allowed
    }

    /// Records a success: the service's breaker closes and its counters
    /// clear.
    pub fn record_success(&mut self, service: &str)
        requires
            old(self).wf(),
        ensures
            final(self).wf(),
            final(self).cfg == old(self).cfg,
            final(self)@ == old(self)@.insert(
                service@,
                spec_record_success(state_or_fresh(old(self)@, service@)),
            ),
    {
        let j = self.state_index(service);
        let next = BreakerState {
            phase: BreakerPhase::Closed,
            consecutive_failures: 0,
            half_open_in_flight: 0,
        };
        self.set_state(j, next);
        proof {
            assert(final(self)@ =~= old(self)@.insert(
                service@,
                spec_record_success(state_or_fresh(old(self)@, service@)),
            ));
        }
    }

    /// Records a failure, advancing the service's state by the failure
    /// rule.
    pub fn record_failure(&mut self, service: &str, now_ms: u64)
        requires
            old(self).wf(),
        ensures
            final(self).wf(),
            final(self).cfg == old(self).cfg,
            final(self)@ == old(self)@.insert(
                service@,
                spec_record_failure(state_or_fresh(old(self)@, service@), old(self).cfg, now_ms),
            ),
    {
        let ghost s0 = state_or_fresh(old(self)@, service@);
        let j = self.state_index(service);
        let st = self.states[j].1;
        let until = self.open_deadline_at(now_ms);
        let next = match st.phase {
            BreakerPhase::Closed => {
                let bumped = if st.consecutive_failures == u32::MAX {
                    u32::MAX
                } else {
                    st.consecutive_failures + 1
                };
                if bumped >= self.cfg.failure_threshold {
                    BreakerState {
                        phase: BreakerPhase::Open { until_ms: until },
                        consecutive_failures: 0,
                        half_open_in_flight: 0,
                    }
                } else {
                    BreakerState {
                        phase: BreakerPhase::Closed,
                        consecutive_failures: bumped,
                        half_open_in_flight: st.half_open_in_flight,
                    }
                }
            },
            BreakerPhase::HalfOpen => BreakerState {
                phase: BreakerPhase::Open { until_ms: until },
                consecutive_failures: 0,
                half_open_in_flight: 0,
            },
            BreakerPhase::Open { .. } => st,
        };
        self.set_state(j, next);
        proof {
            assert(final(self)@ =~= old(self)@.insert(
                service@,
                spec_record_failure(s0, old(self).cfg, now_ms),
            ));
        }
    }

    /// The read-mostly probe for routing: is the service currently Open?
    pub fn is_open(&mut self, service: &str, now_ms: u64) -> (r: bool)
        requires
            old(self).wf(),
        ensures
            final(self).wf(),
            final(self).cfg == old(self).cfg,
            r == spec_is_open(state_or_fresh(old(self)@, service@), now_ms).1,
            final(self)@ == old(self)@.insert(
                service@,
                spec_is_open(state_or_fresh(old(self)@, service@), now_ms).0,
            ),
    {
        let ghost s0 = state_or_fresh(old(self)@, service@);
        let j = self.state_index(service);
        let st = self.states[j].1;
        let (next, open) = match st.phase {
            BreakerPhase::Open { until_ms } => {
                if now_ms >= until_ms {
                    (
                        BreakerState {
                            phase: BreakerPhase::HalfOpen,
                            consecutive_failures: st.consecutive_failures,
                            half_open_in_flight: st.half_open_in_flight,
                        },
                        false,
                    )
                } else {
                    (st, true)
                }
            },
            _ => (st, false),
        };
        self.set_state(j, next);
        proof {
            assert(final(self)@ =~= old(self)@.insert(service@, spec_is_open(s0, now_ms).0));
        }
        open
    }

    /// Stores a new state at entry `j`.
    fn set_state(&mut self, j: usize, next: BreakerState)
        requires
            old(self).wf(),
            j < old(self).states@.len(),
        ensures
            final(self).wf(),
            final(self).cfg == old(self).cfg,
            final(self)@ == old(self)@.insert(old(self).states@[j as int].0@, next),
    {
        proof {
            lemma_view_update(self.states@, j as int, next);
        }
        let key = self.states[j].0.clone();
        self.states.set(j, (key, next));
        proof {
            assert(final(self).states@ =~= old(self).states@.update(
                j as int,
                (old(self).states@[j as int].0, next),
            ));
        }
    }

    /// The deadline an Open phase entered now would get.
    fn open_deadline_at(&self, now_ms: u64) -> (r: u64)
        ensures
            r == open_deadline(now_ms, self.cfg),
    {
        if self.cfg.open_seconds > u64::MAX / 1000 {
            u64::MAX
        } else {
            let delta = self.cfg.open_seconds * 1000;
            if now_ms > u64::MAX - delta {
                u64::MAX
            } else {
                now_ms + delta
            }
        }
    }
}

/// The breaker state after a run of failures at the given times.
pub open spec fn apply_failures(
    s: BreakerState,
    cfg: CircuitBreakerConfig,
    times: Seq<u64>,
) -> BreakerState
    decreases times.len(),
{
    if times.len() == 0 {
        s
    } else {
        apply_failures(spec_record_failure(s, cfg, times[0]), cfg, times.drop_first())
    }
}

proof fn lemma_failures_trip(
    s: BreakerState,
    cfg: CircuitBreakerConfig,
    times: Seq<u64>,
)
    requires
        s.phase == BreakerPhase::Closed,
        times.len() >= 1,
        s.consecutive_failures + times.len() == cfg.failure_threshold,
    ensures
        apply_failures(s, cfg, times) == (BreakerState {
            phase: BreakerPhase::Open { until_ms: open_deadline(times.last(), cfg) },
            consecutive_failures: 0,
            half_open_in_flight: 0,
        }),
    decreases times.len(),
{
    let s1 = spec_record_failure(s, cfg, times[0]);
    if times.len() == 1 {
        assert(s.consecutive_failures + 1 == cfg.failure_threshold);
        assert(times.drop_first().len() == 0);
        assert(times[0] == times.last());
    } else {
        assert(s.consecutive_failures + 1 < cfg.failure_threshold);
        assert(s1.phase == BreakerPhase::Closed);
        assert(s1.consecutive_failures == s.consecutive_failures + 1);
        lemma_failures_trip(s1, cfg, times.drop_first());
        assert(times.drop_first().last() == times.last());
    }
}

/// The circuit-breaker lifecycle. Starting Closed, `failure_threshold`
/// consecutive failures with no intervening success trip the breaker to
/// Open until `open_seconds` past the last failure; while the deadline has
/// not passed, requests are denied and the state does not change; the
/// first admitted request at or past the deadline goes to HalfOpen; a
/// success in HalfOpen returns the breaker to Closed; a failure in
/// HalfOpen reopens it with a fresh deadline.
pub proof fn lemma_breaker_lifecycle(
    cfg: CircuitBreakerConfig,
    times: Seq<u64>,
    probe_early: u64,
    probe_late: u64,
    fail_again_ms: u64,
)
    requires
        cfg.failure_threshold >= 1,
        times.len() == cfg.failure_threshold,
        probe_early < open_deadline(times.last(), cfg),
        probe_late >= open_deadline(times.last(), cfg),
    ensures
        ({
            let tripped = apply_failures(fresh_state(), cfg, times);
            let denied = spec_allow(tripped, cfg, probe_early);
            let admitted = spec_allow(tripped, cfg, probe_late);
            &&& tripped.phase == (BreakerPhase::Open {
                until_ms: open_deadline(times.last(), cfg),
            })
            &&& !denied.1
            &&& denied.0 == tripped
            &&& admitted.1
            &&& admitted.0.phase == BreakerPhase::HalfOpen
            &&& spec_record_success(admitted.0).phase == BreakerPhase::Closed
            &&& spec_record_failure(admitted.0, cfg, fail_again_ms).phase == (BreakerPhase::Open {
                until_ms: open_deadline(fail_again_ms, cfg),
            })
        }),
{
    lemma_failures_trip(fresh_state(), cfg, times);
}

} // verus!
