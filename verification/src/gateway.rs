//! The gateway core: assembles the fixed middleware pipeline, resolves
//! routes by longest prefix, probes breakers, ranks candidates, walks them
//! under breaker admission, and post-processes every response in reverse
//! middleware order before attaching the hardening headers.

use vstd::prelude::*;

use crate::breaker::{spec_allow, spec_is_open, state_or_fresh, BreakerState, CircuitBreaker};
use crate::config::{GatewayConfig, RateLimitBackendConfig, RouteConfig, UpstreamConfig};
use crate::context::{HttpResponse, RequestContext};
use crate::errors::GatewayError;
use crate::kvtable::{
    lemma_first_after_set, lemma_first_push_other, lemma_first_remove_other, pair_views,
    remove_key, table_first,
};
use crate::middleware::{
    auth_passes, scope_spec, validation_verdict, ApiKeyAuthMiddleware, ControlFlow,
    LimiterBackend, RateLimitMiddleware, RateLimiter, RequestLoggingMiddleware,
    RequestValidationMiddleware, ValidationVerdict,
};
use crate::ratelimit::{InMemoryRateLimitBackend, RateLimitDecision, RateLimitPolicy};
use crate::router::{IntelligentRouter, RoutingCandidate, RoutingStrategy};
use crate::text::starts_with;
use crate::upstream::{spec_snapshot, ForwardOutcome, ProxiedRequest, UpstreamPool};

verus! {

/// Whether a string may stand in an HTTP header value: no control
/// characters other than horizontal tab, and no delete character.
pub open spec fn valid_header_value(s: Seq<char>) -> bool {
    forall|i: int|
        0 <= i < s.len() ==> ((#[trigger] s[i]) as u32 == 9 || (32 <= s[i] as u32 && s[i] as u32
            != 127))
}

fn check_header_value(s: &str) -> (r: bool)
    ensures
        r == valid_header_value(s@),
{
    let n = s.unicode_len();
    let mut i: usize = 0;
    while i < n
        invariant
            n == s@.len(),
            i <= n,
            forall|j: int|
                0 <= j < i ==> ((#[trigger] s@[j]) as u32 == 9 || (32 <= s@[j] as u32 && s@[j]
                    as u32 != 127)),
        decreases n - i,
    {
        let c = s.get_char(i) as u32;
        if !(c == 9 || (32 <= c && c != 127)) {
            return false;
        }
        i = i + 1;
    }
    true
}

/// The headers of a response after hardening: the request id (when it can
/// stand in a header), then the three fixed protection headers, each
/// replacing any earlier value of its name.
pub open spec fn harden_headers(hs: Seq<(Seq<char>, Seq<char>)>, rid: Seq<char>) -> Seq<
    (Seq<char>, Seq<char>),
> {
    let h0 = if valid_header_value(rid) {
        remove_key(hs, "x-request-id"@).push(("x-request-id"@, rid))
    } else {
        hs
    };
    let h1 = remove_key(h0, "x-content-type-options"@).push(
        ("x-content-type-options"@, "nosniff"@),
    );
    let h2 = remove_key(h1, "x-frame-options"@).push(("x-frame-options"@, "DENY"@));
    remove_key(h2, "referrer-policy"@).push(("referrer-policy"@, "no-referrer"@))
}

/// What hardening guarantees on every response it touched.
pub open spec fn has_hardening(hs: Seq<(Seq<char>, Seq<char>)>, rid: Seq<char>) -> bool {
    &&& table_first(hs, "x-content-type-options"@) == Some("nosniff"@)
    &&& table_first(hs, "x-frame-options"@) == Some("DENY"@)
    &&& table_first(hs, "referrer-policy"@) == Some("no-referrer"@)
    &&& valid_header_value(rid) ==> table_first(hs, "x-request-id"@) == Some(rid)
}

/// Hardened headers always carry the protection headers, and echo the
/// request id whenever it can stand in a header.
pub proof fn lemma_hardening_present(hs: Seq<(Seq<char>, Seq<char>)>, rid: Seq<char>)
    ensures
        has_hardening(harden_headers(hs, rid), rid),
{
    broadcast use vstd::string::group_string_axioms;

    reveal_strlit("x-request-id");
    reveal_strlit("x-content-type-options");
    reveal_strlit("x-frame-options");
    reveal_strlit("referrer-policy");
    assert("x-request-id"@.len() == 12);
    assert("x-content-type-options"@.len() == 22);
    assert("x-frame-options"@.len() == 15);
    assert("referrer-policy"@.len() == 15);
    assert("x-frame-options"@[0] == 'x' && "referrer-policy"@[0] == 'r');
    let h0 = if valid_header_value(rid) {
        remove_key(hs, "x-request-id"@).push(("x-request-id"@, rid))
    } else {
        hs
    };
    let h1 = remove_key(h0, "x-content-type-options"@).push(
        ("x-content-type-options"@, "nosniff"@),
    );
    let h2 = remove_key(h1, "x-frame-options"@).push(("x-frame-options"@, "DENY"@));
    let h3 = remove_key(h2, "referrer-policy"@).push(("referrer-policy"@, "no-referrer"@));
    if valid_header_value(rid) {
        lemma_first_after_set(hs, "x-request-id"@, rid);
        lemma_first_remove_other(h0, "x-request-id"@, "x-content-type-options"@);
        lemma_first_push_other(
            remove_key(h0, "x-content-type-options"@),
            ("x-content-type-options"@, "nosniff"@),
            "x-request-id"@,
        );
        lemma_first_remove_other(h1, "x-request-id"@, "x-frame-options"@);
        lemma_first_push_other(
            remove_key(h1, "x-frame-options"@),
            ("x-frame-options"@, "DENY"@),
            "x-request-id"@,
        );
        lemma_first_remove_other(h2, "x-request-id"@, "referrer-policy"@);
        lemma_first_push_other(
            remove_key(h2, "referrer-policy"@),
            ("referrer-policy"@, "no-referrer"@),
            "x-request-id"@,
        );
    }
    lemma_first_after_set(h0, "x-content-type-options"@, "nosniff"@);
    lemma_first_remove_other(h1, "x-content-type-options"@, "x-frame-options"@);
    lemma_first_push_other(
        remove_key(h1, "x-frame-options"@),
        ("x-frame-options"@, "DENY"@),
        "x-content-type-options"@,
    );
    lemma_first_remove_other(h2, "x-content-type-options"@, "referrer-policy"@);
    lemma_first_push_other(
        remove_key(h2, "referrer-policy"@),
        ("referrer-policy"@, "no-referrer"@),
        "x-content-type-options"@,
    );
    lemma_first_after_set(h1, "x-frame-options"@, "DENY"@);
    lemma_first_remove_other(h2, "x-frame-options"@, "referrer-policy"@);
    lemma_first_push_other(
        remove_key(h2, "referrer-policy"@),
        ("referrer-policy"@, "no-referrer"@),
        "x-frame-options"@,
    );
    lemma_first_after_set(h2, "referrer-policy"@, "no-referrer"@);
}

/// Whether a route's prefix matches the path.
pub open spec fn route_matches(route: RouteConfig, path: Seq<char>) -> bool {
    route.path_prefix@.is_prefix_of(path)
}

/// Whether index `j` names the route the gateway picks for `path`: its
/// prefix matches, no match is longer, and no later match is as long.
pub open spec fn chosen_route(routes: Seq<RouteConfig>, path: Seq<char>, j: int) -> bool {
    &&& 0 <= j < routes.len()
    &&& route_matches(routes[j], path)
    &&& forall|i: int|
        0 <= i < routes.len() && route_matches(#[trigger] routes[i], path) ==> routes[i
        ].path_prefix@.len() < routes[j].path_prefix@.len() || (routes[i].path_prefix@.len()
            == routes[j].path_prefix@.len() && i <= j)
}

/// At most one index can be the chosen route, so resolution is a total,
/// deterministic function of the configured order.
pub proof fn lemma_route_choice_unique(routes: Seq<RouteConfig>, path: Seq<char>, j1: int, j2: int)
    requires
        chosen_route(routes, path, j1),
        chosen_route(routes, path, j2),
    ensures
        j1 == j2,
{
}

/// How the breaker map and each candidate's open flag evolve while the
/// gateway probes one candidate after another.
pub open spec fn probe_all(
    m: Map<Seq<char>, BreakerState>,
    ups: Seq<UpstreamConfig>,
    now_ms: u64,
) -> (Map<Seq<char>, BreakerState>, Seq<bool>)
    decreases ups.len(),
{
    if ups.len() == 0 {
        (m, Seq::empty())
    } else {
        let (s1, o) = spec_is_open(state_or_fresh(m, ups[0].name@), now_ms);
        let (m2, rest) = probe_all(m.insert(ups[0].name@, s1), ups.drop_first(), now_ms);
        (m2, seq![o] + rest)
    }
}

/// How the breaker map evolves while the dispatch loop scans ranked names
/// from `i` for the first admitted, configured candidate; the returned
/// index is `names.len()` when none is left.
pub open spec fn scan_candidates(
    m: Map<Seq<char>, BreakerState>,
    cfg: crate::config::CircuitBreakerConfig,
    services: Map<Seq<char>, UpstreamConfig>,
    names: Seq<Seq<char>>,
    i: int,
    now_ms: u64,
) -> (Map<Seq<char>, BreakerState>, int)
    decreases names.len() - i,
{
    if i < 0 || i >= names.len() {
        (m, names.len() as int)
    } else {
        let (s1, allowed) = spec_allow(state_or_fresh(m, names[i]), cfg, now_ms);
        let m2 = m.insert(names[i], s1);
        if !allowed || !services.contains_key(names[i]) {
            scan_candidates(m2, cfg, services, names, i + 1, now_ms)
        } else {
            (m2, i)
        }
    }
}

/// What the response hook of the middleware at `idx` does to a
/// response's headers. Indices follow registration order: logging,
/// validation, and authentication leave the response alone; the
/// rate-limit middleware copies the remembered remaining budget onto it.
pub open spec fn response_hook_effect(
    g: Gateway,
    idx: int,
    ctx: RequestContext,
    hs: Seq<(Seq<char>, Seq<char>)>,
) -> Seq<(Seq<char>, Seq<char>)> {
    if idx == 3 && g.rate_limit is Some {
        match table_first(pair_views(ctx.metadata@), "ratelimit.remaining"@) {
            Some(v) => remove_key(hs, "x-ratelimit-remaining"@).push(
                ("x-ratelimit-remaining"@, v),
            ),
            None => hs,
        }
    } else {
        hs
    }
}

/// The response hooks of the first `k` middlewares applied in reverse
/// registration order: the hook of index `k - 1` first, index 0 last.
pub open spec fn post_fold(
    g: Gateway,
    ctx: RequestContext,
    hs: Seq<(Seq<char>, Seq<char>)>,
    k: int,
) -> Seq<(Seq<char>, Seq<char>)>
    decreases k,
{
    if k <= 0 {
        hs
    } else {
        post_fold(g, ctx, response_hook_effect(g, k - 1, ctx, hs), k - 1)
    }
}

/// What the middleware phase decides.
pub enum MiddlewarePhase {
    /// Every middleware passed; `executed` of them ran.
    Proceed { executed: usize },
    /// The three request-side middlewares passed and the distributed
    /// limiter must now be consulted under `scope`.
    AwaitLimiter { scope: String },
    /// A middleware answered directly; `executed` middlewares had passed
    /// before it.
    Halted { executed: usize, response: HttpResponse },
    /// A middleware rejected the request; `executed` middlewares had
    /// passed before it.
    Rejected { executed: usize, error: GatewayError },
}

/// What the dispatch scan finds.
pub enum DispatchStep {
    /// The candidate at `index` is admitted; send `prepared`.
    Forward { index: usize, prepared: ProxiedRequest },
    /// The candidate at `index` was admitted but its statistics are gone;
    /// its breaker recorded a failure. Continue after it with `error` as
    /// the latest failure.
    Failed { index: usize, error: GatewayError },
    /// No candidate is left to try.
    Exhausted,
}

/// How preparing a dispatch ends.
pub enum DispatchPrep {
    /// No route or no candidate: the finished error response.
    Respond(HttpResponse),
    /// Candidates found and ranked.
    Ready { candidates: Vec<RoutingCandidate>, ranked: Vec<String> },
}

/// How one forward resolves.
pub enum ForwardResolution {
    /// The upstream answered; this is the finished response.
    Respond(HttpResponse),
    /// Transport failed; remember the error and try the next candidate.
    TryNext(GatewayError),
}

/// The gateway: the fixed middleware pipeline, the route table, the
/// router, the upstream pool, and the circuit breaker.
pub struct Gateway {
    pub logging: RequestLoggingMiddleware,
    pub validation: RequestValidationMiddleware,
    pub auth: ApiKeyAuthMiddleware,
    pub rate_limit: Option<RateLimitMiddleware>,
    pub routes: Vec<RouteConfig>,
    pub router: IntelligentRouter,
    pub upstream_pool: UpstreamPool,
    pub circuit_breaker: CircuitBreaker,
    pub max_body_bytes: usize,
}

impl Gateway {
    /// The keyed tables behind the pool, the breaker, and the in-process
    /// limiter are all well formed.
    pub open spec fn wf(&self) -> bool {
        &&& self.upstream_pool.wf()
        &&& self.circuit_breaker.wf()
        &&& match self.rate_limit {
            Some(mw) => match mw.limiter.backend {
                LimiterBackend::InMemory(b) => b.wf(),
                LimiterBackend::External => true,
            },
            None => true,
        }
    }

    /// Builds the gateway from its configuration: the pipeline in the
    /// fixed order logging, validation, auth, then rate limiting when
    /// enabled; a distributed rate-limit backend is consulted through
    /// [`MiddlewarePhase::AwaitLimiter`].
    pub fn from_config(config: GatewayConfig) -> (r: Gateway)
        ensures
            r.wf(),
            r.validation.cfg == config.validation,
            r.auth.valid_keys@.len() == config.api_keys@.len(),
            forall|j: int|
                0 <= j < config.api_keys@.len() ==> (#[trigger] r.auth.valid_keys@[j])@
                    == vstd::utf8::encode_utf8(config.api_keys@[j]@),
            r.auth.exempt_prefixes == config.auth_exempt_prefixes,
            config.rate_limit.enabled ==> (r.rate_limit matches Some(mw) && {
                &&& mw.limiter.policy.algorithm == config.rate_limit.policy
                &&& mw.key_header == config.rate_limit.key_header
                &&& mw.fail_open_on_error == config.rate_limit.fail_open_on_error
                &&& match config.rate_limit.backend {
                    RateLimitBackendConfig::InMemory => mw.limiter.backend matches
                        LimiterBackend::InMemory(b) && b@ == Map::<
                        Seq<char>,
                        crate::ratelimit::RateLimitState,
                    >::empty(),
                    RateLimitBackendConfig::Redis { .. } => mw.limiter.backend is External,
                }
            }),
            !config.rate_limit.enabled ==> r.rate_limit is None,
            r.routes == config.routes,
            r.router.cfg == config.routing,
            r.router.rr_counter == 0,
            r.upstream_pool.services_view() == crate::upstream::build_services(
                config.upstreams@,
            ),
            r.circuit_breaker.cfg == config.circuit_breaker,
            r.circuit_breaker@ == Map::<Seq<char>, BreakerState>::empty(),
            r.max_body_bytes == config.validation.max_body_bytes,
    {
        let max_body_bytes = config.validation.max_body_bytes;
        let validation = RequestValidationMiddleware::new(config.validation);
        let auth = ApiKeyAuthMiddleware::new(config.api_keys, config.auth_exempt_prefixes);
        let rate_limit = if config.rate_limit.enabled {
            let backend = match &config.rate_limit.backend {
                RateLimitBackendConfig::InMemory => LimiterBackend::InMemory(
                    InMemoryRateLimitBackend::new(),
                ),
                RateLimitBackendConfig::Redis { .. } => LimiterBackend::External,
            };
            let limiter = RateLimiter::new(
                backend,
                RateLimitPolicy { algorithm: config.rate_limit.policy },
            );
            Some(
                RateLimitMiddleware::new(
                    limiter,
                    config.rate_limit.key_header,
                    config.rate_limit.fail_open_on_error,
                ),
            )
        } else {
            None
        };
        Gateway {
            logging: RequestLoggingMiddleware,
            validation,
            auth,
            rate_limit,
            routes: config.routes,
            router: IntelligentRouter::new(config.routing),
            upstream_pool: UpstreamPool::new(config.upstreams),
            circuit_breaker: CircuitBreaker::new(config.circuit_breaker),
            max_body_bytes,
        }
    }

    /// Runs the request side of the pipeline in its fixed order. Logging
    /// always passes; validation and authentication judge the request
    /// without changing it; the rate limiter (when configured with the
    /// in-process backend) advances its per-key state and may answer with
    /// the 429 response; with the distributed backend the caller is asked
    /// to consult the store under the returned scope.
    pub fn run_middlewares(&mut self, ctx: &mut RequestContext, now_ms: u64) -> (r: MiddlewarePhase)
        requires
            old(self).wf(),
        ensures
            final(self).wf(),
            *final(self) == (Gateway { rate_limit: final(self).rate_limit, ..*old(self) }),
            match validation_verdict(old(self).validation.cfg, *old(ctx)) {
                ValidationVerdict::Proceed => {
                    if !auth_passes(old(self).auth, *old(ctx)) {
                        &&& r matches MiddlewarePhase::Rejected { executed, error } && executed
                            == 2 && error is Unauthorized
                        &&& *final(ctx) == *old(ctx)
                        &&& final(self).rate_limit == old(self).rate_limit
                    } else {
                        match old(self).rate_limit {
                            None => {
                                &&& r matches MiddlewarePhase::Proceed { executed } && executed
                                    == 3
                                &&& *final(ctx) == *old(ctx)
                                &&& final(self).rate_limit == old(self).rate_limit
                            },
                            Some(mw) => match mw.limiter.backend {
                                LimiterBackend::External => {
                                    &&& r matches MiddlewarePhase::AwaitLimiter { scope }
                                        && scope@ == scope_spec(mw.key_header@, *old(ctx))
                                    &&& *final(ctx) == *old(ctx)
                                    &&& final(self).rate_limit == old(self).rate_limit
                                },
                                LimiterBackend::InMemory(b1) => {
                                    &&& final(self).rate_limit matches Some(mw2) && mw2.key_header
                                        == mw.key_header && mw2.fail_open_on_error
                                        == mw.fail_open_on_error && mw2.limiter.policy
                                        == mw.limiter.policy && (
                                    mw2.limiter.backend matches LimiterBackend::InMemory(b2) && {
                                        let scope = scope_spec(mw.key_header@, *old(ctx));
                                        match crate::ratelimit::spec_backend_check(
                                            crate::ratelimit::prior_view(b1@, scope),
                                            mw.limiter.policy.algorithm,
                                            now_ms,
                                        ) {
                                            None => {
                                                &&& b2@ == b1@
                                                &&& *final(ctx) == *old(ctx)
                                                &&& if mw.fail_open_on_error {
                                                    r matches MiddlewarePhase::Proceed {
                                                        executed,
                                                    } && executed == 4
                                                } else {
                                                    r matches MiddlewarePhase::Rejected {
                                                        executed,
                                                        error,
                                                    } && executed == 3 && (
                                                    error matches GatewayError::Internal(m) && m@
                                                        == "rate limiter backend unavailable"@)
                                                }
                                            },
                                            Some((v2, d)) => {
                                                &&& b2@.dom() == b1@.dom().insert(scope)
                                                &&& crate::ratelimit::state_matches(
                                                    b2@.index(scope),
                                                    v2,
                                                )
                                                &&& *final(ctx) == (RequestContext {
                                                    metadata: final(ctx).metadata,
                                                    ..*old(ctx)
                                                })
                                                &&& pair_views(final(ctx).metadata@)
                                                    == crate::kvtable::upsert(
                                                    pair_views(old(ctx).metadata@),
                                                    "ratelimit.remaining"@,
                                                    crate::text::dec_str_of(d.remaining as int),
                                                )
                                                &&& if d.allowed {
                                                    r matches MiddlewarePhase::Proceed {
                                                        executed,
                                                    } && executed == 4
                                                } else {
                                                    r matches MiddlewarePhase::Halted {
                                                        executed,
                                                        response,
                                                    } && executed == 3 && response.status == 429
                                                }
                                            },
                                        }
                                    })
                                },
                            },
                        }
                    }
                },
                verdict => {
                    &&& r matches MiddlewarePhase::Rejected { executed, error } && executed == 1
                        && (match verdict {
                        ValidationVerdict::TooLarge => error is PayloadTooLarge,
                        _ => error is Validation,
                    })
                    &&& *final(ctx) == *old(ctx)
                    &&& final(self).rate_limit == old(self).rate_limit
                },
            },
    {
        let _ = self.logging.on_request(ctx);
        match self.validation.on_request(ctx) {
            Ok(_) => {
            },
            Err(e) => {
                return MiddlewarePhase::Rejected { executed: 1, error: e };
            },
        }
        match self.auth.on_request(ctx) {
            Ok(_) => {
            },
            Err(e) => {
                return MiddlewarePhase::Rejected { executed: 2, error: e };
            },
        }
        match &mut self.rate_limit {
            None => MiddlewarePhase::Proceed { executed: 3 },
            Some(mw) => {
                if mw.limiter.is_in_memory() {
                    match mw.on_request(ctx, now_ms) {
                        Ok(ControlFlow::Continue) => MiddlewarePhase::Proceed { executed: 4 },
                        Ok(ControlFlow::ShortCircuit(response)) => MiddlewarePhase::Halted {
                            executed: 3,
                            response,
                        },
                        Err(e) => MiddlewarePhase::Rejected { executed: 3, error: e },
                    }
                } else {
                    MiddlewarePhase::AwaitLimiter { scope: mw.scope(ctx) }
                }
            },
        }
    }

    /// Feeds the distributed limiter's answer back into the pipeline,
    /// finishing the rate-limit middleware the same way the in-process
    /// path does.
    pub fn resume_limiter(
        &mut self,
        ctx: &mut RequestContext,
        outcome: Result<RateLimitDecision, GatewayError>,
    ) -> (r: MiddlewarePhase)
        requires
            old(self).wf(),
        ensures
            final(self).wf(),
            *final(self) == *old(self),
            match old(self).rate_limit {
                None => r matches MiddlewarePhase::Proceed { executed } && executed == 3
                    && *final(ctx) == *old(ctx),
                Some(mw) => match outcome {
                    Ok(d) => {
                        &&& *final(ctx) == (RequestContext {
                            metadata: final(ctx).metadata,
                            ..*old(ctx)
                        })
                        &&& pair_views(final(ctx).metadata@) == crate::kvtable::upsert(
                            pair_views(old(ctx).metadata@),
                            "ratelimit.remaining"@,
                            crate::text::dec_str_of(d.remaining as int),
                        )
                        &&& if d.allowed {
                            r matches MiddlewarePhase::Proceed { executed } && executed == 4
                        } else {
                            r matches MiddlewarePhase::Halted { executed, response } && executed
                                == 3 && response.status == 429
                        }
                    },
                    Err(_) => {
                        &&& *final(ctx) == *old(ctx)
                        &&& if mw.fail_open_on_error {
                            r matches MiddlewarePhase::Proceed { executed } && executed == 4
                        } else {
                            r matches MiddlewarePhase::Rejected { executed, error } && executed
                                == 3 && (error matches GatewayError::Internal(m) && m@
                                == "rate limiter backend unavailable"@)
                        }
                    },
                },
            },
    {
        match &self.rate_limit {
            None => MiddlewarePhase::Proceed { executed: 3 },
            Some(mw) => {
                match mw.apply_outcome(ctx, outcome) {
                    Ok(ControlFlow::Continue) => MiddlewarePhase::Proceed { executed: 4 },
                    Ok(ControlFlow::ShortCircuit(response)) => MiddlewarePhase::Halted {
                        executed: 3,
                        response,
                    },
                    Err(e) => MiddlewarePhase::Rejected { executed: 3, error: e },
                }
            },
        }
    }

    /// The longest-prefix route for `path`: among the routes whose prefix
    /// begins the path, one of maximal prefix length, the last such in
    /// configuration order; no match means no route.
    pub fn resolve_route(&self, path: &str) -> (r: Option<RouteConfig>)
        ensures
            match r {
                Some(rt) => exists|j: int|
                    #[trigger] chosen_route(self.routes@, path@, j) && rt.path_prefix@
                        == self.routes@[j].path_prefix@ && rt.upstreams@ == self.routes@[
                    j].upstreams@,
                None => forall|i: int|
                    0 <= i < self.routes@.len() ==> !route_matches(
                        #[trigger] self.routes@[i],
                        path@,
                    ),
            },
    {
        let mut best: Option<usize> = None;
        let mut i: usize = 0;
        while i < self.routes.len()
            invariant
                i <= self.routes@.len(),
                match best {
                    Some(b) => {
                        &&& b < i
                        &&& route_matches(self.routes@[b as int], path@)
                        &&& forall|l: int|
                            0 <= l < i && route_matches(#[trigger] self.routes@[l], path@)
                                ==> self.routes@[l].path_prefix@.len() < self.routes@[b as int
                            ].path_prefix@.len() || (self.routes@[l].path_prefix@.len()
                                == self.routes@[b as int].path_prefix@.len() && l <= b)
                    },
                    None => forall|l: int|
                        0 <= l < i ==> !route_matches(#[trigger] self.routes@[l], path@),
                },
            decreases self.routes@.len() - i,
        {
            if starts_with(path, self.routes[i].path_prefix.as_str()) {
                let better = match best {
                    Some(b) => self.routes[i].path_prefix.unicode_len()
                        >= self.routes[b].path_prefix.unicode_len(),
                    None => true,
                };
                if better {
                    best = Some(i);
                }
            }
            i = i + 1;
        }
        match best {
            Some(b) => {
                proof {
                    assert(chosen_route(self.routes@, path@, b as int));
                }
                Some(duplicate_route(&self.routes[b]))
            },
            None => None,
        }
    }

    /// Resolves the route, probes each candidate's breaker, snapshots its
    /// statistics, and ranks the candidates; a missing route or an empty
    /// candidate list becomes the finished 404 or 503 response. On
    /// success the chosen route is recorded in the context.
    pub fn prepare_dispatch(&mut self, ctx: &mut RequestContext, executed: usize, now_ms: u64) -> (r:
        DispatchPrep)
        requires
            old(self).wf(),
        ensures
            final(self).wf(),
            final(self).upstream_pool == old(self).upstream_pool,
            final(self).routes == old(self).routes,
            final(self).circuit_breaker.cfg == old(self).circuit_breaker.cfg,
            match r {
                DispatchPrep::Respond(resp) => {
                    &&& has_hardening(pair_views(resp.headers@), old(ctx).request_id@)
                    &&& final(self).circuit_breaker@ == old(self).circuit_breaker@
                    &&& if exists|j: int| chosen_route(old(self).routes@, old(ctx).path@, j) {
                        resp.status == 503 && exists|j: int|
                            #[trigger] chosen_route(old(self).routes@, old(ctx).path@, j)
                                && crate::upstream::candidates_of(
                                old(self).upstream_pool.services_view(),
                                crate::text::views_of(old(self).routes@[j].upstreams@),
                            ).len() == 0
                    } else {
                        resp.status == 404
                    }
                },
                DispatchPrep::Ready { candidates, ranked } => {
                    &&& exists|j: int|
                        #[trigger] chosen_route(old(self).routes@, old(ctx).path@, j) && (
                        {
                            let route = old(self).routes@[j];
                            let ups = crate::upstream::candidates_of(
                                old(self).upstream_pool.services_view(),
                                crate::text::views_of(route.upstreams@),
                            );
                            let (m2, opens) = probe_all(
                                old(self).circuit_breaker@,
                                ups,
                                now_ms,
                            );
                            &&& ups.len() > 0
                            &&& final(self).circuit_breaker@ == m2
                            &&& candidates@.len() == ups.len()
                            &&& forall|k: int|
                                0 <= k < ups.len() ==> (#[trigger] candidates@[k]).upstream
                                    == ups[k] && candidates@[k].breaker_open == opens[k]
                                    && candidates@[k].stats == spec_snapshot(
                                    old(self).upstream_pool.stats_view(),
                                    ups[k].name@,
                                )
                            &&& final(ctx).route matches Some(rt) && rt.path_prefix@
                                == route.path_prefix@ && rt.upstreams@ == route.upstreams@
                        })
                    &&& *final(ctx) == (RequestContext { route: final(ctx).route, ..*old(ctx) })
                    &&& ranked@.len() == candidates@.len()
                },
            },
    {
        let route = match self.resolve_route(ctx.path.as_str()) {
            Some(route) => route,
            None => {
                let response = self.conclude_error(ctx, executed, GatewayError::RouteNotFound);
                return DispatchPrep::Respond(response);
            },
        };
        let candidates = self.upstream_pool.route_candidates(&route);
        if candidates.len() == 0 {
            let response = self.conclude_error(ctx, executed, GatewayError::UpstreamUnavailable);
            return DispatchPrep::Respond(response);
        }
        let ghost ups = crate::upstream::candidates_of(
            self.upstream_pool.services_view(),
            crate::text::views_of(route.upstreams@),
        );
        let mut snapshots: Vec<RoutingCandidate> = Vec::new();
        let mut i: usize = 0;
        let ghost m0 = self.circuit_breaker@;
        proof {
            assert(ups.skip(0) =~= ups);
            lemma_probe_len(m0, ups, now_ms);
        }
        while i < candidates.len()
            invariant
                self.wf(),
                candidates@ == ups,
                i <= ups.len(),
                snapshots@.len() == i,
                self.upstream_pool == old(self).upstream_pool,
                self.routes == old(self).routes,
                self.rate_limit == old(self).rate_limit,
                self.router == old(self).router,
                self.validation.cfg == old(self).validation.cfg,
                self.circuit_breaker.cfg == old(self).circuit_breaker.cfg,
                probe_all(m0, ups, now_ms).1.len() == ups.len(),
                probe_all(m0, ups, now_ms) == {
                    let (m2, rest) = probe_all(self.circuit_breaker@, ups.skip(i as int), now_ms);
                    (m2, probe_all(m0, ups, now_ms).1.take(i as int) + rest)
                },
                forall|k: int|
                    0 <= k < i ==> (#[trigger] snapshots@[k]).upstream == ups[k] && snapshots@[k
                    ].breaker_open == probe_all(m0, ups, now_ms).1[k] && snapshots@[k].stats
                        == spec_snapshot(self.upstream_pool.stats_view(), ups[k].name@),
            decreases ups.len() - i,
        {
            let ghost pre_m = self.circuit_breaker@;
            proof {
                assert(ups.skip(i as int).len() > 0 && ups.skip(i as int)[0] == ups[i as int]);
                assert(ups.skip(i as int).drop_first() =~= ups.skip(i + 1));
            }
            let open = self.circuit_breaker.is_open(candidates[i].name.as_str(), now_ms);
            let stats = self.upstream_pool.snapshot(candidates[i].name.as_str());
            let upstream = crate::upstream::duplicate_upstream(&candidates[i]);
            snapshots.push(RoutingCandidate { upstream, stats, breaker_open: open });
            proof {
                let (m2_all, opens_all) = probe_all(m0, ups, now_ms);
                let (m2a, resta) = probe_all(pre_m, ups.skip(i as int), now_ms);
                let (m2b, restb) = probe_all(self.circuit_breaker@, ups.skip(i + 1), now_ms);
                assert(resta == seq![open] + restb);
                assert(opens_all == opens_all.take(i as int) + resta);
                assert(opens_all[i as int] == (opens_all.take(i as int) + resta)[i as int]);
                assert(opens_all[i as int] == open);
                assert(opens_all.take(i as int) + resta =~= opens_all.take(i + 1) + restb);
            }
            i = i + 1;
        }
        proof {
            assert(ups.skip(ups.len() as int).len() == 0);
            let (m2, opens) = probe_all(m0, ups, now_ms);
            assert(opens.take(ups.len() as int) + Seq::<bool>::empty() =~= opens.take(
                ups.len() as int,
            ));
            assert(opens.take(opens.len() as int) =~= opens);
            assert(opens.len() == ups.len()) by {
                lemma_probe_len(m0, ups, now_ms);
            }
        }
        let ranked = self.router.rank(&route, snapshots.as_slice());
        ctx.route = Some(route);
        DispatchPrep::Ready { candidates: snapshots, ranked }
    }

    /// Scans the ranked names from `start`: each name's breaker decides
    /// admission in turn; the first admitted, configured candidate has its
    /// in-flight count raised and its proxied request built. A candidate
    /// whose statistics are missing counts as a breaker failure and is
    /// reported so the caller can remember the error and move on.
    pub fn dispatch_next(
        &mut self,
        ctx: &mut RequestContext,
        ranked: &Vec<String>,
        start: usize,
        now_ms: u64,
    ) -> (r: DispatchStep)
        requires
            old(self).wf(),
        ensures
            final(self).wf(),
            final(self).routes == old(self).routes,
            final(self).rate_limit == old(self).rate_limit,
            final(self).circuit_breaker.cfg == old(self).circuit_breaker.cfg,
            ({
                let names = crate::text::views_of(ranked@);
                let (m2, idx) = scan_candidates(
                    old(self).circuit_breaker@,
                    old(self).circuit_breaker.cfg,
                    old(self).upstream_pool.services_view(),
                    names,
                    start as int,
                    now_ms,
                );
                match r {
                    DispatchStep::Exhausted => {
                        &&& idx == names.len()
                        &&& final(self).circuit_breaker@ == m2
                        &&& final(self).upstream_pool == old(self).upstream_pool
                        &&& *final(ctx) == *old(ctx)
                    },
                    DispatchStep::Forward { index, prepared } => {
                        &&& idx == index
                        &&& start <= index < names.len()
                        &&& final(self).circuit_breaker@ == m2
                        &&& *final(ctx) == (RequestContext {
                            chosen_upstream: Some(ranked@[index as int]),
                            ..*old(ctx)
                        })
                        &&& ({
                            let upstream = old(self).upstream_pool.services_view().index(
                                names[idx],
                            );
                            &&& prepared.url@ == crate::upstream::target_url(
                                upstream,
                                *final(ctx),
                            )
                            &&& pair_views(prepared.headers@)
                                == crate::upstream::forward_headers(*final(ctx))
                            &&& prepared.method == final(ctx).method
                            &&& prepared.body@ == final(ctx).body@
                            &&& prepared.timeout_ms == upstream.timeout_ms
                            &&& old(self).upstream_pool.stats_view().contains_key(
                                upstream.name@,
                            )
                            &&& final(self).upstream_pool.stats_view()
                                == old(self).upstream_pool.stats_view().insert(
                                upstream.name@,
                                (crate::upstream::UpstreamStats {
                                    in_flight: crate::upstream::wrap_inc(
                                        old(self).upstream_pool.stats_view().index(
                                            upstream.name@,
                                        ).in_flight,
                                    ),
                                    ..old(self).upstream_pool.stats_view().index(
                                        upstream.name@,
                                    )
                                }),
                            )
                        })
                    },
                    DispatchStep::Failed { index, error } => {
                        &&& idx == index
                        &&& start <= index < names.len()
                        &&& !old(self).upstream_pool.stats_view().contains_key(
                            old(self).upstream_pool.services_view().index(names[idx]).name@,
                        )
                        &&& error matches GatewayError::Internal(m) && m@
                            == "upstream stats unavailable"@
                        &&& final(self).circuit_breaker@ == m2.insert(
                            names[idx],
                            crate::breaker::spec_record_failure(
                                state_or_fresh(m2, names[idx]),
                                old(self).circuit_breaker.cfg,
                                now_ms,
                            ),
                        )
                        &&& final(self).upstream_pool.stats_view()
                            == old(self).upstream_pool.stats_view()
                        &&& final(self).upstream_pool.services_view()
                            == old(self).upstream_pool.services_view()
                        &&& *final(ctx) == (RequestContext {
                            chosen_upstream: Some(ranked@[index as int]),
                            ..*old(ctx)
                        })
                    },
                }
            }),
    {
        let ghost names = crate::text::views_of(ranked@);
        let ghost cfg = self.circuit_breaker.cfg;
        let ghost services = self.upstream_pool.services_view();
        let mut i: usize = start;
        if start >= ranked.len() {
            proof {
                assert(scan_candidates(
                    old(self).circuit_breaker@,
                    cfg,
                    services,
                    names,
                    start as int,
                    now_ms,
                ) == (old(self).circuit_breaker@, names.len() as int));
            }
            return DispatchStep::Exhausted;
        }
        while i < ranked.len()
            invariant
                self.wf(),
                start <= i <= ranked@.len(),
                names == crate::text::views_of(ranked@),
                ranked@.len() == names.len(),
                cfg == old(self).circuit_breaker.cfg,
                services == old(self).upstream_pool.services_view(),
                self.upstream_pool == old(self).upstream_pool,
                self.routes == old(self).routes,
                self.rate_limit == old(self).rate_limit,
                self.router == old(self).router,
                self.validation.cfg == old(self).validation.cfg,
                self.circuit_breaker.cfg == old(self).circuit_breaker.cfg,
                *ctx == *old(ctx),
                scan_candidates(
                    old(self).circuit_breaker@,
                    cfg,
                    services,
                    names,
                    start as int,
                    now_ms,
                ) == scan_candidates(
                    self.circuit_breaker@,
                    cfg,
                    services,
                    names,
                    i as int,
                    now_ms,
                ),
            decreases ranked@.len() - i,
        {
            proof {
                assert(names[i as int] == ranked@[i as int]@);
            }
            let ghost pre_m = self.circuit_breaker@;
            let allowed = self.circuit_breaker.allow_request(ranked[i].as_str(), now_ms);
            proof {
                assert(self.circuit_breaker@ == pre_m.insert(
                    names[i as int],
                    spec_allow(state_or_fresh(pre_m, names[i as int]), cfg, now_ms).0,
                ));
            }
            if allowed {
                match self.upstream_pool.get(ranked[i].as_str()) {
                    Some(upstream) => {
                        proof {
                            assert(services.contains_key(names[i as int]));
                            assert(scan_candidates(pre_m, cfg, services, names, i as int, now_ms)
                                == (self.circuit_breaker@, i as int));
                        }
                        ctx.chosen_upstream = Some(ranked[i].clone());
                        match self.upstream_pool.begin_forward(ctx, &upstream) {
                            Ok(prepared) => {
                                return DispatchStep::Forward { index: i, prepared };
                            },
                            Err(error) => {
                                self.circuit_breaker.record_failure(ranked[i].as_str(), now_ms);
                                return DispatchStep::Failed { index: i, error };
                            },
                        }
                    },
                    None => {
                        proof {
                            assert(!services.contains_key(names[i as int]));
                        }
                    },
                }
            }
            i = i + 1;
        }
        proof {
            assert(scan_candidates(self.circuit_breaker@, cfg, services, names, i as int, now_ms)
                == (self.circuit_breaker@, names.len() as int));
        }
        DispatchStep::Exhausted
    }

    /// Settles one forward: the breaker counts a 5xx answer or a transport
    /// failure against the upstream and anything else in its favour; the
    /// statistics close their in-flight round trip; an answer becomes the
    /// finished, hardened response while a transport failure is handed
    /// back to try the next candidate.
    pub fn finish_forward(
        &mut self,
        ctx: &RequestContext,
        upstream_name: &str,
        executed: usize,
        outcome: ForwardOutcome,
        latency_micros: u64,
        now_ms: u64,
    ) -> (r: ForwardResolution)
        requires
            old(self).wf(),
            old(self).upstream_pool.stats_view().contains_key(upstream_name@),
        ensures
            final(self).wf(),
            match r {
                ForwardResolution::Respond(resp) => {
                    &&& has_hardening(pair_views(resp.headers@), ctx.request_id@)
                    &&& outcome matches ForwardOutcome::Response { status, headers, body } && {
                        &&& resp.status == status
                        &&& resp.body == body
                        &&& executed <= 4 ==> pair_views(resp.headers@) == harden_headers(
                            post_fold(
                                *old(self),
                                *ctx,
                                crate::upstream::forwardable(pair_views(headers@)),
                                executed as int,
                            ),
                            ctx.request_id@,
                        )
                    }
                },
                ForwardResolution::TryNext(e) => e is Upstream && (outcome matches
                    ForwardOutcome::TransportError { message } && (e matches
                    GatewayError::Upstream(m) && m == message)),
            },
            ({
                let is_err = match outcome {
                    ForwardOutcome::Response { status, .. } => 500 <= status < 600,
                    ForwardOutcome::TransportError { .. } => true,
                };
                final(self).circuit_breaker@ == old(self).circuit_breaker@.insert(
                    upstream_name@,
                    if is_err {
                        crate::breaker::spec_record_failure(
                            state_or_fresh(old(self).circuit_breaker@, upstream_name@),
                            old(self).circuit_breaker.cfg,
                            now_ms,
                        )
                    } else {
                        crate::breaker::spec_record_success(
                            state_or_fresh(old(self).circuit_breaker@, upstream_name@),
                        )
                    },
                )
            }),
    {
        let (is_server_error, is_transport_error) = match &outcome {
            ForwardOutcome::Response { status, .. } => (500 <= *status && *status < 600, false),
            ForwardOutcome::TransportError { .. } => (false, true),
        };
        if is_server_error || is_transport_error {
            self.circuit_breaker.record_failure(upstream_name, now_ms);
        } else {
            self.circuit_breaker.record_success(upstream_name);
        }
        match self.upstream_pool.complete_forward(upstream_name, outcome, latency_micros) {
            Ok(mut response) => {
                self.apply_response_middlewares(executed, ctx, &mut response);
                self.attach_hardening(ctx.request_id.as_str(), &mut response);
                proof {
                    reveal_with_fuel(post_fold, 6);
                    assert(self.rate_limit == old(self).rate_limit);
                }
                ForwardResolution::Respond(response)
            },
            Err(e) => ForwardResolution::TryNext(e),
        }
    }

    /// The terminal answer when every candidate failed: the latest
    /// transport error, or 503 when none was seen, post-processed and
    /// hardened.
    pub fn finish_no_upstream(
        &self,
        ctx: &RequestContext,
        executed: usize,
        last_error: Option<GatewayError>,
    ) -> (r: HttpResponse)
        ensures
            has_hardening(pair_views(r.headers@), ctx.request_id@),
            ({
                let rendered = match last_error {
                    Some(e) => e,
                    None => GatewayError::UpstreamUnavailable,
                };
                &&& r.status == crate::errors::gateway_status_of(&rendered)
                &&& r.body@ == vstd::utf8::encode_utf8(
                    crate::errors::json_error_body(
                        crate::errors::gateway_code_of(&rendered),
                        crate::errors::gateway_message_of(&rendered),
                    ),
                )
                &&& executed <= 4 ==> pair_views(r.headers@) == harden_headers(
                    post_fold(
                        *self,
                        *ctx,
                        crate::errors::gateway_error_headers(&rendered),
                        executed as int,
                    ),
                    ctx.request_id@,
                )
            }),
    {
        match last_error {
            Some(e) => self.conclude_error(ctx, executed, e),
            None => self.conclude_error(ctx, executed, GatewayError::UpstreamUnavailable),
        }
    }

    /// Renders an error and finishes it like any other response.
    pub fn conclude_error(&self, ctx: &RequestContext, executed: usize, error: GatewayError) -> (r:
        HttpResponse)
        ensures
            has_hardening(pair_views(r.headers@), ctx.request_id@),
            r.status == crate::errors::gateway_status_of(&error),
            r.body@ == vstd::utf8::encode_utf8(
                crate::errors::json_error_body(
                    crate::errors::gateway_code_of(&error),
                    crate::errors::gateway_message_of(&error),
                ),
            ),
            executed <= 4 ==> pair_views(r.headers@) == harden_headers(
                post_fold(
                    *self,
                    *ctx,
                    crate::errors::gateway_error_headers(&error),
                    executed as int,
                ),
                ctx.request_id@,
            ),
    {
        let mut response = error.into_response();
        self.conclude_into(ctx, executed, &mut response);
        response
    }

    /// Finishes a ready response: reverse-order post-processing, then
    /// hardening.
    pub fn conclude(&self, ctx: &RequestContext, executed: usize, response: HttpResponse) -> (r:
        HttpResponse)
        ensures
            has_hardening(pair_views(r.headers@), ctx.request_id@),
            r.status == response.status,
            r.body == response.body,
            executed <= 4 ==> pair_views(r.headers@) == harden_headers(
                post_fold(*self, *ctx, pair_views(response.headers@), executed as int),
                ctx.request_id@,
            ),
    {
        let mut response = response;
        self.conclude_into(ctx, executed, &mut response);
        response
    }

    fn conclude_into(&self, ctx: &RequestContext, executed: usize, response: &mut HttpResponse)
        ensures
            has_hardening(pair_views(final(response).headers@), ctx.request_id@),
            final(response).status == old(response).status,
            final(response).body == old(response).body,
            executed <= 4 ==> pair_views(final(response).headers@) == harden_headers(
                post_fold(*self, *ctx, pair_views(old(response).headers@), executed as int),
                ctx.request_id@,
            ),
    {
        self.apply_response_middlewares(executed, ctx, response);
        self.attach_hardening(ctx.request_id.as_str(), response);
    }

    /// Walks the response hooks of the middlewares that completed their
    /// request side, in reverse registration order: only the rate-limit
    /// middleware (the last registered) changes the response, copying the
    /// remembered remaining budget onto it; logging observes, and the
    /// validation and auth middlewares have no response side. The headers
    /// come out exactly as [`post_fold`], the reverse-order fold of the
    /// executed middlewares' hooks, leaves them.
    pub fn apply_response_middlewares(
        &self,
        executed: usize,
        ctx: &RequestContext,
        response: &mut HttpResponse,
    )
        ensures
            final(response).status == old(response).status,
            final(response).body == old(response).body,
            executed <= 4 ==> pair_views(final(response).headers@) == post_fold(
                *self,
                *ctx,
                pair_views(old(response).headers@),
                executed as int,
            ),
            if executed >= 4 && self.rate_limit is Some {
                match table_first(pair_views(ctx.metadata@), "ratelimit.remaining"@) {
                    Some(v) => pair_views(final(response).headers@) == remove_key(
                        pair_views(old(response).headers@),
                        "x-ratelimit-remaining"@,
                    ).push(("x-ratelimit-remaining"@, v)),
                    None => *final(response) == *old(response),
                }
            } else {
                *final(response) == *old(response)
            },
    {
        if executed >= 4 {
            match &self.rate_limit {
                Some(mw) => {
                    mw.on_response(ctx, response);
                },
                None => {
                },
            }
        }
        // The remaining hooks, in reverse order: auth and validation have
        // no response side, and logging leaves the response unchanged.
        proof {
            reveal_with_fuel(post_fold, 6);
            let hs0 = pair_views(old(response).headers@);
            let e3 = response_hook_effect(*self, 3, *ctx, hs0);
            assert(post_fold(*self, *ctx, hs0, 1) == hs0);
            assert(post_fold(*self, *ctx, hs0, 2) == hs0);
            assert(post_fold(*self, *ctx, hs0, 3) == hs0);
            assert(post_fold(*self, *ctx, e3, 1) == e3);
            assert(post_fold(*self, *ctx, e3, 2) == e3);
            assert(post_fold(*self, *ctx, e3, 3) == e3);
            assert(post_fold(*self, *ctx, hs0, 4) == e3);
        }
    }

    /// Attaches the hardening headers, replacing earlier values.
    pub fn attach_hardening(&self, request_id: &str, response: &mut HttpResponse)
        ensures
            final(response).status == old(response).status,
            final(response).body == old(response).body,
            pair_views(final(response).headers@) == harden_headers(
                pair_views(old(response).headers@),
                request_id@,
            ),
            has_hardening(pair_views(final(response).headers@), request_id@),
    {
        if check_header_value(request_id) {
            response.set_header("x-request-id", String::from_str(request_id));
        }
        response.set_header("x-content-type-options", String::from_str("nosniff"));
        response.set_header("x-frame-options", String::from_str("DENY"));
        response.set_header("referrer-policy", String::from_str("no-referrer"));
        proof {
            lemma_hardening_present(pair_views(old(response).headers@), request_id@);
        }
    }

    /// The ready 413 answer for a body that outgrew the capture cap before
    /// any middleware ran.
    pub fn oversize_response(&self, request_id: &str) -> (r: HttpResponse)
        ensures
            has_hardening(pair_views(r.headers@), request_id@),
            r.status == 413,
            r.body@ == vstd::utf8::encode_utf8(
                crate::errors::json_error_body(
                    "payload_too_large"@,
                    "Request body exceeds configured limit"@,
                ),
            ),
            pair_views(r.headers@) == harden_headers(
                seq![("content-type"@, "application/json"@)],
                request_id@,
            ),
    {
        let mut response = GatewayError::PayloadTooLarge.into_response();
        self.attach_hardening(request_id, &mut response);
        response
    }
}

/// The request id: the client's `x-request-id` header when present, else a
/// fresh 36-character identifier, which can always stand in a response
/// header, so the hardening echo is unconditional for generated ids.
pub fn derive_request_id(headers: &Vec<(String, String)>) -> (r: String)
    ensures
        match table_first(pair_views(headers@), "x-request-id"@) {
            Some(v) => r@ == v,
            None => r@.len() == 36 && valid_header_value(r@),
        },
{
    match crate::kvtable::table_get(headers, "x-request-id") {
        Some(v) => v,
        None => {
            let id = crate::sys::fresh_uuid();
            proof {
                assert(valid_header_value(id@));
            }
            id
        },
    }
}

proof fn lemma_probe_len(m: Map<Seq<char>, BreakerState>, ups: Seq<UpstreamConfig>, now_ms: u64)
    ensures
        probe_all(m, ups, now_ms).1.len() == ups.len(),
    decreases ups.len(),
{
    if ups.len() > 0 {
        let (s1, o) = spec_is_open(state_or_fresh(m, ups[0].name@), now_ms);
        lemma_probe_len(m.insert(ups[0].name@, s1), ups.drop_first(), now_ms);
    }
}

/// A field-for-field copy of a route.
pub fn duplicate_route(route: &RouteConfig) -> (r: RouteConfig)
    ensures
        r.path_prefix@ == route.path_prefix@,
        r.upstreams@ == route.upstreams@,
{
    let mut ups: Vec<String> = Vec::new();
    let mut i: usize = 0;
    while i < route.upstreams.len()
        invariant
            i <= route.upstreams@.len(),
            ups@ == route.upstreams@.take(i as int),
        decreases route.upstreams@.len() - i,
    {
        ups.push(route.upstreams[i].clone());
        proof {
            assert(ups@ =~= route.upstreams@.take(i + 1));
        }
        i = i + 1;
    }
    proof {
        assert(route.upstreams@.take(route.upstreams@.len() as int) =~= route.upstreams@);
    }
    RouteConfig { path_prefix: route.path_prefix.clone(), upstreams: ups }
}

} // verus!
