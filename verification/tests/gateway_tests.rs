use gateway_core::breaker::CircuitBreaker;
use gateway_core::config::{
    CircuitBreakerConfig, GatewayConfig, RateLimitBackendConfig, RateLimitConfig,
    RateLimitPolicyConfig, RouteConfig, RoutingConfig, UpstreamConfig, ValidationConfig,
};
use gateway_core::context::RequestContext;
use gateway_core::gateway::{
    derive_request_id, DispatchPrep, DispatchStep, ForwardResolution, Gateway, MiddlewarePhase,
};
use gateway_core::middleware::{ControlFlow, LimiterBackend, RateLimitMiddleware, RateLimiter};
use gateway_core::ratelimit::{InMemoryRateLimitBackend, RateLimitPolicy};
use gateway_core::router::{IntelligentRouter, RoutingCandidate, RoutingStrategy, UpstreamSnapshot};
use gateway_core::upstream::{ForwardOutcome, UpstreamPool, UpstreamStats};

fn breaker_cfg(threshold: u32, open_seconds: u64, half_open_max: u32) -> CircuitBreakerConfig {
    CircuitBreakerConfig {
        failure_threshold: threshold,
        open_seconds,
        half_open_max_requests: half_open_max,
    }
}

fn upstream(name: &str, url: &str) -> UpstreamConfig {
    UpstreamConfig {
        name: String::from(name),
        base_url: String::from(url),
        weight: 100,
        timeout_ms: 3000,
    }
}

fn test_config(policy: RateLimitPolicyConfig, rate_limit_enabled: bool) -> GatewayConfig {
    GatewayConfig {
        api_keys: vec![String::from("dev-key")],
        auth_exempt_prefixes: vec![String::from("/health")],
        validation: ValidationConfig {
            max_body_bytes: 1024,
            allowed_methods: vec![String::from("GET"), String::from("POST")],
            require_host_header: false,
            max_headers: 64,
        },
        rate_limit: RateLimitConfig {
            enabled: rate_limit_enabled,
            backend: RateLimitBackendConfig::InMemory,
            policy,
            key_header: String::from("x-api-key"),
            fail_open_on_error: false,
        },
        circuit_breaker: breaker_cfg(5, 20, 1),
        routing: RoutingConfig {
            prefer_low_latency: true,
            in_flight_penalty: 12,
            failure_penalty: 250,
        },
        upstreams: vec![upstream("svc-a", "http://a/"), upstream("svc-b", "http://b")],
        routes: vec![RouteConfig {
            path_prefix: String::from("/"),
            upstreams: vec![String::from("svc-a"), String::from("svc-b")],
        }],
    }
}

fn request_ctx(path: &str, key: Option<&str>) -> RequestContext {
    let mut headers: Vec<(String, String)> = vec![(String::from("host"), String::from("example"))];
    if let Some(k) = key {
        headers.push((String::from("x-api-key"), String::from(k)));
    }
    RequestContext::new(
        String::from("req-1"),
        String::from("GET"),
        String::from(path),
        None,
        headers,
        Vec::new(),
        Some(String::from("10.0.0.9")),
        0,
    )
}

fn hardening_ok(resp: &gateway_core::context::HttpResponse, rid: &str) {
    let find = |name: &str| {
        resp.headers
            .iter()
            .find(|(n, _)| n.as_str() == name)
            .map(|(_, v)| v.as_str().to_owned())
    };
    assert_eq!(find("x-content-type-options").as_deref(), Some("nosniff"));
    assert_eq!(find("x-frame-options").as_deref(), Some("DENY"));
    assert_eq!(find("referrer-policy").as_deref(), Some("no-referrer"));
    assert_eq!(find("x-request-id").as_deref(), Some(rid));
}

#[test]
fn breaker_trips_after_threshold_and_recovers() {
    let mut cb = CircuitBreaker::new(breaker_cfg(3, 10, 1));
    assert!(cb.allow_request("a", 1_000));
    for _ in 0..3 {
        cb.record_failure("a", 1_000);
    }
    // Open: denied before the deadline, on both probes and admissions.
    assert!(cb.is_open("a", 5_000));
    assert!(!cb.allow_request("a", 5_000));
    // First admitted probe after the deadline goes to half-open.
    assert!(cb.allow_request("a", 11_000));
    // Only one probe is admitted while half-open.
    assert!(!cb.allow_request("a", 11_001));
    // A success closes the breaker again.
    cb.record_success("a");
    assert!(cb.allow_request("a", 11_002));
    // A failure in half-open reopens instead.
    for _ in 0..3 {
        cb.record_failure("a", 20_000);
    }
    assert!(cb.allow_request("a", 31_000));
    cb.record_failure("a", 31_000);
    assert!(!cb.allow_request("a", 31_500));
}

#[test]
fn breaker_failures_interrupted_by_success_do_not_trip() {
    let mut cb = CircuitBreaker::new(breaker_cfg(3, 10, 1));
    cb.record_failure("a", 0);
    cb.record_failure("a", 0);
    cb.record_success("a");
    cb.record_failure("a", 0);
    cb.record_failure("a", 0);
    assert!(cb.allow_request("a", 0));
}

#[test]
fn token_bucket_caps_a_burst() {
    let mut backend = InMemoryRateLimitBackend::new();
    let policy = RateLimitPolicy {
        algorithm: RateLimitPolicyConfig::TokenBucket {
            capacity: 2,
            refill_micro_tokens_per_sec: 1,
        },
    };
    let d1 = backend.check("k", &policy, 0).unwrap();
    assert!(d1.allowed);
    assert_eq!(d1.remaining, 1);
    let d2 = backend.check("k", &policy, 0).unwrap();
    assert!(d2.allowed);
    assert_eq!(d2.remaining, 0);
    let d3 = backend.check("k", &policy, 0).unwrap();
    assert!(!d3.allowed);
    assert!(d3.retry_after_secs >= 1);
    // A different key has its own bucket.
    assert!(backend.check("other", &policy, 0).unwrap().allowed);
}

#[test]
fn token_bucket_refills_over_time() {
    let mut backend = InMemoryRateLimitBackend::new();
    let policy = RateLimitPolicy {
        algorithm: RateLimitPolicyConfig::TokenBucket {
            capacity: 1,
            refill_micro_tokens_per_sec: 1_000_000,
        },
    };
    assert!(backend.check("k", &policy, 0).unwrap().allowed);
    assert!(!backend.check("k", &policy, 100).unwrap().allowed);
    // A second later a whole token is back.
    assert!(backend.check("k", &policy, 1_100).unwrap().allowed);
}

#[test]
fn zero_refill_is_a_configuration_error() {
    let mut backend = InMemoryRateLimitBackend::new();
    let policy = RateLimitPolicy {
        algorithm: RateLimitPolicyConfig::TokenBucket {
            capacity: 2,
            refill_micro_tokens_per_sec: 0,
        },
    };
    assert!(backend.check("k", &policy, 0).is_err());
}

#[test]
fn sliding_window_enforces_max_in_window() {
    let mut backend = InMemoryRateLimitBackend::new();
    let policy = RateLimitPolicy {
        algorithm: RateLimitPolicyConfig::SlidingWindow { window_seconds: 10, max_requests: 2 },
    };
    assert!(backend.check("k", &policy, 0).unwrap().allowed);
    assert!(backend.check("k", &policy, 1_000).unwrap().allowed);
    let denied = backend.check("k", &policy, 2_000).unwrap();
    assert!(!denied.allowed);
    assert!(denied.retry_after_secs >= 1);
    // Once the oldest entry ages out, a new call is admitted.
    let later = backend.check("k", &policy, 10_500).unwrap();
    assert!(later.allowed);
}

#[test]
fn router_score_formula_is_exact() {
    let router = IntelligentRouter::new(RoutingConfig {
        prefer_low_latency: true,
        in_flight_penalty: 12,
        failure_penalty: 250,
    });
    let candidate = RoutingCandidate {
        upstream: upstream("svc-a", "http://a"),
        stats: UpstreamSnapshot {
            in_flight: 3,
            consecutive_failures: 2,
            success_total: 0,
            failure_total: 0,
            avg_latency_ms: 40,
        },
        breaker_open: false,
    };
    // weight*1000 + (seed % weight)*8 - in_flight*12 - failures*250 - latency
    assert_eq!(router.score(&candidate, 5), 100_000 + 40 - 36 - 500 - 40);
    let open = RoutingCandidate { breaker_open: true, ..candidate };
    assert_eq!(router.score(&open, 5), -1_000_000);
}

#[test]
fn rank_orders_by_descending_score() {
    let mut router = IntelligentRouter::new(RoutingConfig {
        prefer_low_latency: false,
        in_flight_penalty: 1,
        failure_penalty: 1,
    });
    let healthy = |name: &str, weight: u32| RoutingCandidate {
        upstream: UpstreamConfig {
            name: String::from(name),
            base_url: String::from("http://x"),
            weight,
            timeout_ms: 3000,
        },
        stats: UpstreamSnapshot {
            in_flight: 0,
            consecutive_failures: 0,
            success_total: 0,
            failure_total: 0,
            avg_latency_ms: 0,
        },
        breaker_open: false,
    };
    let mut broken = healthy("down", 1000);
    broken.breaker_open = true;
    let route = RouteConfig { path_prefix: String::from("/"), upstreams: Vec::new() };
    let ranked = router.rank(&route, &[healthy("small", 1), broken, healthy("big", 500)]);
    assert_eq!(ranked.len(), 3);
    assert_eq!(ranked[0].as_str(), "big");
    assert_eq!(ranked[2].as_str(), "down");
}

#[test]
fn stats_smooth_latency_with_one_eighth() {
    let mut stats = UpstreamStats {
        in_flight: 0,
        consecutive_failures: 4,
        success_total: 0,
        failure_total: 0,
        avg_latency_micros: 0,
    };
    stats.record_success(8_000);
    assert_eq!(stats.avg_latency_micros, 8_000);
    assert_eq!(stats.consecutive_failures, 0);
    assert_eq!(stats.success_total, 1);
    stats.record_success(16_000);
    assert_eq!(stats.avg_latency_micros, (8_000 * 7 + 16_000) / 8);
    stats.record_failure();
    assert_eq!(stats.failure_total, 1);
    assert_eq!(stats.consecutive_failures, 1);
}

#[test]
fn in_flight_returns_after_forward_on_every_path() {
    let mut pool = UpstreamPool::new(vec![upstream("svc-a", "http://a")]);
    let ctx = request_ctx("/x", Some("dev-key"));
    let a = upstream("svc-a", "http://a");
    // Success path.
    let prepared = pool.begin_forward(&ctx, &a).unwrap();
    assert_eq!(prepared.url.as_str(), "http://a/x");
    assert_eq!(pool.snapshot("svc-a").in_flight, 1);
    pool.complete_forward(
        "svc-a",
        ForwardOutcome::Response { status: 200, headers: Vec::new(), body: Vec::new() },
        1_000,
    )
    .unwrap();
    assert_eq!(pool.snapshot("svc-a").in_flight, 0);
    // Upstream 5xx path.
    pool.begin_forward(&ctx, &a).unwrap();
    let resp = pool
        .complete_forward(
            "svc-a",
            ForwardOutcome::Response { status: 502, headers: Vec::new(), body: Vec::new() },
            1_000,
        )
        .unwrap();
    assert_eq!(resp.status, 502);
    assert_eq!(pool.snapshot("svc-a").in_flight, 0);
    // Transport-error path.
    pool.begin_forward(&ctx, &a).unwrap();
    let err = pool.complete_forward(
        "svc-a",
        ForwardOutcome::TransportError { message: String::from("connection refused") },
        1_000,
    );
    assert!(err.is_err());
    assert_eq!(pool.snapshot("svc-a").in_flight, 0);
    assert_eq!(pool.snapshot("svc-a").consecutive_failures, 2);
}

#[test]
fn happy_proxy_returns_upstream_response() {
    let policy = RateLimitPolicyConfig::TokenBucket {
        capacity: 100,
        refill_micro_tokens_per_sec: 1_000_000,
    };
    let mut gw = Gateway::from_config(test_config(policy, false));
    let mut ctx = request_ctx("/foo", Some("dev-key"));
    let phase = gw.run_middlewares(&mut ctx, 0);
    let executed = match phase {
        MiddlewarePhase::Proceed { executed } => executed,
        _ => panic!("expected the request to pass the pipeline"),
    };
    let (_candidates, ranked) = match gw.prepare_dispatch(&mut ctx, executed, 0) {
        DispatchPrep::Ready { candidates, ranked } => (candidates, ranked),
        DispatchPrep::Respond(_) => panic!("expected candidates"),
    };
    let (index, prepared) = match gw.dispatch_next(&mut ctx, &ranked, 0, 0) {
        DispatchStep::Forward { index, prepared } => (index, prepared),
        _ => panic!("expected a forward"),
    };
    assert_eq!(prepared.method.as_str(), "GET");
    assert!(prepared.url.as_str().ends_with("/foo"));
    // The upstream answers 200 with a body and a hop-by-hop header.
    let outcome = ForwardOutcome::Response {
        status: 200,
        headers: vec![
            (String::from("transfer-encoding"), String::from("chunked")),
            (String::from("content-type"), String::from("text/plain")),
        ],
        body: b"hello".to_vec(),
    };
    let name = ranked[index].clone();
    let resolved = gw.finish_forward(&ctx, name.as_str(), executed, outcome, 1_000, 0);
    let resp = match resolved {
        ForwardResolution::Respond(resp) => resp,
        ForwardResolution::TryNext(_) => panic!("expected a response"),
    };
    assert_eq!(resp.status, 200);
    assert_eq!(resp.body, b"hello".to_vec());
    assert!(resp.headers.iter().all(|(n, _)| n.as_str() != "transfer-encoding"));
    assert!(resp
        .headers
        .iter()
        .any(|(n, v)| n.as_str() == "content-type" && v.as_str() == "text/plain"));
    hardening_ok(&resp, "req-1");
}

#[test]
fn circuit_open_skips_failing_upstream() {
    let policy = RateLimitPolicyConfig::TokenBucket {
        capacity: 100,
        refill_micro_tokens_per_sec: 1_000_000,
    };
    let mut cfg = test_config(policy, false);
    // Give svc-a the greater weight so the ranking prefers it while its
    // breaker is closed.
    cfg.upstreams[0].weight = 200;
    let mut gw = Gateway::from_config(cfg);
    // Drive requests until svc-a has answered 500 five times in a row;
    // svc-b answers 200 whenever the ranking hands it the request.
    let mut a_failures = 0;
    let mut guard = 0;
    while a_failures < 5 {
        guard += 1;
        assert!(guard < 50);
        let mut ctx = request_ctx("/foo", Some("dev-key"));
        let (ranked, executed) = drive_to_ranked(&mut gw, &mut ctx, 1_000);
        let (index, _prepared) = match gw.dispatch_next(&mut ctx, &ranked, 0, 1_000) {
            DispatchStep::Forward { index, prepared } => (index, prepared),
            _ => panic!("expected a forward"),
        };
        let name = ranked[index].clone();
        let status = if name.as_str() == "svc-a" { 500 } else { 200 };
        let outcome = ForwardOutcome::Response { status, headers: Vec::new(), body: Vec::new() };
        match gw.finish_forward(&ctx, name.as_str(), executed, outcome, 100, 1_000) {
            ForwardResolution::Respond(resp) => assert_eq!(resp.status, status),
            ForwardResolution::TryNext(_) => panic!("a response is returned, not retried"),
        }
        if name.as_str() == "svc-a" {
            a_failures += 1;
        }
    }
    // Inside the open window every request goes to svc-b.
    for _ in 0..4 {
        let mut ctx = request_ctx("/foo", Some("dev-key"));
        let (ranked, executed) = drive_to_ranked(&mut gw, &mut ctx, 2_000);
        let (index, _prepared) = match gw.dispatch_next(&mut ctx, &ranked, 0, 2_000) {
            DispatchStep::Forward { index, prepared } => (index, prepared),
            _ => panic!("expected a forward"),
        };
        assert_eq!(ranked[index].as_str(), "svc-b");
        let outcome = ForwardOutcome::Response { status: 200, headers: Vec::new(), body: Vec::new() };
        gw.finish_forward(&ctx, "svc-b", executed, outcome, 100, 2_000);
    }
    // After open_seconds, svc-a is admitted exactly once as a probe.
    let probe_time = 1_000 + 20 * 1_000;
    let mut ctx = request_ctx("/foo", Some("dev-key"));
    let (ranked, _executed) = drive_to_ranked(&mut gw, &mut ctx, probe_time);
    let mut admissions_of_a = 0;
    let mut start = 0;
    loop {
        match gw.dispatch_next(&mut ctx, &ranked, start, probe_time) {
            DispatchStep::Forward { index, .. } => {
                if ranked[index].as_str() == "svc-a" {
                    admissions_of_a += 1;
                }
                start = index + 1;
            }
            _ => break,
        }
    }
    // Scanning again does not admit a second probe.
    let mut ctx2 = request_ctx("/foo", Some("dev-key"));
    let (ranked2, _) = drive_to_ranked(&mut gw, &mut ctx2, probe_time);
    let mut start2 = 0;
    loop {
        match gw.dispatch_next(&mut ctx2, &ranked2, start2, probe_time) {
            DispatchStep::Forward { index, .. } => {
                if ranked2[index].as_str() == "svc-a" {
                    admissions_of_a += 1;
                }
                start2 = index + 1;
            }
            _ => break,
        }
    }
    assert_eq!(admissions_of_a, 1);
}

fn drive_to_ranked(gw: &mut Gateway, ctx: &mut RequestContext, now_ms: u64) -> (Vec<String>, usize) {
    let executed = match gw.run_middlewares(ctx, now_ms) {
        MiddlewarePhase::Proceed { executed } => executed,
        _ => panic!("expected the request to pass the pipeline"),
    };
    match gw.prepare_dispatch(ctx, executed, now_ms) {
        DispatchPrep::Ready { ranked, .. } => (ranked, executed),
        DispatchPrep::Respond(_) => panic!("expected candidates"),
    }
}

#[test]
fn token_bucket_middleware_sets_remaining_then_limits() {
    // Capacity two and a refill far too slow to matter inside the test.
    let policy = RateLimitPolicyConfig::TokenBucket { capacity: 2, refill_micro_tokens_per_sec: 1 };
    let mut gw = Gateway::from_config(test_config(policy, true));
    // First request: allowed, one token left.
    let mut ctx = request_ctx("/foo", Some("dev-key"));
    let executed = match gw.run_middlewares(&mut ctx, 0) {
        MiddlewarePhase::Proceed { executed } => executed,
        _ => panic!("first request should pass"),
    };
    let resp = gw.conclude(&ctx, executed, gateway_core::context::HttpResponse::new(200));
    let remaining = resp
        .headers
        .iter()
        .find(|(n, _)| n.as_str() == "x-ratelimit-remaining")
        .map(|(_, v)| v.as_str().to_owned());
    assert_eq!(remaining.as_deref(), Some("1"));
    // Second request: allowed, none left.
    let mut ctx2 = request_ctx("/foo", Some("dev-key"));
    let executed2 = match gw.run_middlewares(&mut ctx2, 0) {
        MiddlewarePhase::Proceed { executed } => executed,
        _ => panic!("second request should pass"),
    };
    let resp2 = gw.conclude(&ctx2, executed2, gateway_core::context::HttpResponse::new(200));
    let remaining2 = resp2
        .headers
        .iter()
        .find(|(n, _)| n.as_str() == "x-ratelimit-remaining")
        .map(|(_, v)| v.as_str().to_owned());
    assert_eq!(remaining2.as_deref(), Some("0"));
    // Third request: denied with a retry delay, still hardened.
    let mut ctx3 = request_ctx("/foo", Some("dev-key"));
    let (executed3, limited) = match gw.run_middlewares(&mut ctx3, 0) {
        MiddlewarePhase::Halted { executed, response } => (executed, response),
        _ => panic!("third request should be limited"),
    };
    assert_eq!(limited.status, 429);
    let finished = gw.conclude(&ctx3, executed3, limited);
    assert!(finished.headers.iter().any(|(n, _)| n.as_str() == "retry-after"));
    // The rate-limit middleware short-circuited, so it is not in the
    // executed set and its response hook does not run.
    assert!(finished.headers.iter().all(|(n, _)| n.as_str() != "x-ratelimit-remaining"));
    hardening_ok(&finished, "req-1");
}

#[test]
fn oversized_body_is_rejected_before_middlewares() {
    let policy = RateLimitPolicyConfig::TokenBucket {
        capacity: 100,
        refill_micro_tokens_per_sec: 1_000_000,
    };
    let gw = Gateway::from_config(test_config(policy, false));
    let resp = gw.oversize_response("unknown");
    assert_eq!(resp.status, 413);
    hardening_ok(&resp, "unknown");
}

#[test]
fn validation_rejects_oversized_body_with_hardening() {
    let policy = RateLimitPolicyConfig::TokenBucket {
        capacity: 100,
        refill_micro_tokens_per_sec: 1_000_000,
    };
    let mut gw = Gateway::from_config(test_config(policy, false));
    let mut ctx = request_ctx("/foo", Some("dev-key"));
    ctx.body = vec![0u8; 1025];
    let (executed, error) = match gw.run_middlewares(&mut ctx, 0) {
        MiddlewarePhase::Rejected { executed, error } => (executed, error),
        _ => panic!("an oversized body is rejected"),
    };
    assert_eq!(executed, 1);
    let resp = gw.conclude_error(&ctx, executed, error);
    assert_eq!(resp.status, 413);
    hardening_ok(&resp, "req-1");
}

#[test]
fn missing_api_key_is_unauthorized_but_exempt_path_passes() {
    let policy = RateLimitPolicyConfig::TokenBucket {
        capacity: 100,
        refill_micro_tokens_per_sec: 1_000_000,
    };
    let mut gw = Gateway::from_config(test_config(policy, false));
    let mut ctx = request_ctx("/foo", None);
    match gw.run_middlewares(&mut ctx, 0) {
        MiddlewarePhase::Rejected { executed, error } => {
            assert_eq!(executed, 2);
            assert_eq!(error.status(), 401);
        }
        _ => panic!("a missing key is unauthorized"),
    }
    let mut exempt = request_ctx("/health", None);
    assert!(matches!(
        gw.run_middlewares(&mut exempt, 0),
        MiddlewarePhase::Proceed { .. }
    ));
}

#[test]
fn longest_prefix_route_wins_and_no_match_is_none() {
    let policy = RateLimitPolicyConfig::TokenBucket {
        capacity: 100,
        refill_micro_tokens_per_sec: 1_000_000,
    };
    let mut cfg = test_config(policy, false);
    cfg.routes = vec![
        RouteConfig { path_prefix: String::from("/api"), upstreams: vec![String::from("svc-a")] },
        RouteConfig {
            path_prefix: String::from("/api/v2"),
            upstreams: vec![String::from("svc-b")],
        },
        RouteConfig { path_prefix: String::from("/"), upstreams: vec![String::from("svc-a")] },
    ];
    let gw = Gateway::from_config(cfg);
    assert_eq!(gw.resolve_route("/api/v2/users").unwrap().path_prefix.as_str(), "/api/v2");
    assert_eq!(gw.resolve_route("/api/v1").unwrap().path_prefix.as_str(), "/api");
    assert_eq!(gw.resolve_route("/other").unwrap().path_prefix.as_str(), "/");
    let policy2 = RateLimitPolicyConfig::TokenBucket {
        capacity: 100,
        refill_micro_tokens_per_sec: 1_000_000,
    };
    let mut cfg2 = test_config(policy2, false);
    cfg2.routes = vec![RouteConfig {
        path_prefix: String::from("/only"),
        upstreams: vec![String::from("svc-a")],
    }];
    let gw2 = Gateway::from_config(cfg2);
    assert!(gw2.resolve_route("/elsewhere").is_none());
}

#[test]
fn request_id_comes_from_header_or_is_fresh() {
    let headers = vec![(String::from("x-request-id"), String::from("abc-123"))];
    assert_eq!(derive_request_id(&headers).as_str(), "abc-123");
    let fresh = derive_request_id(&Vec::new());
    assert_eq!(fresh.as_str().chars().count(), 36);
}

#[test]
fn rate_limit_key_falls_back_to_ip_then_anonymous() {
    let limiter = RateLimiter::new(
        LimiterBackend::InMemory(InMemoryRateLimitBackend::new()),
        RateLimitPolicy {
            algorithm: RateLimitPolicyConfig::TokenBucket {
                capacity: 1,
                refill_micro_tokens_per_sec: 1,
            },
        },
    );
    let mw = RateLimitMiddleware::new(limiter, String::from("x-api-key"), false);
    let with_key = request_ctx("/p", Some("kk"));
    assert_eq!(mw.resolve_key(&with_key).as_str(), "kk");
    assert_eq!(mw.scope(&with_key).as_str(), "kk:/p");
    let mut without_key = request_ctx("/p", None);
    assert_eq!(mw.resolve_key(&without_key).as_str(), "10.0.0.9");
    without_key.client_ip = None;
    assert_eq!(mw.resolve_key(&without_key).as_str(), "anonymous");
}

#[test]
fn validation_rejects_disallowed_method_and_length_mismatch() {
    let policy = RateLimitPolicyConfig::TokenBucket {
        capacity: 100,
        refill_micro_tokens_per_sec: 1_000_000,
    };
    let mut gw = Gateway::from_config(test_config(policy, false));
    let mut ctx = request_ctx("/foo", Some("dev-key"));
    ctx.method = String::from("TRACE");
    match gw.run_middlewares(&mut ctx, 0) {
        MiddlewarePhase::Rejected { executed, error } => {
            assert_eq!(executed, 1);
            assert_eq!(error.status(), 400);
            assert_eq!(error.message().as_str(), "Method TRACE is not allowed");
        }
        _ => panic!("a disallowed method is rejected"),
    }
    let mut ctx2 = request_ctx("/foo", Some("dev-key"));
    ctx2.headers.push((String::from("content-length"), String::from("3")));
    ctx2.body = vec![1, 2];
    match gw.run_middlewares(&mut ctx2, 0) {
        MiddlewarePhase::Rejected { error, .. } => {
            assert_eq!(error.message().as_str(), "content-length does not match payload size");
        }
        _ => panic!("a length mismatch is rejected"),
    }
    // A lower-case method is upper-cased before the allow-list check.
    let mut ctx3 = request_ctx("/foo", Some("dev-key"));
    ctx3.method = String::from("get");
    assert!(matches!(gw.run_middlewares(&mut ctx3, 0), MiddlewarePhase::Proceed { .. }));
}

#[test]
fn missing_host_header_is_rejected_when_required() {
    let policy = RateLimitPolicyConfig::TokenBucket {
        capacity: 100,
        refill_micro_tokens_per_sec: 1_000_000,
    };
    let mut cfg = test_config(policy, false);
    cfg.validation.require_host_header = true;
    let mut gw = Gateway::from_config(cfg);
    let mut ctx = request_ctx("/foo", Some("dev-key"));
    ctx.headers.retain(|(n, _)| n.as_str() != "host");
    match gw.run_middlewares(&mut ctx, 0) {
        MiddlewarePhase::Rejected { error, .. } => {
            assert_eq!(error.message().as_str(), "Missing required Host header");
        }
        _ => panic!("a missing host header is rejected"),
    }
}

#[test]
fn rate_limit_on_request_applies_the_backend_decision() {
    let limiter = RateLimiter::new(
        LimiterBackend::InMemory(InMemoryRateLimitBackend::new()),
        RateLimitPolicy {
            algorithm: RateLimitPolicyConfig::TokenBucket {
                capacity: 1,
                refill_micro_tokens_per_sec: 1,
            },
        },
    );
    let mut mw = RateLimitMiddleware::new(limiter, String::from("x-api-key"), false);
    let mut ctx = request_ctx("/p", Some("kk"));
    match mw.on_request(&mut ctx, 0) {
        Ok(ControlFlow::Continue) => {}
        _ => panic!("the first call is allowed"),
    }
    let remembered = ctx
        .metadata
        .iter()
        .find(|(k, _)| k.as_str() == "ratelimit.remaining")
        .map(|(_, v)| v.as_str().to_owned());
    assert_eq!(remembered.as_deref(), Some("0"));
    let mut ctx2 = request_ctx("/p", Some("kk"));
    match mw.on_request(&mut ctx2, 0) {
        Ok(ControlFlow::ShortCircuit(resp)) => {
            assert_eq!(resp.status, 429);
            assert!(resp.headers.iter().any(|(n, _)| n.as_str() == "retry-after"));
            let body = String::from_utf8(resp.body.clone()).unwrap();
            assert_eq!(
                body,
                "{\"error\":\"rate_limited\",\"message\":\"Rate limit exceeded\"}"
            );
        }
        _ => panic!("the second call is limited"),
    }
}
