use gateway_core::config::{parse_api_keys, parse_routes, parse_upstreams};
use gateway_core::errors::{EngineError, GatewayError};
use gateway_core::middleware::timing_safe_eq;
use gateway_core::ratelimit::{
    distributed_key, sliding_window_ttl_secs, token_bucket_ttl_secs, window_member,
};
use gateway_core::text::{parse_u64_dec, split_all, split_trimmed, trim, u64_to_dec};

#[test]
fn splits_keep_every_piece() {
    let parts = split_all("a,b,,c", ',');
    let views: Vec<&str> = parts.iter().map(|s| s.as_str()).collect();
    assert_eq!(views, vec!["a", "b", "", "c"]);
    let one = split_all("", ',');
    assert_eq!(one.len(), 1);
    assert_eq!(one[0].as_str(), "");
}

#[test]
fn split_trimmed_drops_blanks() {
    let parts = split_trimmed("  a , ,b  ,", ',');
    let views: Vec<&str> = parts.iter().map(|s| s.as_str()).collect();
    assert_eq!(views, vec!["a", "b"]);
}

#[test]
fn trim_removes_whitespace_ends() {
    assert_eq!(trim("  hi \n").as_str(), "hi");
    assert_eq!(trim("").as_str(), "");
}

#[test]
fn decimal_parse_and_render() {
    assert_eq!(parse_u64_dec("0"), Some(0));
    assert_eq!(parse_u64_dec("+123"), Some(123));
    assert_eq!(parse_u64_dec("18446744073709551615"), Some(u64::MAX));
    assert_eq!(parse_u64_dec("18446744073709551616"), None);
    assert_eq!(parse_u64_dec(""), None);
    assert_eq!(parse_u64_dec("12a"), None);
    assert_eq!(u64_to_dec(0).as_str(), "0");
    assert_eq!(u64_to_dec(90210).as_str(), "90210");
}

#[test]
fn constant_time_eq_is_equality() {
    assert!(gateway_core::constant_time_eq(b"key-1", b"key-1"));
    assert!(!gateway_core::constant_time_eq(b"key-1", b"key-2"));
    assert!(!gateway_core::constant_time_eq(b"key", b"key-longer"));
    assert!(gateway_core::constant_time_eq(b"", b""));
}

#[test]
fn timing_safe_eq_is_equality() {
    assert!(timing_safe_eq(b"abc", b"abc"));
    assert!(!timing_safe_eq(b"abc", b"abd"));
    assert!(!timing_safe_eq(b"abc", b"ab"));
    let zeros = [0u8; 256];
    assert!(!timing_safe_eq(&zeros, b""));
}

#[test]
fn parses_upstream_list() {
    let ups = parse_upstreams("svc-a=http://127.0.0.1:9001,svc-b=http://h/@7@2500").unwrap();
    assert_eq!(ups.len(), 2);
    assert_eq!(ups[0].name.as_str(), "svc-a");
    assert_eq!(ups[0].base_url.as_str(), "http://127.0.0.1:9001");
    assert_eq!(ups[0].weight, 100);
    assert_eq!(ups[0].timeout_ms, 3000);
    assert_eq!(ups[1].base_url.as_str(), "http://h");
    assert_eq!(ups[1].weight, 7);
    assert_eq!(ups[1].timeout_ms, 2500);
}

#[test]
fn upstream_floors_apply() {
    let ups = parse_upstreams("s=http://h@0@10").unwrap();
    assert_eq!(ups[0].weight, 1);
    assert_eq!(ups[0].timeout_ms, 100);
}

#[test]
fn upstream_errors() {
    assert_eq!(
        parse_upstreams("plainname").unwrap_err().as_str(),
        "invalid upstream entry: plainname"
    );
    assert_eq!(
        parse_upstreams("s=///").unwrap_err().as_str(),
        "invalid upstream URL for s"
    );
    assert_eq!(
        parse_upstreams("s=http://h@x").unwrap_err().as_str(),
        "invalid upstream weight"
    );
    assert_eq!(parse_upstreams("  ,  ").unwrap_err().as_str(), "no upstreams configured");
}

#[test]
fn parses_route_list() {
    let routes = parse_routes("/=svc-a|svc-b,/health=svc-a").unwrap();
    assert_eq!(routes.len(), 2);
    assert_eq!(routes[0].path_prefix.as_str(), "/");
    assert_eq!(routes[0].upstreams.len(), 2);
    assert_eq!(routes[1].path_prefix.as_str(), "/health");
    assert_eq!(routes[1].upstreams[0].as_str(), "svc-a");
}

#[test]
fn route_errors() {
    assert_eq!(
        parse_routes("health=svc").unwrap_err().as_str(),
        "invalid route entry: health=svc"
    );
    assert_eq!(
        parse_routes("/x=| |").unwrap_err().as_str(),
        "route has no upstreams: /x=| |"
    );
    assert_eq!(parse_routes("").unwrap_err().as_str(), "no routes configured");
}

#[test]
fn api_keys_parse_with_default() {
    let keys = parse_api_keys("tenant-a:key-a, tenant-b:key-b,junk");
    assert_eq!(keys.len(), 2);
    assert_eq!(keys[0].0.as_str(), "key-a");
    assert_eq!(keys[0].1.as_str(), "tenant-a");
    let fallback = parse_api_keys("nocolon");
    assert_eq!(fallback.len(), 1);
    assert_eq!(fallback[0].0.as_str(), "dev-key");
    assert_eq!(fallback[0].1.as_str(), "default");
    let overridden = parse_api_keys("t1:k,t2:k");
    assert_eq!(overridden.len(), 1);
    assert_eq!(overridden[0].1.as_str(), "t2");
}

#[test]
fn gateway_error_renders_exact_json() {
    let resp = GatewayError::Unauthorized.into_response();
    assert_eq!(resp.status, 401);
    let body = String::from_utf8(resp.body.clone()).unwrap();
    assert_eq!(body, "{\"error\":\"unauthorized\",\"message\":\"Invalid or missing API key\"}");
    assert_eq!(resp.headers[0].0.as_str(), "content-type");
    assert_eq!(resp.headers[0].1.as_str(), "application/json");
}

#[test]
fn gateway_error_statuses() {
    assert_eq!(GatewayError::RateLimited { retry_after_secs: 3 }.status(), 429);
    assert_eq!(GatewayError::Validation(String::from("x")).status(), 400);
    assert_eq!(GatewayError::RouteNotFound.status(), 404);
    assert_eq!(GatewayError::UpstreamUnavailable.status(), 503);
    assert_eq!(GatewayError::Upstream(String::from("x")).status(), 502);
    assert_eq!(GatewayError::PayloadTooLarge.status(), 413);
    assert_eq!(GatewayError::Internal(String::from("x")).status(), 500);
    assert_eq!(GatewayError::RouteNotFound.code(), "route_not_found");
    assert_eq!(GatewayError::Validation(String::from("x")).code(), "validation");
}

#[test]
fn validation_error_renders_spec_code() {
    let resp = GatewayError::Validation(String::from("Missing required Host header"))
        .into_response();
    assert_eq!(resp.status, 400);
    let body = String::from_utf8(resp.body.clone()).unwrap();
    assert_eq!(
        body,
        "{\"error\":\"validation\",\"message\":\"Missing required Host header\"}"
    );
}

#[test]
fn distributed_store_helpers_compute_exactly() {
    assert_eq!(distributed_key("gw:rl", "key:/p").as_str(), "gw:rl:key:/p");
    // Two tokens at one token per second fill in two seconds; double it.
    assert_eq!(token_bucket_ttl_secs(2, 1_000_000), 4);
    // A half-token-per-second refill of one token rounds up to two seconds.
    assert_eq!(token_bucket_ttl_secs(1, 500_000), 4);
    // A zero-capacity bucket still lives for the minimum two seconds.
    assert_eq!(token_bucket_ttl_secs(0, 1_000_000), 2);
    assert_eq!(sliding_window_ttl_secs(60), 61);
    assert_eq!(window_member(1700000000123, "req-9").as_str(), "1700000000123-req-9");
}

#[test]
fn rate_limited_response_carries_retry_after() {
    let resp = GatewayError::RateLimited { retry_after_secs: 7 }.into_response();
    assert_eq!(resp.status, 429);
    let retry = resp
        .headers
        .iter()
        .find(|(n, _)| n.as_str() == "retry-after")
        .map(|(_, v)| v.as_str());
    assert_eq!(retry, Some("7"));
}

#[test]
fn json_escaping_in_error_body() {
    let resp = GatewayError::Internal(String::from("a \"quoted\"\nline")).into_response();
    let body = String::from_utf8(resp.body.clone()).unwrap();
    assert_eq!(
        body,
        "{\"error\":\"internal_error\",\"message\":\"a \\\"quoted\\\"\\nline\"}"
    );
}

#[test]
fn json_escaping_covers_all_control_characters() {
    let message = format!("a{}b{}c{}d{}e", '\u{1}', '\u{8}', '\u{c}', '\u{1f}');
    let resp = GatewayError::Upstream(message).into_response();
    let body = String::from_utf8(resp.body.clone()).unwrap();
    assert_eq!(
        body,
        "{\"error\":\"upstream_error\",\"message\":\"a\\u0001b\\bc\\fd\\u001fe\"}"
    );
    assert!(serde_json::from_str::<serde_json::Value>(&body).is_ok());
}

#[test]
fn engine_error_renders_exact_json() {
    let resp = EngineError::InvalidRequest(String::from("code is empty")).into_response();
    assert_eq!(resp.status, 400);
    let body = String::from_utf8(resp.body.clone()).unwrap();
    assert_eq!(body, "{\"error\":\"invalid request: code is empty\"}");
    assert_eq!(EngineError::QueueFull.status(), 503);
    assert_eq!(EngineError::NotFound.status(), 404);
    assert_eq!(EngineError::Forbidden.status(), 403);
    assert_eq!(EngineError::RateLimited.status(), 429);
}
