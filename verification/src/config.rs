//! Gateway configuration: route, upstream, validation, rate-limit, breaker
//! and routing settings, and the verified parsers for the compact textual
//! forms in which upstreams and routes are configured.

use vstd::prelude::*;

use crate::kvtable::{pair_views, upsert, upsert_pair};

use crate::text::{
    dec_body, dec_val, is_dec_str, parse_u64_dec, split_all, split_once_at, split_spec,
    split_trimmed, trim, trim_of, trimmed_items,
};

verus! {

/// Settings for the request-validation middleware.
#[derive(Clone)]
pub struct ValidationConfig {
    pub max_body_bytes: usize,
    pub allowed_methods: Vec<String>,
    pub require_host_header: bool,
    pub max_headers: usize,
}

/// Which rate-limit backend the gateway uses.
#[derive(Clone)]
pub enum RateLimitBackendConfig {
    InMemory,
    Redis { url: String, key_prefix: String },
}

/// The rate-limit policy. Token refill is measured in millionths of a token
/// per second, so fractional refill rates are exact integers here.
#[derive(Clone, Copy)]
pub enum RateLimitPolicyConfig {
    TokenBucket { capacity: u32, refill_micro_tokens_per_sec: u64 },
    SlidingWindow { window_seconds: u64, max_requests: u64 },
}

/// Gateway rate-limit settings.
#[derive(Clone)]
pub struct RateLimitConfig {
    pub enabled: bool,
    pub backend: RateLimitBackendConfig,
    pub policy: RateLimitPolicyConfig,
    pub key_header: String,
    pub fail_open_on_error: bool,
}

/// Circuit-breaker settings.
#[derive(Clone)]
pub struct CircuitBreakerConfig {
    pub failure_threshold: u32,
    pub open_seconds: u64,
    pub half_open_max_requests: u32,
}

/// Router scoring settings.
#[derive(Clone)]
pub struct RoutingConfig {
    pub prefer_low_latency: bool,
    pub in_flight_penalty: u64,
    pub failure_penalty: u64,
}

/// One configured upstream service.
#[derive(Clone, Debug)]
pub struct UpstreamConfig {
    pub name: String,
    pub base_url: String,
    pub weight: u32,
    pub timeout_ms: u64,
}

/// One configured route: a path prefix and the upstreams serving it.
#[derive(Clone, Debug)]
pub struct RouteConfig {
    pub path_prefix: String,
    pub upstreams: Vec<String>,
}

/// The gateway's full configuration.
#[derive(Clone)]
pub struct GatewayConfig {
    pub api_keys: Vec<String>,
    pub auth_exempt_prefixes: Vec<String>,
    pub validation: ValidationConfig,
    pub rate_limit: RateLimitConfig,
    pub circuit_breaker: CircuitBreakerConfig,
    pub routing: RoutingConfig,
    pub upstreams: Vec<UpstreamConfig>,
    pub routes: Vec<RouteConfig>,
}

/// `s` with every trailing occurrence of `c` removed.
pub open spec fn strip_trailing(s: Seq<char>, c: char) -> Seq<char>
    decreases s.len(),
{
    if s.len() > 0 && s.last() == c {
        strip_trailing(s.drop_last(), c)
    } else {
        s
    }
}

pub fn strip_trailing_char(s: &str, c: char) -> (r: String)
    ensures
        r@ == strip_trailing(s@, c),
{
    let n = s.unicode_len();
    let mut k: usize = n;
    proof {
        assert(s@.take(n as int) =~= s@);
    }
    while k > 0 && s.get_char(k - 1) == c
        invariant
            n == s@.len(),
            k <= n,
            strip_trailing(s@, c) == strip_trailing(s@.take(k as int), c),
        decreases k,
    {
        proof {
            assert(s@.take(k as int).drop_last() =~= s@.take(k - 1));
            assert(s@.take(k as int).last() == s@[k - 1]);
        }
        k = k - 1;
    }
    let r = String::from_str(s.substring_char(0, k));
    proof {
        if k > 0 {
            assert(s@.take(k as int).last() == s@[k - 1]);
        }
        assert(strip_trailing(s@.take(k as int), c) == s@.take(k as int));
        assert(r@ =~= s@.take(k as int));
    }
    r
}

/// Whether a numeral parses as an unsigned value no greater than `bound`
/// (the way `str::parse` for an unsigned type of that capacity accepts it).
pub open spec fn parses_in_range(s: Seq<char>, bound: int) -> bool {
    is_dec_str(s) && dec_val(dec_body(s)) <= bound
}

/// The result of reading one upstream chunk `name=url[@weight[@timeout]]`:
/// name, base URL, weight, and timeout, or the error message.
pub open spec fn upstream_of_chunk(chunk: Seq<char>) -> Result<
    (Seq<char>, Seq<char>, u32, u64),
    Seq<char>,
> {
    let eq_parts = split_spec(chunk, '=');
    let name = trim_of(eq_parts[0]);
    if eq_parts.len() < 2 || name.len() == 0 {
        Err("invalid upstream entry: "@ + chunk)
    } else {
        // Everything after the first '=' (later '=' signs are kept).
        let rhs = trim_of(chunk.skip(eq_parts[0].len() as int + 1));
        let at_parts = split_spec(rhs, '@');
        let base = strip_trailing(trim_of(at_parts[0]), '/');
        if base.len() == 0 {
            Err("invalid upstream URL for "@ + name)
        } else if at_parts.len() >= 2 && !parses_in_range(at_parts[1], u32::MAX as int) {
            Err("invalid upstream weight"@)
        } else if at_parts.len() >= 3 && !parses_in_range(at_parts[2], u64::MAX as int) {
            Err("invalid upstream timeout"@)
        } else {
            let weight = if at_parts.len() >= 2 {
                let w = dec_val(dec_body(at_parts[1]));
                if w < 1 {
                    1int
                } else {
                    w
                }
            } else {
                100int
            };
            let timeout = if at_parts.len() >= 3 {
                let t = dec_val(dec_body(at_parts[2]));
                if t < 100 {
                    100int
                } else {
                    t
                }
            } else {
                3000int
            };
            Ok((name, base, weight as u32, timeout as u64))
        }
    }
}

/// The result of reading a whole upstream list, chunk by chunk, skipping
/// chunks that are empty after trimming and stopping at the first error.
pub open spec fn upstreams_of(chunks: Seq<Seq<char>>) -> Result<
    Seq<(Seq<char>, Seq<char>, u32, u64)>,
    Seq<char>,
>
    decreases chunks.len(),
{
    if chunks.len() == 0 {
        Ok(Seq::empty())
    } else if trim_of(chunks[0]).len() == 0 {
        upstreams_of(chunks.drop_first())
    } else {
        match upstream_of_chunk(chunks[0]) {
            Err(m) => Err(m),
            Ok(u) => match upstreams_of(chunks.drop_first()) {
                Err(m) => Err(m),
                Ok(rest) => Ok(seq![u] + rest),
            },
        }
    }
}

/// The fields of parsed upstreams, for stating [`parse_upstreams`].
pub open spec fn upstream_views(v: Seq<UpstreamConfig>) -> Seq<(Seq<char>, Seq<char>, u32, u64)> {
    v.map_values(|u: UpstreamConfig| (u.name@, u.base_url@, u.weight, u.timeout_ms))
}

/// Glues one parsed prefix onto the outcome of parsing the remainder.
pub open spec fn with_prefix<A>(done: Seq<A>, rest: Result<Seq<A>, Seq<char>>) -> Result<
    Seq<A>,
    Seq<char>,
> {
    match rest {
        Ok(r) => Ok(done + r),
        Err(m) => Err(m),
    }
}

fn parse_upstream_chunk(chunk: &str) -> (r: Result<UpstreamConfig, String>)
    ensures
        match r {
            Ok(u) => upstream_of_chunk(chunk@) == Ok::<_, Seq<char>>(
                (u.name@, u.base_url@, u.weight, u.timeout_ms),
            ),
            Err(m) => upstream_of_chunk(chunk@) == Err::<(Seq<char>, Seq<char>, u32, u64), _>(m@),
        },
{
    match split_once_at(chunk, '=') {
        None => {
            proof {
                // Without '=' the split has a single piece.
                lemma_split_no_sep(chunk@, '=');
            }
            Err(String::from_str("invalid upstream entry: ").concat(chunk))
        },
        Some((lhs, rhs_raw)) => {
            proof {
                lemma_split_first_piece(chunk@, '=', lhs@, rhs_raw@);
            }
            let name = trim(lhs.as_str());
            if name.unicode_len() == 0 {
                return Err(String::from_str("invalid upstream entry: ").concat(chunk));
            }
            let rhs = trim(rhs_raw.as_str());
            proof {
                assert(chunk@.skip(lhs@.len() as int + 1) =~= rhs_raw@);
            }
            let at_parts = split_all(rhs.as_str(), '@');
            let base = strip_trailing_char(trim(at_parts[0].as_str()).as_str(), '/');
            if base.unicode_len() == 0 {
                return Err(String::from_str("invalid upstream URL for ").concat(name.as_str()));
            }
            let mut weight: u32 = 100;
            if at_parts.len() >= 2 {
                match parse_u64_dec(at_parts[1].as_str()) {
                    Some(w) if w <= u32::MAX as u64 => {
                        weight = if w < 1 {
                            1
                        } else {
                            w as u32
                        };
                    },
                    _ => {
                        return Err(String::from_str("invalid upstream weight"));
                    },
                }
            }
            let mut timeout_ms: u64 = 3000;
            if at_parts.len() >= 3 {
                match parse_u64_dec(at_parts[2].as_str()) {
                    Some(t) => {
                        timeout_ms = if t < 100 {
                            100
                        } else {
                            t
                        };
                    },
                    None => {
                        return Err(String::from_str("invalid upstream timeout"));
                    },
                }
            }
            Ok(UpstreamConfig { name, base_url: base, weight, timeout_ms })
        },
    }
}

/// A string without its separator splits into itself alone.
proof fn lemma_split_no_sep(s: Seq<char>, sep: char)
    requires
        !s.contains(sep),
    ensures
        split_spec(s, sep) == seq![s],
{
    lemma_split_rec_no_sep(s, sep, Seq::empty());
    assert(Seq::<char>::empty() + s =~= s);
}

proof fn lemma_split_rec_no_sep(s: Seq<char>, sep: char, cur: Seq<char>)
    requires
        !s.contains(sep),
    ensures
        crate::text::split_rec(s, sep, cur) == seq![cur + s],
    decreases s.len(),
{
    if s.len() == 0 {
        assert(cur + s =~= cur);
    } else {
        assert(s[0] != sep);
        assert(!s.drop_first().contains(sep)) by {
            assert(forall|j: int|
                0 <= j < s.drop_first().len() ==> s.drop_first()[j] == s[j + 1]);
        }
        lemma_split_rec_no_sep(s.drop_first(), sep, cur.push(s[0]));
        assert(cur.push(s[0]) + s.drop_first() =~= cur + s);
    }
}

/// Splitting a string of the form `head + sep + tail` (with `head` free of
/// `sep`) yields `head` as its first piece and the split of `tail` after it.
proof fn lemma_split_first_piece(s: Seq<char>, sep: char, head: Seq<char>, tail: Seq<char>)
    requires
        s == head + seq![sep] + tail,
        !head.contains(sep),
    ensures
        split_spec(s, sep) == seq![head] + split_spec(tail, sep),
        split_spec(s, sep)[0] == head,
        split_spec(s, sep).len() >= 2,
    decreases head.len(),
{
    if head.len() == 0 {
        assert(s.len() > 0 && s[0] == sep);
        assert(s.drop_first() =~= tail);
        assert(head =~= Seq::<char>::empty());
        assert(split_spec(s, sep) == seq![head] + split_spec(tail, sep));
        lemma_split_rec_len(tail, sep, Seq::empty());
    } else {
        assert(s[0] == head[0] && s[0] != sep);
        let s2 = head.drop_first() + seq![sep] + tail;
        assert(s.drop_first() =~= s2);
        assert(!head.drop_first().contains(sep)) by {
            assert(forall|j: int|
                0 <= j < head.drop_first().len() ==> head.drop_first()[j] == head[j + 1]);
        }
        lemma_split_first_piece(s2, sep, head.drop_first(), tail);
        lemma_split_rec_shift(s2, sep, seq![s[0]], Seq::empty());
        assert(seq![s[0]] + Seq::<char>::empty() =~= seq![s[0]]);
        assert(Seq::<char>::empty().push(s[0]) =~= seq![s[0]]);
        assert(split_spec(s, sep) == crate::text::split_rec(s2, sep, seq![s[0]]));
        assert(seq![s[0]] + crate::text::split_rec(s2, sep, Seq::empty())[0] =~= head);
        assert((seq![head.drop_first()] + split_spec(tail, sep)).drop_first() =~= split_spec(
            tail,
            sep,
        ));
        assert(split_spec(s, sep) =~= seq![head] + split_spec(tail, sep));
    }
}

/// Prepending pending characters to the accumulator prepends them to the
/// first piece of the result.
proof fn lemma_split_rec_shift(s: Seq<char>, sep: char, pre: Seq<char>, cur0: Seq<char>)
    ensures
        crate::text::split_rec(s, sep, pre + cur0) == seq![
            pre + crate::text::split_rec(s, sep, cur0)[0],
        ] + crate::text::split_rec(s, sep, cur0).drop_first(),
        crate::text::split_rec(s, sep, cur0).len() >= 1,
    decreases s.len(),
{
    if s.len() == 0 {
        assert(crate::text::split_rec(s, sep, pre + cur0) =~= seq![pre + cur0]);
        assert(seq![pre + crate::text::split_rec(s, sep, cur0)[0]] + crate::text::split_rec(
            s,
            sep,
            cur0,
        ).drop_first() =~= seq![pre + cur0]);
    } else if s[0] == sep {
        assert(crate::text::split_rec(s, sep, pre + cur0) == seq![pre + cur0]
            + crate::text::split_rec(s.drop_first(), sep, Seq::empty()));
        assert(seq![pre + crate::text::split_rec(s, sep, cur0)[0]] + crate::text::split_rec(
            s,
            sep,
            cur0,
        ).drop_first() =~= seq![pre + cur0] + crate::text::split_rec(
            s.drop_first(),
            sep,
            Seq::empty(),
        ));
    } else {
        lemma_split_rec_shift(s.drop_first(), sep, pre, cur0.push(s[0]));
        assert(pre + cur0.push(s[0]) =~= (pre + cur0).push(s[0]));
    }
}

proof fn lemma_split_rec_len(s: Seq<char>, sep: char, cur: Seq<char>)
    ensures
        crate::text::split_rec(s, sep, cur).len() >= 1,
    decreases s.len(),
{
    if s.len() == 0 {
    } else if s[0] == sep {
        lemma_split_rec_len(s.drop_first(), sep, Seq::empty());
    } else {
        lemma_split_rec_len(s.drop_first(), sep, cur.push(s[0]));
    }
}

/// Parses the upstream list `name=url[@weight[@timeout]],...`, skipping
/// blank entries; at least one upstream must remain. Weights are raised to
/// at least 1 and timeouts to at least 100 ms.
pub fn parse_upstreams(raw: &str) -> (r: Result<Vec<UpstreamConfig>, String>)
    ensures
        match r {
            Ok(ups) => {
                &&& upstreams_of(split_spec(raw@, ',')) == Ok::<_, Seq<char>>(
                    upstream_views(ups@),
                )
                &&& ups@.len() > 0
            },
            Err(m) => upstreams_of(split_spec(raw@, ',')) == Err::<
                Seq<(Seq<char>, Seq<char>, u32, u64)>,
                _,
            >(m@) || (upstreams_of(split_spec(raw@, ',')) == Ok::<_, Seq<char>>(
                Seq::<(Seq<char>, Seq<char>, u32, u64)>::empty(),
            ) && m@ == "no upstreams configured"@),
        },
{
    let chunks = split_all(raw, ',');
    let ghost cviews = split_spec(raw@, ',');
    let mut out: Vec<UpstreamConfig> = Vec::new();
    let mut i: usize = 0;
    proof {
        assert(cviews.skip(0) =~= cviews);
        assert(upstream_views(out@) + Seq::<(Seq<char>, Seq<char>, u32, u64)>::empty()
            =~= upstream_views(out@));
    }
    while i < chunks.len()
        invariant
            cviews == split_spec(raw@, ','),
            chunks@.len() == cviews.len(),
            crate::text::views_of(chunks@) == cviews,
            i <= chunks@.len(),
            upstreams_of(cviews) == with_prefix(
                upstream_views(out@),
                upstreams_of(cviews.skip(i as int)),
            ),
        decreases chunks@.len() - i,
    {
        let ghost rest = cviews.skip(i as int);
        proof {
            assert(rest.len() > 0 && rest[0] == cviews[i as int]);
            assert(rest.drop_first() =~= cviews.skip(i + 1));
            assert(chunks@[i as int]@ == cviews[i as int]);
        }
        let chunk = &chunks[i];
        let trimmed = trim(chunk.as_str());
        if trimmed.unicode_len() != 0 {
            match parse_upstream_chunk(chunk.as_str()) {
                Ok(u) => {
                    let ghost old_out = out@;
                    out.push(u);
                    proof {
                        assert(upstream_views(out@) =~= upstream_views(old_out).push(
                            (u.name@, u.base_url@, u.weight, u.timeout_ms),
                        ));
                        if upstreams_of(cviews.skip(i + 1)) is Ok {
                            let tail = upstreams_of(cviews.skip(i + 1))->Ok_0;
                            assert(upstream_views(old_out) + (seq![
                                (u.name@, u.base_url@, u.weight, u.timeout_ms),
                            ] + tail) =~= upstream_views(out@) + tail);
                        }
                    }
                },
                Err(m) => {
                    proof {
                        assert(trim_of(rest[0]).len() != 0);
                        assert(upstreams_of(rest) == Err::<
                            Seq<(Seq<char>, Seq<char>, u32, u64)>,
                            _,
                        >(m@));
                    }
                    return Err(m);
                },
            }
        }
        i = i + 1;
    }
    proof {
        assert(cviews.skip(cviews.len() as int).len() == 0);
        assert(upstream_views(out@) + Seq::<(Seq<char>, Seq<char>, u32, u64)>::empty()
            =~= upstream_views(out@));
    }
    if out.len() == 0 {
        proof {
            reveal_strlit("no upstreams configured");
        }
        return Err(String::from_str("no upstreams configured"));
    }
    Ok(out)
}

/// The result of reading one route chunk `prefix=name|name|...`: the
/// trimmed prefix (which must begin with `'/'`) and the trimmed, non-blank
/// upstream names, or the error message.
pub open spec fn route_of_chunk(chunk: Seq<char>) -> Result<
    (Seq<char>, Seq<Seq<char>>),
    Seq<char>,
> {
    let eq_parts = split_spec(chunk, '=');
    let prefix = trim_of(eq_parts[0]);
    if eq_parts.len() < 2 || prefix.len() == 0 || prefix[0] != '/' {
        Err("invalid route entry: "@ + chunk)
    } else {
        let rhs = trim_of(chunk.skip(eq_parts[0].len() as int + 1));
        let ups = trimmed_items(rhs, '|');
        if ups.len() == 0 {
            Err("route has no upstreams: "@ + chunk)
        } else {
            Ok((prefix, ups))
        }
    }
}

/// The result of reading a whole route list, chunk by chunk, skipping
/// chunks that are empty after trimming and stopping at the first error.
pub open spec fn routes_of(chunks: Seq<Seq<char>>) -> Result<
    Seq<(Seq<char>, Seq<Seq<char>>)>,
    Seq<char>,
>
    decreases chunks.len(),
{
    if chunks.len() == 0 {
        Ok(Seq::empty())
    } else if trim_of(chunks[0]).len() == 0 {
        routes_of(chunks.drop_first())
    } else {
        match route_of_chunk(chunks[0]) {
            Err(m) => Err(m),
            Ok(u) => match routes_of(chunks.drop_first()) {
                Err(m) => Err(m),
                Ok(rest) => Ok(seq![u] + rest),
            },
        }
    }
}

/// The fields of parsed routes, for stating [`parse_routes`].
pub open spec fn route_views(v: Seq<RouteConfig>) -> Seq<(Seq<char>, Seq<Seq<char>>)> {
    v.map_values(|u: RouteConfig| (u.path_prefix@, crate::text::views_of(u.upstreams@)))
}

fn parse_route_chunk(chunk: &str) -> (r: Result<RouteConfig, String>)
    ensures
        match r {
            Ok(u) => route_of_chunk(chunk@) == Ok::<_, Seq<char>>(
                (u.path_prefix@, crate::text::views_of(u.upstreams@)),
            ),
            Err(m) => route_of_chunk(chunk@) == Err::<(Seq<char>, Seq<Seq<char>>), _>(m@),
        },
{
    match split_once_at(chunk, '=') {
        None => {
            proof {
                lemma_split_no_sep(chunk@, '=');
            }
            Err(String::from_str("invalid route entry: ").concat(chunk))
        },
        Some((lhs, rhs_raw)) => {
            proof {
                lemma_split_first_piece(chunk@, '=', lhs@, rhs_raw@);
            }
            let prefix = trim(lhs.as_str());
            let pn = prefix.unicode_len();
            if pn == 0 || prefix.as_str().get_char(0) != '/' {
                return Err(String::from_str("invalid route entry: ").concat(chunk));
            }
            let rhs = trim(rhs_raw.as_str());
            proof {
                assert(chunk@.skip(lhs@.len() as int + 1) =~= rhs_raw@);
            }
            let ups = split_trimmed(rhs.as_str(), '|');
            if ups.len() == 0 {
                return Err(String::from_str("route has no upstreams: ").concat(chunk));
            }
            Ok(RouteConfig { path_prefix: prefix, upstreams: ups })
        },
    }
}

/// Parses the route list `prefix=name|name,...`, skipping blank entries; at
/// least one route must remain, and every prefix begins with `'/'`.
pub fn parse_routes(raw: &str) -> (r: Result<Vec<RouteConfig>, String>)
    ensures
        match r {
            Ok(routes) => {
                &&& routes_of(split_spec(raw@, ',')) == Ok::<_, Seq<char>>(route_views(routes@))
                &&& routes@.len() > 0
            },
            Err(m) => routes_of(split_spec(raw@, ',')) == Err::<
                Seq<(Seq<char>, Seq<Seq<char>>)>,
                _,
            >(m@) || (routes_of(split_spec(raw@, ',')) == Ok::<_, Seq<char>>(
                Seq::<(Seq<char>, Seq<Seq<char>>)>::empty(),
            ) && m@ == "no routes configured"@),
        },
{
    let chunks = split_all(raw, ',');
    let ghost cviews = split_spec(raw@, ',');
    let mut out: Vec<RouteConfig> = Vec::new();
    let mut i: usize = 0;
    proof {
        assert(cviews.skip(0) =~= cviews);
        assert(route_views(out@) + Seq::<(Seq<char>, Seq<Seq<char>>)>::empty() =~= route_views(
            out@,
        ));
    }
    while i < chunks.len()
        invariant
            cviews == split_spec(raw@, ','),
            chunks@.len() == cviews.len(),
            crate::text::views_of(chunks@) == cviews,
            i <= chunks@.len(),
            routes_of(cviews) == with_prefix(route_views(out@), routes_of(cviews.skip(i as int))),
        decreases chunks@.len() - i,
    {
        let ghost rest = cviews.skip(i as int);
        proof {
            assert(rest.len() > 0 && rest[0] == cviews[i as int]);
            assert(rest.drop_first() =~= cviews.skip(i + 1));
            assert(chunks@[i as int]@ == cviews[i as int]);
        }
        let chunk = &chunks[i];
        let trimmed = trim(chunk.as_str());
        if trimmed.unicode_len() != 0 {
            match parse_route_chunk(chunk.as_str()) {
                Ok(u) => {
                    let ghost old_out = out@;
                    let ghost uv = (u.path_prefix@, crate::text::views_of(u.upstreams@));
                    out.push(u);
                    proof {
                        assert(route_views(out@) =~= route_views(old_out).push(uv));
                        if routes_of(cviews.skip(i + 1)) is Ok {
                            let tail = routes_of(cviews.skip(i + 1))->Ok_0;
                            assert(route_views(old_out) + (seq![uv] + tail) =~= route_views(out@)
                                + tail);
                        }
                    }
                },
                Err(m) => {
                    proof {
                        assert(trim_of(rest[0]).len() != 0);
                        assert(routes_of(rest) == Err::<Seq<(Seq<char>, Seq<Seq<char>>)>, _>(m@));
                    }
                    return Err(m);
                },
            }
        }
        i = i + 1;
    }
    proof {
        assert(cviews.skip(cviews.len() as int).len() == 0);
        assert(route_views(out@) + Seq::<(Seq<char>, Seq<Seq<char>>)>::empty() =~= route_views(
            out@,
        ));
    }
    if out.len() == 0 {
        proof {
            reveal_strlit("no routes configured");
        }
        return Err(String::from_str("no routes configured"));
    }
    Ok(out)
}

/// The key-to-tenant table read from csv entries of the form
/// `tenant:key`, later entries overriding earlier ones for the same key;
/// entries without `':'` are skipped.
pub open spec fn api_keys_of_items(items: Seq<Seq<char>>) -> Seq<(Seq<char>, Seq<char>)>
    decreases items.len(),
{
    if items.len() == 0 {
        Seq::empty()
    } else {
        let prior = api_keys_of_items(items.drop_last());
        let entry = items.last();
        let colon_parts = split_spec(entry, ':');
        if colon_parts.len() < 2 {
            prior
        } else {
            let tenant = colon_parts[0];
            let key = entry.skip(colon_parts[0].len() as int + 1);
            upsert(prior, key, tenant)
        }
    }
}

/// Parses `tenant:key` pairs from a comma-separated list into a
/// key-to-tenant table; a later pair for the same key replaces the earlier
/// tenant. An input yielding no pairs gets the single default pair
/// `dev-key` -> `default`.
pub fn parse_api_keys(input: &str) -> (r: Vec<(String, String)>)
    ensures
        api_keys_of_items(trimmed_items(input@, ',')).len() > 0 ==> pair_views(r@)
            == api_keys_of_items(trimmed_items(input@, ',')),
        api_keys_of_items(trimmed_items(input@, ',')).len() == 0 ==> pair_views(r@) == seq![
            ("dev-key"@, "default"@),
        ],
{
    let items = split_trimmed(input, ',');
    let ghost iv = trimmed_items(input@, ',');
    let mut table: Vec<(String, String)> = Vec::new();
    let mut i: usize = 0;
    proof {
        assert(iv.take(0) =~= Seq::<Seq<char>>::empty());
    }
    while i < items.len()
        invariant
            iv == trimmed_items(input@, ','),
            crate::text::views_of(items@) == iv,
            items@.len() == iv.len(),
            i <= iv.len(),
            pair_views(table@) == api_keys_of_items(iv.take(i as int)),
        decreases iv.len() - i,
    {
        proof {
            assert(items@[i as int]@ == iv[i as int]);
            assert(iv.take(i + 1).drop_last() =~= iv.take(i as int));
            assert(iv.take(i + 1).last() == iv[i as int]);
        }
        let entry = &items[i];
        match split_once_at(entry.as_str(), ':') {
            Some((tenant, key)) => {
                proof {
                    lemma_split_first_piece(entry@, ':', tenant@, key@);
                    assert(entry@.skip(tenant@.len() as int + 1) =~= key@);
                }
                upsert_pair(&mut table, key, tenant);
            },
            None => {
                proof {
                    lemma_split_no_sep(entry@, ':');
                }
            },
        }
        i = i + 1;
    }
    proof {
        assert(iv.take(iv.len() as int) =~= iv);
    }
    if table.len() == 0 {
        let mut fresh: Vec<(String, String)> = Vec::new();
        fresh.push((String::from_str("dev-key"), String::from_str("default")));
        proof {
            assert(pair_views(fresh@) =~= seq![("dev-key"@, "default"@)]);
        }
        return fresh;
    }
    table
}

} // verus!
