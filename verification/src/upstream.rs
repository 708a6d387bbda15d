//! The upstream pool: per-upstream configuration and live statistics, the
//! request a forward sends (target URL and filtered headers), and the
//! bookkeeping around a forward's outcome. The in-flight counter's
//! round trip is proved at the end of the module.

use vstd::prelude::*;

use crate::config::{strip_trailing, strip_trailing_char, RouteConfig, UpstreamConfig};
use crate::context::{HttpResponse, RequestContext};
use crate::errors::GatewayError;
use crate::keyed::{find_index, keyed_view, keys_unique, lemma_view_push, lemma_view_update};
use crate::kvtable::pair_views;
use crate::router::UpstreamSnapshot;
use crate::text::{upper_char, upper_of};

verus! {

/// The live statistics of one upstream. Counters wrap at the 64-bit
/// boundary, as hardware counters do.
#[derive(Clone, Copy, PartialEq, Eq, Structural)]
pub struct UpstreamStats {
    pub in_flight: u64,
    pub consecutive_failures: u64,
    pub success_total: u64,
    pub failure_total: u64,
    pub avg_latency_micros: u64,
}

/// Statistics before any request was seen.
pub open spec fn fresh_stats() -> UpstreamStats {
    UpstreamStats {
        in_flight: 0,
        consecutive_failures: 0,
        success_total: 0,
        failure_total: 0,
        avg_latency_micros: 0,
    }
}

/// Increment wrapping at the 64-bit boundary.
pub open spec fn wrap_inc(x: u64) -> u64 {
    if x == u64::MAX {
        0
    } else {
        (x + 1) as u64
    }
}

/// Decrement wrapping at the 64-bit boundary.
pub open spec fn wrap_dec(x: u64) -> u64 {
    if x == 0 {
        u64::MAX
    } else {
        (x - 1) as u64
    }
}

/// Exponentially weighted latency smoothing with factor one eighth: the
/// first sample replaces a zero average; afterwards the new average is
/// seven parts old, one part new.
pub open spec fn ewma(current: u64, sample: u64) -> int {
    if current == 0 {
        sample as int
    } else {
        (current * 7 + sample) / 8
    }
}

/// A success: bump the total, clear consecutive failures, fold the
/// observed latency into the average.
pub open spec fn spec_record_success(s: UpstreamStats, latency_micros: u64) -> UpstreamStats {
    UpstreamStats {
        in_flight: s.in_flight,
        consecutive_failures: 0,
        success_total: wrap_inc(s.success_total),
        failure_total: s.failure_total,
        avg_latency_micros: ewma(s.avg_latency_micros, latency_micros) as u64,
    }
}

/// A failure: bump both failure counters.
pub open spec fn spec_record_failure(s: UpstreamStats) -> UpstreamStats {
    UpstreamStats {
        in_flight: s.in_flight,
        consecutive_failures: wrap_inc(s.consecutive_failures),
        success_total: s.success_total,
        failure_total: wrap_inc(s.failure_total),
        avg_latency_micros: s.avg_latency_micros,
    }
}

impl UpstreamStats {
    /// Records a successful call and its latency.
    pub fn record_success(&mut self, latency_micros: u64)
        ensures
            *final(self) == spec_record_success(*old(self), latency_micros),
    {
        self.success_total = if self.success_total == u64::MAX {
            0
        } else {
            self.success_total + 1
        };
        self.consecutive_failures = 0;
        let current = self.avg_latency_micros;
        if current == 0 {
            self.avg_latency_micros = latency_micros;
        } else {
            let wide: u128 = (current as u128) * 7 + (latency_micros as u128);
            let smoothed: u128 = wide / 8;
            proof {
                assert((current * 7 + latency_micros) / 8 <= u64::MAX) by (nonlinear_arith)
                    requires
                        current <= u64::MAX,
                        latency_micros <= u64::MAX,
                ;
            }
            self.avg_latency_micros = smoothed as u64;
        }
    }

    /// Records a failed call.
    pub fn record_failure(&mut self)
        ensures
            *final(self) == spec_record_failure(*old(self)),
    {
        self.failure_total = if self.failure_total == u64::MAX {
            0
        } else {
            self.failure_total + 1
        };
        self.consecutive_failures = if self.consecutive_failures == u64::MAX {
            0
        } else {
            self.consecutive_failures + 1
        };
    }
}

/// Whether a header may be forwarded through the proxy: hop-by-hop and
/// length-bearing headers are stripped, compared without regard to ASCII
/// case.
pub open spec fn spec_should_forward(name: Seq<char>) -> bool {
    let u = upper_of(name);
    &&& u != upper_of("connection"@)
    &&& u != upper_of("keep-alive"@)
    &&& u != upper_of("proxy-authenticate"@)
    &&& u != upper_of("proxy-authorization"@)
    &&& u != upper_of("te"@)
    &&& u != upper_of("trailer"@)
    &&& u != upper_of("transfer-encoding"@)
    &&& u != upper_of("upgrade"@)
    &&& u != upper_of("host"@)
    &&& u != upper_of("content-length"@)
}

/// Case-insensitive ASCII equality.
fn eq_ci(a: &str, b: &str) -> (r: bool)
    ensures
        r == (upper_of(a@) == upper_of(b@)),
{
    let an = a.unicode_len();
    let bn = b.unicode_len();
    if an != bn {
        assert(upper_of(a@).len() == a@.len() && upper_of(b@).len() == b@.len());
        return false;
    }
    let mut i: usize = 0;
    while i < an
        invariant
            an == a@.len(),
            bn == b@.len(),
            an == bn,
            i <= an,
            forall|j: int| 0 <= j < i ==> upper_char(a@[j]) == upper_char(b@[j]),
        decreases an - i,
    {
        let ca = char_upper_local(a.get_char(i));
        let cb = char_upper_local(b.get_char(i));
        if ca != cb {
            assert(upper_of(a@)[i as int] != upper_of(b@)[i as int]);
            return false;
        }
        i = i + 1;
    }
    proof {
        assert(upper_of(a@) =~= upper_of(b@));
    }
    true
}

fn char_upper_local(c: char) -> (r: char)
    ensures
        r == upper_char(c),
{
    match c {
        'a' => 'A',
        'b' => 'B',
        'c' => 'C',
        'd' => 'D',
        'e' => 'E',
        'f' => 'F',
        'g' => 'G',
        'h' => 'H',
        'i' => 'I',
        'j' => 'J',
        'k' => 'K',
        'l' => 'L',
        'm' => 'M',
        'n' => 'N',
        'o' => 'O',
        'p' => 'P',
        'q' => 'Q',
        'r' => 'R',
        's' => 'S',
        't' => 'T',
        'u' => 'U',
        'v' => 'V',
        'w' => 'W',
        'x' => 'X',
        'y' => 'Y',
        'z' => 'Z',
        _ => c,
    }
}

/// Decides whether one header survives the proxy's strip list.
pub fn should_forward_header(name: &str) -> (r: bool)
    ensures
        r == spec_should_forward(name@),
{
    if eq_ci(name, "connection") {
        return false;
    }
    if eq_ci(name, "keep-alive") {
        return false;
    }
    if eq_ci(name, "proxy-authenticate") {
        return false;
    }
    if eq_ci(name, "proxy-authorization") {
        return false;
    }
    if eq_ci(name, "te") {
        return false;
    }
    if eq_ci(name, "trailer") {
        return false;
    }
    if eq_ci(name, "transfer-encoding") {
        return false;
    }
    if eq_ci(name, "upgrade") {
        return false;
    }
    if eq_ci(name, "host") {
        return false;
    }
    if eq_ci(name, "content-length") {
        return false;
    }
    true
}

/// The headers that survive the strip list, in their original order.
pub open spec fn forwardable(headers: Seq<(Seq<char>, Seq<char>)>) -> Seq<(Seq<char>, Seq<char>)> {
    headers.filter(|p: (Seq<char>, Seq<char>)| spec_should_forward(p.0))
}

/// Copies the headers that survive the strip list.
pub fn filter_forwardable(headers: &Vec<(String, String)>) -> (r: Vec<(String, String)>)
    ensures
        pair_views(r@) == forwardable(pair_views(headers@)),
{
    let ghost m = pair_views(headers@);
    let mut out: Vec<(String, String)> = Vec::new();
    let mut i: usize = 0;
    proof {
        reveal(Seq::filter);
        assert(m.take(0) =~= Seq::<(Seq<char>, Seq<char>)>::empty());
        assert(pair_views(out@) =~= m.take(0).filter(
            |p: (Seq<char>, Seq<char>)| spec_should_forward(p.0),
        ));
    }
    while i < headers.len()
        invariant
            m == pair_views(headers@),
            headers@.len() == m.len(),
            i <= m.len(),
            pair_views(out@) == m.take(i as int).filter(
                |p: (Seq<char>, Seq<char>)| spec_should_forward(p.0),
            ),
        decreases m.len() - i,
    {
        proof {
            reveal(Seq::filter);
            assert(m[i as int] == (headers@[i as int].0@, headers@[i as int].1@));
            assert(m.take(i + 1).drop_last() =~= m.take(i as int));
            assert(m.take(i + 1).last() == m[i as int]);
        }
        if should_forward_header(headers[i].0.as_str()) {
            let ghost old_out = out@;
            let pair = (headers[i].0.clone(), headers[i].1.clone());
            out.push(pair);
            proof {
                assert(pair_views(out@) =~= pair_views(old_out).push(m[i as int]));
            }
        }
        i = i + 1;
    }
    proof {
        assert(m.take(m.len() as int) =~= m);
    }
    out
}

/// The path-and-query portion of the proxied URL.
pub open spec fn path_and_query(ctx: RequestContext) -> Seq<char> {
    match ctx.query {
        Some(q) => ctx.path@ + "?"@ + q@,
        None => ctx.path@,
    }
}

/// The full target URL of a forward: the base URL without trailing
/// slashes, then the request's path and query.
pub open spec fn target_url(upstream: UpstreamConfig, ctx: RequestContext) -> Seq<char> {
    strip_trailing(upstream.base_url@, '/') + path_and_query(ctx)
}

/// The headers a forward sends: the survivors of the strip list, then the
/// request id, then the client address when one is known.
pub open spec fn forward_headers(ctx: RequestContext) -> Seq<(Seq<char>, Seq<char>)> {
    let base = forwardable(pair_views(ctx.headers@)).push(("x-request-id"@, ctx.request_id@));
    match ctx.client_ip {
        Some(ip) => base.push(("x-forwarded-for"@, ip@)),
        None => base,
    }
}

/// Everything the transport needs to perform one forward.
pub struct ProxiedRequest {
    pub method: String,
    pub url: String,
    pub headers: Vec<(String, String)>,
    pub body: Vec<u8>,
    pub timeout_ms: u64,
}

/// How a forward came back: a response from the upstream, or a transport
/// failure with its message.
pub enum ForwardOutcome {
    Response { status: u16, headers: Vec<(String, String)>, body: Vec<u8> },
    TransportError { message: String },
}

/// The pool of configured upstreams and their live statistics.
pub struct UpstreamPool {
    pub services: Vec<(String, UpstreamConfig)>,
    pub stats: Vec<(String, UpstreamStats)>,
}

/// The service table a list of upstream configurations denotes: later
/// entries override earlier ones of the same name.
pub open spec fn build_services(list: Seq<UpstreamConfig>) -> Map<Seq<char>, UpstreamConfig>
    decreases list.len(),
{
    if list.len() == 0 {
        Map::empty()
    } else {
        build_services(list.drop_last()).insert(list.last().name@, list.last())
    }
}

impl UpstreamPool {
    /// Both tables are keyed uniquely and track the same names.
    pub open spec fn wf(&self) -> bool {
        &&& keys_unique(self.services@)
        &&& keys_unique(self.stats@)
        &&& keyed_view(self.stats@).dom() == keyed_view(self.services@).dom()
    }

    /// The configured service of each name.
    pub open spec fn services_view(&self) -> Map<Seq<char>, UpstreamConfig> {
        keyed_view(self.services@)
    }

    /// The live statistics of each name.
    pub open spec fn stats_view(&self) -> Map<Seq<char>, UpstreamStats> {
        keyed_view(self.stats@)
    }

    /// A pool serving the given upstreams, each starting with fresh
    /// statistics; a repeated name keeps only its last configuration.
    pub fn new(upstreams: Vec<UpstreamConfig>) -> (r: UpstreamPool)
        ensures
            r.wf(),
            r.services_view() == build_services(upstreams@),
            r.stats_view().dom() == build_services(upstreams@).dom(),
            forall|k: Seq<char>|
                r.stats_view().contains_key(k) ==> r.stats_view()[k] == fresh_stats(),
    {
        let mut pool = UpstreamPool { services: Vec::new(), stats: Vec::new() };
        let mut i: usize = 0;
        proof {
            assert(upstreams@.take(0) =~= Seq::<UpstreamConfig>::empty());
        }
        while i < upstreams.len()
            invariant
                i <= upstreams@.len(),
                pool.wf(),
                pool.services_view() == build_services(upstreams@.take(i as int)),
                pool.stats_view().dom() == build_services(upstreams@.take(i as int)).dom(),
                forall|k: Seq<char>|
                    pool.stats_view().contains_key(k) ==> pool.stats_view()[k] == fresh_stats(),
            decreases upstreams@.len() - i,
        {
            proof {
                assert(upstreams@.take(i + 1).drop_last() =~= upstreams@.take(i as int));
                assert(upstreams@.take(i + 1).last() == upstreams@[i as int]);
            }
            let cfg = duplicate_upstream(&upstreams[i]);
            let name = cfg.name.clone();
            let ghost pre_services = pool.services@;
            match find_index(&pool.services, name.as_str()) {
                Some(j) => {
                    proof {
                        lemma_view_update(pool.services@, j as int, cfg);
                    }
                    let key = pool.services[j].0.clone();
                    pool.services.set(j, (key, cfg));
                    proof {
                        assert(pool.services@ =~= pre_services.update(
                            j as int,
                            (pre_services[j as int].0, cfg),
                        ));
                    }
                },
                None => {
                    proof {
                        lemma_view_push(pool.services@, name, cfg);
                    }
                    pool.services.push((name, cfg));
                },
            }
            let stat_name = upstreams[i].name.clone();
            let fresh = fresh_stats_exec();
            let ghost pre_stats = pool.stats@;
            match find_index(&pool.stats, stat_name.as_str()) {
                Some(j) => {
                    proof {
                        lemma_view_update(pool.stats@, j as int, fresh);
                    }
                    let key = pool.stats[j].0.clone();
                    pool.stats.set(j, (key, fresh));
                    proof {
                        assert(pool.stats@ =~= pre_stats.update(
                            j as int,
                            (pre_stats[j as int].0, fresh),
                        ));
                    }
                },
                None => {
                    proof {
                        lemma_view_push(pool.stats@, stat_name, fresh);
                    }
                    pool.stats.push((stat_name, fresh));
                },
            }
            proof {
                assert(pool.services_view() =~= build_services(upstreams@.take(i + 1)));
                assert(pool.stats_view().dom() =~= build_services(upstreams@.take(i + 1)).dom());
            }
            i = i + 1;
        }
        proof {
            assert(upstreams@.take(upstreams@.len() as int) =~= upstreams@);
        }
        pool
    }

    /// The configuration of a named upstream, if one is configured.
    pub fn get(&self, name: &str) -> (r: Option<UpstreamConfig>)
        requires
            self.wf(),
        ensures
            match r {
                Some(u) => self.services_view().contains_key(name@) && u
                    == self.services_view().index(name@),
                None => !self.services_view().contains_key(name@),
            },
    {
        match find_index(&self.services, name) {
            Some(j) => Some(duplicate_upstream(&self.services[j].1)),
            None => None,
        }
    }

    /// The configured upstreams a route names, in the route's order,
    /// skipping names that are not configured.
    pub fn route_candidates(&self, route: &RouteConfig) -> (r: Vec<UpstreamConfig>)
        requires
            self.wf(),
        ensures
            r@ == candidates_of(self.services_view(), crate::text::views_of(route.upstreams@)),
    {
        let ghost names = crate::text::views_of(route.upstreams@);
        let mut out: Vec<UpstreamConfig> = Vec::new();
        let mut i: usize = 0;
        proof {
            assert(names.take(0) =~= Seq::<Seq<char>>::empty());
            assert(out@ =~= candidates_of(self.services_view(), names.take(0)));
        }
        while i < route.upstreams.len()
            invariant
                self.wf(),
                names == crate::text::views_of(route.upstreams@),
                route.upstreams@.len() == names.len(),
                i <= names.len(),
                out@ == candidates_of(self.services_view(), names.take(i as int)),
            decreases names.len() - i,
        {
            proof {
                assert(names[i as int] == route.upstreams@[i as int]@);
                assert(names.take(i + 1).drop_last() =~= names.take(i as int));
                assert(names.take(i + 1).last() == names[i as int]);
            }
            match self.get(route.upstreams[i].as_str()) {
                Some(u) => {
                    out.push(u);
                },
                None => {
                },
            }
            i = i + 1;
        }
        proof {
            assert(names.take(names.len() as int) =~= names);
        }
        out
    }

    /// A copy of the named upstream's statistics, with the latency exposed
    /// in milliseconds; zeros if the name is unknown.
    pub fn snapshot(&self, name: &str) -> (r: UpstreamSnapshot)
        requires
            self.wf(),
        ensures
            r == spec_snapshot(self.stats_view(), name@),
    {
        match find_index(&self.stats, name) {
            Some(j) => {
                let s = self.stats[j].1;
                UpstreamSnapshot {
                    in_flight: s.in_flight,
                    consecutive_failures: s.consecutive_failures,
                    success_total: s.success_total,
                    failure_total: s.failure_total,
                    avg_latency_ms: s.avg_latency_micros / 1000,
                }
            },
            None => UpstreamSnapshot {
                in_flight: 0,
                consecutive_failures: 0,
                success_total: 0,
                failure_total: 0,
                avg_latency_ms: 0,
            },
        }
    }

    /// Starts a forward: raises the upstream's in-flight count and builds
    /// the request the transport will send, with the target URL and the
    /// filtered headers pinned down exactly. An unknown upstream is an
    /// internal error.
    pub fn begin_forward(&mut self, ctx: &RequestContext, upstream: &UpstreamConfig) -> (r: Result<
        ProxiedRequest,
        GatewayError,
    >)
        requires
            old(self).wf(),
        ensures
            final(self).wf(),
            final(self).services_view() == old(self).services_view(),
            match r {
                Ok(p) => {
                    &&& old(self).stats_view().contains_key(upstream.name@)
                    &&& final(self).stats_view() == old(self).stats_view().insert(
                        upstream.name@,
                        (UpstreamStats {
                            in_flight: wrap_inc(old(self).stats_view()[upstream.name@].in_flight),
                            ..old(self).stats_view()[upstream.name@]
                        }),
                    )
                    &&& p.method == ctx.method
                    &&& p.url@ == target_url(*upstream, *ctx)
                    &&& pair_views(p.headers@) == forward_headers(*ctx)
                    &&& p.body@ == ctx.body@
                    &&& p.timeout_ms == upstream.timeout_ms
                },
                Err(e) => {
                    &&& !old(self).stats_view().contains_key(upstream.name@)
                    &&& e matches GatewayError::Internal(m) && m@
                        == "upstream stats unavailable"@
                    &&& final(self).stats_view() == old(self).stats_view()
                },
            },
    {
        let j = match find_index(&self.stats, upstream.name.as_str()) {
            Some(j) => j,
            None => {
                return Err(
                    GatewayError::Internal(String::from_str("upstream stats unavailable")),
                );
            },
        };
        let s = self.stats[j].1;
        let bumped = UpstreamStats {
            in_flight: if s.in_flight == u64::MAX {
                0
            } else {
                s.in_flight + 1
            },
            ..s
        };
        self.set_stats(j, bumped);
        let url = build_target_url(upstream, ctx);
        let mut headers = filter_forwardable(&ctx.headers);
        let ghost base = pair_views(headers@);
        headers.push((String::from_str("x-request-id"), ctx.request_id.clone()));
        proof {
            assert(pair_views(headers@) =~= base.push(("x-request-id"@, ctx.request_id@)));
        }
        let ghost with_rid = pair_views(headers@);
        match &ctx.client_ip {
            Some(ip) => {
                headers.push((String::from_str("x-forwarded-for"), ip.clone()));
                proof {
                    assert(pair_views(headers@) =~= with_rid.push(
                        ("x-forwarded-for"@, ctx.client_ip->0@),
                    ));
                }
            },
            None => {
            },
        }
        Ok(
            ProxiedRequest {
                method: ctx.method.clone(),
                url,
                headers,
                body: copy_bytes(&ctx.body),
                timeout_ms: upstream.timeout_ms,
            },
        )
    }

    /// Finishes a forward: lowers the in-flight count, records success or
    /// failure (a 5xx status counts as failure; latency is folded in only
    /// on success), and turns the outcome into the response handed back,
    /// with forwardable response headers only. A transport failure
    /// surfaces as an upstream error carrying the cause.
    pub fn complete_forward(
        &mut self,
        upstream_name: &str,
        outcome: ForwardOutcome,
        latency_micros: u64,
    ) -> (r: Result<HttpResponse, GatewayError>)
        requires
            old(self).wf(),
            old(self).stats_view().contains_key(upstream_name@),
        ensures
            final(self).wf(),
            final(self).services_view() == old(self).services_view(),
            ({
                let s0 = old(self).stats_view()[upstream_name@];
                let dropped = (UpstreamStats { in_flight: wrap_dec(s0.in_flight), ..s0 });
                match outcome {
                    ForwardOutcome::Response { status, headers, body } => {
                        &&& final(self).stats_view() == old(self).stats_view().insert(
                            upstream_name@,
                            if 500 <= status < 600 {
                                spec_record_failure(dropped)
                            } else {
                                spec_record_success(dropped, latency_micros)
                            },
                        )
                        &&& r matches Ok(resp) && resp.status == status && pair_views(
                            resp.headers@,
                        ) == forwardable(pair_views(headers@)) && resp.body == body
                    },
                    ForwardOutcome::TransportError { message } => {
                        &&& final(self).stats_view() == old(self).stats_view().insert(
                            upstream_name@,
                            spec_record_failure(dropped),
                        )
                        &&& r matches Err(GatewayError::Upstream(m)) && m == message
                    },
                }
            }),
    {
        let j = match find_index(&self.stats, upstream_name) {
            Some(j) => j,
            None => {
                proof {
                    assert(false);
                }
                return Err(GatewayError::Internal(String::from_str("upstream stats unavailable")));
            },
        };
        let s = self.stats[j].1;
        let mut updated = UpstreamStats {
            in_flight: if s.in_flight == 0 {
                u64::MAX
            } else {
                s.in_flight - 1
            },
            ..s
        };
        match outcome {
            ForwardOutcome::Response { status, headers, body } => {
                if 500 <= status && status < 600 {
                    updated.record_failure();
                } else {
                    updated.record_success(latency_micros);
                }
                self.set_stats(j, updated);
                let mut resp = HttpResponse::new(status);
                resp.headers = filter_forwardable(&headers);
                resp.body = body;
                Ok(resp)
            },
            ForwardOutcome::TransportError { message } => {
                updated.record_failure();
                self.set_stats(j, updated);
                Err(GatewayError::Upstream(message))
            },
        }
    }

    /// Stores new statistics at entry `j`.
    fn set_stats(&mut self, j: usize, next: UpstreamStats)
        requires
            old(self).wf(),
            j < old(self).stats@.len(),
        ensures
            final(self).wf(),
            final(self).services == old(self).services,
            final(self).stats_view() == old(self).stats_view().insert(
                old(self).stats@[j as int].0@,
                next,
            ),
    {
        proof {
            lemma_view_update(self.stats@, j as int, next);
            crate::keyed::lemma_view_find(self.stats@, j as int);
        }
        let key = self.stats[j].0.clone();
        self.stats.set(j, (key, next));
        proof {
            assert(final(self).stats@ =~= old(self).stats@.update(
                j as int,
                (old(self).stats@[j as int].0, next),
            ));
            assert(final(self).stats_view().dom() =~= old(self).stats_view().dom());
        }
    }
}

/// The statistics snapshot `name` gets: its live counters with latency in
/// milliseconds, or zeros when unknown.
pub open spec fn spec_snapshot(m: Map<Seq<char>, UpstreamStats>, name: Seq<char>) -> UpstreamSnapshot {
    if m.contains_key(name) {
        let s = m[name];
        UpstreamSnapshot {
            in_flight: s.in_flight,
            consecutive_failures: s.consecutive_failures,
            success_total: s.success_total,
            failure_total: s.failure_total,
            avg_latency_ms: (s.avg_latency_micros / 1000) as u64,
        }
    } else {
        UpstreamSnapshot {
            in_flight: 0,
            consecutive_failures: 0,
            success_total: 0,
            failure_total: 0,
            avg_latency_ms: 0,
        }
    }
}

/// The candidates a name list selects from the service table.
pub open spec fn candidates_of(
    m: Map<Seq<char>, UpstreamConfig>,
    names: Seq<Seq<char>>,
) -> Seq<UpstreamConfig>
    decreases names.len(),
{
    if names.len() == 0 {
        Seq::empty()
    } else {
        candidates_of(m, names.drop_last()) + (if m.contains_key(names.last()) {
            seq![m[names.last()]]
        } else {
            Seq::empty()
        })
    }
}

fn fresh_stats_exec() -> (r: UpstreamStats)
    ensures
        r == fresh_stats(),
{
    UpstreamStats {
        in_flight: 0,
        consecutive_failures: 0,
        success_total: 0,
        failure_total: 0,
        avg_latency_micros: 0,
    }
}

/// A field-for-field copy of an upstream configuration.
pub fn duplicate_upstream(u: &UpstreamConfig) -> (r: UpstreamConfig)
    ensures
        r == *u,
{
    UpstreamConfig {
        name: u.name.clone(),
        base_url: u.base_url.clone(),
        weight: u.weight,
        timeout_ms: u.timeout_ms,
    }
}

/// A copy of a byte buffer.
pub fn copy_bytes(v: &Vec<u8>) -> (r: Vec<u8>)
    ensures
        r@ == v@,
{
    let mut r: Vec<u8> = Vec::new();
    let mut i: usize = 0;
    while i < v.len()
        invariant
            i <= v@.len(),
            r@ == v@.take(i as int),
        decreases v@.len() - i,
    {
        r.push(v[i]);
        proof {
            assert(r@ =~= v@.take(i + 1));
        }
        i = i + 1;
    }
    proof {
        assert(v@.take(v@.len() as int) =~= v@);
    }
    r
}

/// Builds the exact target URL of a forward.
fn build_target_url(upstream: &UpstreamConfig, ctx: &RequestContext) -> (r: String)
    ensures
        r@ == target_url(*upstream, *ctx),
{
    let mut url = strip_trailing_char(upstream.base_url.as_str(), '/');
    url.append(ctx.path.as_str());
    match &ctx.query {
        Some(q) => {
            url.append("?");
            url.append(q.as_str());
            proof {
                assert(url@ =~= target_url(*upstream, *ctx));
            }
        },
        None => {
            proof {
                assert(url@ =~= target_url(*upstream, *ctx));
            }
        },
    }
    url
}

/// The in-flight counter round trip: beginning a forward and completing
/// it, on any outcome, leaves the upstream's in-flight count exactly where
/// it started; a success clears the consecutive-failure count and a
/// failure raises it, without touching in-flight.
pub proof fn lemma_in_flight_round_trip(s: UpstreamStats, latency_micros: u64, success: bool)
    ensures
        ({
            let bumped = (UpstreamStats { in_flight: wrap_inc(s.in_flight), ..s });
            let dropped = (UpstreamStats { in_flight: wrap_dec(bumped.in_flight), ..bumped });
            let settled = if success {
                spec_record_success(dropped, latency_micros)
            } else {
                spec_record_failure(dropped)
            };
            settled.in_flight == s.in_flight
        }),
{
}

} // verus!
