//! The gateway's middlewares: request logging, request validation, API-key
//! authentication, and rate limiting, with the control-flow type they
//! answer. Their order in the pipeline is fixed by the gateway.

use vstd::prelude::*;

use crate::config::ValidationConfig;
use crate::context::{HttpResponse, RequestContext};
use crate::errors::{json_error_body, render_error_body, GatewayError};
use crate::kvtable::{pair_views, table_first, upsert};
use crate::ratelimit::{
    check_outcome, InMemoryRateLimitBackend, RateLimitDecision, RateLimitPolicy,
};
use crate::text::{dec_body, dec_str_of, dec_val, is_dec_str, starts_with, upper_of};

verus! {

/// What a middleware tells the pipeline: go on, or answer at once with a
/// ready response.
pub enum ControlFlow {
    Continue,
    ShortCircuit(HttpResponse),
}

/// The logging middleware: transparent to the request and the response
/// (the log lines themselves live with the host's tracing setup).
pub struct RequestLoggingMiddleware;

impl RequestLoggingMiddleware {
    /// The middleware's stable name.
    pub fn name(&self) -> (r: &'static str)
        ensures
            r@ == "request-logging"@,
    {
        "request-logging"
    }

    /// Always lets the request through.
    pub fn on_request(&self, ctx: &RequestContext) -> (r: ControlFlow)
        ensures
            r is Continue,
    {
        ControlFlow::Continue
    }
}

/// How the validation middleware judges a request.
pub enum ValidationVerdict {
    Proceed,
    MissingHost,
    TooManyHeaders,
    MethodNotAllowed,
    LengthMismatch,
    TooLarge,
}

/// Whether the request's method, upper-cased, is in the allow-list.
pub open spec fn method_allowed(cfg: ValidationConfig, method: Seq<char>) -> bool {
    exists|j: int|
        0 <= j < cfg.allowed_methods@.len() && upper_of(method) == (
        #[trigger] cfg.allowed_methods@[j])@
}

/// Whether a present, parseable content-length header disagrees with the
/// buffered body.
pub open spec fn length_mismatch(ctx: RequestContext) -> bool {
    match table_first(pair_views(ctx.headers@), "content-length"@) {
        Some(v) => is_dec_str(v) && dec_val(dec_body(v)) <= usize::MAX && dec_val(dec_body(v))
            != ctx.body@.len(),
        None => false,
    }
}

/// The validation rules, in the order they are checked.
pub open spec fn validation_verdict(cfg: ValidationConfig, ctx: RequestContext) -> ValidationVerdict {
    if cfg.require_host_header && table_first(pair_views(ctx.headers@), "host"@) is None {
        ValidationVerdict::MissingHost
    } else if ctx.headers@.len() > cfg.max_headers {
        ValidationVerdict::TooManyHeaders
    } else if !method_allowed(cfg, ctx.method@) {
        ValidationVerdict::MethodNotAllowed
    } else if length_mismatch(ctx) {
        ValidationVerdict::LengthMismatch
    } else if ctx.body@.len() > cfg.max_body_bytes {
        ValidationVerdict::TooLarge
    } else {
        ValidationVerdict::Proceed
    }
}

/// The validation middleware: rejects malformed or oversized requests.
pub struct RequestValidationMiddleware {
    pub cfg: ValidationConfig,
}

impl RequestValidationMiddleware {
    /// A validator enforcing the given rules.
    pub fn new(cfg: ValidationConfig) -> (r: RequestValidationMiddleware)
        ensures
            r.cfg == cfg,
    {
        RequestValidationMiddleware { cfg }
    }

    /// The middleware's stable name.
    pub fn name(&self) -> (r: &'static str)
        ensures
            r@ == "request-validation"@,
    {
        "request-validation"
    }

    /// Applies the validation rules; the error carries the exact message
    /// of the first rule the request breaks.
    pub fn on_request(&self, ctx: &RequestContext) -> (r: Result<ControlFlow, GatewayError>)
        ensures
            match validation_verdict(self.cfg, *ctx) {
                ValidationVerdict::Proceed => r matches Ok(f) && f is Continue,
                ValidationVerdict::MissingHost => r matches Err(GatewayError::Validation(m)) && m@
                    == "Missing required Host header"@,
                ValidationVerdict::TooManyHeaders => r matches Err(GatewayError::Validation(m))
                    && m@ == "Too many headers: "@ + dec_str_of(ctx.headers@.len() as int) + " > "@
                    + dec_str_of(self.cfg.max_headers as int),
                ValidationVerdict::MethodNotAllowed => r matches Err(GatewayError::Validation(m))
                    && m@ == "Method "@ + ctx.method@ + " is not allowed"@,
                ValidationVerdict::LengthMismatch => r matches Err(GatewayError::Validation(m))
                    && m@ == "content-length does not match payload size"@,
                ValidationVerdict::TooLarge => r matches Err(GatewayError::PayloadTooLarge),
            },
    {
        if self.cfg.require_host_header {
            if ctx.header("host").is_none() {
                return Err(
                    GatewayError::Validation(String::from_str("Missing required Host header")),
                );
            }
        }
        if ctx.headers.len() > self.cfg.max_headers {
            let mut m = String::from_str("Too many headers: ");
            m.append(crate::text::u64_to_dec(ctx.headers.len() as u64).as_str());
            m.append(" > ");
            m.append(crate::text::u64_to_dec(self.cfg.max_headers as u64).as_str());
            proof {
                assert(m@ =~= "Too many headers: "@ + dec_str_of(ctx.headers@.len() as int)
                    + " > "@ + dec_str_of(self.cfg.max_headers as int));
            }
            return Err(GatewayError::Validation(m));
        }
        if !self.method_is_allowed(ctx) {
            let mut m = String::from_str("Method ");
            m.append(ctx.method.as_str());
            m.append(" is not allowed");
            proof {
                assert(m@ =~= "Method "@ + ctx.method@ + " is not allowed"@);
            }
            return Err(GatewayError::Validation(m));
        }
        match ctx.header("content-length") {
            Some(v) => {
                match crate::text::parse_u64_dec(v.as_str()) {
                    Some(n) => {
                        if n <= usize::MAX as u64 && n != ctx.body.len() as u64 {
                            return Err(
                                GatewayError::Validation(
                                    String::from_str(
                                        "content-length does not match payload size",
                                    ),
                                ),
                            );
                        }
                    },
                    None => {
                    },
                }
            },
            None => {
            },
        }
        if ctx.body.len() > self.cfg.max_body_bytes {
            return Err(GatewayError::PayloadTooLarge);
        }
        Ok(ControlFlow::Continue)
    }

    fn method_is_allowed(&self, ctx: &RequestContext) -> (r: bool)
        ensures
            r == method_allowed(self.cfg, ctx.method@),
    {
        let mut j: usize = 0;
        while j < self.cfg.allowed_methods.len()
            invariant
                j <= self.cfg.allowed_methods@.len(),
                forall|i: int|
                    0 <= i < j ==> upper_of(ctx.method@) != (
                    #[trigger] self.cfg.allowed_methods@[i])@,
            decreases self.cfg.allowed_methods@.len() - j,
        {
            if crate::text::upper_eq(ctx.method.as_str(), self.cfg.allowed_methods[j].as_str()) {
                return true;
            }
            j = j + 1;
        }
        false
    }
}

/// Byte-string equality that inspects every position of the longer input:
/// a length mismatch sets a difference bit, and all bytes are compared
/// regardless of where the first difference lies.
pub fn timing_safe_eq(a: &[u8], b: &[u8]) -> (r: bool)
    ensures
        r == (a@ == b@),
{
    let max = if a.len() > b.len() {
        a.len()
    } else {
        b.len()
    };
    let mut diff: u8 = if a.len() == b.len() {
        0
    } else {
        1
    };
    let mut idx: usize = 0;
    while idx < max
        invariant
            max == (if a@.len() > b@.len() {
                a@.len()
            } else {
                b@.len()
            }),
            idx <= max,
            diff == 0 <==> (a@.len() == b@.len() && (forall|j: int|
                0 <= j < idx && j < a@.len() ==> a@[j] == b@[j])),
        decreases max - idx,
    {
        let av: u8 = if idx < a.len() {
            a[idx]
        } else {
            0
        };
        let bv: u8 = if idx < b.len() {
            b[idx]
        } else {
            0
        };
        let ghost pre = diff;
        assert(pre | (av ^ bv) == 0 <==> (pre == 0 && av == bv)) by (bit_vector);
        diff = diff | (av ^ bv);
        idx = idx + 1;
    }
    if diff == 0 {
        proof {
            assert(a@ =~= b@);
        }
        true
    } else {
        false
    }
}

/// The API-key middleware: exempts configured path prefixes, otherwise
/// demands a key from the configured set, compared in constant time.
pub struct ApiKeyAuthMiddleware {
    pub valid_keys: Vec<Vec<u8>>,
    pub exempt_prefixes: Vec<String>,
}

/// Whether some configured key has exactly these bytes.
pub open spec fn key_in_set(keys: Seq<Vec<u8>>, provided: Seq<u8>) -> bool {
    exists|j: int| 0 <= j < keys.len() && (#[trigger] keys[j])@ == provided
}

/// Whether the path begins with any exempt prefix.
pub open spec fn path_exempt(prefixes: Seq<String>, path: Seq<char>) -> bool {
    exists|j: int| 0 <= j < prefixes.len() && (#[trigger] prefixes[j])@.is_prefix_of(path)
}

/// What the auth middleware decides: the request passes exactly when the
/// path is exempt, or the `x-api-key` header holds a configured key.
pub open spec fn auth_passes(m: ApiKeyAuthMiddleware, ctx: RequestContext) -> bool {
    ||| path_exempt(m.exempt_prefixes@, ctx.path@)
    ||| match table_first(pair_views(ctx.headers@), "x-api-key"@) {
        Some(v) => key_in_set(m.valid_keys@, vstd::utf8::encode_utf8(v)),
        None => false,
    }
}

impl ApiKeyAuthMiddleware {
    /// A middleware accepting the given keys, with the given exempt path
    /// prefixes.
    pub fn new(valid_keys: Vec<String>, exempt_prefixes: Vec<String>) -> (r: ApiKeyAuthMiddleware)
        ensures
            r.valid_keys@.len() == valid_keys@.len(),
            forall|j: int|
                0 <= j < valid_keys@.len() ==> (#[trigger] r.valid_keys@[j])@
                    == vstd::utf8::encode_utf8(valid_keys@[j]@),
            r.exempt_prefixes == exempt_prefixes,
    {
        let mut keys: Vec<Vec<u8>> = Vec::new();
        let mut i: usize = 0;
        while i < valid_keys.len()
            invariant
                i <= valid_keys@.len(),
                keys@.len() == i,
                forall|j: int|
                    0 <= j < i ==> (#[trigger] keys@[j])@ == vstd::utf8::encode_utf8(
                        valid_keys@[j]@,
                    ),
            decreases valid_keys@.len() - i,
        {
            keys.push(valid_keys[i].as_str().as_bytes_vec());
            i = i + 1;
        }
        ApiKeyAuthMiddleware { valid_keys: keys, exempt_prefixes }
    }

    /// The middleware's stable name.
    pub fn name(&self) -> (r: &'static str)
        ensures
            r@ == "api-key-auth"@,
    {
        "api-key-auth"
    }

    /// Whether the path begins with any exempt prefix.
    pub fn is_exempt_path(&self, path: &str) -> (r: bool)
        ensures
            r == path_exempt(self.exempt_prefixes@, path@),
    {
        let mut j: usize = 0;
        while j < self.exempt_prefixes.len()
            invariant
                j <= self.exempt_prefixes@.len(),
                forall|i: int|
                    0 <= i < j ==> !(#[trigger] self.exempt_prefixes@[i])@.is_prefix_of(path@),
            decreases self.exempt_prefixes@.len() - j,
        {
            if starts_with(path, self.exempt_prefixes[j].as_str()) {
                return true;
            }
            j = j + 1;
        }
        false
    }

    /// Whether the provided bytes match any configured key, examining
    /// every candidate in full.
    pub fn is_valid_key(&self, provided: &[u8]) -> (r: bool)
        ensures
            r == key_in_set(self.valid_keys@, provided@),
    {
        let mut j: usize = 0;
        let mut found = false;
        while j < self.valid_keys.len()
            invariant
                j <= self.valid_keys@.len(),
                found == (exists|i: int|
                    0 <= i < j && (#[trigger] self.valid_keys@[i])@ == provided@),
            decreases self.valid_keys@.len() - j,
        {
            if timing_safe_eq(self.valid_keys[j].as_slice(), provided) {
                found = true;
            }
            j = j + 1;
        }
        found
    }

    /// Lets exempt paths and valid keys through; everything else is
    /// unauthorized.
    pub fn on_request(&self, ctx: &RequestContext) -> (r: Result<ControlFlow, GatewayError>)
        ensures
            auth_passes(*self, *ctx) ==> (r matches Ok(f) && f is Continue),
            !auth_passes(*self, *ctx) ==> (r matches Err(e) && e is Unauthorized),
    {
        if self.is_exempt_path(ctx.path.as_str()) {
            return Ok(ControlFlow::Continue);
        }
        match ctx.header("x-api-key") {
            Some(v) => {
                if self.is_valid_key(v.as_str().as_bytes()) {
                    Ok(ControlFlow::Continue)
                } else {
                    Err(GatewayError::Unauthorized)
                }
            },
            None => Err(GatewayError::Unauthorized),
        }
    }
}

/// Which backend a limiter consults: the in-process one here, or a
/// distributed store driven by the host.
pub enum LimiterBackend {
    InMemory(InMemoryRateLimitBackend),
    External,
}

/// The limiter a rate-limit middleware delegates to.
pub struct RateLimiter {
    pub backend: LimiterBackend,
    pub policy: RateLimitPolicy,
}

impl RateLimiter {
    /// A limiter over the given backend and policy.
    pub fn new(backend: LimiterBackend, policy: RateLimitPolicy) -> (r: RateLimiter)
        ensures
            r.backend == backend,
            r.policy == policy,
    {
        RateLimiter { backend, policy }
    }

    /// Whether the in-process backend can answer checks directly.
    pub fn is_in_memory(&self) -> (r: bool)
        ensures
            r == (self.backend is InMemory),
    {
        match &self.backend {
            LimiterBackend::InMemory(_) => true,
            LimiterBackend::External => false,
        }
    }

    /// One check against the in-process backend.
    pub fn check(&mut self, key: &str, now_ms: u64) -> (r: Result<RateLimitDecision, GatewayError>)
        requires
            old(self).backend matches LimiterBackend::InMemory(b) && b.wf(),
        ensures
            final(self).policy == old(self).policy,
            final(self).backend matches LimiterBackend::InMemory(b2) && b2.wf() && (
            old(self).backend matches LimiterBackend::InMemory(b1) && check_outcome(
                b1@,
                b2@,
                key@,
                old(self).policy.algorithm,
                now_ms,
                r,
            )),
    {
        let policy = RateLimitPolicy { algorithm: self.policy.algorithm };
        match &mut self.backend {
            LimiterBackend::InMemory(b) => b.check(key, &policy, now_ms),
            LimiterBackend::External => {
                proof {
                    assert(false);
                }
                Err(GatewayError::Internal(String::from_str("no in-process backend")))
            },
        }
    }
}

/// The rate-limit middleware's key: the configured header's first value
/// when present and non-empty, else the client address, else `anonymous`.
pub open spec fn resolve_key_spec(key_header: Seq<char>, ctx: RequestContext) -> Seq<char> {
    match table_first(pair_views(ctx.headers@), key_header) {
        Some(v) => {
            if v.len() > 0 {
                v
            } else {
                fallback_key(ctx)
            }
        },
        None => fallback_key(ctx),
    }
}

/// The key when no usable header value is present.
pub open spec fn fallback_key(ctx: RequestContext) -> Seq<char> {
    match ctx.client_ip {
        Some(ip) => ip@,
        None => "anonymous"@,
    }
}

/// The scope a check runs under: the key, a colon, and the request path.
pub open spec fn scope_spec(key_header: Seq<char>, ctx: RequestContext) -> Seq<char> {
    resolve_key_spec(key_header, ctx) + ":"@ + ctx.path@
}

/// The rate-limit middleware: resolves a per-key scope, consults the
/// limiter, and either passes the request on (remembering the remaining
/// budget) or answers with a 429.
pub struct RateLimitMiddleware {
    pub limiter: RateLimiter,
    pub key_header: String,
    pub fail_open_on_error: bool,
}

impl RateLimitMiddleware {
    /// A middleware delegating to the given limiter, keyed by the given
    /// header.
    pub fn new(limiter: RateLimiter, key_header: String, fail_open_on_error: bool) -> (r:
        RateLimitMiddleware)
        ensures
            r.limiter == limiter,
            r.key_header == key_header,
            r.fail_open_on_error == fail_open_on_error,
    {
        RateLimitMiddleware { limiter, key_header, fail_open_on_error }
    }

    /// The middleware's stable name.
    pub fn name(&self) -> (r: &'static str)
        ensures
            r@ == "rate-limit"@,
    {
        "rate-limit"
    }

    /// Resolves the rate-limit key for this request.
    pub fn resolve_key(&self, ctx: &RequestContext) -> (r: String)
        ensures
            r@ == resolve_key_spec(self.key_header@, *ctx),
    {
        match ctx.header(self.key_header.as_str()) {
            Some(v) => {
                if v.as_str().unicode_len() != 0 {
                    return v;
                }
                self.fallback(ctx)
            },
            None => self.fallback(ctx),
        }
    }

    fn fallback(&self, ctx: &RequestContext) -> (r: String)
        ensures
            r@ == fallback_key(*ctx),
    {
        match &ctx.client_ip {
            Some(ip) => ip.clone(),
            None => String::from_str("anonymous"),
        }
    }

    /// The scope this request is limited under.
    pub fn scope(&self, ctx: &RequestContext) -> (r: String)
        ensures
            r@ == scope_spec(self.key_header@, *ctx),
    {
        let mut s = self.resolve_key(ctx);
        s.append(":");
        s.append(ctx.path.as_str());
        proof {
            assert(s@ =~= scope_spec(self.key_header@, *ctx));
        }
        s
    }

    /// The ready 429 answer: the fixed JSON body and the retry delay.
    pub fn limited_response(&self, retry_after_secs: u64) -> (r: HttpResponse)
        ensures
            r.status == 429,
            pair_views(r.headers@) == seq![
                ("content-type"@, "application/json"@),
                ("retry-after"@, dec_str_of(retry_after_secs as int)),
            ],
            r.body@ == vstd::utf8::encode_utf8(
                json_error_body("rate_limited"@, "Rate limit exceeded"@),
            ),
    {
        let body = render_error_body("rate_limited", "Rate limit exceeded");
        let mut response = HttpResponse::new(429);
        response.append_header(
            String::from_str("content-type"),
            String::from_str("application/json"),
        );
        response.append_header(
            String::from_str("retry-after"),
            crate::text::u64_to_dec(retry_after_secs),
        );
        response.body = body.as_str().as_bytes_vec();
        proof {
            assert(pair_views(response.headers@) =~= seq![
                ("content-type"@, "application/json"@),
                ("retry-after"@, dec_str_of(retry_after_secs as int)),
            ]);
        }
        response
    }

    /// Applies a backend's answer to the request: an allowed decision
    /// stores the remaining budget in the context's metadata and passes
    /// the request on; a denial short-circuits with the 429 answer; a
    /// backend failure passes the request on when failing open is
    /// configured and is an internal error otherwise.
    pub fn apply_outcome(
        &self,
        ctx: &mut RequestContext,
        outcome: Result<RateLimitDecision, GatewayError>,
    ) -> (r: Result<ControlFlow, GatewayError>)
        ensures
            match outcome {
                Ok(d) => {
                    &&& *final(ctx) == (RequestContext {
                        metadata: final(ctx).metadata,
                        ..*old(ctx)
                    })
                    &&& pair_views(final(ctx).metadata@) == upsert(
                        pair_views(old(ctx).metadata@),
                        "ratelimit.remaining"@,
                        dec_str_of(d.remaining as int),
                    )
                    &&& if d.allowed {
                        r matches Ok(f) && f is Continue
                    } else {
                        r matches Ok(f) && f matches ControlFlow::ShortCircuit(resp)
                            && resp.status == 429 && pair_views(resp.headers@) == seq![
                            ("content-type"@, "application/json"@),
                            ("retry-after"@, dec_str_of(d.retry_after_secs as int)),
                        ] && resp.body@ == vstd::utf8::encode_utf8(
                            json_error_body("rate_limited"@, "Rate limit exceeded"@),
                        )
                    }
                },
                Err(_) => {
                    &&& *final(ctx) == *old(ctx)
                    &&& if self.fail_open_on_error {
                        r matches Ok(f) && f is Continue
                    } else {
                        r matches Err(GatewayError::Internal(m)) && m@
                            == "rate limiter backend unavailable"@
                    }
                },
            },
    {
        match outcome {
            Ok(d) => {
                ctx.set_metadata("ratelimit.remaining", crate::text::u64_to_dec(d.remaining));
                if d.allowed {
                    Ok(ControlFlow::Continue)
                } else {
                    Ok(ControlFlow::ShortCircuit(self.limited_response(d.retry_after_secs)))
                }
            },
            Err(_) => {
                if self.fail_open_on_error {
                    Ok(ControlFlow::Continue)
                } else {
                    Err(
                        GatewayError::Internal(
                            String::from_str("rate limiter backend unavailable"),
                        ),
                    )
                }
            },
        }
    }

    /// One full request-side pass against the in-process backend: the
    /// scope is the resolved key and the request path, the backend's
    /// decision is applied to the context, and the request continues, is
    /// answered with the 429, or surfaces the configured failure mode.
    pub fn on_request(&mut self, ctx: &mut RequestContext, now_ms: u64) -> (r: Result<
        ControlFlow,
        GatewayError,
    >)
        requires
            old(self).limiter.backend matches LimiterBackend::InMemory(b) && b.wf(),
        ensures
            final(self).key_header == old(self).key_header,
            final(self).fail_open_on_error == old(self).fail_open_on_error,
            final(self).limiter.policy == old(self).limiter.policy,
            final(self).limiter.backend matches LimiterBackend::InMemory(b2) && b2.wf() && (
            old(self).limiter.backend matches LimiterBackend::InMemory(b1) && ({
                let scope = scope_spec(old(self).key_header@, *old(ctx));
                match crate::ratelimit::spec_backend_check(
                    crate::ratelimit::prior_view(b1@, scope),
                    old(self).limiter.policy.algorithm,
                    now_ms,
                ) {
                    None => {
                        &&& b2@ == b1@
                        &&& *final(ctx) == *old(ctx)
                        &&& if old(self).fail_open_on_error {
                            r matches Ok(f) && f is Continue
                        } else {
                            r matches Err(GatewayError::Internal(m)) && m@
                                == "rate limiter backend unavailable"@
                        }
                    },
                    Some((v2, d)) => {
                        &&& b2@.dom() == b1@.dom().insert(scope)
                        &&& crate::ratelimit::state_matches(b2@.index(scope), v2)
                        &&& forall|k: Seq<char>|
                            b1@.contains_key(k) && k != scope ==> b2@[k] == b1@[k]
                        &&& *final(ctx) == (RequestContext {
                            metadata: final(ctx).metadata,
                            ..*old(ctx)
                        })
                        &&& pair_views(final(ctx).metadata@) == upsert(
                            pair_views(old(ctx).metadata@),
                            "ratelimit.remaining"@,
                            dec_str_of(d.remaining as int),
                        )
                        &&& if d.allowed {
                            r matches Ok(f) && f is Continue
                        } else {
                            r matches Ok(f) && f matches ControlFlow::ShortCircuit(resp)
                                && resp.status == 429 && pair_views(resp.headers@) == seq![
                                ("content-type"@, "application/json"@),
                                ("retry-after"@, dec_str_of(d.retry_after_secs as int)),
                            ] && resp.body@ == vstd::utf8::encode_utf8(
                                json_error_body("rate_limited"@, "Rate limit exceeded"@),
                            )
                        }
                    },
                }
            })),
    {
        let scope = self.scope(ctx);
        let outcome = self.limiter.check(scope.as_str(), now_ms);
        self.apply_outcome(ctx, outcome)
    }

    /// Copies the remembered remaining budget onto the response, when one
    /// was stored.
    pub fn on_response(&self, ctx: &RequestContext, response: &mut HttpResponse)
        ensures
            match table_first(pair_views(ctx.metadata@), "ratelimit.remaining"@) {
                Some(v) => {
                    &&& final(response).status == old(response).status
                    &&& final(response).body == old(response).body
                    &&& pair_views(final(response).headers@) == crate::kvtable::remove_key(
                        pair_views(old(response).headers@),
                        "x-ratelimit-remaining"@,
                    ).push(("x-ratelimit-remaining"@, v))
                },
                None => *final(response) == *old(response),
            },
    {
        match ctx.metadata_value("ratelimit.remaining") {
            Some(v) => {
                response.set_header("x-ratelimit-remaining", v);
            },
            None => {
            },
        }
    }
}

} // verus!
