//! The gateway's and the engine's error taxonomies. Each error kind maps to
//! exactly one HTTP status and a stable code string, and renders as a JSON
//! body whose exact characters the contracts pin down.

use vstd::prelude::*;

use crate::context::HttpResponse;
use crate::kvtable::pair_views;
use crate::text::{dec_str_of, u64_to_dec};

verus! {

/// The lower-case hex digit character for `d` (which must be in 0..16).
pub open spec fn hex_digit_char(d: int) -> char {
    if d == 0 {
        '0'
    } else if d == 1 {
        '1'
    } else if d == 2 {
        '2'
    } else if d == 3 {
        '3'
    } else if d == 4 {
        '4'
    } else if d == 5 {
        '5'
    } else if d == 6 {
        '6'
    } else if d == 7 {
        '7'
    } else if d == 8 {
        '8'
    } else if d == 9 {
        '9'
    } else if d == 10 {
        'a'
    } else if d == 11 {
        'b'
    } else if d == 12 {
        'c'
    } else if d == 13 {
        'd'
    } else if d == 14 {
        'e'
    } else {
        'f'
    }
}

/// How one character appears inside a JSON string literal: the quote, the
/// backslash and the named control characters get short escapes, every
/// other control character below 0x20 a `\u00XX` escape, and everything
/// else stands as itself.
pub open spec fn json_escape_char(c: char) -> Seq<char> {
    if c == '"' {
        seq!['\\', '"']
    } else if c == '\\' {
        seq!['\\', '\\']
    } else if c == '\u{8}' {
        seq!['\\', 'b']
    } else if c == '\t' {
        seq!['\\', 't']
    } else if c == '\n' {
        seq!['\\', 'n']
    } else if c == '\u{c}' {
        seq!['\\', 'f']
    } else if c == '\r' {
        seq!['\\', 'r']
    } else if (c as u32) < 32 {
        seq!['\\', 'u', '0', '0', hex_digit_char(c as u32 as int / 16), hex_digit_char(c as u32 as int % 16)]
    } else {
        seq![c]
    }
}

fn hex_digit_literal(d: u32) -> (r: &'static str)
    requires
        d < 16,
    ensures
        r@ == seq![hex_digit_char(d as int)],
{
    proof {
        reveal_strlit("0");
        reveal_strlit("1");
        reveal_strlit("2");
        reveal_strlit("3");
        reveal_strlit("4");
        reveal_strlit("5");
        reveal_strlit("6");
        reveal_strlit("7");
        reveal_strlit("8");
        reveal_strlit("9");
        reveal_strlit("a");
        reveal_strlit("b");
        reveal_strlit("c");
        reveal_strlit("d");
        reveal_strlit("e");
        reveal_strlit("f");
    }
    let r = if d == 0 {
        "0"
    } else if d == 1 {
        "1"
    } else if d == 2 {
        "2"
    } else if d == 3 {
        "3"
    } else if d == 4 {
        "4"
    } else if d == 5 {
        "5"
    } else if d == 6 {
        "6"
    } else if d == 7 {
        "7"
    } else if d == 8 {
        "8"
    } else if d == 9 {
        "9"
    } else if d == 10 {
        "a"
    } else if d == 11 {
        "b"
    } else if d == 12 {
        "c"
    } else if d == 13 {
        "d"
    } else if d == 14 {
        "e"
    } else {
        "f"
    };
    proof {
        assert(r@ =~= seq![hex_digit_char(d as int)]);
    }
    r
}

/// The body of a JSON string literal holding `s`: every character escaped.
pub open spec fn json_escaped(s: Seq<char>) -> Seq<char>
    decreases s.len(),
{
    if s.len() == 0 {
        Seq::empty()
    } else {
        json_escape_char(s[0]) + json_escaped(s.drop_first())
    }
}

proof fn lemma_json_escaped_push(s: Seq<char>, c: char)
    ensures
        json_escaped(s.push(c)) == json_escaped(s) + json_escape_char(c),
    decreases s.len(),
{
    if s.len() == 0 {
        assert(s.push(c)[0] == c);
        assert(s.push(c).drop_first() =~= Seq::<char>::empty());
        assert(json_escaped(s.push(c)) == json_escape_char(c) + json_escaped(
            s.push(c).drop_first(),
        ));
        assert(json_escaped(Seq::<char>::empty()) == Seq::<char>::empty());
        assert(json_escape_char(c) + Seq::<char>::empty() =~= json_escape_char(c));
        assert(json_escaped(s) + json_escape_char(c) =~= json_escape_char(c));
    } else {
        assert(s.push(c)[0] == s[0]);
        assert(s.push(c).drop_first() =~= s.drop_first().push(c));
        lemma_json_escaped_push(s.drop_first(), c);
        assert(json_escape_char(s[0]) + (json_escaped(s.drop_first()) + json_escape_char(c))
            =~= (json_escape_char(s[0]) + json_escaped(s.drop_first())) + json_escape_char(c));
    }
}

/// Appends the JSON-escaped form of `s` to `out`.
fn append_json_escaped(out: &mut String, s: &str)
    ensures
        final(out)@ == old(out)@ + json_escaped(s@),
{
    let n = s.unicode_len();
    let mut i: usize = 0;
    proof {
        assert(s@.take(0) =~= Seq::<char>::empty());
        assert(out@ + json_escaped(s@.take(0)) =~= out@);
    }
    while i < n
        invariant
            n == s@.len(),
            i <= n,
            out@ == old(out)@ + json_escaped(s@.take(i as int)),
        decreases n - i,
    {
        proof {
            assert(s@.take(i + 1) =~= s@.take(i as int).push(s@[i as int]));
            lemma_json_escaped_push(s@.take(i as int), s@[i as int]);
            reveal_strlit("\\\"");
            reveal_strlit("\\\\");
            reveal_strlit("\\b");
            reveal_strlit("\\t");
            reveal_strlit("\\n");
            reveal_strlit("\\f");
            reveal_strlit("\\r");
            reveal_strlit("\\u00");
        }
        let c = s.get_char(i);
        if c == '"' {
            out.append("\\\"");
        } else if c == '\\' {
            out.append("\\\\");
        } else if c == '\u{8}' {
            out.append("\\b");
        } else if c == '\t' {
            out.append("\\t");
        } else if c == '\n' {
            out.append("\\n");
        } else if c == '\u{c}' {
            out.append("\\f");
        } else if c == '\r' {
            out.append("\\r");
        } else if (c as u32) < 32 {
            let v = c as u32;
            out.append("\\u00");
            out.append(hex_digit_literal(v / 16));
            out.append(hex_digit_literal(v % 16));
        } else {
            out.append(s.substring_char(i, i + 1));
            proof {
                assert(s@.subrange(i as int, i + 1) =~= seq![s@[i as int]]);
            }
        }
        proof {
            assert(out@ =~= old(out)@ + json_escaped(s@.take(i + 1)));
        }
        i = i + 1;
    }
    proof {
        assert(s@.take(n as int) =~= s@);
    }
}

/// The exact JSON body `{"error":<code>,"message":<msg>}` with both fields
/// rendered as escaped string literals.
pub open spec fn json_error_body(code: Seq<char>, message: Seq<char>) -> Seq<char> {
    "{\"error\":\""@ + json_escaped(code) + "\",\"message\":\""@ + json_escaped(message) + "\"}"@
}

/// Builds [`json_error_body`] as a string.
pub fn render_error_body(code: &str, message: &str) -> (r: String)
    ensures
        r@ == json_error_body(code@, message@),
{
    let mut out = String::from_str("{\"error\":\"");
    proof {
        assert(out@ =~= "{\"error\":\""@);
    }
    append_json_escaped(&mut out, code);
    out.append("\",\"message\":\"");
    append_json_escaped(&mut out, message);
    out.append("\"}");
    proof {
        assert(out@ =~= json_error_body(code@, message@));
    }
    out
}

/// Everything that can go wrong while the gateway serves a request.
#[derive(Debug)]
pub enum GatewayError {
    Unauthorized,
    RateLimited { retry_after_secs: u64 },
    Validation(String),
    RouteNotFound,
    UpstreamUnavailable,
    Upstream(String),
    PayloadTooLarge,
    Internal(String),
}

/// The stable code string of each gateway error kind.
pub open spec fn gateway_code_of(e: &GatewayError) -> Seq<char> {
    match e {
        GatewayError::Unauthorized => "unauthorized"@,
        GatewayError::RateLimited { .. } => "rate_limited"@,
        GatewayError::Validation(_) => "validation"@,
        GatewayError::RouteNotFound => "route_not_found"@,
        GatewayError::UpstreamUnavailable => "upstream_unavailable"@,
        GatewayError::Upstream(_) => "upstream_error"@,
        GatewayError::PayloadTooLarge => "payload_too_large"@,
        GatewayError::Internal(_) => "internal_error"@,
    }
}

/// The human-readable message of each gateway error kind.
pub open spec fn gateway_message_of(e: &GatewayError) -> Seq<char> {
    match e {
        GatewayError::Unauthorized => "Invalid or missing API key"@,
        GatewayError::RateLimited { .. } => "Rate limit exceeded"@,
        GatewayError::Validation(msg) => msg@,
        GatewayError::RouteNotFound => "No route matched the request"@,
        GatewayError::UpstreamUnavailable => "No healthy upstream available"@,
        GatewayError::Upstream(msg) => msg@,
        GatewayError::PayloadTooLarge => "Request body exceeds configured limit"@,
        GatewayError::Internal(msg) => msg@,
    }
}

/// The HTTP status of each gateway error kind.
pub open spec fn gateway_status_of(e: &GatewayError) -> u16 {
    match e {
        GatewayError::Unauthorized => 401,
        GatewayError::RateLimited { .. } => 429,
        GatewayError::Validation(_) => 400,
        GatewayError::RouteNotFound => 404,
        GatewayError::UpstreamUnavailable => 503,
        GatewayError::Upstream(_) => 502,
        GatewayError::PayloadTooLarge => 413,
        GatewayError::Internal(_) => 500,
    }
}

/// The headers of a rendered gateway error: a JSON content type, and for
/// rate limiting the retry delay in seconds.
pub open spec fn gateway_error_headers(e: &GatewayError) -> Seq<(Seq<char>, Seq<char>)> {
    match e {
        GatewayError::RateLimited { retry_after_secs } => seq![
            ("content-type"@, "application/json"@),
            ("retry-after"@, dec_str_of(*retry_after_secs as int)),
        ],
        _ => seq![("content-type"@, "application/json"@)],
    }
}

impl GatewayError {
    /// The stable code string.
    pub fn code(&self) -> (r: &'static str)
        ensures
            r@ == gateway_code_of(self),
    {
        match self {
            GatewayError::Unauthorized => "unauthorized",
            GatewayError::RateLimited { .. } => "rate_limited",
            GatewayError::Validation(_) => "validation",
            GatewayError::RouteNotFound => "route_not_found",
            GatewayError::UpstreamUnavailable => "upstream_unavailable",
            GatewayError::Upstream(_) => "upstream_error",
            GatewayError::PayloadTooLarge => "payload_too_large",
            GatewayError::Internal(_) => "internal_error",
        }
    }

    /// The human-readable message.
    pub fn message(&self) -> (r: String)
        ensures
            r@ == gateway_message_of(self),
    {
        match self {
            GatewayError::Unauthorized => String::from_str("Invalid or missing API key"),
            GatewayError::RateLimited { .. } => String::from_str("Rate limit exceeded"),
            GatewayError::Validation(msg) => msg.clone(),
            GatewayError::RouteNotFound => String::from_str("No route matched the request"),
            GatewayError::UpstreamUnavailable => String::from_str(
                "No healthy upstream available",
            ),
            GatewayError::Upstream(msg) => msg.clone(),
            GatewayError::PayloadTooLarge => String::from_str(
                "Request body exceeds configured limit",
            ),
            GatewayError::Internal(msg) => msg.clone(),
        }
    }

    /// The HTTP status code.
    pub fn status(&self) -> (r: u16)
        ensures
            r == gateway_status_of(self),
    {
        match self {
            GatewayError::Unauthorized => 401,
            GatewayError::RateLimited { .. } => 429,
            GatewayError::Validation(_) => 400,
            GatewayError::RouteNotFound => 404,
            GatewayError::UpstreamUnavailable => 503,
            GatewayError::Upstream(_) => 502,
            GatewayError::PayloadTooLarge => 413,
            GatewayError::Internal(_) => 500,
        }
    }

    /// Renders the error as a complete JSON response: the mapped status,
    /// the JSON content type (plus `retry-after` for rate limiting), and
    /// the `{"error":...,"message":...}` body.
    pub fn into_response(self) -> (r: HttpResponse)
        ensures
            r.status == gateway_status_of(&self),
            pair_views(r.headers@) == gateway_error_headers(&self),
            r.body@ == vstd::utf8::encode_utf8(
                json_error_body(gateway_code_of(&self), gateway_message_of(&self)),
            ),
    {
        let body = render_error_body(self.code(), self.message().as_str());
        let mut response = HttpResponse::new(self.status());
        response.append_header(
            String::from_str("content-type"),
            String::from_str("application/json"),
        );
        if let GatewayError::RateLimited { retry_after_secs } = &self {
            response.append_header(String::from_str("retry-after"), u64_to_dec(*retry_after_secs));
        }
        response.body = body.as_str().as_bytes_vec();
        proof {
            assert(pair_views(response.headers@) =~= gateway_error_headers(&self));
        }
        response
    }
}

/// Everything that can go wrong while the engine serves a request.
#[derive(Debug)]
pub enum EngineError {
    Unauthorized,
    Forbidden,
    InvalidRequest(String),
    RateLimited,
    QueueFull,
    NotFound,
    Internal(String),
}

/// The display string of each engine error kind.
pub open spec fn engine_message_of(e: &EngineError) -> Seq<char> {
    match e {
        EngineError::Unauthorized => "unauthorized"@,
        EngineError::Forbidden => "forbidden"@,
        EngineError::InvalidRequest(msg) => "invalid request: "@ + msg@,
        EngineError::RateLimited => "rate limit exceeded"@,
        EngineError::QueueFull => "queue is full"@,
        EngineError::NotFound => "execution not found"@,
        EngineError::Internal(msg) => "internal error: "@ + msg@,
    }
}

/// The HTTP status of each engine error kind.
pub open spec fn engine_status_of(e: &EngineError) -> u16 {
    match e {
        EngineError::Unauthorized => 401,
        EngineError::Forbidden => 403,
        EngineError::InvalidRequest(_) => 400,
        EngineError::RateLimited => 429,
        EngineError::QueueFull => 503,
        EngineError::NotFound => 404,
        EngineError::Internal(_) => 500,
    }
}

/// The exact JSON body `{"error":<msg>}` of an engine error response.
pub open spec fn json_engine_body(message: Seq<char>) -> Seq<char> {
    "{\"error\":\""@ + json_escaped(message) + "\"}"@
}

impl EngineError {
    /// The display string.
    pub fn message(&self) -> (r: String)
        ensures
            r@ == engine_message_of(self),
    {
        match self {
            EngineError::Unauthorized => String::from_str("unauthorized"),
            EngineError::Forbidden => String::from_str("forbidden"),
            EngineError::InvalidRequest(msg) => String::from_str("invalid request: ").concat(
                msg.as_str(),
            ),
            EngineError::RateLimited => String::from_str("rate limit exceeded"),
            EngineError::QueueFull => String::from_str("queue is full"),
            EngineError::NotFound => String::from_str("execution not found"),
            EngineError::Internal(msg) => String::from_str("internal error: ").concat(msg.as_str()),
        }
    }

    /// The HTTP status code.
    pub fn status(&self) -> (r: u16)
        ensures
            r == engine_status_of(self),
    {
        match self {
            EngineError::Unauthorized => 401,
            EngineError::Forbidden => 403,
            EngineError::InvalidRequest(_) => 400,
            EngineError::RateLimited => 429,
            EngineError::QueueFull => 503,
            EngineError::NotFound => 404,
            EngineError::Internal(_) => 500,
        }
    }

    /// Renders the error as a complete JSON response with body
    /// `{"error":<message>}`.
    pub fn into_response(self) -> (r: HttpResponse)
        ensures
            r.status == engine_status_of(&self),
            pair_views(r.headers@) == seq![("content-type"@, "application/json"@)],
            r.body@ == vstd::utf8::encode_utf8(json_engine_body(engine_message_of(&self))),
    {
        let message = self.message();
        let mut out = String::from_str("{\"error\":\"");
        proof {
            assert(out@ =~= "{\"error\":\""@);
        }
        append_json_escaped(&mut out, message.as_str());
        out.append("\"}");
        let mut response = HttpResponse::new(self.status());
        response.append_header(
            String::from_str("content-type"),
            String::from_str("application/json"),
        );
        response.body = out.as_str().as_bytes_vec();
        proof {
            assert(pair_views(response.headers@) =~= seq![("content-type"@, "application/json"@)]);
            assert(out@ =~= json_engine_body(engine_message_of(&self)));
        }
        response
    }
}

} // verus!
