//! The engine's request handling: API-key authentication, request
//! validation, submission (rate limit, validate, record, enqueue), and
//! record retrieval with tenant checks.

use vstd::prelude::*;

use crate::engine_models::{
    CreateExecutionResponse, ExecutionLimits, ExecutionMode, ExecutionRecord,
    ExecutionRequest, ExecutionStatus, ExecutionSummaryResponse,
};
use crate::engine_ratelimit::TenantRateLimiter;
use crate::errors::EngineError;
use crate::kvtable::{pair_views, table_first};
use crate::metrics::MetricsRegistry;
use crate::queue::{QueuedJob, Scheduler};
use crate::store::ExecutionStore;
use crate::text::{str_eq, trim, trim_of};
use vstd::utf8::encode_utf8;

verus! {

/// Which backend runs submissions.
#[derive(Clone, Copy, PartialEq, Eq, Structural)]
pub enum SandboxBackendKind {
    Docker,
    Process,
}

impl core::str::FromStr for SandboxBackendKind {
    type Err = String;

    fn from_str(s: &str) -> Result<SandboxBackendKind, String> {
        if str_eq(s, "docker") {
            Ok(SandboxBackendKind::Docker)
        } else if str_eq(s, "process") {
            Ok(SandboxBackendKind::Process)
        } else {
            Err(<String as vstd::string::StringExecFns>::from_str("unsupported sandbox backend"))
        }
    }
}

/// The engine's configuration, as plain values; reading it from the
/// environment is the host's business.
pub struct EngineConfig {
    pub worker_count: usize,
    pub queue_capacity: usize,
    pub sandbox_backend: SandboxBackendKind,
    pub default_limits: ExecutionLimits,
    pub api_keys: Vec<(String, String)>,
    pub rate_limit_per_minute: u32,
    pub rate_limit_burst: u32,
    pub network_allowed_tenants: Vec<String>,
    pub persistence_path: Option<String>,
    pub log_level: String,
}

/// The tenant of the first configured key whose bytes equal the provided
/// key, if any.
pub open spec fn tenant_for_key(pairs: Seq<(String, String)>, provided: Seq<u8>) -> Option<
    Seq<char>,
>
    decreases pairs.len(),
{
    if pairs.len() == 0 {
        None
    } else if encode_utf8(pairs[0].0@) == provided {
        Some(pairs[0].1@)
    } else {
        tenant_for_key(pairs.drop_first(), provided)
    }
}

/// What authentication decides for a header table: the tenant of the
/// matching key, or nothing.
pub open spec fn auth_tenant(
    api_keys: Seq<(String, String)>,
    headers: Seq<(Seq<char>, Seq<char>)>,
) -> Option<Seq<char>> {
    match table_first(headers, "x-api-key"@) {
        Some(v) => tenant_for_key(api_keys, encode_utf8(v)),
        None => None,
    }
}

/// Resolves the tenant of the request's `x-api-key`, comparing each
/// configured key in constant time; anything else is unauthorized.
pub fn authenticate(api_keys: &Vec<(String, String)>, headers: &Vec<(String, String)>) -> (r:
    Result<String, EngineError>)
    ensures
        match r {
            Ok(tenant) => auth_tenant(api_keys@, pair_views(headers@)) == Some(tenant@),
            Err(e) => e is Unauthorized && auth_tenant(api_keys@, pair_views(headers@)) is None,
        },
{
    let provided = match crate::kvtable::table_get(headers, "x-api-key") {
        Some(v) => v,
        None => {
            return Err(EngineError::Unauthorized);
        },
    };
    let provided_bytes = provided.as_str().as_bytes();
    let ghost keys = api_keys@;
    let mut j: usize = 0;
    proof {
        assert(keys.skip(0) =~= keys);
    }
    while j < api_keys.len()
        invariant
            keys == api_keys@,
            j <= keys.len(),
            table_first(pair_views(headers@), "x-api-key"@) == Some(provided@),
            tenant_for_key(keys.skip(j as int), provided_bytes@) == tenant_for_key(
                keys,
                provided_bytes@,
            ),
            provided_bytes@ == encode_utf8(provided@),
        decreases keys.len() - j,
    {
        proof {
            assert(keys.skip(j as int).len() > 0 && keys.skip(j as int)[0] == keys[j as int]);
            assert(keys.skip(j as int).drop_first() =~= keys.skip(j + 1));
        }
        if crate::constant_time_eq(api_keys[j].0.as_str().as_bytes(), provided_bytes) {
            proof {
                assert(encode_utf8(keys[j as int].0@) == provided_bytes@);
                assert(tenant_for_key(keys.skip(j as int), provided_bytes@) == Some(
                    keys[j as int].1@,
                ));
            }
            return Ok(api_keys[j].1.clone());
        }
        j = j + 1;
    }
    proof {
        assert(keys.skip(keys.len() as int).len() == 0);
    }
    Err(EngineError::Unauthorized)
}

/// How validation judges a request.
pub enum RequestVerdict {
    Accept,
    EmptyCode,
    CodeTooLarge,
    TooManyArgs,
    StdinTooLarge,
    TooManyCases,
    CaseStdinTooLarge,
    ZeroLimit,
}

/// Whether some test case's input is over the per-case cap.
pub open spec fn some_case_too_large(cases: Seq<crate::engine_models::TestCase>) -> bool {
    exists|i: int| 0 <= i < cases.len() && encode_utf8((#[trigger] cases[i]).stdin@).len() > 64_000
}

/// The validation rules, in the order they are checked. Sizes are byte
/// counts.
pub open spec fn request_verdict(r: ExecutionRequest) -> RequestVerdict {
    if trim_of(r.code@).len() == 0 {
        RequestVerdict::EmptyCode
    } else if encode_utf8(r.code@).len() > 250_000 {
        RequestVerdict::CodeTooLarge
    } else if r.args@.len() > 16 {
        RequestVerdict::TooManyArgs
    } else if encode_utf8(r.stdin@).len() > 256_000 {
        RequestVerdict::StdinTooLarge
    } else if r.test_cases@.len() > 128 {
        RequestVerdict::TooManyCases
    } else if some_case_too_large(r.test_cases@) {
        RequestVerdict::CaseStdinTooLarge
    } else if match r.limits {
        Some(l) => l.cpu_millicores == 0 || l.memory_mb == 0 || l.timeout_ms == 0
            || l.max_processes == 0 || l.max_file_size_bytes == 0 || l.max_output_bytes == 0,
        None => false,
    } {
        RequestVerdict::ZeroLimit
    } else {
        RequestVerdict::Accept
    }
}

/// Applies the validation rules; the error carries the exact message of
/// the first rule the request breaks.
pub fn validate_request(request: &ExecutionRequest) -> (r: Result<(), EngineError>)
    ensures
        match request_verdict(*request) {
            RequestVerdict::Accept => r is Ok,
            RequestVerdict::EmptyCode => r matches Err(EngineError::InvalidRequest(m)) && m@
                == "code is empty"@,
            RequestVerdict::CodeTooLarge => r matches Err(EngineError::InvalidRequest(m)) && m@
                == "code too large"@,
            RequestVerdict::TooManyArgs => r matches Err(EngineError::InvalidRequest(m)) && m@
                == "too many runtime args"@,
            RequestVerdict::StdinTooLarge => r matches Err(EngineError::InvalidRequest(m)) && m@
                == "stdin too large"@,
            RequestVerdict::TooManyCases => r matches Err(EngineError::InvalidRequest(m)) && m@
                == "too many test cases; max is 128"@,
            RequestVerdict::CaseStdinTooLarge => r matches Err(EngineError::InvalidRequest(m))
                && m@ == "test case stdin too large"@,
            RequestVerdict::ZeroLimit => r matches Err(EngineError::InvalidRequest(m)) && m@
                == "limits must be greater than zero"@,
        },
{
    if trim(request.code.as_str()).as_str().unicode_len() == 0 {
        return Err(EngineError::InvalidRequest(String::from_str("code is empty")));
    }
    if request.code.as_str().as_bytes().len() > 250_000 {
        return Err(EngineError::InvalidRequest(String::from_str("code too large")));
    }
    if request.args.len() > 16 {
        return Err(EngineError::InvalidRequest(String::from_str("too many runtime args")));
    }
    if request.stdin.as_str().as_bytes().len() > 256_000 {
        return Err(EngineError::InvalidRequest(String::from_str("stdin too large")));
    }
    if request.test_cases.len() > 128 {
        return Err(
            EngineError::InvalidRequest(String::from_str("too many test cases; max is 128")),
        );
    }
    let mut i: usize = 0;
    while i < request.test_cases.len()
        invariant
            i <= request.test_cases@.len(),
            trim_of(request.code@).len() != 0,
            encode_utf8(request.code@).len() <= 250_000,
            request.args@.len() <= 16,
            encode_utf8(request.stdin@).len() <= 256_000,
            request.test_cases@.len() <= 128,
            forall|j: int|
                0 <= j < i ==> encode_utf8((#[trigger] request.test_cases@[j]).stdin@).len()
                    <= 64_000,
        decreases request.test_cases@.len() - i,
    {
        if request.test_cases[i].stdin.as_str().as_bytes().len() > 64_000 {
            proof {
                assert(some_case_too_large(request.test_cases@)) by {
                    assert(encode_utf8(request.test_cases@[i as int].stdin@).len() > 64_000);
                }
            }
            return Err(
                EngineError::InvalidRequest(String::from_str("test case stdin too large")),
            );
        }
        i = i + 1;
    }
    match &request.limits {
        Some(l) => {
            if l.cpu_millicores == 0 || l.memory_mb == 0 || l.timeout_ms == 0
                || l.max_processes == 0 || l.max_file_size_bytes == 0 || l.max_output_bytes
                == 0 {
                return Err(
                    EngineError::InvalidRequest(
                        String::from_str("limits must be greater than zero"),
                    ),
                );
            }
        },
        None => {
        },
    }
    Ok(())
}

/// Whether a tenant is on the network-allowed list.
pub open spec fn tenant_network_allowed(allowed: Seq<String>, tenant: Seq<char>) -> bool {
    exists|i: int| 0 <= i < allowed.len() && (#[trigger] allowed[i])@ == tenant
}

fn network_allowed(allowed: &Vec<String>, tenant: &str) -> (r: bool)
    ensures
        r == tenant_network_allowed(allowed@, tenant@),
{
    let mut i: usize = 0;
    while i < allowed.len()
        invariant
            i <= allowed@.len(),
            forall|j: int| 0 <= j < i ==> (#[trigger] allowed@[j])@ != tenant@,
        decreases allowed@.len() - i,
    {
        if str_eq(allowed[i].as_str(), tenant) {
            return true;
        }
        i = i + 1;
    }
    false
}

/// The submitted request as it is stored and queued: its mode defaulted
/// when the client gave none.
pub open spec fn with_default_mode(r: ExecutionRequest) -> ExecutionRequest {
    if r.mode is Some {
        r
    } else {
        ExecutionRequest { mode: Some(ExecutionMode::Human), ..r }
    }
}

/// Accepts or refuses one submission: authenticate, rate-limit the
/// tenant, validate, check the network policy, normalize the limits,
/// record the execution as queued, and enqueue the job; a queue without
/// room refuses before anything is recorded. The gates are checked in
/// exactly this order.
pub fn submit_execution(
    store: &mut ExecutionStore,
    scheduler: &mut Scheduler,
    metrics: &mut MetricsRegistry,
    limiter: &mut TenantRateLimiter,
    api_keys: &Vec<(String, String)>,
    network_allowed_tenants: &Vec<String>,
    default_limits: ExecutionLimits,
    headers: &Vec<(String, String)>,
    request: ExecutionRequest,
    now_ms: u64,
) -> (r: Result<CreateExecutionResponse, EngineError>)
    requires
        old(store).wf(),
        old(limiter).wf(),
    ensures
        final(store).wf(),
        final(limiter).wf(),
        final(store).persistence_path == old(store).persistence_path,
        final(scheduler).capacity == old(scheduler).capacity,
        match auth_tenant(api_keys@, pair_views(headers@)) {
            None => {
                &&& r matches Err(e) && e is Unauthorized
                &&& final(store)@ == old(store)@
                &&& final(scheduler).jobs@ == old(scheduler).jobs@
                &&& *final(metrics) == *old(metrics)
                &&& *final(limiter) == *old(limiter)
            },
            Some(tenant) => {
                if !limiter_allows(*old(limiter), tenant, now_ms) {
                    &&& r matches Err(e) && e is RateLimited
                    &&& final(store)@ == old(store)@
                    &&& final(scheduler).jobs@ == old(scheduler).jobs@
                    &&& *final(metrics) == *old(metrics)
                } else {
                    match request_verdict(request) {
                        RequestVerdict::Accept => {
                            if request.allow_network && !tenant_network_allowed(
                                network_allowed_tenants@,
                                tenant,
                            ) {
                                &&& r matches Err(e) && e is Forbidden
                                &&& final(store)@ == old(store)@
                                &&& final(scheduler).jobs@ == old(scheduler).jobs@
                                &&& *final(metrics) == *old(metrics)
                            } else if old(scheduler).jobs@.len() >= old(scheduler).capacity {
                                &&& r matches Err(e) && e is QueueFull
                                &&& final(store)@ == old(store)@
                                &&& final(scheduler).jobs@ == old(scheduler).jobs@
                                &&& *final(metrics) == *old(metrics)
                            } else {
                                &&& r matches Ok(resp) && resp.status is Queued && resp.id@.len()
                                    == 36
                                &&& ({
                                    let limits = crate::engine_models::spec_normalized(
                                        match request.limits {
                                            Some(l) => l,
                                            None => default_limits,
                                        },
                                    );
                                    &&& final(store)@.contains_key(r->Ok_0.id@)
                                    &&& final(store)@ == old(store)@.insert(
                                        r->Ok_0.id@,
                                        final(store)@.index(r->Ok_0.id@),
                                    )
                                    &&& ({
                                        let rec = final(store)@.index(r->Ok_0.id@);
                                        &&& rec.id@ == r->Ok_0.id@
                                        &&& rec.status is Queued
                                        &&& rec.tenant_id@ == tenant
                                        &&& rec.limits == limits
                                        &&& crate::engine_models::req_like(
                                            rec.request,
                                            with_default_mode(request),
                                        )
                                        &&& rec.output is None
                                        &&& rec.error is None
                                        &&& rec.started_at_ms is None
                                        &&& rec.finished_at_ms is None
                                        &&& rec.events@.len() == 1
                                        &&& rec.events@[0].stage@ == "queued"@
                                        &&& rec.events@[0].message@
                                            == "execution accepted and queued"@
                                        &&& rec.events@[0].ts_ms == rec.created_at_ms
                                    })
                                    &&& final(scheduler).jobs@.len() == old(
                                        scheduler,
                                    ).jobs@.len() + 1
                                    &&& final(scheduler).jobs@ == old(scheduler).jobs@.push(
                                        final(scheduler).jobs@.last(),
                                    )
                                    &&& ({
                                        let job = final(scheduler).jobs@.last();
                                        &&& job.id@ == r->Ok_0.id@
                                        &&& job.tenant_id@ == tenant
                                        &&& job.limits == limits
                                        &&& crate::engine_models::req_like(
                                            job.request,
                                            with_default_mode(request),
                                        )
                                    })
                                    &&& *final(metrics) == (MetricsRegistry {
                                        submitted_total: crate::metrics::counter_inc(
                                            old(metrics).submitted_total,
                                        ),
                                        queue_depth: crate::metrics::counter_inc(
                                            old(metrics).queue_depth,
                                        ),
                                        ..*old(metrics)
                                    })
                                })
                            }
                        },
                        _ => {
                            &&& r matches Err(e) && e is InvalidRequest
                            &&& final(store)@ == old(store)@
                            &&& final(scheduler).jobs@ == old(scheduler).jobs@
                            &&& *final(metrics) == *old(metrics)
                        },
                    }
                }
            },
        },
{
    let tenant = match authenticate(api_keys, headers) {
        Ok(t) => t,
        Err(e) => {
            return Err(e);
        },
    };
    if !limiter.allow(tenant.as_str(), now_ms) {
        return Err(EngineError::RateLimited);
    }
    match validate_request(&request) {
        Ok(_) => {
        },
        Err(e) => {
            return Err(e);
        },
    }
    if request.allow_network && !network_allowed(network_allowed_tenants, tenant.as_str()) {
        return Err(EngineError::Forbidden);
    }
    if scheduler.depth() >= scheduler.capacity {
        // Refused before anything is recorded, so the store stays as it
        // was whatever ids are already in use.
        return Err(EngineError::QueueFull);
    }
    let ghost submitted = request;
    let mut request = request;
    if request.mode.is_none() {
        request.mode = Some(ExecutionMode::Human);
    }
    proof {
        assert(request == with_default_mode(submitted));
        crate::engine_models::lemma_req_like_refl(request);
    }
    let id = crate::sys::fresh_uuid();
    let limits = match &request.limits {
        Some(l) => *l,
        None => default_limits,
    };
    let limits = limits.normalized();
    let record = store.create_record(
        id.clone(),
        tenant.clone(),
        crate::engine_models::duplicate_request(&request),
        limits,
    );
    store.insert(record);
    let job = QueuedJob { id: id.clone(), tenant_id: tenant, request, limits };
    match scheduler.submit(job, metrics) {
        Ok(_) => Ok(CreateExecutionResponse { id, status: ExecutionStatus::Queued }),
        Err(_) => {
            proof {
                // The queue had room a moment ago and only grew by this
                // submission's attempt, so it cannot refuse here.
                assert(false);
            }
            Err(EngineError::QueueFull)
        },
    }
}

/// What the tenant limiter answers, as a function of its prior state.
pub open spec fn limiter_allows(l: TenantRateLimiter, tenant: Seq<char>, now_ms: u64) -> bool {
    let live = crate::engine_ratelimit::evicted(l.state@, now_ms, l.stale_after_ms);
    let b0 = if crate::keyed::keyed_view(live).contains_key(tenant) {
        crate::keyed::keyed_view(live).index(tenant)
    } else {
        crate::engine_ratelimit::TokenBucket {
            micro_tokens: l.burst_micro,
            capacity_micro: l.burst_micro,
            refill_micro_per_min: l.refill_micro_per_min,
            last_refill_ms: now_ms,
        }
    };
    crate::engine_ratelimit::spec_try_take(b0, now_ms).1
}

/// Loads a record for a tenant: unknown ids are not found, and another
/// tenant's record is forbidden.
pub fn load_for_tenant<'a>(store: &'a ExecutionStore, id: &str, tenant: &str) -> (r: Result<
    &'a ExecutionRecord,
    EngineError,
>)
    requires
        store.wf(),
    ensures
        match r {
            Ok(rec) => store@.contains_key(id@) && *rec == store@.index(id@) && rec.tenant_id@
                == tenant@,
            Err(e) => {
                ||| (e is NotFound && !store@.contains_key(id@))
                ||| (e is Forbidden && store@.contains_key(id@) && store@.index(id@).tenant_id@
                    != tenant@)
            },
        },
{
    match store.get(id) {
        Some(rec) => {
            if str_eq(rec.tenant_id.as_str(), tenant) {
                Ok(rec)
            } else {
                Err(EngineError::Forbidden)
            }
        },
        None => Err(EngineError::NotFound),
    }
}

/// Answers a status poll: authentication, the tenant check, then the
/// record's summary.
pub fn get_execution(
    store: &ExecutionStore,
    api_keys: &Vec<(String, String)>,
    headers: &Vec<(String, String)>,
    id: &str,
) -> (r: Result<ExecutionSummaryResponse, EngineError>)
    requires
        store.wf(),
    ensures
        match r {
            Ok(summary) => {
                &&& auth_tenant(api_keys@, pair_views(headers@)) == Some(summary.tenant_id@)
                &&& store@.contains_key(id@)
                &&& ({
                    let rec = store@.index(id@);
                    &&& summary.id@ == rec.id@
                    &&& summary.tenant_id@ == rec.tenant_id@
                    &&& summary.status == rec.status
                    &&& summary.created_at_ms == rec.created_at_ms
                    &&& summary.started_at_ms == rec.started_at_ms
                    &&& summary.finished_at_ms == rec.finished_at_ms
                })
            },
            Err(e) => {
                ||| (e is Unauthorized && auth_tenant(api_keys@, pair_views(headers@)) is None)
                ||| (auth_tenant(api_keys@, pair_views(headers@)) is Some && e is NotFound
                    && !store@.contains_key(id@))
                ||| (auth_tenant(api_keys@, pair_views(headers@)) matches Some(t) && e
                    is Forbidden && store@.contains_key(id@) && store@.index(id@).tenant_id@ != t)
            },
        },
{
    let tenant = match authenticate(api_keys, headers) {
        Ok(t) => t,
        Err(e) => {
            return Err(e);
        },
    };
    let rec = match load_for_tenant(store, id, tenant.as_str()) {
        Ok(rec) => rec,
        Err(e) => {
            return Err(e);
        },
    };
    Ok(
        ExecutionSummaryResponse {
            id: rec.id.clone(),
            tenant_id: rec.tenant_id.clone(),
            status: rec.status,
            created_at_ms: rec.created_at_ms,
            started_at_ms: rec.started_at_ms,
            finished_at_ms: rec.finished_at_ms,
        },
    )
}

/// Answers a result poll: authentication, the tenant check, then the full
/// record.
pub fn get_result<'a>(
    store: &'a ExecutionStore,
    api_keys: &Vec<(String, String)>,
    headers: &Vec<(String, String)>,
    id: &str,
) -> (r: Result<&'a ExecutionRecord, EngineError>)
    requires
        store.wf(),
    ensures
        match r {
            Ok(rec) => {
                &&& auth_tenant(api_keys@, pair_views(headers@)) == Some(rec.tenant_id@)
                &&& store@.contains_key(id@)
                &&& *rec == store@.index(id@)
            },
            Err(e) => {
                ||| (e is Unauthorized && auth_tenant(api_keys@, pair_views(headers@)) is None)
                ||| (auth_tenant(api_keys@, pair_views(headers@)) is Some && e is NotFound
                    && !store@.contains_key(id@))
                ||| (auth_tenant(api_keys@, pair_views(headers@)) matches Some(t) && e
                    is Forbidden && store@.contains_key(id@) && store@.index(id@).tenant_id@ != t)
            },
        },
{
    let tenant = match authenticate(api_keys, headers) {
        Ok(t) => t,
        Err(e) => {
            return Err(e);
        },
    };
    load_for_tenant(store, id, tenant.as_str())
}

} // verus!
