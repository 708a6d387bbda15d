use gateway_core::engine_api::{
    authenticate, get_execution, get_result, submit_execution, validate_request,
};
use gateway_core::engine_models::{
    ExecutionLimits, ExecutionRequest, ExecutionStatus, Language, TestCase,
};
use gateway_core::engine_ratelimit::TenantRateLimiter;
use gateway_core::errors::EngineError;
use gateway_core::metrics::MetricsRegistry;
use gateway_core::queue::Scheduler;
use gateway_core::sandbox::{
    append_limited, container_name, normalize_mount_path, LanguageSpec, ProcessSandbox, RunSpec,
    SandboxResult,
};
use gateway_core::store::ExecutionStore;
use gateway_core::worker::{begin_job, case_result, case_spec, finish_job, finish_job_error};

fn small_limits() -> ExecutionLimits {
    ExecutionLimits {
        cpu_millicores: 500,
        memory_mb: 256,
        timeout_ms: 3000,
        max_processes: 32,
        max_file_size_bytes: 1024 * 1024,
        max_output_bytes: 64 * 1024,
    }
}

fn python_request(code: &str) -> ExecutionRequest {
    ExecutionRequest {
        language: Language::Python,
        code: String::from(code),
        stdin: String::new(),
        args: Vec::new(),
        allow_network: false,
        limits: None,
        mode: None,
        test_cases: Vec::new(),
        metadata: Vec::new(),
    }
}

fn api_keys() -> Vec<(String, String)> {
    vec![(String::from("dev-key"), String::from("default"))]
}

fn auth_headers() -> Vec<(String, String)> {
    vec![(String::from("x-api-key"), String::from("dev-key"))]
}

#[test]
fn queue_depth_does_not_underflow() {
    let mut metrics = MetricsRegistry::new();
    metrics.started();
    let rendered = metrics.render_prometheus();
    assert!(rendered.as_str().contains("execution_queue_depth 0"));
}

#[test]
fn normalizes_limits_to_safe_bounds() {
    let normalized = ExecutionLimits {
        cpu_millicores: 10,
        memory_mb: 1,
        timeout_ms: 1,
        max_processes: 999,
        max_file_size_bytes: 1,
        max_output_bytes: 99_000_000,
    }
    .normalized();

    assert_eq!(normalized.cpu_millicores, 100);
    assert_eq!(normalized.memory_mb, 32);
    assert_eq!(normalized.timeout_ms, 50);
    assert_eq!(normalized.max_processes, 256);
    assert_eq!(normalized.max_file_size_bytes, 1024);
    assert_eq!(normalized.max_output_bytes, 4 * 1024 * 1024);
}

#[test]
fn metrics_render_exact_text() {
    let mut m = MetricsRegistry::new();
    m.submitted();
    m.submitted();
    m.started();
    m.completed();
    let text = m.render_prometheus();
    assert!(text.as_str().contains("execution_submitted_total 2\n"));
    assert!(text.as_str().contains("execution_started_total 1\n"));
    assert!(text.as_str().contains("execution_completed_total 1\n"));
    assert!(text.as_str().contains("execution_queue_depth 1\n"));
}

#[test]
fn authenticate_maps_key_to_tenant() {
    let keys = api_keys();
    assert_eq!(authenticate(&keys, &auth_headers()).unwrap().as_str(), "default");
    let wrong = vec![(String::from("x-api-key"), String::from("bad"))];
    assert!(matches!(authenticate(&keys, &wrong), Err(EngineError::Unauthorized)));
    assert!(matches!(authenticate(&keys, &Vec::new()), Err(EngineError::Unauthorized)));
}

#[test]
fn validation_rejects_each_bad_shape() {
    let empty = python_request("   \n ");
    assert!(matches!(validate_request(&empty), Err(EngineError::InvalidRequest(_))));

    let mut big = python_request("x");
    big.code = "a".repeat(250_001);
    assert!(validate_request(&big).is_err());

    let mut many_args = python_request("print()");
    many_args.args = (0..17).map(|_| String::from("a")).collect();
    assert!(validate_request(&many_args).is_err());

    let mut big_stdin = python_request("print()");
    big_stdin.stdin = "s".repeat(256_001);
    assert!(validate_request(&big_stdin).is_err());

    let mut many_cases = python_request("print()");
    many_cases.test_cases =
        (0..129).map(|_| TestCase { stdin: String::new(), expected_stdout: None }).collect();
    assert!(validate_request(&many_cases).is_err());

    let mut big_case = python_request("print()");
    big_case.test_cases =
        vec![TestCase { stdin: "c".repeat(64_001), expected_stdout: None }];
    assert!(validate_request(&big_case).is_err());

    // Any zero limit field is rejected, not only the obvious three.
    let zeroed = [
        ExecutionLimits { cpu_millicores: 0, ..small_limits() },
        ExecutionLimits { memory_mb: 0, ..small_limits() },
        ExecutionLimits { timeout_ms: 0, ..small_limits() },
        ExecutionLimits { max_processes: 0, ..small_limits() },
        ExecutionLimits { max_file_size_bytes: 0, ..small_limits() },
        ExecutionLimits { max_output_bytes: 0, ..small_limits() },
    ];
    for limits in zeroed {
        let mut zero = python_request("print()");
        zero.limits = Some(limits);
        assert!(validate_request(&zero).is_err());
    }

    assert!(validate_request(&python_request("print(\"hi\")")).is_ok());
}

#[test]
fn tenant_limiter_allows_burst_then_denies() {
    let mut limiter = TenantRateLimiter::new(60, 2);
    assert!(limiter.allow("t", 0));
    assert!(limiter.allow("t", 0));
    assert!(!limiter.allow("t", 0));
    // Refill of one token per second brings one back.
    assert!(limiter.allow("t", 1_000));
    // Another tenant has its own bucket.
    assert!(limiter.allow("u", 0));
}

#[test]
fn scheduler_is_fifo_and_bounded() {
    let mut metrics = MetricsRegistry::new();
    let mut scheduler = Scheduler::new(2);
    let job = |id: &str| gateway_core::queue::QueuedJob {
        id: String::from(id),
        tenant_id: String::from("t"),
        request: python_request("print()"),
        limits: small_limits(),
    };
    scheduler.submit(job("a"), &mut metrics).unwrap();
    scheduler.submit(job("b"), &mut metrics).unwrap();
    assert!(matches!(
        scheduler.submit(job("c"), &mut metrics),
        Err(EngineError::QueueFull)
    ));
    assert_eq!(scheduler.receive().unwrap().id.as_str(), "a");
    assert_eq!(scheduler.receive().unwrap().id.as_str(), "b");
    assert!(scheduler.receive().is_none());
}

#[test]
fn engine_submit_and_run_to_success() {
    let mut store = ExecutionStore::new(None);
    let mut scheduler = Scheduler::new(8);
    let mut metrics = MetricsRegistry::new();
    let mut limiter = TenantRateLimiter::new(120, 10);
    let keys = api_keys();
    let allowed: Vec<String> = Vec::new();

    let accepted = submit_execution(
        &mut store,
        &mut scheduler,
        &mut metrics,
        &mut limiter,
        &keys,
        &allowed,
        small_limits(),
        &auth_headers(),
        python_request("print(\"hi\")"),
        0,
    )
    .unwrap();
    assert!(matches!(accepted.status, ExecutionStatus::Queued));
    assert_eq!(accepted.id.as_str().chars().count(), 36);

    // A worker claims the job and the sandbox reports success.
    let job = scheduler.receive().unwrap();
    assert_eq!(job.id.as_str(), accepted.id.as_str());
    begin_job(&mut store, &mut metrics, 0, job.id.as_str());
    let summary = get_execution(&store, &keys, &auth_headers(), job.id.as_str()).unwrap();
    assert!(matches!(summary.status, ExecutionStatus::Running));

    let result = SandboxResult {
        stdout: String::from("hi\n"),
        stderr: String::new(),
        exit_code: 0,
        duration_ms: 12,
        timed_out: false,
    };
    assert!(finish_job(&mut store, &mut metrics, job.id.as_str(), result, Vec::new(), "docker"));

    let record = get_result(&store, &keys, &auth_headers(), job.id.as_str()).unwrap();
    assert!(matches!(record.status, ExecutionStatus::Succeeded));
    let output = record.output.as_ref().unwrap();
    assert_eq!(output.stdout.as_str(), "hi\n");
    assert_eq!(output.exit_code, 0);
    assert!(output.duration_ms > 0);
    assert_eq!(output.sandbox_backend.as_str(), "docker");
    // The timeline reads queued, running, worker claim, finished, in
    // timestamp order.
    assert_eq!(record.events[0].stage.as_str(), "queued");
    assert_eq!(record.events[1].stage.as_str(), "running");
    assert_eq!(record.events[2].stage.as_str(), "worker");
    assert_eq!(record.events.last().unwrap().stage.as_str(), "finished");
    for pair in record.events.windows(2) {
        assert!(pair[0].ts_ms <= pair[1].ts_ms);
    }
    assert_eq!(metrics.submitted_total, 1);
    assert_eq!(metrics.started_total, 1);
    assert_eq!(metrics.completed_total, 1);
    assert_eq!(metrics.failed_total, 0);
}

#[test]
fn engine_timeout_resolves_record_and_metric() {
    let mut store = ExecutionStore::new(None);
    let mut metrics = MetricsRegistry::new();
    let record = store.create_record(
        String::from("job-1"),
        String::from("default"),
        python_request("while True: pass"),
        small_limits(),
    );
    store.insert(record);
    begin_job(&mut store, &mut metrics, 3, "job-1");
    let result = SandboxResult {
        stdout: String::new(),
        stderr: String::new(),
        exit_code: -1,
        duration_ms: 230,
        timed_out: true,
    };
    assert!(finish_job(&mut store, &mut metrics, "job-1", result, Vec::new(), "docker"));
    let record = store.get("job-1").unwrap();
    assert!(matches!(record.status, ExecutionStatus::TimedOut));
    let output = record.output.as_ref().unwrap();
    assert_eq!(output.exit_code, -1);
    assert!(record.finished_at_ms.unwrap() >= record.started_at_ms.unwrap());
    assert_eq!(metrics.timed_out_total, 1);
    assert_eq!(metrics.completed_total, 1);
}

#[test]
fn sandbox_error_fails_the_record() {
    let mut store = ExecutionStore::new(None);
    let mut metrics = MetricsRegistry::new();
    let record = store.create_record(
        String::from("job-2"),
        String::from("default"),
        python_request("print()"),
        small_limits(),
    );
    store.insert(record);
    begin_job(&mut store, &mut metrics, 1, "job-2");
    assert!(finish_job_error(
        &mut store,
        &mut metrics,
        "job-2",
        String::from("failed to spawn")
    ));
    let record = store.get("job-2").unwrap();
    assert!(matches!(record.status, ExecutionStatus::Failed));
    assert_eq!(record.error.as_ref().unwrap().as_str(), "failed to spawn");
    assert!(record.output.is_none());
    assert_eq!(metrics.failed_total, 1);
    assert!(record.events.iter().any(|e| e.stage.as_str() == "sandbox_error"));
}

#[test]
fn submit_gates_reject_in_order() {
    let mut store = ExecutionStore::new(None);
    let mut scheduler = Scheduler::new(1);
    let mut metrics = MetricsRegistry::new();
    let mut limiter = TenantRateLimiter::new(60, 100);
    let keys = api_keys();
    let allowed: Vec<String> = Vec::new();

    // Bad key.
    let bad_headers = vec![(String::from("x-api-key"), String::from("nope"))];
    assert!(matches!(
        submit_execution(
            &mut store,
            &mut scheduler,
            &mut metrics,
            &mut limiter,
            &keys,
            &allowed,
            small_limits(),
            &bad_headers,
            python_request("print()"),
            0,
        ),
        Err(EngineError::Unauthorized)
    ));

    // Invalid request.
    assert!(matches!(
        submit_execution(
            &mut store,
            &mut scheduler,
            &mut metrics,
            &mut limiter,
            &keys,
            &allowed,
            small_limits(),
            &auth_headers(),
            python_request("  "),
            0,
        ),
        Err(EngineError::InvalidRequest(_))
    ));

    // Network for a tenant not on the list.
    let mut net = python_request("print()");
    net.allow_network = true;
    assert!(matches!(
        submit_execution(
            &mut store,
            &mut scheduler,
            &mut metrics,
            &mut limiter,
            &keys,
            &allowed,
            small_limits(),
            &auth_headers(),
            net,
            0,
        ),
        Err(EngineError::Forbidden)
    ));

    // Queue full: the record does not stay behind.
    submit_execution(
        &mut store,
        &mut scheduler,
        &mut metrics,
        &mut limiter,
        &keys,
        &allowed,
        small_limits(),
        &auth_headers(),
        python_request("print()"),
        0,
    )
    .unwrap();
    let before = store.records.len();
    assert!(matches!(
        submit_execution(
            &mut store,
            &mut scheduler,
            &mut metrics,
            &mut limiter,
            &keys,
            &allowed,
            small_limits(),
            &auth_headers(),
            python_request("print()"),
            0,
        ),
        Err(EngineError::QueueFull)
    ));
    assert_eq!(store.records.len(), before);
}

#[test]
fn tenant_mismatch_is_forbidden() {
    let mut store = ExecutionStore::new(None);
    let record = store.create_record(
        String::from("job-3"),
        String::from("other-tenant"),
        python_request("print()"),
        small_limits(),
    );
    store.insert(record);
    let keys = api_keys();
    assert!(matches!(
        get_execution(&store, &keys, &auth_headers(), "job-3"),
        Err(EngineError::Forbidden)
    ));
    assert!(matches!(
        get_execution(&store, &keys, &auth_headers(), "missing"),
        Err(EngineError::NotFound)
    ));
}

#[test]
fn test_case_fanout_records_trimmed_comparison() {
    let case = TestCase {
        stdin: String::from("3 4"),
        expected_stdout: Some(String::from("7")),
    };
    let spec = case_spec(&python_request("print(input())"), small_limits(), "id-1", &case);
    assert_eq!(spec.request.stdin.as_str(), "3 4");
    assert!(spec.request.test_cases.is_empty());
    let out = SandboxResult {
        stdout: String::from("7\n"),
        stderr: String::new(),
        exit_code: 0,
        duration_ms: 3,
        timed_out: false,
    };
    let recorded = case_result(&case, &out);
    assert_eq!(recorded.passed, Some(true));
    let wrong = SandboxResult { stdout: String::from("8\n"), ..out.clone() };
    assert_eq!(case_result(&case, &wrong).passed, Some(false));
    let unchecked = TestCase { stdin: String::from("x"), expected_stdout: None };
    assert_eq!(case_result(&unchecked, &out).passed, None);
}

#[test]
fn language_table_is_fixed() {
    let py = LanguageSpec::for_language(&Language::Python);
    assert_eq!(py.source_name, "main.py");
    assert_eq!(py.docker_image, "python:3.12-alpine");
    assert_eq!(py.source_path("/tmp/w").as_str(), "/tmp/w/main.py");
    let c = LanguageSpec::for_language(&Language::C);
    assert_eq!(c.docker_image, "gcc:14");
    assert_eq!(c.process_compile_cmd, Some("gcc"));
}

#[test]
fn source_size_gate_and_names() {
    let spec = RunSpec {
        request: python_request("print()"),
        limits: small_limits(),
        id: String::from("abc"),
    };
    assert!(gateway_core::sandbox::source_within_limit(&spec));
    let mut tight = spec;
    tight.limits.max_file_size_bytes = 2;
    assert!(!gateway_core::sandbox::source_within_limit(&tight));
    assert_eq!(container_name("abc", 42).as_str(), "exec-abc-42");
    assert_eq!(normalize_mount_path("C:\\tmp\\w").as_str(), "C:/tmp/w");
}

#[test]
fn output_capping_drops_extra_bytes() {
    let mut out: Vec<u8> = Vec::new();
    append_limited(&mut out, b"hello", 5, 8);
    append_limited(&mut out, b"world", 5, 8);
    assert_eq!(out, b"hellowor".to_vec());
    append_limited(&mut out, b"more", 4, 8);
    assert_eq!(out, b"hellowor".to_vec());
}

#[test]
fn compile_cache_round_trip() {
    let mut backend = ProcessSandbox::new();
    let key = gateway_core::sandbox::compile_cache_key("main.rs", "fn main() {}");
    assert!(backend.cached_binary(key).is_none());
    backend.record_binary(key, String::from("/tmp/cache/bin-1"));
    assert_eq!(backend.cached_binary(key).unwrap().as_str(), "/tmp/cache/bin-1");
    let other = gateway_core::sandbox::compile_cache_key("main.rs", "fn main() { }");
    assert_ne!(key, other);
}

#[test]
fn record_lifecycle_only_moves_forward() {
    let mut store = ExecutionStore::new(None);
    let mut metrics = MetricsRegistry::new();
    let record = store.create_record(
        String::from("job-4"),
        String::from("default"),
        python_request("print()"),
        small_limits(),
    );
    store.insert(record);
    // Finalizing a queued record is refused: it never ran.
    assert!(!finish_job_error(&mut store, &mut metrics, "job-4", String::from("x")));
    assert!(matches!(store.get("job-4").unwrap().status, ExecutionStatus::Queued));
    begin_job(&mut store, &mut metrics, 2, "job-4");
    let done = SandboxResult {
        stdout: String::new(),
        stderr: String::new(),
        exit_code: 0,
        duration_ms: 1,
        timed_out: false,
    };
    assert!(finish_job(&mut store, &mut metrics, "job-4", done.clone(), Vec::new(), "docker"));
    let finished_at = store.get("job-4").unwrap().finished_at_ms;
    let events_len = store.get("job-4").unwrap().events.len();
    // A second finalization, and a late running mark, change nothing: the
    // status and stamps are set exactly once.
    assert!(!finish_job(&mut store, &mut metrics, "job-4", done, Vec::new(), "docker"));
    store.mark_running("job-4");
    let record = store.get("job-4").unwrap();
    assert!(matches!(record.status, ExecutionStatus::Succeeded));
    assert_eq!(record.finished_at_ms, finished_at);
    assert_eq!(record.events.len(), events_len);
}
