//! The worker pool's decisions: claiming a job, classifying a sandbox
//! result, fanning a request out over its test cases, and finalizing the
//! record with metrics. The host's workers loop over the queue and run
//! the sandbox; every decision between those calls is made here.

use vstd::prelude::*;

use crate::engine_models::{
    ExecutionLimits, ExecutionOutput, ExecutionRequest, ExecutionStatus, TestCase, TestCaseResult,
};
use crate::metrics::MetricsRegistry;
use crate::sandbox::{RunSpec, SandboxResult};
use crate::store::ExecutionStore;
use crate::text::{str_eq, trim, trim_of, u64_to_dec};

verus! {

/// The status a sandbox result resolves to: a timeout wins, then a zero
/// exit code means success, anything else failure.
pub open spec fn spec_status_of(r: SandboxResult) -> ExecutionStatus {
    if r.timed_out {
        ExecutionStatus::TimedOut
    } else if r.exit_code == 0 {
        ExecutionStatus::Succeeded
    } else {
        ExecutionStatus::Failed
    }
}

/// Classifies one sandbox result.
pub fn status_of_result(r: &SandboxResult) -> (s: ExecutionStatus)
    ensures
        s == spec_status_of(*r),
{
    if r.timed_out {
        ExecutionStatus::TimedOut
    } else if r.exit_code == 0 {
        ExecutionStatus::Succeeded
    } else {
        ExecutionStatus::Failed
    }
}

/// Marks a claimed job running: the started metric, the record's status,
/// and the claim event naming the worker. Only a queued record advances;
/// the lifecycle never moves backwards.
pub fn begin_job(
    store: &mut ExecutionStore,
    metrics: &mut MetricsRegistry,
    worker_id: u64,
    job_id: &str,
)
    requires
        old(store).wf(),
    ensures
        final(store).wf(),
        final(metrics).started_total == crate::metrics::counter_inc(old(metrics).started_total),
        final(metrics).queue_depth == (if old(metrics).queue_depth == 0 {
            0
        } else {
            (old(metrics).queue_depth - 1) as u64
        }),
        old(store)@.contains_key(job_id@) && old(store)@.index(job_id@).status is Queued
            ==> final(store)@.contains_key(job_id@)
            && final(store)@.index(job_id@).status is Running
            && final(store)@.index(job_id@).events@.len() >= 2
            && final(store)@.index(job_id@).events@.last().message@
            == "worker-"@ + crate::text::dec_str_of(worker_id as int) + " claimed job"@,
{
    metrics.started();
    store.mark_running(job_id);
    let mut message = String::from_str("worker-");
    message.append(u64_to_dec(worker_id).as_str());
    message.append(" claimed job");
    proof {
        assert(message@ =~= "worker-"@ + crate::text::dec_str_of(worker_id as int)
            + " claimed job"@);
    }
    store.append_event(job_id, "worker", message);
}

/// The run specification of one test case: the same request with the
/// case's input and no further test cases.
pub fn case_spec(
    request: &ExecutionRequest,
    limits: ExecutionLimits,
    id: &str,
    case: &TestCase,
) -> (r: RunSpec)
    ensures
        r.id@ == id@,
        r.limits == limits,
        r.request.language == request.language,
        r.request.code@ == request.code@,
        r.request.stdin@ == case.stdin@,
        r.request.test_cases@.len() == 0,
        r.request.allow_network == request.allow_network,
        r.request.args@.len() == request.args@.len(),
        forall|i: int|
            0 <= i < request.args@.len() ==> (#[trigger] r.request.args@[i])@ == request.args@[
            i]@,
{
    let mut req = crate::engine_models::duplicate_request(request);
    req.stdin = case.stdin.clone();
    req.test_cases = Vec::new();
    RunSpec { request: req, limits, id: String::from_str(id) }
}

/// The recorded outcome of one test case: the observed streams and exit
/// code, and whether the trimmed output matches the trimmed expectation,
/// when one was given.
pub fn case_result(case: &TestCase, out: &SandboxResult) -> (r: TestCaseResult)
    ensures
        r.stdin@ == case.stdin@,
        r.stdout@ == out.stdout@,
        r.stderr@ == out.stderr@,
        r.exit_code == out.exit_code,
        r.duration_ms == out.duration_ms,
        match case.expected_stdout {
            Some(e) => r.passed == Some(trim_of(out.stdout@) == trim_of(e@)),
            None => r.passed is None,
        },
{
    let passed: Option<bool> = match &case.expected_stdout {
        Some(expected) => {
            let got = trim(out.stdout.as_str());
            let want = trim(expected.as_str());
            Some(str_eq(got.as_str(), want.as_str()))
        },
        None => None,
    };
    TestCaseResult {
        stdin: case.stdin.clone(),
        stdout: out.stdout.clone(),
        stderr: out.stderr.clone(),
        passed,
        exit_code: out.exit_code,
        duration_ms: out.duration_ms,
    }
}

/// Whether the fan-out over test cases stops after this run.
pub fn should_stop_cases(out: &SandboxResult) -> (r: bool)
    ensures
        r == out.timed_out,
{
    out.timed_out
}

/// The empty result a run with no executed cases falls back to.
pub fn fallback_result() -> (r: SandboxResult)
    ensures
        r.stdout@.len() == 0,
        r.stderr@.len() == 0,
        r.exit_code == 0,
        r.duration_ms == 0,
        !r.timed_out,
{
    SandboxResult {
        stdout: String::new(),
        stderr: String::new(),
        exit_code: 0,
        duration_ms: 0,
        timed_out: false,
    }
}

/// Finalizes a job that produced a result: the status follows the
/// classification, a timeout or failure bumps its counter, completion is
/// always counted, and the record closes with the assembled output. Only
/// a record whose lifecycle allows the step is finalized.
pub fn finish_job(
    store: &mut ExecutionStore,
    metrics: &mut MetricsRegistry,
    job_id: &str,
    result: SandboxResult,
    test_results: Vec<TestCaseResult>,
    backend_name: &str,
) -> (found: bool)
    requires
        old(store).wf(),
    ensures
        final(store).wf(),
        found == (old(store)@.contains_key(job_id@)
            && crate::engine_models::status_can_advance(
            old(store)@.index(job_id@).status,
            spec_status_of(result),
        )),
        final(metrics).completed_total == crate::metrics::counter_inc(
            old(metrics).completed_total,
        ),
        final(metrics).timed_out_total == (if result.timed_out {
            crate::metrics::counter_inc(old(metrics).timed_out_total)
        } else {
            old(metrics).timed_out_total
        }),
        final(metrics).failed_total == (if !result.timed_out && result.exit_code != 0 {
            crate::metrics::counter_inc(old(metrics).failed_total)
        } else {
            old(metrics).failed_total
        }),
        found ==> final(store)@.contains_key(job_id@) && ({
            let rec = final(store)@.index(job_id@);
            &&& rec.status == spec_status_of(result)
            &&& rec.finished_at_ms is Some
            &&& rec.output matches Some(out) && out.stdout@ == result.stdout@ && out.stderr@
                == result.stderr@ && out.exit_code == result.exit_code && out.duration_ms
                == result.duration_ms && out.sandbox_backend@ == backend_name@
                && out.test_results == test_results
            &&& rec.error is None
        }),
{
    let status = status_of_result(&result);
    if result.timed_out {
        metrics.timed_out();
    } else if result.exit_code != 0 {
        metrics.failed();
    }
    metrics.completed();
    let output = ExecutionOutput {
        stdout: result.stdout,
        stderr: result.stderr,
        exit_code: result.exit_code,
        duration_ms: result.duration_ms,
        sandbox_backend: String::from_str(backend_name),
        test_results,
    };
    store.mark_finished(job_id, status, Some(output), None)
}

/// Finalizes a job whose sandbox failed outright: the error event, the
/// failure count, and a Failed record carrying the message. Only a record
/// whose lifecycle allows the step is finalized.
pub fn finish_job_error(
    store: &mut ExecutionStore,
    metrics: &mut MetricsRegistry,
    job_id: &str,
    message: String,
) -> (found: bool)
    requires
        old(store).wf(),
    ensures
        final(store).wf(),
        found == (old(store)@.contains_key(job_id@)
            && crate::engine_models::status_can_advance(
            old(store)@.index(job_id@).status,
            ExecutionStatus::Failed,
        )),
        final(metrics).failed_total == crate::metrics::counter_inc(old(metrics).failed_total),
        final(metrics).completed_total == old(metrics).completed_total,
        found ==> final(store)@.contains_key(job_id@) && ({
            let rec = final(store)@.index(job_id@);
            &&& rec.status is Failed
            &&& rec.finished_at_ms is Some
            &&& rec.output is None
            &&& rec.error matches Some(m) && m@ == message@
        }),
{
    store.append_event(job_id, "sandbox_error", message.clone());
    metrics.failed();
    store.mark_finished(job_id, ExecutionStatus::Failed, None, Some(message))
}

} // verus!
