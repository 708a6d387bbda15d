//! The execution engine's data model: languages, limits, requests,
//! records, events, and the clamping of execution limits to safe bounds.

use vstd::prelude::*;

verus! {

/// The languages the engine can run.
#[derive(Clone, Copy, PartialEq, Eq, Structural)]
pub enum Language {
    Python,
    JavaScript,
    Rust,
    C,
}

/// Who the output is shaped for.
#[derive(Clone, Copy, PartialEq, Eq, Structural)]
pub enum ExecutionMode {
    Human,
    AgentOptimized,
}

/// One test case: input bytes and, optionally, the output they must
/// produce.
#[derive(Clone)]
pub struct TestCase {
    pub stdin: String,
    pub expected_stdout: Option<String>,
}

/// Resource limits for one execution. Processor allowance is in
/// millicores, so fractional core counts are exact integers.
#[derive(Clone, Copy, PartialEq, Eq, Structural)]
pub struct ExecutionLimits {
    pub cpu_millicores: u64,
    pub memory_mb: u64,
    pub timeout_ms: u64,
    pub max_processes: u64,
    pub max_file_size_bytes: u64,
    pub max_output_bytes: usize,
}

/// A value clamped into an inclusive range.
pub open spec fn clamped(v: int, lo: int, hi: int) -> int {
    if v < lo {
        lo
    } else if v > hi {
        hi
    } else {
        v
    }
}

/// The limits after clamping every field to its safe bound.
pub open spec fn spec_normalized(l: ExecutionLimits) -> ExecutionLimits {
    ExecutionLimits {
        cpu_millicores: clamped(l.cpu_millicores as int, 100, 4000) as u64,
        memory_mb: clamped(l.memory_mb as int, 32, 8192) as u64,
        timeout_ms: clamped(l.timeout_ms as int, 50, 120_000) as u64,
        max_processes: clamped(l.max_processes as int, 1, 256) as u64,
        max_file_size_bytes: clamped(l.max_file_size_bytes as int, 1024, 104_857_600) as u64,
        max_output_bytes: clamped(l.max_output_bytes as int, 1024, 4_194_304) as usize,
    }
}

/// Whether limits lie within the safe bounds.
pub open spec fn limits_in_bounds(l: ExecutionLimits) -> bool {
    &&& 100 <= l.cpu_millicores <= 4000
    &&& 32 <= l.memory_mb <= 8192
    &&& 50 <= l.timeout_ms <= 120_000
    &&& 1 <= l.max_processes <= 256
    &&& 1024 <= l.max_file_size_bytes <= 104_857_600
    &&& 1024 <= l.max_output_bytes <= 4_194_304
}

/// Normalized limits always satisfy the safe bounds.
pub proof fn lemma_normalized_in_bounds(l: ExecutionLimits)
    ensures
        limits_in_bounds(spec_normalized(l)),
{
}

impl ExecutionLimits {
    /// Clamps every field to its safe bound: processor allowance into
    /// [100, 4000] millicores, memory into [32, 8192] MB, timeout into
    /// [50, 120000] ms, processes into [1, 256], file size into
    /// [1 KiB, 100 MiB], output into [1 KiB, 4 MiB].
    pub fn normalized(self) -> (r: ExecutionLimits)
        ensures
            r == spec_normalized(self),
            limits_in_bounds(r),
    {
        ExecutionLimits {
            cpu_millicores: clamp_u64(self.cpu_millicores, 100, 4000),
            memory_mb: clamp_u64(self.memory_mb, 32, 8192),
            timeout_ms: clamp_u64(self.timeout_ms, 50, 120_000),
            max_processes: clamp_u64(self.max_processes, 1, 256),
            max_file_size_bytes: clamp_u64(self.max_file_size_bytes, 1024, 104_857_600),
            max_output_bytes: clamp_usize(self.max_output_bytes, 1024, 4_194_304),
        }
    }
}

fn clamp_u64(v: u64, lo: u64, hi: u64) -> (r: u64)
    requires
        lo <= hi,
    ensures
        r == clamped(v as int, lo as int, hi as int),
{
    if v < lo {
        lo
    } else if v > hi {
        hi
    } else {
        v
    }
}

fn clamp_usize(v: usize, lo: usize, hi: usize) -> (r: usize)
    requires
        lo <= hi,
    ensures
        r == clamped(v as int, lo as int, hi as int),
{
    if v < lo {
        lo
    } else if v > hi {
        hi
    } else {
        v
    }
}

/// A submitted execution request.
#[derive(Clone)]
pub struct ExecutionRequest {
    pub language: Language,
    pub code: String,
    pub stdin: String,
    pub args: Vec<String>,
    pub allow_network: bool,
    pub limits: Option<ExecutionLimits>,
    pub mode: Option<ExecutionMode>,
    pub test_cases: Vec<TestCase>,
    pub metadata: Vec<(String, String)>,
}

/// Where an execution stands.
#[derive(Clone, Copy, PartialEq, Eq, Structural)]
pub enum ExecutionStatus {
    Queued,
    Running,
    Succeeded,
    Failed,
    TimedOut,
    Rejected,
}


/// The allowed status transitions: forward along the lifecycle only, as a
/// record's status is set exactly once per stage.
pub open spec fn status_can_advance(from: ExecutionStatus, to: ExecutionStatus) -> bool {
    match (from, to) {
        (ExecutionStatus::Queued, ExecutionStatus::Running) => true,
        (ExecutionStatus::Queued, ExecutionStatus::Rejected) => true,
        (ExecutionStatus::Running, ExecutionStatus::Succeeded) => true,
        (ExecutionStatus::Running, ExecutionStatus::Failed) => true,
        (ExecutionStatus::Running, ExecutionStatus::TimedOut) => true,
        _ => false,
    }
}

/// Decides whether a status may advance to another.
pub fn status_advances(from: ExecutionStatus, to: ExecutionStatus) -> (r: bool)
    ensures
        r == status_can_advance(from, to),
{
    match (from, to) {
        (ExecutionStatus::Queued, ExecutionStatus::Running) => true,
        (ExecutionStatus::Queued, ExecutionStatus::Rejected) => true,
        (ExecutionStatus::Running, ExecutionStatus::Succeeded) => true,
        (ExecutionStatus::Running, ExecutionStatus::Failed) => true,
        (ExecutionStatus::Running, ExecutionStatus::TimedOut) => true,
        _ => false,
    }
}

/// The outcome of one test case.
#[derive(Clone)]
pub struct TestCaseResult {
    pub stdin: String,
    pub stdout: String,
    pub stderr: String,
    pub passed: Option<bool>,
    pub exit_code: i32,
    pub duration_ms: u64,
}

/// What an execution produced.
#[derive(Clone)]
pub struct ExecutionOutput {
    pub stdout: String,
    pub stderr: String,
    pub exit_code: i32,
    pub duration_ms: u64,
    pub sandbox_backend: String,
    pub test_results: Vec<TestCaseResult>,
}

/// One entry of a record's append-only timeline.
#[derive(Clone)]
pub struct ExecutionEvent {
    pub ts_ms: u64,
    pub stage: String,
    pub message: String,
}

/// Everything the engine remembers about one execution.
#[derive(Clone)]
pub struct ExecutionRecord {
    pub id: String,
    pub tenant_id: String,
    pub status: ExecutionStatus,
    pub request: ExecutionRequest,
    pub limits: ExecutionLimits,
    pub output: Option<ExecutionOutput>,
    pub error: Option<String>,
    pub events: Vec<ExecutionEvent>,
    pub created_at_ms: u64,
    pub started_at_ms: Option<u64>,
    pub finished_at_ms: Option<u64>,
}

/// The body of a successful submission: the fresh id, queued.
pub struct CreateExecutionResponse {
    pub id: String,
    pub status: ExecutionStatus,
}

/// The summary a status poll answers with.
pub struct ExecutionSummaryResponse {
    pub id: String,
    pub tenant_id: String,
    pub status: ExecutionStatus,
    pub created_at_ms: u64,
    pub started_at_ms: Option<u64>,
    pub finished_at_ms: Option<u64>,
}

/// Whether two test cases carry the same text.
pub open spec fn case_like(a: TestCase, b: TestCase) -> bool {
    &&& a.stdin@ == b.stdin@
    &&& match (a.expected_stdout, b.expected_stdout) {
        (Some(x), Some(y)) => x@ == y@,
        (None, None) => true,
        _ => false,
    }
}

/// Whether two requests carry the same content.
pub open spec fn req_like(a: ExecutionRequest, b: ExecutionRequest) -> bool {
    &&& a.language == b.language
    &&& a.code@ == b.code@
    &&& a.stdin@ == b.stdin@
    &&& a.args@.len() == b.args@.len()
    &&& forall|i: int| 0 <= i < a.args@.len() ==> (#[trigger] a.args@[i])@ == b.args@[i]@
    &&& a.allow_network == b.allow_network
    &&& a.limits == b.limits
    &&& a.mode == b.mode
    &&& a.test_cases@.len() == b.test_cases@.len()
    &&& forall|i: int|
        0 <= i < a.test_cases@.len() ==> case_like(#[trigger] a.test_cases@[i], b.test_cases@[i])
    &&& a.metadata@.len() == b.metadata@.len()
    &&& forall|i: int|
        0 <= i < a.metadata@.len() ==> (#[trigger] a.metadata@[i]).0@ == b.metadata@[i].0@
            && a.metadata@[i].1@ == b.metadata@[i].1@
}

/// Content equality is reflexive.
pub proof fn lemma_req_like_refl(r: ExecutionRequest)
    ensures
        req_like(r, r),
{
    assert(forall|i: int|
        0 <= i < r.test_cases@.len() ==> case_like(#[trigger] r.test_cases@[i], r.test_cases@[i]));
}

/// A content-equal copy of a test case.
pub fn duplicate_case(c: &TestCase) -> (r: TestCase)
    ensures
        case_like(r, *c),
{
    TestCase {
        stdin: c.stdin.clone(),
        expected_stdout: match &c.expected_stdout {
            Some(e) => Some(e.clone()),
            None => None,
        },
    }
}

/// A content-equal copy of a request.
pub fn duplicate_request(r: &ExecutionRequest) -> (d: ExecutionRequest)
    ensures
        req_like(d, *r),
{
    let mut args: Vec<String> = Vec::new();
    let mut i: usize = 0;
    while i < r.args.len()
        invariant
            i <= r.args@.len(),
            args@.len() == i,
            forall|j: int| 0 <= j < i ==> (#[trigger] args@[j])@ == r.args@[j]@,
        decreases r.args@.len() - i,
    {
        args.push(r.args[i].clone());
        i = i + 1;
    }
    let mut cases: Vec<TestCase> = Vec::new();
    let mut i: usize = 0;
    while i < r.test_cases.len()
        invariant
            i <= r.test_cases@.len(),
            cases@.len() == i,
            forall|j: int| 0 <= j < i ==> case_like(#[trigger] cases@[j], r.test_cases@[j]),
        decreases r.test_cases@.len() - i,
    {
        cases.push(duplicate_case(&r.test_cases[i]));
        i = i + 1;
    }
    let mut metadata: Vec<(String, String)> = Vec::new();
    let mut i: usize = 0;
    while i < r.metadata.len()
        invariant
            i <= r.metadata@.len(),
            metadata@.len() == i,
            forall|j: int|
                0 <= j < i ==> (#[trigger] metadata@[j]).0@ == r.metadata@[j].0@ && metadata@[
                j].1@ == r.metadata@[j].1@,
        decreases r.metadata@.len() - i,
    {
        metadata.push((r.metadata[i].0.clone(), r.metadata[i].1.clone()));
        i = i + 1;
    }
    ExecutionRequest {
        language: r.language,
        code: r.code.clone(),
        stdin: r.stdin.clone(),
        args,
        allow_network: r.allow_network,
        limits: r.limits,
        mode: r.mode,
        test_cases: cases,
        metadata,
    }
}

} // verus!
