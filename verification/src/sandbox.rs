//! The sandbox abstraction: run specifications, results, the fixed
//! language table, source-size admission, working-directory and container
//! naming, output capping, and the process backend's compile cache. The
//! host launches the container or process; every computable rule around
//! that launch is made here.

use vstd::prelude::*;

use crate::engine_models::{ExecutionLimits, ExecutionRequest};
use crate::queue::QueuedJob;
use crate::text::{dec_str_of, u64_to_dec};
use vstd::utf8::encode_utf8;

verus! {

/// Everything one sandbox run needs.
pub struct RunSpec {
    pub request: ExecutionRequest,
    pub limits: ExecutionLimits,
    pub id: String,
}

impl RunSpec {
    /// The run a queued job asks for.
    pub fn from_job(job: QueuedJob) -> (r: RunSpec)
        ensures
            r.request == job.request,
            r.limits == job.limits,
            r.id == job.id,
    {
        RunSpec { request: job.request, limits: job.limits, id: job.id }
    }
}

/// What one sandbox run produced.
#[derive(Clone)]
pub struct SandboxResult {
    pub stdout: String,
    pub stderr: String,
    pub exit_code: i32,
    pub duration_ms: u64,
    pub timed_out: bool,
}

/// The fixed per-language table: source file name, container image, the
/// script the container runs, and how the process backend handles it.
pub struct LanguageSpec {
    pub source_name: &'static str,
    pub docker_image: &'static str,
    pub docker_script: &'static str,
    pub process_interpreted_cmd: Option<&'static str>,
    pub process_compile_cmd: Option<&'static str>,
}

impl LanguageSpec {
    /// The table row of a language.
    pub fn for_language(language: &crate::engine_models::Language) -> (r: LanguageSpec)
        ensures
            match language {
                crate::engine_models::Language::Python => {
                    &&& r.source_name@ == "main.py"@
                    &&& r.docker_image@ == "python:3.12-alpine"@
                    &&& r.docker_script@ == "python3 -I /workspace/main.py \"$@\""@
                    &&& r.process_interpreted_cmd matches Some(c) && c@ == "python"@
                    &&& r.process_compile_cmd is None
                },
                crate::engine_models::Language::JavaScript => {
                    &&& r.source_name@ == "main.js"@
                    &&& r.docker_image@ == "node:22-alpine"@
                    &&& r.docker_script@ == "node /workspace/main.js \"$@\""@
                    &&& r.process_interpreted_cmd matches Some(c) && c@ == "node"@
                    &&& r.process_compile_cmd is None
                },
                crate::engine_models::Language::Rust => {
                    &&& r.source_name@ == "main.rs"@
                    &&& r.docker_image@ == "rust:1.76-alpine"@
                    &&& r.docker_script@
                        == "rustc /workspace/main.rs -O -o /tmp/app && /tmp/app \"$@\""@
                    &&& r.process_interpreted_cmd is None
                    &&& r.process_compile_cmd matches Some(c) && c@ == "rustc"@
                },
                crate::engine_models::Language::C => {
                    &&& r.source_name@ == "main.c"@
                    &&& r.docker_image@ == "gcc:14"@
                    &&& r.docker_script@
                        == "gcc /workspace/main.c -O2 -o /tmp/app && /tmp/app \"$@\""@
                    &&& r.process_interpreted_cmd is None
                    &&& r.process_compile_cmd matches Some(c) && c@ == "gcc"@
                },
            },
    {
        match language {
            crate::engine_models::Language::Python => LanguageSpec {
                source_name: "main.py",
                docker_image: "python:3.12-alpine",
                docker_script: "python3 -I /workspace/main.py \"$@\"",
                process_interpreted_cmd: Some("python"),
                process_compile_cmd: None,
            },
            crate::engine_models::Language::JavaScript => LanguageSpec {
                source_name: "main.js",
                docker_image: "node:22-alpine",
                docker_script: "node /workspace/main.js \"$@\"",
                process_interpreted_cmd: Some("node"),
                process_compile_cmd: None,
            },
            crate::engine_models::Language::Rust => LanguageSpec {
                source_name: "main.rs",
                docker_image: "rust:1.76-alpine",
                docker_script: "rustc /workspace/main.rs -O -o /tmp/app && /tmp/app \"$@\"",
                process_interpreted_cmd: None,
                process_compile_cmd: Some("rustc"),
            },
            crate::engine_models::Language::C => LanguageSpec {
                source_name: "main.c",
                docker_image: "gcc:14",
                docker_script: "gcc /workspace/main.c -O2 -o /tmp/app && /tmp/app \"$@\"",
                process_interpreted_cmd: None,
                process_compile_cmd: Some("gcc"),
            },
        }
    }

    /// The path of the source file inside a working directory.
    pub fn source_path(&self, work_dir: &str) -> (r: String)
        ensures
            r@ == work_dir@ + "/"@ + self.source_name@,
    {
        let mut p = String::from_str(work_dir);
        p.append("/");
        p.append(self.source_name);
        proof {
            assert(p@ =~= work_dir@ + "/"@ + self.source_name@);
        }
        p
    }
}

/// Whether the source fits the configured file-size limit, in bytes.
pub fn source_within_limit(spec: &RunSpec) -> (r: bool)
    ensures
        r == (encode_utf8(spec.request.code@).len() <= spec.limits.max_file_size_bytes),
{
    (spec.request.code.as_str().as_bytes().len() as u64) <= spec.limits.max_file_size_bytes
}

/// The isolated working directory's name: the prefix, the id, and a
/// nanosecond stamp.
pub fn work_dir_name(prefix: &str, id: &str, nanos_low: u64) -> (r: String)
    ensures
        r@ == prefix@ + "-"@ + id@ + "-"@ + dec_str_of(nanos_low as int),
{
    let mut s = String::from_str(prefix);
    s.append("-");
    s.append(id);
    s.append("-");
    s.append(u64_to_dec(nanos_low).as_str());
    proof {
        assert(s@ =~= prefix@ + "-"@ + id@ + "-"@ + dec_str_of(nanos_low as int));
    }
    s
}

/// The container's name: `exec-`, the id, and the low digits of a
/// nanosecond stamp.
pub fn container_name(id: &str, nanos_low: u64) -> (r: String)
    requires
        nanos_low < 1_000_000,
    ensures
        r@ == "exec"@ + "-"@ + id@ + "-"@ + dec_str_of(nanos_low as int),
{
    work_dir_name("exec", id, nanos_low)
}

/// A path with backslashes turned into forward slashes, the form a bind
/// mount wants.
pub open spec fn slash_normalized(s: Seq<char>) -> Seq<char>
    decreases s.len(),
{
    if s.len() == 0 {
        Seq::empty()
    } else {
        (if s[0] == '\\' {
            seq!['/']
        } else {
            seq![s[0]]
        }) + slash_normalized(s.drop_first())
    }
}

/// Normalizes a mount path: every backslash becomes a forward slash.
pub fn normalize_mount_path(path: &str) -> (r: String)
    ensures
        r@ == slash_normalized(path@),
{
    let n = path.unicode_len();
    let mut out = String::new();
    let mut i: usize = 0;
    proof {
        assert(path@.skip(0) =~= path@);
        assert(out@ + slash_normalized(path@.skip(0)) =~= slash_normalized(path@));
    }
    while i < n
        invariant
            n == path@.len(),
            i <= n,
            out@ + slash_normalized(path@.skip(i as int)) == slash_normalized(path@),
        decreases n - i,
    {
        proof {
            assert(path@.skip(i as int).len() > 0 && path@.skip(i as int)[0] == path@[i as int]);
            assert(path@.skip(i as int).drop_first() =~= path@.skip(i + 1));
            reveal_strlit("/");
        }
        let c = path.get_char(i);
        let ghost pre_out = out@;
        if c == '\\' {
            out.append("/");
            proof {
                assert(out@ =~= pre_out + seq!['/']);
                assert(pre_out + seq!['/'] + slash_normalized(path@.skip(i + 1)) =~= pre_out + (
                seq!['/'] + slash_normalized(path@.skip(i + 1))));
            }
        } else {
            out.append(path.substring_char(i, i + 1));
            proof {
                assert(path@.subrange(i as int, i + 1) =~= seq![path@[i as int]]);
                assert(out@ =~= pre_out + seq![path@[i as int]]);
                assert(pre_out + seq![path@[i as int]] + slash_normalized(path@.skip(i + 1))
                    =~= pre_out + (seq![path@[i as int]] + slash_normalized(path@.skip(i + 1))));
            }
        }
        i = i + 1;
    }
    proof {
        assert(path@.skip(n as int).len() == 0);
        assert(out@ + Seq::<char>::empty() =~= out@);
    }
    out
}

/// Appends up to `n` bytes of `chunk` to `out`, but never past `limit`
/// bytes in all: the capping rule for draining an output stream.
pub fn append_limited(out: &mut Vec<u8>, chunk: &[u8], n: usize, limit: usize)
    requires
        n <= chunk@.len(),
    ensures
        final(out)@ == old(out)@ + chunk@.take(
            if old(out)@.len() >= limit {
                0
            } else if n <= limit - old(out)@.len() {
                n as int
            } else {
                limit - old(out)@.len()
            },
        ),
{
    if out.len() >= limit {
        proof {
            assert(chunk@.take(0) =~= Seq::<u8>::empty());
            assert(old(out)@ + Seq::<u8>::empty() =~= old(out)@);
        }
        return ;
    }
    let remaining = limit - out.len();
    let want: usize = if n <= remaining {
        n
    } else {
        remaining
    };
    let mut i: usize = 0;
    while i < want
        invariant
            want <= n <= chunk@.len(),
            i <= want,
            out@ == old(out)@ + chunk@.take(i as int),
        decreases want - i,
    {
        out.push(chunk[i]);
        proof {
            assert(old(out)@ + chunk@.take(i as int).push(chunk@[i as int]) =~= old(out)@
                + chunk@.take(i + 1));
        }
        i = i + 1;
    }
}

/// The 64-bit offset-basis hash of the compile cache: a standard
/// byte-folding hash over the source name and code, deterministic for a
/// build.
pub open spec fn fold_hash(acc: u64, bytes: Seq<u8>) -> u64
    decreases bytes.len(),
{
    if bytes.len() == 0 {
        acc
    } else {
        fold_hash(
            ((((acc ^ (bytes[0] as u64)) as int) * 0x100000001b3) % 0x10000000000000000) as u64,
            bytes.drop_first(),
        )
    }
}

/// Folds bytes into a running hash.
pub fn fold_hash_exec(acc: u64, bytes: &[u8]) -> (r: u64)
    ensures
        r == fold_hash(acc, bytes@),
{
    let mut h = acc;
    let mut i: usize = 0;
    proof {
        assert(bytes@.skip(0) =~= bytes@);
    }
    while i < bytes.len()
        invariant
            i <= bytes@.len(),
            fold_hash(h, bytes@.skip(i as int)) == fold_hash(acc, bytes@),
        decreases bytes@.len() - i,
    {
        proof {
            assert(bytes@.skip(i as int).len() > 0);
            assert(bytes@.skip(i as int)[0] == bytes@[i as int]);
            assert(bytes@.skip(i as int).drop_first() =~= bytes@.skip(i + 1));
        }
        let b = bytes[i];
        let x: u64 = h ^ (b as u64);
        let wide: u128 = (x as u128) * 0x100000001b3;
        let folded: u64 = (wide % 0x10000000000000000) as u64;
        proof {
            assert((wide % 0x10000000000000000) < 0x10000000000000000) by (nonlinear_arith);
            assert(((x as int) * 0x100000001b3) % 0x10000000000000000 == (wide as int)
                % 0x10000000000000000) by (nonlinear_arith)
                requires
                    wide == (x as int) * 0x100000001b3,
            ;
        }
        h = folded;
        i = i + 1;
    }
    proof {
        assert(bytes@.skip(bytes@.len() as int).len() == 0);
    }
    h
}

/// The compile-cache key of a source: its file name folded with its code.
pub fn compile_cache_key(source_name: &str, code: &str) -> (r: u64)
    ensures
        r == fold_hash(
            fold_hash(0xcbf29ce484222325, encode_utf8(source_name@)),
            encode_utf8(code@),
        ),
{
    let h = fold_hash_exec(0xcbf29ce484222325, source_name.as_bytes());
    fold_hash_exec(h, code.as_bytes())
}

/// The container backend: the host launches the container; the engine's
/// rules (admission, naming, capping) come from this module.
pub struct DockerSandbox;

impl DockerSandbox {
    /// The container backend needs no local state.
    pub fn new() -> (r: DockerSandbox)
        ensures
            r == DockerSandbox,
    {
        DockerSandbox
    }

    /// The backend's stable name.
    pub fn name(&self) -> (r: &'static str)
        ensures
            r@ == "docker"@,
    {
        "docker"
    }
}

/// The process backend: a compile cache keyed by source hash; the host
/// spawns the interpreter or compiled binary.
pub struct ProcessSandbox {
    pub compile_cache: Vec<(u64, String)>,
}

impl ProcessSandbox {
    /// A backend with an empty compile cache.
    pub fn new() -> (r: ProcessSandbox)
        ensures
            r.compile_cache@.len() == 0,
    {
        ProcessSandbox { compile_cache: Vec::new() }
    }

    /// The backend's stable name.
    pub fn name(&self) -> (r: &'static str)
        ensures
            r@ == "process"@,
    {
        "process"
    }

    /// The cached binary path of a source hash, if one is recorded.
    pub fn cached_binary(&self, key: u64) -> (r: Option<String>)
        ensures
            match r {
                Some(p) => exists|i: int|
                    0 <= i < self.compile_cache@.len() && (#[trigger] self.compile_cache@[i]).0
                        == key && self.compile_cache@[i].1@ == p@,
                None => forall|i: int|
                    0 <= i < self.compile_cache@.len() ==> (#[trigger] self.compile_cache@[i]).0
                        != key,
            },
    {
        let mut i: usize = 0;
        while i < self.compile_cache.len()
            invariant
                i <= self.compile_cache@.len(),
                forall|j: int|
                    0 <= j < i ==> (#[trigger] self.compile_cache@[j]).0 != key,
            decreases self.compile_cache@.len() - i,
        {
            if self.compile_cache[i].0 == key {
                return Some(self.compile_cache[i].1.clone());
            }
            i = i + 1;
        }
        None
    }

    /// Records the binary path a compilation produced.
    pub fn record_binary(&mut self, key: u64, path: String)
        ensures
            final(self).compile_cache@ == old(self).compile_cache@.push((key, path)),
    {
        self.compile_cache.push((key, path));
    }
}

/// Picks backends for the host; the backends themselves run outside the
/// engine's rules.
pub struct SandboxFactory;

impl SandboxFactory {
    /// The backend kind the configuration names.
    pub fn backend_kind(config: &crate::engine_api::EngineConfig) -> (r:
        crate::engine_api::SandboxBackendKind)
        ensures
            r == config.sandbox_backend,
    {
        config.sandbox_backend
    }
}

} // verus!
