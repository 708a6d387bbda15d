//! Verified request-processing core for an API gateway and a sandboxed
//! code-execution engine: middleware pipeline, rate limiting, circuit
//! breaking, routing, upstream bookkeeping, and the engine's scheduler,
//! store, and worker decision logic.

pub mod breaker;
pub mod config;
pub mod context;
pub mod engine_api;
pub mod engine_models;
pub mod engine_ratelimit;
pub mod errors;
pub mod gateway;
pub mod keyed;
pub mod kvtable;
pub mod metrics;
pub mod middleware;
pub mod queue;
pub mod ratelimit;
pub mod router;
pub mod sandbox;
pub mod store;
pub mod sys;
pub mod text;
pub mod upstream;
pub mod worker;

use vstd::prelude::*;

verus! {

/// Byte-wise equality of two byte strings in which every byte position is
/// examined, so the comparison's control flow does not depend on where the
/// first difference lies. Equal only when lengths and all bytes agree.
pub fn constant_time_eq(a: &[u8], b: &[u8]) -> (r: bool)
    ensures
        r == (a@ == b@),
{
    if a.len() != b.len() {
        // Lengths already differ; the sequences cannot be equal.
        assert(a@ != b@) by {
            assert(a@.len() != b@.len());
        }
        return false;
    }
    let mut out: u8 = 0;
    let mut i: usize = 0;
    while i < a.len()
        invariant
            a@.len() == b@.len(),
            i <= a@.len(),
            out == 0 <==> (forall|j: int| 0 <= j < i ==> a@[j] == b@[j]),
        decreases a@.len() - i,
    {
        let av = a[i];
        let bv = b[i];
        assert(out | (av ^ bv) == 0 <==> (out == 0 && av == bv)) by (bit_vector);
        out = out | (av ^ bv);
        i = i + 1;
    }
    if out == 0 {
        assert(a@ =~= b@);
        true
    } else {
        false
    }
}

} // verus!
