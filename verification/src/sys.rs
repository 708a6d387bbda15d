//! Trusted access to the process clock and to fresh identifiers. Time and
//! randomness cannot be pinned down by a contract, so callers state what
//! holds of every value these return.

use vstd::prelude::*;

verus! {

/// Relies on `std::time::SystemTime::now`: the wall clock as milliseconds
/// since the Unix epoch (0 if the clock reads before the epoch). Nothing is
/// assumed of the value; callers treat timestamps as advisory.
#[verifier::external_body]
pub fn now_ms() -> u64 {
    std::time::SystemTime::now().duration_since(std::time::UNIX_EPOCH).map(
        |d| d.as_millis() as u64,
    ).unwrap_or(0)
}

/// Relies on `std::time::SystemTime::now`: the wall clock as nanoseconds
/// since the Unix epoch (0 if the clock reads before the epoch). Nothing is
/// assumed of the value.
#[verifier::external_body]
pub fn now_nanos() -> u128 {
    std::time::SystemTime::now().duration_since(std::time::UNIX_EPOCH).map(
        |d| d.as_nanos(),
    ).unwrap_or(0)
}

/// Relies on `uuid::Uuid::new_v4` and its `Display` form, which renders the
/// hyphenated representation: exactly 36 characters, each a lower-case hex
/// digit or a hyphen. The value is random; nothing more is assumed of it.
#[verifier::external_body]
pub fn fresh_uuid() -> (r: String)
    ensures
        r@.len() == 36,
        forall|i: int|
            0 <= i < r@.len() ==> ((#[trigger] r@[i]) == '-' || (48 <= r@[i] as u32 <= 57) || (97
                <= r@[i] as u32 <= 102)),
{
    uuid::Uuid::new_v4().to_string()
}

} // verus!
