//! The clock and the random source.

use vstd::prelude::*;

verus! {

/// Calls `chrono::Utc::now` and takes its `timestamp`: seconds since the
/// Unix epoch. Nothing is promised of the value.
#[verifier::external_body]
pub(crate) fn unix_time() -> i64 {
    chrono::Utc::now().timestamp()
}

/// Calls `rand::Rng::gen_range` on `rand::thread_rng()` with the bounds 0
/// and `bound`. Trusted: the draw lies below `bound`. The call panics on an
/// empty range, so `bound` must be positive.
#[verifier::external_body]
pub(crate) fn random_below(bound: u64) -> (pick: u64)
    requires
        bound > 0,
    ensures
        pick < bound,
{
    rand::Rng::gen_range(&mut rand::thread_rng(), 0, bound)
}

} // verus!
