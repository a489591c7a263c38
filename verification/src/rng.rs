//! The one source of randomness: a thread-local generator sampled over a
//! half-open integer range.

use vstd::prelude::*;

verus! {

/// Relies on `rand::Rng::gen_range` over the half-open range `lo..hi` of
/// `i64`, sampled from `rand::thread_rng()`: the result lies in `[lo, hi)`.
/// `gen_range` panics on an empty range, so a nonempty one is required.
/// Nothing more is assumed: the value is random, and two calls with the same
/// arguments may differ.
#[verifier::external_body]
pub fn rand_range(lo: i64, hi: i64) -> (r: i64)
    requires
        lo < hi,
    ensures
        lo <= r < hi,
{
    rand::Rng::gen_range(&mut rand::thread_rng(), lo..hi)
}

} // verus!
