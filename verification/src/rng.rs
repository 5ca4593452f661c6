//! The library's only source of randomness, behind one trusted wrapper.
//!
//! Dithering and film grain draw small uniform integers.  Nothing about
//! an individual draw is reproducible, so callers state only what holds
//! of every outcome: the value lies inside the requested range.

use vstd::prelude::*;
use rand::Rng;

verus! {

/// Relies on rand::Rng::gen_range (through rand::thread_rng) on an `i32`
/// half-open range: it panics only on an empty range, which the
/// precondition rules out, and returns a value drawn from `lo..hi`.
#[verifier::external_body]
pub(crate) fn rand_in_range(lo: i32, hi: i32) -> (r: i32)
    requires
        lo < hi,
    ensures
        lo <= r < hi,
{
    rand::thread_rng().gen_range(lo..hi)
}

} // verus!
