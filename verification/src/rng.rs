//! The library's single source of randomness.

use vstd::prelude::*;

verus! {

/// Relies on `rand::thread_rng` and `rand::Rng::gen_range`: sampling from the
/// integer range `0..n` panics when the range is empty and otherwise returns a
/// uniformly drawn value inside it. Nothing is assumed about the distribution;
/// every caller is verified for every value below `n`.
#[verifier::external_body]
pub(crate) fn rand_below(n: u64) -> (r: u64)
    requires
        n > 0,
    ensures
        r < n,
{
    rand::Rng::gen_range(&mut rand::thread_rng(), 0..n)
}

} // verus!
