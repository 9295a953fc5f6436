//! The library's single source of randomness: a uniform integer draw
//! from the thread-local generator.

use vstd::prelude::*;

verus! {

/// Relies on rand::random_range over `0..n`: the draw lies in the given
/// range, hence below `n`. Nothing more can be promised of a random
/// value; callers that need an exact statement take the draw as an
/// argument instead.
#[verifier::external_body]
pub fn rand_below(n: u64) -> (r: u64)
    requires
        1 <= n,
    ensures
        r < n,
{
    rand::random_range(0..n)
}

} // verus!
