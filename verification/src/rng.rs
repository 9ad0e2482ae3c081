//! Randomness for the random tie-break policy.

use rand::Rng;
use vstd::prelude::*;

verus! {

/// Relies on rand's `Rng::gen_range` on the thread-local generator: returns
/// a uniformly distributed index in `0 .. n`; it panics only on an empty
/// range, which the precondition excludes.  Nothing more is assumed of the
/// value: two calls with the same `n` may differ.
#[verifier::external_body]
pub(crate) fn random_below(n: usize) -> (r: usize)
    requires
        n >= 1,
    ensures
        r < n,
{
    rand::thread_rng().gen_range(0..n)
}

} // verus!
