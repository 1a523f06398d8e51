//! Random selection, taken through the rand crate.

use vstd::prelude::*;

verus! {

/// Relies on rand's `thread_rng` and `Rng::gen_range` over `0..n`: a
/// uniformly random index below `n`.  `gen_range` panics only on an empty
/// range, which the precondition excludes; nothing more can be promised of a
/// random value than its bound.
#[verifier::external_body]
pub(crate) fn random_below(n: usize) -> (r: usize)
    requires
        n >= 1,
    ensures
        r < n,
{
    rand::Rng::gen_range(&mut rand::thread_rng(), 0..n)
}

} // verus!
