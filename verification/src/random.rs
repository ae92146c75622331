//! The one place where the library draws random numbers.

use vstd::prelude::*;
use rand::Rng;

verus! {

/// Draws one number below `bound` from the thread-local generator of the
/// `rand` crate, by `Rng::gen_range(0..bound)` on `rand::thread_rng()`.
///
/// Trusted, not proved: `gen_range` returns a value of the half-open range it
/// is given, and panics only on an empty range, which `bound > 0` rules out.
/// Nothing is claimed of which value comes back.
#[verifier::external_body]
pub(crate) fn random_below(bound: u64) -> (r: u64)
    requires
        bound > 0,
    ensures
        r < bound,
{
    rand::thread_rng().gen_range(0..bound)
}

} // verus!
