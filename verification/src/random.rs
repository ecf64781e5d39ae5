//! The source of chance: a seedable generator of the `rand` crate.

use vstd::prelude::*;
use rand::rngs::StdRng;
use rand::Rng;

verus! {

/// `rand::rngs::StdRng`, carried through as an opaque value.
#[verifier::external_type_specification]
#[verifier::external_body]
pub struct ExStdRng(rand::rngs::StdRng);

/// Draws an index below `n` with `rand::Rng::random_range` on the range
/// `0..n`. That call panics on an empty range, which `n > 0` rules out, and
/// returns a value of the range; nothing else is claimed of the value, so two
/// calls may differ.
#[verifier::external_body]
pub(crate) fn random_index(rng: &mut StdRng, n: usize) -> (index: usize)
    requires
        n > 0,
    ensures
        index < n,
{
    rng.random_range(0..n)
}

} // verus!
