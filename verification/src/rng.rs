//! The one point where the simulation draws randomness.

use vstd::prelude::*;
use rand::Rng;

verus! {

/// Relies on `rand::thread_rng` and `rand::Rng::gen_range` over `0..n`:
/// the draw lands below `n`. Nothing else is assumed of the draw — it
/// depends on the generator's state, so every caller states what holds of
/// any value in range.
#[verifier::external_body]
pub(crate) fn random_below(n: u32) -> (r: u32)
    requires
        n > 0,
    ensures
        r < n,
{
    rand::thread_rng().gen_range(0..n)
}

} // verus!
