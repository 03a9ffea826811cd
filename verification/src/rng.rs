//! The library's only source of randomness: a uniform draw below a bound.
//! Callers state what holds of every possible outcome, so the simulation's
//! contracts never depend on which value was drawn.

use vstd::prelude::*;

verus! {

/// Relies on rand::Rng::gen_range on the range `0..n`: the draw comes from
/// the thread-local generator and lies below the bound; nothing more can be
/// promised of a random value.
#[verifier::external_body]
pub fn random_below(n: u32) -> (r: u32)
    requires
        n > 0,
    ensures
        r < n,
{
    rand::Rng::gen_range(&mut rand::thread_rng(), 0..n)
}

} // verus!
