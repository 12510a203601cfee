use rand::rngs::SmallRng;
use rand::seq::SliceRandom;
use rand::{RngCore, SeedableRng};
use vstd::prelude::*;

verus! {

/// `rand::rngs::SmallRng`, a small seeded generator. What it yields depends
/// on the platform and on the version of `rand`, so nothing is said of it.
#[verifier::external_type_specification]
#[verifier::external_body]
pub struct ExSmallRng(SmallRng);

/// Calls `SeedableRng::seed_from_u64` for `SmallRng`, which builds a generator
/// from any seed. Nothing is claimed of the generator.
#[verifier::external_body]
pub(crate) fn seeded(seed: u64) -> SmallRng {
    SmallRng::seed_from_u64(seed)
}

/// Calls `RngCore::next_u64` on the generator. Nothing is claimed of the
/// number that comes back.
#[verifier::external_body]
pub(crate) fn next_u64(rng: &mut SmallRng) -> u64 {
    rng.next_u64()
}

/// Calls `SliceRandom::shuffle` on the coordinates. `rand` shuffles a slice in
/// place by swapping pairs of its items, so the claim is that afterwards the
/// same coordinates are there, each as often as before; nothing is claimed of
/// their order.
#[verifier::external_body]
pub(crate) fn shuffle(coordinates: &mut Vec<(usize, usize)>, rng: &mut SmallRng)
    ensures
        final(coordinates)@.to_multiset() == old(coordinates)@.to_multiset(),
{
    coordinates.shuffle(rng)
}

} // verus!
