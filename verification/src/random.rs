//! Seeded randomness for training order.
use rand::rngs::StdRng;
use rand::seq::SliceRandom;
use rand::SeedableRng;
use vstd::prelude::*;

verus! {

/// The generator that orders training windows. Its state is not modelled.
#[verifier::external_type_specification]
#[verifier::external_body]
pub struct ExStdRng(rand::rngs::StdRng);

/// Calls `StdRng::seed_from_u64` of `rand`: the generator that this seed
/// stands for. Nothing is claimed of the numbers that it will give: `rand`
/// documents `StdRng` as not portable even with a fixed seed, so they may
/// differ between versions and platforms.
#[verifier::external_body]
fn seeded(seed: u64) -> (rng: StdRng)
{
    StdRng::seed_from_u64(seed)
}

/// Calls `SliceRandom::shuffle` of `rand` on the vector: afterwards it holds
/// the same entries, each as often as before. Their order follows from the
/// generator's numbers and is left open with them.
#[verifier::external_body]
fn permute<T>(entries: &mut Vec<T>, rng: &mut StdRng)
    ensures
        final(entries)@.to_multiset() == old(entries)@.to_multiset(),
{
    entries.shuffle(rng);
}

/// The generator of a seed. Its type is opaque and its numbers are not
/// portable, so nothing is stated of it.
pub fn rng_from_seed(seed: u64) -> StdRng {
    seeded(seed)
}

/// Puts the entries into a random order, which may be the one they had. With
/// fewer than two entries there is nothing to draw: they keep their place and
/// the generator its state.
pub fn shuffled<T>(entries: &mut Vec<T>, rng: &mut StdRng)
    ensures
        final(entries)@.to_multiset() == old(entries)@.to_multiset(),
        final(entries)@.len() == old(entries)@.len(),
        old(entries)@.len() <= 1 ==> final(entries)@ == old(entries)@ && *final(rng) == *old(rng),
{
    if entries.len() > 1 {
        permute(entries, rng);
        proof {
            broadcast use vstd::seq_lib::group_to_multiset_ensures;
            assert(final(entries)@.to_multiset().len() == final(entries)@.len());
        }
    }
}

} // verus!
