//! The one nondeterministic step of a run: the initial roster shuffle.
//! Every later step is a pure function of the registry snapshot, so two
//! runs differ only through this permutation.

use vstd::prelude::*;

use rand::seq::SliceRandom;

use crate::contestant::Contestant;
use crate::registry::Registry;

verus! {

/// The thread-local random generator of the rand crate, carried opaquely.
#[verifier::external_type_specification]
#[verifier::external_body]
pub struct ExThreadRng(rand::rngs::ThreadRng);

/// Relies on rand::thread_rng: a handle to the thread-local generator.
/// Nothing is promised of it; whatever it yields, the shuffle below
/// produces a permutation.
#[verifier::external_body]
fn fresh_rng() -> rand::rngs::ThreadRng {
    rand::thread_rng()
}

/// Relies on rand::seq::SliceRandom::shuffle: a Fisher-Yates pass that
/// swaps elements in place, so the slice afterwards holds exactly the
/// elements it held before, in some order.
#[verifier::external_body]
fn shuffle_contestants(v: &mut Vec<Contestant>, rng: &mut rand::rngs::ThreadRng)
    ensures
        final(v)@.len() == old(v)@.len(),
        final(v)@.to_multiset() == old(v)@.to_multiset(),
{
    v.shuffle(rng)
}

/// Shuffle the registry order with the thread-local generator. Whatever
/// order comes out, the registry holds exactly the contestants it held
/// before.
pub fn shuffle_registry(registry: &mut Registry)
    ensures
        final(registry).contestants@.len() == old(registry).contestants@.len(),
        final(registry).contestants@.to_multiset() == old(registry).contestants@.to_multiset(),
{
    let mut rng = fresh_rng();
    shuffle_contestants(&mut registry.contestants, &mut rng);
}

} // verus!
