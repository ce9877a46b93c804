//! The seeded generator that shuffles the bags of the piece queue. Its fields
//! are private to this file and only the two trusted wrappers below touch
//! them, so the recorded seed and bag count always describe the generator.
use vstd::prelude::*;

use rand::seq::SliceRandom;
use rand::SeedableRng;
use rand_chacha::ChaChaRng;

use crate::next_queue::all_kinds;
use crate::piece::PieceKind;

verus! {

#[verifier::external_type_specification]
#[verifier::external_body]
pub struct ExChaCha20Rng(rand_chacha::ChaCha20Rng);

/// `Clone` for `rand_chacha::ChaCha20Rng` (derived there): a generator in the
/// same state. Nothing is claimed of the result here.
pub assume_specification[ <rand_chacha::ChaCha20Rng as Clone>::clone ](
    g: &rand_chacha::ChaCha20Rng,
) -> (r: rand_chacha::ChaCha20Rng);

/// The bag numbered `k` (from 0) that `SliceRandom::shuffle` makes of the
/// seven kinds in declaration order, drawing from a ChaCha generator seeded
/// by `seed_from_u64(seed)` that has shuffled `k` such bags before. ChaCha is
/// deterministic, so this depends on `seed` and `k` alone.
pub uninterp spec fn seeded_bag(seed: u64, k: nat) -> Seq<PieceKind>;

/// A ChaCha generator, with the seed it was made from and the number of
/// bags it has shuffled since.
#[derive(Clone)]
pub struct BagRng {
    rng: ChaChaRng,
    seed: Ghost<u64>,
    bags: Ghost<nat>,
}

impl BagRng {
    /// The seed the generator was made from.
    pub closed spec fn seed(&self) -> u64 {
        self.seed@
    }

    /// How many bags the generator has shuffled.
    pub closed spec fn bags(&self) -> nat {
        self.bags@
    }
}

/// `rand_core::SeedableRng::seed_from_u64` for the ChaCha generator: a fresh
/// generator for `seed` that has shuffled no bag yet.
#[verifier::external_body]
pub(crate) fn rng_from_seed(seed: u64) -> (r: BagRng)
    ensures
        r.seed() == seed,
        r.bags() == 0,
{
    BagRng { rng: ChaChaRng::seed_from_u64(seed), seed: Ghost(seed), bags: Ghost(0) }
}

/// `rand::seq::SliceRandom::shuffle` of the seven kinds in declaration order,
/// drawing from the generator: the bag then holds the same pieces in the
/// order `seeded_bag` names for the generator's seed and bag count, and the
/// count goes up by one.
#[verifier::external_body]
pub(crate) fn shuffle_bag(bag: &mut [PieceKind; 7], rng: &mut BagRng)
    requires
        old(bag)@ == all_kinds(),
    ensures
        final(bag)@.to_multiset() == old(bag)@.to_multiset(),
        final(bag)@ == seeded_bag(old(rng).seed(), old(rng).bags()),
        final(rng).seed() == old(rng).seed(),
        final(rng).bags() == old(rng).bags() + 1,
{
    bag.shuffle(&mut rng.rng);
    rng.bags = Ghost(rng.bags@ + 1);
}

} // verus!
