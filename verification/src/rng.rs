//! The random number generator of the checker.

use rand::rngs::StdRng;
use rand::seq::SliceRandom;
use rand::{Rng, SeedableRng};
use vstd::prelude::*;

use crate::lit::Lit;

verus! {

/// The number of 32-bit words in the stream of a generator, after which it
/// starts over: 2 to the power of 68.
pub const STREAM_WORDS: u128 = 0x10_0000_0000_0000_0000;

/// `rand`'s standard generator, ChaCha with 12 rounds in the release used
/// here. What it gives is a function of the seed that it was made from and of
/// how far into its stream of words it has gone; `rand` keeps the choice of
/// another algorithm in a later release.
#[verifier::external_type_specification]
#[verifier::external_body]
pub struct ExStdRng(StdRng);

/// The seed that a generator was made from.
pub uninterp spec fn seed_of(rng: StdRng) -> u64;

/// How many words into its stream a generator is.
pub uninterp spec fn position_of(rng: StdRng) -> nat;

/// The number that `Rng::random` draws from the stream of the given seed at
/// the given position: the two words there, the lower one first.
pub uninterp spec fn stream_number(seed: u64, position: nat) -> u64;

/// The position after a number was drawn: two words on.
pub open spec fn past_number(position: nat) -> nat {
    (position + 2) % (STREAM_WORDS as nat)
}

/// What `SliceRandom::shuffle` makes of the literals with the stream of the
/// given seed at the given position: their new order, and the position that
/// it stops at.
pub uninterp spec fn shuffled(lits: Seq<Lit>, seed: u64, position: nat) -> (Seq<Lit>, nat);

/// Calls `StdRng::seed_from_u64`, which makes a generator from a seed, at the
/// start of its stream.
#[verifier::external_body]
pub(crate) fn seeded(seed: u64) -> (r: StdRng)
    ensures
        seed_of(r) == seed,
        position_of(r) == 0,
{
    StdRng::seed_from_u64(seed)
}

/// Calls `Rng::random` for a `u64`, which takes the next two words of the
/// stream. Which number they make is not stated, only that seed and position
/// determine it.
#[verifier::external_body]
pub(crate) fn draw(rng: &mut StdRng) -> (r: u64)
    ensures
        r == stream_number(seed_of(*old(rng)), position_of(*old(rng))),
        seed_of(*final(rng)) == seed_of(*old(rng)),
        position_of(*final(rng)) == past_number(position_of(*old(rng))),
{
    rng.random()
}

/// Calls `SliceRandom::shuffle`, which permutes the literals, none added and
/// none lost, and takes as many words of the stream as it needs. Which
/// permutation comes out and how many words it takes is not stated, only that
/// the literals, the seed and the position determine both.
#[verifier::external_body]
pub(crate) fn shuffle(lits: &mut Vec<Lit>, rng: &mut StdRng)
    ensures
        (final(lits)@, position_of(*final(rng))) == shuffled(
            old(lits)@,
            seed_of(*old(rng)),
            position_of(*old(rng)),
        ),
        final(lits)@.to_multiset() == old(lits)@.to_multiset(),
        seed_of(*final(rng)) == seed_of(*old(rng)),
{
    lits.as_mut_slice().shuffle(rng);
}

} // verus!
