//! The pseudo-random generator that drives fault decisions.
//!
//! A generator is modelled by the endless sequence of 32-bit words that it has
//! still to give out. Everything drawn from it is a function of that sequence and
//! of the width of the integer type that is drawn, and the sequence of a fresh
//! generator is a function of its seed.

use rand::rngs::StdRng;
use rand::{Rng, SeedableRng};
use vstd::prelude::*;

verus! {

/// `rand::rngs::StdRng`, the generator behind every fault decision.
#[verifier::external_type_specification]
#[verifier::external_body]
pub struct ExStdRng(rand::rngs::StdRng);

/// The words that `rng` has still to give out, in order: word `i` is what the
/// `i`-th further 32-bit draw returns.
pub uninterp spec fn upcoming(rng: StdRng) -> Map<nat, u32>;

/// What `StdRng::seed_from_u64` makes of a seed: the words of the new generator.
pub uninterp spec fn seeded_words(seed: u64) -> Map<nat, u32>;

/// What `Rng::gen_range(0..=high)` makes of the upcoming words where `high` is of an
/// unsigned integer type of `width` bits, 32 or 64: the number it returns, and how
/// many words it takes to get there.
pub uninterp spec fn ranged_draw(words: Map<nat, u32>, high: u64, width: u32) -> (u64, nat);

/// The words that remain once the first `n` are gone.
pub open spec fn skip_words(words: Map<nat, u32>, n: nat) -> Map<nat, u32> {
    Map::new(|i: nat| true, |i: nat| words[i + n])
}

/// The next two words as one number, the first as its lower half.
pub open spec fn double_word(words: Map<nat, u32>) -> u64 {
    (words[0] + 0x1_0000_0000 * words[1]) as u64
}

/// Calls `SeedableRng::seed_from_u64` for `StdRng`. Trusted: the words of the new
/// generator depend on the seed alone.
#[verifier::external_body]
pub(crate) fn seeded(seed: u64) -> (rng: StdRng)
    ensures
        upcoming(rng) == seeded_words(seed),
{
    StdRng::seed_from_u64(seed)
}

/// Calls `Rng::gen::<u64>`. Trusted: it takes the next two words and returns them
/// as one number, the first as its lower half.
#[verifier::external_body]
pub(crate) fn draw_double_word(rng: &mut StdRng) -> (word: u64)
    ensures
        word == double_word(upcoming(*old(rng))),
        upcoming(*final(rng)) == skip_words(upcoming(*old(rng)), 2),
{
    rng.gen::<u64>()
}

/// Calls `Rng::gen_range(0..=high)` for `u64`, which draws 64 bits at a time until
/// they fall where they give no number an advantage. Trusted: the number is at most
/// `high`, and both it and the count of words taken depend on the upcoming words,
/// `high` and the width of `u64` alone. That every number is equally likely is left
/// unsaid.
#[verifier::external_body]
pub(crate) fn draw_up_to(rng: &mut StdRng, high: u64) -> (drawn: u64)
    ensures
        drawn <= high,
        drawn == ranged_draw(upcoming(*old(rng)), high, 64).0,
        upcoming(*final(rng)) == skip_words(
            upcoming(*old(rng)),
            ranged_draw(upcoming(*old(rng)), high, 64).1,
        ),
{
    rng.gen_range(0..=high)
}

/// Calls `Rng::gen_range(0..bound)` for `usize`, which draws as many bits at a time
/// as the machine's `usize` has. Trusted: the number is below `bound`, and both it
/// and the count of words taken are those of the inclusive range up to `bound - 1`
/// at that width. That every number is equally likely is left unsaid.
#[verifier::external_body]
pub(crate) fn draw_below(rng: &mut StdRng, bound: usize) -> (drawn: usize)
    requires
        bound > 0,
    ensures
        drawn < bound,
        drawn == ranged_draw(upcoming(*old(rng)), (bound - 1) as u64, usize::BITS).0,
        upcoming(*final(rng)) == skip_words(
            upcoming(*old(rng)),
            ranged_draw(upcoming(*old(rng)), (bound - 1) as u64, usize::BITS).1,
        ),
{
    rng.gen_range(0..bound)
}

/// Calls `rand::random`, which draws from the thread's entropy-seeded generator.
/// Nothing is claimed of the number.
#[verifier::external_body]
pub(crate) fn random_seed() -> (seed: u64) {
    rand::random::<u64>()
}

} // verus!
