//! The per-build random stream: a seeded dice roller.
//!
//! Every generator draws its randomness from one of these handles, constructed
//! from an explicit seed, so that builds are independently seedable and two
//! builds from the same seed make identical choices. The underlying generator
//! is rltk's xorshift-based `RandomNumberGenerator`, whose output is a pure
//! function of the seed and of the sequence of draws made so far; the two
//! uninterpreted functions below name those outputs.

use vstd::prelude::*;

verus! {

/// Declares rltk's random number generator type (an xorshift generator)
/// so that a handle can hold one.
#[verifier::external_type_specification]
#[verifier::external_body]
pub struct ExRandomNumberGenerator(rltk::RandomNumberGenerator);

/// The value rltk's `RandomNumberGenerator::roll_dice(n, d)` returns for a
/// generator built from `seed` that has already served the draws in `history`.
/// The generator is a deterministic xorshift stream, so this is a function of
/// those arguments alone.
pub uninterp spec fn roll_of(seed: u64, history: Seq<(int, int, int)>, n: int, d: int) -> int;

/// The value rltk's `RandomNumberGenerator::range(lo, hi)` returns for a
/// generator built from `seed` that has already served the draws in `history`.
pub uninterp spec fn range_of(seed: u64, history: Seq<(int, int, int)>, lo: int, hi: int) -> int;

/// Tag for a `roll_dice` entry in a stream's draw history.
pub open spec fn dice_draw(n: int, d: int) -> (int, int, int) {
    (0, n, d)
}

/// Tag for a `range` entry in a stream's draw history.
pub open spec fn range_draw(lo: int, hi: int) -> (int, int, int) {
    (1, lo, hi)
}

/// A seeded random stream. `history` records the draws served so far, so that
/// contracts can say each result is a function of the seed and of the draws
/// that preceded it.
pub struct RandomStream {
    inner: rltk::RandomNumberGenerator,
    seed: u64,
    history: Ghost<Seq<(int, int, int)>>,
}

impl RandomStream {
    /// The seed this stream was built from.
    pub closed spec fn seed(&self) -> u64 {
        self.seed
    }

    /// The draws served so far.
    pub closed spec fn history(&self) -> Seq<(int, int, int)> {
        self.history@
    }

    /// Build a stream from a seed.
    pub fn seeded(seed: u64) -> (r: RandomStream)
        ensures
            r.seed() == seed,
            r.history() == Seq::<(int, int, int)>::empty(),
    {
        RandomStream { inner: raw_seeded(seed), seed, history: Ghost(Seq::empty()) }
    }

    /// Roll `n` dice of `d` sides each and sum them.
    ///
    /// Relies on `rltk::RandomNumberGenerator::roll_dice`, which sums `n`
    /// uniform draws from `1..=d`; it panics when `d < 1`, so that input is
    /// excluded, and its result is a pure function of the seed and the draws
    /// served before this one.
    #[verifier::external_body]
    pub fn roll_dice(&mut self, n: i32, d: i32) -> (r: i32)
        requires
            1 <= n,
            1 <= d,
            n * d <= i32::MAX - 1,
        ensures
            n <= r <= n * d,
            r == roll_of(old(self).seed(), old(self).history(), n as int, d as int),
            final(self).seed() == old(self).seed(),
            final(self).history() == old(self).history().push(dice_draw(n as int, d as int)),
    {
        self.inner.roll_dice(n, d)
    }

    /// A uniform draw from `lo..hi` (inclusive of `lo`, exclusive of `hi`).
    ///
    /// Relies on `rltk::RandomNumberGenerator::range`, which panics when
    /// `lo >= hi`, so that input is excluded; its result is a pure function
    /// of the seed and the draws served before this one.
    #[verifier::external_body]
    pub fn range(&mut self, lo: i32, hi: i32) -> (r: i32)
        requires
            lo < hi,
        ensures
            lo <= r < hi,
            r == range_of(old(self).seed(), old(self).history(), lo as int, hi as int),
            final(self).seed() == old(self).seed(),
            final(self).history() == old(self).history().push(range_draw(lo as int, hi as int)),
    {
        self.inner.range(lo, hi)
    }
}

/// Relies on `rltk::RandomNumberGenerator::seeded`, which constructs an
/// xorshift generator deterministically from the seed.
#[verifier::external_body]
fn raw_seeded(seed: u64) -> rltk::RandomNumberGenerator {
    rltk::RandomNumberGenerator::seeded(seed)
}

} // verus!
