//! The randomness that a faulty node consumes, as plain values.
//!
//! A faulty node tosses a fair coin and, on heads, draws a number. A [`Draw`]
//! records both, so that the voting rule can be stated, and replayed, as a
//! function of the draw. [`Draw::sample`] takes a fresh toss from the `rand`
//! crate's thread-local generator; [`Draw::from_toss`] says what draw it is.

use rand::Rng;
use vstd::prelude::*;

verus! {

/// The numbers that a faulty node may draw are `0 .. FAKE_VALUES`.
pub const FAKE_VALUES: u32 = 50;

/// What a faulty node took from the source of randomness for one vote.
#[derive(Debug, Clone, Copy, PartialEq, Eq, Structural)]
pub enum Draw {
    /// The coin came up tails; no number was drawn.
    Tails,
    /// The coin came up heads, and then this number was drawn.
    Heads(u32),
}

impl Draw {
    /// Whether the number drawn, if any, lies in `0 .. FAKE_VALUES`.
    pub open spec fn in_range(self) -> bool {
        self matches Draw::Heads(k) ==> k < FAKE_VALUES
    }

    /// Takes a fresh draw: a fair coin and, on heads, a number in
    /// `0 .. FAKE_VALUES`. No number is drawn on tails.
    pub fn sample() -> (draw: Draw)
        ensures
            draw.in_range(),
    {
        let heads = random_ratio(1, 2);
        let number: u32 = if heads {
            random_below(0, FAKE_VALUES)
        } else {
            0
        };
        Draw::from_toss(heads, number)
    }

    /// The draw that a toss makes: heads keeps the number that came with it,
    /// tails keeps none, whatever `number` is.
    pub open spec fn of_toss(heads: bool, number: u32) -> Draw {
        if heads {
            Draw::Heads(number)
        } else {
            Draw::Tails
        }
    }

    /// Records a toss as a draw. On tails `number` is not read.
    pub fn from_toss(heads: bool, number: u32) -> (draw: Draw)
        ensures
            draw == Draw::of_toss(heads, number),
            number < FAKE_VALUES ==> draw.in_range(),
    {
        if heads {
            Draw::Heads(number)
        } else {
            Draw::Tails
        }
    }
}

/// Calls `rand::Rng::gen_ratio` on `rand::thread_rng()`: a coin that shows
/// `true` with probability `numerator / denominator`.
///
/// Nothing is claimed of the result. `gen_ratio` panics when `denominator` is
/// zero or `numerator` exceeds it, which the precondition rules out. Not
/// proved: `thread_rng` needs the operating system's entropy and panics
/// without it.
#[verifier::external_body]
fn random_ratio(numerator: u32, denominator: u32) -> bool
    requires
        0 < denominator,
        numerator <= denominator,
{
    rand::thread_rng().gen_ratio(numerator, denominator)
}

/// Calls `rand::Rng::gen_range` on `rand::thread_rng()` with the half-open
/// range `low..high`.
///
/// Claimed: the number returned lies in that range. `gen_range` panics on an
/// empty range, which the precondition rules out. Not proved: `thread_rng`
/// needs the operating system's entropy and panics without it.
#[verifier::external_body]
fn random_below(low: u32, high: u32) -> (k: u32)
    requires
        low < high,
    ensures
        low <= k < high,
{
    rand::thread_rng().gen_range(low..high)
}

} // verus!
