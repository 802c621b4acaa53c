//! The sample value type and the randomization strategy tag.
//!
//! A draw is an exact rational in the half-open unit interval: a numerator
//! strictly below its denominator (the base raised to the number of digit
//! positions consumed).  Working with exact rationals keeps every digit of
//! the radical inverse; a caller that wants a floating-point sample divides
//! the two fields and clamps the quotient strictly below one.

use vstd::prelude::*;

verus! {

/// Which randomization the sampler applies to its radical inverses.  The set
/// is closed and chosen once at construction.
#[derive(Clone, Copy, Debug, PartialEq, Eq, Structural)]
pub enum RandomStrategy {
    /// Plain radical inverses, no scrambling.
    Plain,
    /// Every digit runs through a per-base digit permutation.
    PermuteDigits,
}

/// One sample value: the exact rational `num / den`, with `0 <= num < den`,
/// so the value always lies in `[0, 1)`.
#[derive(Clone, Copy, Debug, PartialEq, Eq, Structural)]
pub struct Sample {
    /// Numerator: the reversed (possibly permuted) digits of the sample index.
    pub num: u128,
    /// Denominator: the base raised to the number of digit positions consumed.
    pub den: u128,
}

impl Sample {
    /// The value lies in the half-open unit interval.
    pub open spec fn in_unit(&self) -> bool {
        self.num < self.den
    }
}

} // verus!
