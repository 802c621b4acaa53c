//! Low-discrepancy sample sequences for Monte Carlo estimation.
//!
//! The core is the radical inverse (Van der Corput / Halton) computation in an
//! arbitrary prime base, a digit-permutation scrambling scheme, and a stateful
//! sampler that tracks a sample index and a dimension cursor.  All values are
//! exact rationals in the half-open unit interval: a draw is a [`sampler::Sample`]
//! with an integer numerator strictly below its denominator, so the `[0, 1)`
//! contract holds with no rounding concerns.  Conversion to floating point is
//! left to callers.

pub mod digits;
pub mod haltonsampler;
pub mod primes;
pub mod randomizer;
pub mod sampler;
