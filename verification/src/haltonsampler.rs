//! Radical inverses in prime bases and the Halton sampler built on them.
//!
//! `radical_inverse(a, base_index)` reverses the base-`b` digits of `a`
//! (`b` the prime for that base index) behind the radix point: the result is
//! the exact rational `reversed_digits / b^m` where `m` is the digit count of
//! `a`.  `scramble_radical_inverse` maps every digit, including the trailing
//! zero digits of `a`, through a digit permutation first; it consumes a fixed
//! number of positions per base — as many as keep the denominator within a
//! 64-bit fixed-point scale — because a permutation may send 0 to a non-zero
//! digit, so trailing positions still contribute.

use crate::digits::{
    digit, is_identity_permutation, lemma_div_pow_step, lemma_num_digits_bounds,
    lemma_reversed_digits_bound, lemma_reversed_digits_involution, lemma_reversed_digits_pad,
    lemma_scrambled_identity, num_digits, reversed_digits, scrambled_digits,
};
use crate::primes::{lemma_primes_bounds, nth_prime, primes, PRIME_TABLE_SIZE};
use crate::randomizer::{spec_permutation, DigitPermutation};
use crate::sampler::{RandomStrategy, Sample};
use vstd::arithmetic::div_mod::{
    lemma_div_basics, lemma_div_decreases, lemma_div_pos_is_pos,
};
use vstd::arithmetic::mul::{
    lemma_mul_inequality, lemma_mul_is_associative, lemma_mul_is_commutative,
    lemma_mul_is_distributive_sub_other_way, lemma_mul_strictly_increases,
    lemma_mul_strictly_positive, lemma_mul_upper_bound,
};
use vstd::arithmetic::power::{
    lemma_pow0, lemma_pow1, lemma_pow_adds, lemma_pow_increases, lemma_pow_strictly_increases, pow,
};
use vstd::arithmetic::power2::{lemma2_to64, lemma_pow2_strictly_increases, lemma_pow2_unfold, pow2};
use vstd::prelude::*;

verus! {

/// Fixed-point scale that bounds a scrambled denominator: one past `u64::MAX`.
pub const SAT_CAP: u128 = 0x1_0000_0000_0000_0000;

/// Numerator of the plain radical inverse of `a` in base `base`.
pub open spec fn radical_inverse_num(a: int, base: int) -> int {
    reversed_digits(a, base, num_digits(a, base))
}

/// Denominator of the plain radical inverse of `a` in base `base`.
pub open spec fn radical_inverse_den(a: int, base: int) -> int {
    pow(base, num_digits(a, base))
}

/// How many further digit positions fit the fixed-point scale when the
/// denominator built so far is `den`.
pub open spec fn saturation_steps(den: int, base: int) -> nat
    decreases SAT_CAP - den,
    when 1 <= den <= SAT_CAP && 2 <= base
    via saturation_steps_decreases
{
    if den * base > SAT_CAP {
        0
    } else {
        1 + saturation_steps(den * base, base)
    }
}

#[via_fn]
proof fn saturation_steps_decreases(den: int, base: int) {
    if den * base <= SAT_CAP {
        lemma_mul_strictly_increases(base, den);
        lemma_mul_is_commutative(base, den);
    }
}

/// The number of digit positions a scrambled radical inverse consumes in
/// `base`: the largest `m` with `pow(base, m) <= SAT_CAP`.
pub open spec fn saturated_digit_count(base: int) -> nat {
    saturation_steps(1, base)
}

/// Numerator of the scrambled radical inverse of `a` under permutation `p`.
pub open spec fn scrambled_inverse_num(a: int, base: int, p: Seq<u64>) -> int {
    scrambled_digits(a, base, p, saturated_digit_count(base))
}

/// Denominator of the scrambled radical inverse in base `base`.
pub open spec fn scrambled_inverse_den(base: int) -> int {
    pow(base, saturated_digit_count(base))
}

/// The radical inverse of `a` in the base given by `base_index`: the base-`b`
/// digits of `a`, reversed behind the radix point, as the exact rational
/// `reversed_digits(a) / b^(digit count of a)`.  The value always lies in
/// `[0, 1)`; index 0 maps to the rational `0 / 1`.
pub fn radical_inverse(a: usize, base_index: usize) -> (r: Sample)
    requires
        base_index < PRIME_TABLE_SIZE,
    ensures
        r.num as int == radical_inverse_num(a as int, primes()[base_index as int] as int),
        r.den as int == radical_inverse_den(a as int, primes()[base_index as int] as int),
        r.in_unit(),
        a == 0 ==> r.num == 0 && r.den == 1,
{
    let base_u64 = nth_prime(base_index);
    proof {
        lemma_primes_bounds(base_index as int);
    }
    let ghost b: int = base_u64 as int;
    let base: u128 = base_u64 as u128;
    let base_us: usize = base_u64 as usize;
    let ghost d_total: nat = num_digits(a as int, b);

    let mut x: usize = a;
    let mut rev: u128 = 0;
    let mut den: u128 = 1;
    let ghost mut i: nat = 0;

    proof {
        lemma_pow0(b);
        lemma_div_basics(a as int);
        assert(reversed_digits(a as int, b, 0) == 0);
    }
    while x != 0
        invariant
            2 <= b <= 311,
            base == b,
            base_us == b,
            x as int == a as int / pow(b, i),
            den as int == pow(b, i),
            rev as int == reversed_digits(a as int, b, i),
            d_total == i + num_digits(x as int, b),
            d_total == num_digits(a as int, b),
            rev < den,
        decreases x,
    {
        proof {
            assert(num_digits(x as int, b) == 1 + num_digits(x as int / b, b));
            if a == 0 {
                assert(num_digits(0int, b) == 0);
                assert(false);
            }
            lemma_num_digits_bounds(a as int, b);
            lemma_pow_increases(b as nat, i, (d_total - 1) as nat);
            assert(den as int <= a as int);
            lemma_mul_upper_bound(rev as int, den as int - 1, base as int, 311);
            lemma_mul_upper_bound(den as int, a as int, base as int, 311);
        }
        let ghost x0 = x as int;
        let ghost rev0 = rev as int;
        let ghost den0 = den as int;
        let ghost i0 = i;
        let next: usize = x / base_us;
        let dgt: usize = x % base_us;
        rev = rev * base + (dgt as u128);
        den = den * base;
        x = next;
        proof {
            i = i0 + 1;
            lemma_div_pos_is_pos(x0, b);
            lemma_div_decreases(x0, b);
            lemma_div_pow_step(a as int, b, i0);
            assert(x as int == a as int / pow(b, i));
            assert(digit(a as int, b, i0) == x0 % b);
            assert(reversed_digits(a as int, b, i) == reversed_digits(a as int, b, i0) * b
                + digit(a as int, b, i0));
            lemma_pow1(b);
            lemma_pow_adds(b, i0, 1);
            assert(den as int == pow(b, i));
            // rev stays below den: rev0 * b + digit <= (den0 - 1) * b + (b - 1) < den0 * b
            lemma_mul_inequality(rev0, den0 - 1, b);
            lemma_mul_is_distributive_sub_other_way(b, den0, 1);
            assert(rev < den);
        }
    }
    proof {
        assert(num_digits(x as int, b) == 0);
        assert(i == d_total);
        if a == 0 {
            assert(num_digits(0int, b) == 0);
            assert(reversed_digits(a as int, b, 0) == 0);
        }
    }
    Sample { num: rev, den }
}

/// The scrambled radical inverse of `a` in the base given by `base_index`,
/// with every digit (including the trailing zero digits of `a`) mapped
/// through `perm`.  Exactly `saturated_digit_count(base)` positions are
/// consumed, so the denominator is the largest power of the base within the
/// 64-bit fixed-point scale; the value always lies in `[0, 1)`.
pub fn scramble_radical_inverse(a: usize, base_index: usize, perm: &DigitPermutation) -> (r: Sample)
    requires
        base_index < PRIME_TABLE_SIZE,
        perm.wf(),
        perm.spec_base() == primes()[base_index as int],
    ensures
        r.num as int == scrambled_inverse_num(
            a as int,
            primes()[base_index as int] as int,
            perm.perm_seq(),
        ),
        r.den as int == scrambled_inverse_den(primes()[base_index as int] as int),
        r.in_unit(),
{
    let base_u64 = nth_prime(base_index);
    proof {
        lemma_primes_bounds(base_index as int);
    }
    let ghost b: int = base_u64 as int;
    let base: u128 = base_u64 as u128;
    let base_us: usize = base_u64 as usize;
    let ghost m_total: nat = saturated_digit_count(b);

    // First find the denominator: multiply the base in until one more factor
    // would pass the fixed-point scale.
    let mut den: u128 = 1;
    let ghost mut steps: nat = 0;
    proof {
        lemma_pow0(b);
        lemma2_to64();
        assert(pow2(0) == 1);
    }
    while den * base <= SAT_CAP
        invariant
            2 <= b <= 311,
            base == b,
            1 <= den <= SAT_CAP,
            den as int * b <= SAT_CAP as int * 311,
            den as int == pow(b, steps),
            pow2(steps) <= den as int,
            m_total == steps + saturation_steps(den as int, b),
        decreases SAT_CAP - den,
    {
        let ghost den0 = den as int;
        proof {
            lemma_mul_strictly_positive(den0, b);
            assert(saturation_steps(den0, b) == 1 + saturation_steps(den0 * b, b));
            lemma_pow1(b);
            lemma_pow_adds(b, steps, 1);
            lemma_pow2_unfold(steps + 1);
            lemma_mul_inequality(2, b, den0);
            lemma_mul_is_commutative(2, den0);
            lemma_mul_is_commutative(b, den0);
            steps = steps + 1;
        }
        den = den * base;
        proof {
            lemma_mul_upper_bound(den as int, SAT_CAP as int, base as int, 311);
        }
    }
    proof {
        assert(saturation_steps(den as int, b) == 0);
        assert(steps == m_total);
        assert(pow2(64) == SAT_CAP) by {
            lemma2_to64();
        }
        if steps > 64 {
            lemma_pow2_strictly_increases(64, steps);
            assert(false);
        }
    }

    // Then fold the permuted digits in, one position at a time.
    let mut x: usize = a;
    let mut rev: u128 = 0;
    let mut cur: u128 = 1;
    let mut d_i: u64 = 0;
    proof {
        lemma_pow0(b);
        lemma_div_basics(a as int);
        assert(scrambled_digits(a as int, b, perm.perm_seq(), 0) == 0);
    }
    while cur < den
        invariant
            2 <= b <= 311,
            base == b,
            base_us == b,
            perm.wf(),
            perm.spec_base() == b,
            den as int == pow(b, m_total),
            m_total <= 64,
            cur as int == pow(b, d_i as nat),
            d_i as nat <= m_total,
            x as int == a as int / pow(b, d_i as nat),
            rev as int == scrambled_digits(a as int, b, perm.perm_seq(), d_i as nat),
            rev < cur,
            den <= SAT_CAP,
        decreases den - cur,
    {
        proof {
            lemma_pow_increases(b as nat, d_i as nat, m_total);
            if d_i as nat == m_total {
                assert(false);
            }
            lemma_pow_increases(b as nat, (d_i + 1) as nat, m_total);
            lemma_mul_upper_bound(rev as int, cur as int - 1, base as int, 311);
            lemma_mul_upper_bound(cur as int, SAT_CAP as int, base as int, 311);
        }
        let ghost x0 = x as int;
        let ghost rev0 = rev as int;
        let ghost cur0 = cur as int;
        let ghost i0 = d_i as nat;
        let next: usize = x / base_us;
        let dgt: usize = x % base_us;
        let pd = perm.permute(d_i, dgt as u64);
        rev = rev * base + (pd as u128);
        cur = cur * base;
        x = next;
        d_i = d_i + 1;
        proof {
            lemma_div_pos_is_pos(x0, b);
            lemma_div_pow_step(a as int, b, i0);
            assert(x as int == a as int / pow(b, d_i as nat));
            assert(digit(a as int, b, i0) == x0 % b);
            assert(scrambled_digits(a as int, b, perm.perm_seq(), (i0 + 1) as nat)
                == scrambled_digits(a as int, b, perm.perm_seq(), i0) * b + perm.perm_seq()[digit(
                a as int,
                b,
                i0,
            )]);
            lemma_pow1(b);
            lemma_pow_adds(b, i0, 1);
            assert(cur as int == pow(b, d_i as nat));
            lemma_mul_inequality(rev0, cur0 - 1, b);
            lemma_mul_is_distributive_sub_other_way(b, cur0, 1);
            assert(rev < cur);
            lemma_mul_strictly_increases(b, cur0);
            lemma_mul_is_commutative(b, cur0);
        }
    }
    proof {
        lemma_pow_increases(b as nat, d_i as nat, m_total);
        if (d_i as nat) < m_total {
            lemma_pow_strictly_increases(b as nat, d_i as nat, m_total);
            assert(false);
        }
        assert(d_i as nat == m_total);
    }
    Sample { num: rev, den }
}

/// The value a sampler draws: which numerator dimension `dim` yields for
/// sample index `a` under the given strategy.
pub open spec fn sample_num(strategy: RandomStrategy, a: int, dim: int) -> int {
    match strategy {
        RandomStrategy::Plain => radical_inverse_num(a, primes()[dim] as int),
        RandomStrategy::PermuteDigits => scrambled_inverse_num(
            a,
            primes()[dim] as int,
            spec_permutation(primes()[dim], 0),
        ),
    }
}

/// The denominator that goes with `sample_num`.
pub open spec fn sample_den(strategy: RandomStrategy, a: int, dim: int) -> int {
    match strategy {
        RandomStrategy::Plain => radical_inverse_den(a, primes()[dim] as int),
        RandomStrategy::PermuteDigits => scrambled_inverse_den(primes()[dim] as int),
    }
}

/// The Halton sampler: a current sample index, a dimension cursor, a
/// randomization strategy fixed at construction, and (iff the strategy
/// scrambles) one digit permutation per prime-table entry, each built with
/// seed 0 for its base.
pub struct HaltonSampler {
    /// Current sample index; draws compute radical inverses of this value.
    pub index: usize,
    /// Current dimension cursor; each draw consumes one or two dimensions.
    pub dim: usize,
    /// Randomization strategy, fixed at construction.
    pub strategy: RandomStrategy,
    /// Permutation tables, present iff the strategy scrambles digits.
    pub permuters: Option<Vec<DigitPermutation>>,
}

impl HaltonSampler {
    /// The strategy chosen at construction.
    pub open spec fn spec_strategy(&self) -> RandomStrategy {
        self.strategy
    }

    /// The permutation tables, present iff the strategy scrambles.
    pub open spec fn spec_permuters(&self) -> Option<Vec<DigitPermutation>> {
        self.permuters
    }

    /// Internal consistency: tables exist exactly when the strategy needs
    /// them, one per prime-table entry, each the seed-0 permutation of its
    /// base.
    pub open spec fn wf(&self) -> bool {
        match self.spec_permuters() {
            Option::Some(ps) => {
                &&& self.spec_strategy() == RandomStrategy::PermuteDigits
                &&& ps@.len() == PRIME_TABLE_SIZE
                &&& forall|k: int|
                    0 <= k < PRIME_TABLE_SIZE ==> {
                        let p = #[trigger] ps@[k];
                        &&& p.wf()
                        &&& p.spec_base() == primes()[k]
                        &&& p.perm_seq() == spec_permutation(primes()[k], 0)
                    }
            },
            Option::None => self.spec_strategy() == RandomStrategy::Plain,
        }
    }

    /// A plain, unrandomized sampler at index 1, dimension 0.
    pub fn new() -> (r: Self)
        ensures
            r.wf(),
            r.spec_strategy() == RandomStrategy::Plain,
            r.index == 1,
            r.dim == 0,
    {
        Self::default()
    }

    /// A sampler with the requested randomization.  For the scrambling
    /// strategy this builds the digit permutation of every prime-table base,
    /// each with seed 0, so the construction is deterministic.
    pub fn new_randomized(strategy: RandomStrategy) -> (r: Self)
        ensures
            r.wf(),
            r.spec_strategy() == strategy,
            r.index == 1,
            r.dim == 0,
    {
        match strategy {
            RandomStrategy::PermuteDigits => {
                let mut perms: Vec<DigitPermutation> = Vec::new();
                let mut i: usize = 0;
                while i < PRIME_TABLE_SIZE
                    invariant
                        i <= PRIME_TABLE_SIZE,
                        perms@.len() == i,
                        forall|k: int|
                            0 <= k < i ==> {
                                let p = #[trigger] perms@[k];
                                &&& p.wf()
                                &&& p.spec_base() == primes()[k]
                                &&& p.perm_seq() == spec_permutation(primes()[k], 0)
                            },
                    decreases PRIME_TABLE_SIZE - i,
                {
                    proof {
                        lemma_primes_bounds(i as int);
                    }
                    let base = nth_prime(i);
                    perms.push(DigitPermutation::new(base, 0));
                    i = i + 1;
                }
                HaltonSampler { index: 1, dim: 0, strategy, permuters: Option::Some(perms) }
            },
            RandomStrategy::Plain => Self::default(),
        }
    }

    /// Reset the dimension cursor to 0 and the sample index to its default 1;
    /// the strategy and the permutation tables stay as constructed.
    pub fn restore(&mut self)
        ensures
            final(self).dim == 0,
            final(self).index == 1,
            final(self).spec_strategy() == old(self).spec_strategy(),
            final(self).spec_permuters() == old(self).spec_permuters(),
    {
        self.dim = 0;
        self.index = 1;
    }

    /// Set the current sample index.
    pub fn set_i(&mut self, i: usize)
        ensures
            final(self).index == i,
            final(self).dim == old(self).dim,
            final(self).spec_strategy() == old(self).spec_strategy(),
            final(self).spec_permuters() == old(self).spec_permuters(),
    {
        self.index = i;
    }

    /// Set the dimension cursor directly.
    pub fn set_dim(&mut self, dim: usize)
        ensures
            final(self).dim == dim,
            final(self).index == old(self).index,
            final(self).spec_strategy() == old(self).spec_strategy(),
            final(self).spec_permuters() == old(self).spec_permuters(),
    {
        self.dim = dim;
    }

    /// Draw the value of the current dimension for the current sample index,
    /// advancing the cursor by one.
    pub fn get1d(&mut self) -> (r: Sample)
        requires
            old(self).wf(),
            old(self).dim < PRIME_TABLE_SIZE,
        ensures
            final(self).wf(),
            final(self).dim == old(self).dim + 1,
            final(self).index == old(self).index,
            final(self).spec_strategy() == old(self).spec_strategy(),
            final(self).spec_permuters() == old(self).spec_permuters(),
            r.num as int == sample_num(
                old(self).spec_strategy(),
                old(self).index as int,
                old(self).dim as int,
            ),
            r.den as int == sample_den(
                old(self).spec_strategy(),
                old(self).index as int,
                old(self).dim as int,
            ),
            r.in_unit(),
    {
        let dim = self.dim;
        self.dim = dim + 1;
        self.sample_dimension(self.index, dim)
    }

    /// Draw the values of the current and the next dimension, as two
    /// sequential one-dimensional draws, advancing the cursor by two.
    pub fn get2d(&mut self) -> (r: (Sample, Sample))
        requires
            old(self).wf(),
            old(self).dim + 1 < PRIME_TABLE_SIZE,
        ensures
            final(self).wf(),
            final(self).dim == old(self).dim + 2,
            final(self).index == old(self).index,
            final(self).spec_strategy() == old(self).spec_strategy(),
            final(self).spec_permuters() == old(self).spec_permuters(),
            r.0.num as int == sample_num(
                old(self).spec_strategy(),
                old(self).index as int,
                old(self).dim as int,
            ),
            r.0.den as int == sample_den(
                old(self).spec_strategy(),
                old(self).index as int,
                old(self).dim as int,
            ),
            r.1.num as int == sample_num(
                old(self).spec_strategy(),
                old(self).index as int,
                old(self).dim + 1,
            ),
            r.1.den as int == sample_den(
                old(self).spec_strategy(),
                old(self).index as int,
                old(self).dim + 1,
            ),
            r.0.in_unit(),
            r.1.in_unit(),
    {
        let dim = self.dim;
        self.dim = dim + 2;
        let v1 = self.sample_dimension(self.index, dim);
        let v2 = self.sample_dimension(self.index, dim + 1);
        (v1, v2)
    }

    /// One draw: the (scrambled or plain) radical inverse of `a` in the base
    /// of dimension `dim`, as the strategy directs.
    fn sample_dimension(&self, a: usize, dim: usize) -> (r: Sample)
        requires
            self.wf(),
            dim < PRIME_TABLE_SIZE,
        ensures
            r.num as int == sample_num(self.spec_strategy(), a as int, dim as int),
            r.den as int == sample_den(self.spec_strategy(), a as int, dim as int),
            r.in_unit(),
    {
        match self.strategy {
            RandomStrategy::PermuteDigits => match &self.permuters {
                Option::Some(ps) => scramble_radical_inverse(a, dim, &ps[dim]),
                Option::None => {
                    // a scrambling sampler always carries its tables
                    proof {
                        assert(false);
                    }
                    Sample { num: 0, den: 1 }
                },
            },
            RandomStrategy::Plain => radical_inverse(a, dim),
        }
    }
}

impl Default for HaltonSampler {
    /// A plain sampler: index 1, dimension 0, no randomization.
    fn default() -> (r: Self)
        ensures
            r.wf(),
            r.spec_strategy() == RandomStrategy::Plain,
            r.index == 1,
            r.dim == 0,
    {
        HaltonSampler { index: 1, dim: 0, strategy: RandomStrategy::Plain, permuters: Option::None }
    }
}

/// Law: a scrambled radical inverse whose permutation is the identity denotes
/// the same rational as the plain radical inverse, for every sample index
/// whose digits fit within the saturated digit positions of the base.
pub proof fn lemma_scrambled_identity_matches(a: int, base: int, p: Seq<u64>)
    requires
        2 <= base,
        0 <= a,
        is_identity_permutation(p, base),
        num_digits(a, base) <= saturated_digit_count(base),
    ensures
        scrambled_inverse_num(a, base, p) * radical_inverse_den(a, base) == radical_inverse_num(
            a,
            base,
        ) * scrambled_inverse_den(base),
{
    let d = num_digits(a, base);
    let m = saturated_digit_count(base);
    lemma_scrambled_identity(a, base, p, m);
    lemma_reversed_digits_pad(a, base, m);
    // reversed(a, m) * pow(d) == reversed(a, d) * pow(m - d) * pow(d) == reversed(a, d) * pow(m)
    lemma_pow_adds(base, (m - d) as nat, d);
    lemma_mul_is_associative(
        reversed_digits(a, base, d),
        pow(base, (m - d) as nat),
        pow(base, d),
    );
}

/// Law: for every base and digit count `k`, the radical inverses of the
/// sample indices `0 .. pow(base, k)` enumerate the numerators
/// `0 .. pow(base, k)` over the common denominator `pow(base, k)` exactly
/// once: digit reversal is self-inverse on that range, hence a bijection, so
/// the first `pow(base, k)` values are a duplicate-free enumeration of all
/// multiples of `1 / pow(base, k)` in `[0, 1)`.
pub proof fn lemma_low_discrepancy_enumeration(base: int, k: nat)
    requires
        2 <= base,
    ensures
        forall|a: int|
            0 <= a < pow(base, k) ==> 0 <= #[trigger] reversed_digits(a, base, k) < pow(base, k),
        forall|a1: int, a2: int|
            0 <= a1 < a2 < pow(base, k) ==> reversed_digits(a1, base, k) != reversed_digits(
                a2,
                base,
                k,
            ),
        forall|v: int|
            0 <= v < pow(base, k) ==> reversed_digits(#[trigger] reversed_digits(v, base, k), base, k)
                == v,
        forall|a: int|
            0 <= a < pow(base, k) ==> #[trigger] reversed_digits(a, base, k) * radical_inverse_den(
                a,
                base,
            ) == radical_inverse_num(a, base) * pow(base, k),
{
    assert forall|a: int| 0 <= a < pow(base, k) implies 0 <= #[trigger] reversed_digits(a, base, k)
        < pow(base, k) by {
        lemma_reversed_digits_bound(a, base, k);
    }
    assert forall|v: int| 0 <= v < pow(base, k) implies reversed_digits(
        #[trigger] reversed_digits(v, base, k),
        base,
        k,
    ) == v by {
        lemma_reversed_digits_involution(v, base, k);
    }
    assert forall|a1: int, a2: int| 0 <= a1 < a2 < pow(base, k) implies reversed_digits(
        a1,
        base,
        k,
    ) != reversed_digits(a2, base, k) by {
        lemma_reversed_digits_involution(a1, base, k);
        lemma_reversed_digits_involution(a2, base, k);
    }
    assert forall|a: int| 0 <= a < pow(base, k) implies #[trigger] reversed_digits(a, base, k)
        * radical_inverse_den(a, base) == radical_inverse_num(a, base) * pow(base, k) by {
        let d = num_digits(a, base);
        lemma_num_digits_bounds(a, base);
        if d > k {
            lemma_pow_increases(base as nat, k, (d - 1) as nat);
            assert(false);
        }
        lemma_reversed_digits_pad(a, base, k);
        lemma_pow_adds(base, (k - d) as nat, d);
        lemma_mul_is_associative(
            reversed_digits(a, base, d),
            pow(base, (k - d) as nat),
            pow(base, d),
        );
    }
}

} // verus!
