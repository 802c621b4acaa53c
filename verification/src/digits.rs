//! Base-`b` digit expansions and their reversals: the mathematical model of
//! the radical inverse.  `reversed_digits(a, base, m)` is the integer whose
//! base-`base` digits are the first `m` digits of `a`, least significant
//! first; divided by `pow(base, m)` it is the radical inverse of `a`.

use vstd::prelude::*;
use vstd::arithmetic::div_mod::{
    lemma_div_denominator, lemma_div_pos_is_pos, lemma_div_decreases, lemma_fundamental_div_mod,
    lemma_mod_bound, lemma_div_multiples_vanish_fancy,
    lemma_mod_multiples_vanish, lemma_small_mod, lemma_basic_div, lemma_hoist_over_denominator,
    lemma_div_basics,
};
use vstd::arithmetic::mul::{
    lemma_mul_inequality, lemma_mul_is_commutative, lemma_mul_is_distributive_add,
    lemma_mul_is_distributive_add_other_way, lemma_mul_is_associative, lemma_mul_strict_inequality,
};
use vstd::arithmetic::power::{
    pow, lemma_pow_adds, lemma_pow_positive, lemma_pow0, lemma_pow1,
};

verus! {

/// Digit `j` of `a` written in base `base`; digit 0 is the least significant.
pub open spec fn digit(a: int, base: int, j: nat) -> int {
    (a / pow(base, j)) % base
}

/// How many base-`base` digits `a` has (0 for `a == 0`).
pub open spec fn num_digits(a: int, base: int) -> nat
    decreases a,
    when base >= 2
    via num_digits_decreases
{
    if a <= 0 {
        0
    } else {
        1 + num_digits(a / base, base)
    }
}

#[via_fn]
proof fn num_digits_decreases(a: int, base: int) {
    if a > 0 {
        lemma_div_decreases(a, base);
        lemma_div_pos_is_pos(a, base);
    }
}

/// The integer formed by the first `m` digits of `a`, read in reverse order:
/// `sum over j < m of digit(a, base, j) * pow(base, m - 1 - j)`.
pub open spec fn reversed_digits(a: int, base: int, m: nat) -> int
    decreases m,
{
    if m == 0 {
        0
    } else {
        reversed_digits(a, base, (m - 1) as nat) * base + digit(a, base, (m - 1) as nat)
    }
}

/// As `reversed_digits`, but each digit is first mapped through the
/// permutation `p` (digit `d` becomes `p[d]`).
pub open spec fn scrambled_digits(a: int, base: int, p: Seq<u64>, m: nat) -> int
    decreases m,
{
    if m == 0 {
        0
    } else {
        scrambled_digits(a, base, p, (m - 1) as nat) * base + p[digit(a, base, (m - 1) as nat)]
    }
}

/// `p` maps each digit below `base` to a distinct digit below `base`.
pub open spec fn is_digit_permutation(p: Seq<u64>, base: int) -> bool {
    &&& p.len() == base
    &&& forall|d: int| 0 <= d < base ==> #[trigger] p[d] < base
    &&& forall|d1: int, d2: int| 0 <= d1 < d2 < base ==> p[d1] != p[d2]
}

/// `p` maps every digit below `base` to itself.
pub open spec fn is_identity_permutation(p: Seq<u64>, base: int) -> bool {
    &&& p.len() == base
    &&& forall|d: int| 0 <= d < base ==> #[trigger] p[d] == d
}

/// A number is smaller than `base` to the power of its digit count, and at
/// least `base` to the power of one less (when it has a digit at all).
pub proof fn lemma_num_digits_bounds(a: int, base: int)
    requires
        a >= 0,
        base >= 2,
    ensures
        a < pow(base, num_digits(a, base)),
        a > 0 ==> pow(base, (num_digits(a, base) - 1) as nat) <= a,
    decreases a,
{
    reveal(pow);
    if a > 0 {
        lemma_div_decreases(a, base);
        lemma_div_pos_is_pos(a, base);
        lemma_num_digits_bounds(a / base, base);
        let m = num_digits(a / base, base);
        lemma_fundamental_div_mod(a, base);
        lemma_mod_bound(a, base);
        // a == base * (a / base) + a % base < base * pow(base, m) == pow(base, m + 1)
        lemma_mul_strict_inequality(a / base, pow(base, m), base);
        lemma_mul_is_commutative(a / base, base);
        lemma_mul_is_commutative(pow(base, m), base);
        assert(base * (a / base) <= base * pow(base, m) - base) by {
            lemma_mul_inequality(a / base + 1, pow(base, m), base);
            lemma_mul_is_distributive_add(base, a / base, 1);
        }
        assert(pow(base, m + 1) == base * pow(base, m));
        if a / base > 0 {
            lemma_pow_positive(base, (m - 1) as nat);
            lemma_mul_inequality(pow(base, (m - 1) as nat), a / base, base);
            lemma_mul_is_commutative(pow(base, (m - 1) as nat), base);
            assert(pow(base, m) == base * pow(base, (m - 1) as nat));
            assert(base * pow(base, (m - 1) as nat) <= base * (a / base));
            assert(base * (a / base) <= a);
        } else {
            assert(num_digits(a, base) == 1);
            assert(pow(base, 0) == 1);
        }
    } else {
        assert(pow(base, 0) == 1);
    }
}

/// The reversal of `m` digits is below `pow(base, m)`.
pub proof fn lemma_reversed_digits_bound(a: int, base: int, m: nat)
    requires
        base >= 2,
    ensures
        0 <= reversed_digits(a, base, m) < pow(base, m),
    decreases m,
{
    reveal(pow);
    if m == 0 {
        assert(pow(base, 0) == 1);
    } else {
        let mp = (m - 1) as nat;
        lemma_reversed_digits_bound(a, base, mp);
        let r = reversed_digits(a, base, mp);
        let d = digit(a, base, mp);
        lemma_pow_positive(base, mp);
        lemma_mod_bound(a / pow(base, mp), base);
        // r * base + d <= (pow(base, mp) - 1) * base + (base - 1) < pow(base, m)
        lemma_mul_inequality(r, pow(base, mp) - 1, base);
        lemma_mul_is_distributive_add_other_way(base, pow(base, mp) - 1, 1);
        lemma_mul_is_commutative(r, base);
        lemma_mul_is_commutative(pow(base, mp), base);
        assert(pow(base, m) == base * pow(base, mp));
        if r >= 0 && base >= 0 {
            vstd::arithmetic::mul::lemma_mul_nonnegative(r, base);
        }
    }
}

/// Digits at or above the digit count are zero.
pub proof fn lemma_digit_high_zero(a: int, base: int, j: nat)
    requires
        base >= 2,
        0 <= a,
        a < pow(base, j),
    ensures
        digit(a, base, j) == 0,
{
    lemma_pow_positive(base, j);
    lemma_basic_div(a, pow(base, j));
    lemma_small_mod(0, base as nat);
}

/// Dividing once more folds into the power: `(a / pow(b, j)) / b == a / pow(b, j + 1)`.
pub proof fn lemma_div_pow_step(a: int, base: int, j: nat)
    requires
        base >= 2,
        a >= 0,
    ensures
        (a / pow(base, j)) / base == a / pow(base, (j + 1) as nat),
{
    reveal(pow);
    lemma_pow_positive(base, j);
    lemma_div_denominator(a, pow(base, j), base);
    lemma_pow_adds(base, j, 1);
    lemma_pow1(base);
    lemma_mul_is_commutative(pow(base, j), base);
}

/// Digit `j + 1` of `a` is digit `j` of `a / base`.
pub proof fn lemma_digit_shift(a: int, base: int, j: nat)
    requires
        base >= 2,
        a >= 0,
    ensures
        digit(a, base, (j + 1) as nat) == digit(a / base, base, j),
{
    reveal(pow);
    lemma_pow_positive(base, j);
    lemma_div_pos_is_pos(a, base);
    // a / pow(base, j + 1) == (a / base) / pow(base, j)
    lemma_div_denominator(a, base, pow(base, j));
    lemma_pow_adds(base, 1, j);
    lemma_pow1(base);
}

/// Peeling the least significant digit off the front of a reversal:
/// `reversed_digits(a, base, m) == digit(a, base, 0) * pow(base, m - 1) + reversed_digits(a / base, base, m - 1)`.
pub proof fn lemma_reversed_digits_decompose(a: int, base: int, m: nat)
    requires
        base >= 2,
        a >= 0,
        m >= 1,
    ensures
        reversed_digits(a, base, m) == (a % base) * pow(base, (m - 1) as nat) + reversed_digits(
            a / base,
            base,
            (m - 1) as nat,
        ),
    decreases m,
{
    reveal(pow);
    let mp = (m - 1) as nat;
    if m == 1 {
        lemma_pow0(base);
        lemma_div_basics(a);
        assert(reversed_digits(a, base, 0) == 0);
        assert(reversed_digits(a / base, base, 0) == 0);
        assert(digit(a, base, 0) == a % base);
    } else {
        let mpp = (m - 2) as nat;
        let x0 = a % base;
        let rl = reversed_digits(a / base, base, mpp);
        let dl = digit(a / base, base, mpp);
        lemma_reversed_digits_decompose(a, base, mp);
        lemma_digit_shift(a, base, mpp);
        assert(digit(a, base, mp) == dl);
        assert(reversed_digits(a, base, m) == reversed_digits(a, base, mp) * base + digit(
            a,
            base,
            mp,
        ));
        assert(reversed_digits(a, base, mp) == x0 * pow(base, mpp) + rl);
        assert((x0 * pow(base, mpp) + rl) * base == x0 * pow(base, mpp) * base + rl * base) by {
            lemma_mul_is_distributive_add_other_way(base, x0 * pow(base, mpp), rl);
        }
        assert(x0 * pow(base, mpp) * base == x0 * pow(base, mp)) by {
            lemma_mul_is_associative(x0, pow(base, mpp), base);
            lemma_mul_is_commutative(pow(base, mpp), base);
            assert(pow(base, mp) == base * pow(base, mpp));
        }
        assert(reversed_digits(a / base, base, mp) == rl * base + dl);
    }
}

/// Numbers with the same first `m` digits have the same `m`-digit reversal.
pub proof fn lemma_reversed_digits_congruent(x: int, y: int, base: int, m: nat)
    requires
        base >= 2,
        forall|j: nat| j < m ==> #[trigger] digit(x, base, j) == digit(y, base, j),
    ensures
        reversed_digits(x, base, m) == reversed_digits(y, base, m),
    decreases m,
{
    if m > 0 {
        lemma_reversed_digits_congruent(x, y, base, (m - 1) as nat);
    }
}

/// Reversing the digits twice gives the number back: digit reversal is an
/// involution on `[0, pow(base, m))`.
pub proof fn lemma_reversed_digits_involution(v: int, base: int, m: nat)
    requires
        base >= 2,
        0 <= v < pow(base, m),
    ensures
        reversed_digits(reversed_digits(v, base, m), base, m) == v,
    decreases m,
{
    reveal(pow);
    if m == 0 {
        assert(pow(base, 0) == 1);
    } else {
        let mp = (m - 1) as nat;
        let vl = v % base;
        let vh = v / base;
        lemma_mod_bound(v, base);
        lemma_div_pos_is_pos(v, base);
        lemma_fundamental_div_mod(v, base);
        // v / base < pow(base, mp)
        assert(vh < pow(base, mp)) by {
            if vh >= pow(base, mp) {
                lemma_mul_inequality(pow(base, mp), vh, base);
                lemma_mul_is_commutative(pow(base, mp), base);
                lemma_mul_is_commutative(vh, base);
                assert(pow(base, m) == base * pow(base, mp));
                assert(base * vh <= v);
                assert(false);
            }
        }
        let rest = reversed_digits(vh, base, mp);
        lemma_reversed_digits_bound(vh, base, mp);
        lemma_reversed_digits_decompose(v, base, m);
        let r = vl * pow(base, mp) + rest;
        assert(reversed_digits(v, base, m) == r);
        lemma_pow_positive(base, mp);
        vstd::arithmetic::mul::lemma_mul_nonnegative(vl, pow(base, mp));
        // digit(r, mp) == vl, and the digits of r below mp are those of rest.
        assert(r / pow(base, mp) == vl) by {
            lemma_mul_is_commutative(vl, pow(base, mp));
            lemma_div_multiples_vanish_fancy(vl, rest, pow(base, mp));
            lemma_basic_div(rest, pow(base, mp));
        }
        assert(digit(r, base, mp) == vl) by {
            lemma_small_mod(vl as nat, base as nat);
        }
        assert(forall|j: nat| j < mp ==> #[trigger] digit(r, base, j) == digit(rest, base, j)) by {
            assert forall|j: nat| j < mp implies #[trigger] digit(r, base, j) == digit(
                rest,
                base,
                j,
            ) by {
                lemma_digit_mid(vl, rest, base, mp, j);
            }
        }
        lemma_reversed_digits_congruent(r, rest, base, mp);
        lemma_reversed_digits_involution(vh, base, mp);
        // reversed(r, m) == reversed(r, mp) * base + digit(r, mp) == vh * base + vl == v
        assert(reversed_digits(r, base, m) == reversed_digits(r, base, mp) * base + digit(
            r,
            base,
            mp,
        ));
        assert(reversed_digits(r, base, mp) == vh);
        lemma_mul_is_commutative(vh, base);
    }
}

/// A digit below position `m` of `h * pow(base, m) + low` (with `low` small)
/// is the corresponding digit of `low`.
proof fn lemma_digit_mid(h: int, low: int, base: int, m: nat, j: nat)
    requires
        base >= 2,
        h >= 0,
        0 <= low < pow(base, m),
        j < m,
    ensures
        digit(h * pow(base, m) + low, base, j) == digit(low, base, j),
{
    reveal(pow);
    let x = h * pow(base, m) + low;
    lemma_pow_positive(base, j);
    lemma_pow_positive(base, m);
    let k = (m - j) as nat;
    lemma_pow_positive(base, k);
    lemma_pow_adds(base, j, k);
    vstd::arithmetic::mul::lemma_mul_nonnegative(h, pow(base, k));
    assert(x == low + (h * pow(base, k)) * pow(base, j)) by {
        lemma_mul_is_associative(h, pow(base, j), pow(base, k));
        lemma_mul_is_commutative(pow(base, j), pow(base, k));
        lemma_mul_is_associative(h, pow(base, k), pow(base, j));
    }
    assert(x / pow(base, j) == low / pow(base, j) + h * pow(base, k)) by {
        lemma_hoist_over_denominator(low, h * pow(base, k), pow(base, j) as nat);
    }
    // mod base: the contribution of h vanishes since k >= 1
    assert(pow(base, k) == base * pow(base, (k - 1) as nat));
    assert(digit(x, base, j) == digit(low, base, j)) by {
        assert(h * pow(base, k) == base * (h * pow(base, (k - 1) as nat))) by {
            lemma_mul_is_associative(h, base, pow(base, (k - 1) as nat));
            lemma_mul_is_commutative(h, base);
            lemma_mul_is_associative(base, h, pow(base, (k - 1) as nat));
        }
        lemma_mod_multiples_vanish(h * pow(base, (k - 1) as nat), low / pow(base, j), base);
    }
}

/// Reversing with extra positions only scales by the base: for
/// `num_digits(a, base) <= m`, the trailing positions hold zero digits.
pub proof fn lemma_reversed_digits_pad(a: int, base: int, m: nat)
    requires
        base >= 2,
        a >= 0,
        num_digits(a, base) <= m,
    ensures
        reversed_digits(a, base, m) == reversed_digits(a, base, num_digits(a, base)) * pow(
            base,
            (m - num_digits(a, base)) as nat,
        ),
    decreases m,
{
    reveal(pow);
    let d = num_digits(a, base);
    if m == d {
        assert(pow(base, 0) == 1);
    } else {
        let mp = (m - 1) as nat;
        lemma_reversed_digits_pad(a, base, mp);
        lemma_num_digits_bounds(a, base);
        vstd::arithmetic::power::lemma_pow_increases(base as nat, d, mp);
        lemma_digit_high_zero(a, base, mp);
        assert(reversed_digits(a, base, m) == reversed_digits(a, base, mp) * base);
        lemma_pow_adds(base, (mp - d) as nat, 1);
        lemma_pow1(base);
        lemma_mul_is_associative(reversed_digits(a, base, d), pow(base, (mp - d) as nat), base);
    }
}

/// With an identity permutation, scrambling changes nothing.
pub proof fn lemma_scrambled_identity(a: int, base: int, p: Seq<u64>, m: nat)
    requires
        base >= 2,
        a >= 0,
        is_identity_permutation(p, base),
    ensures
        scrambled_digits(a, base, p, m) == reversed_digits(a, base, m),
    decreases m,
{
    if m > 0 {
        let mp = (m - 1) as nat;
        lemma_scrambled_identity(a, base, p, mp);
        lemma_pow_positive(base, mp);
        lemma_div_pos_is_pos(a, pow(base, mp));
        lemma_mod_bound(a / pow(base, mp), base);
    }
}

} // verus!
