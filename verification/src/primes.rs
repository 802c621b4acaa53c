//! The prime table: the first `PRIME_TABLE_SIZE` primes, in increasing order.
//! Dimension `i` of the sampler draws its radical inverse in base `primes()[i]`.

use vstd::prelude::*;

verus! {

/// Number of entries in the prime table; the sampler supports at most this
/// many independent dimensions per sample.
pub const PRIME_TABLE_SIZE: usize = 64;

/// The first `PRIME_TABLE_SIZE` primes, in increasing order.
pub open spec fn primes() -> Seq<u64> {
    seq![
        2u64, 3, 5, 7, 11, 13, 17, 19, 23, 29, 31, 37, 41, 43, 47, 53,
        59, 61, 67, 71, 73, 79, 83, 89, 97, 101, 103, 107, 109, 113, 127, 131,
        137, 139, 149, 151, 157, 163, 167, 173, 179, 181, 191, 193, 197, 199, 211, 223,
        227, 229, 233, 239, 241, 251, 257, 263, 269, 271, 277, 281, 283, 293, 307, 311,
    ]
}

/// Executable lookup into the prime table: the base used by dimension `i`.
pub fn nth_prime(i: usize) -> (p: u64)
    requires
        i < PRIME_TABLE_SIZE,
    ensures
        p == primes()[i as int],
{
    match i {
        0 => 2,
        1 => 3,
        2 => 5,
        3 => 7,
        4 => 11,
        5 => 13,
        6 => 17,
        7 => 19,
        8 => 23,
        9 => 29,
        10 => 31,
        11 => 37,
        12 => 41,
        13 => 43,
        14 => 47,
        15 => 53,
        16 => 59,
        17 => 61,
        18 => 67,
        19 => 71,
        20 => 73,
        21 => 79,
        22 => 83,
        23 => 89,
        24 => 97,
        25 => 101,
        26 => 103,
        27 => 107,
        28 => 109,
        29 => 113,
        30 => 127,
        31 => 131,
        32 => 137,
        33 => 139,
        34 => 149,
        35 => 151,
        36 => 157,
        37 => 163,
        38 => 167,
        39 => 173,
        40 => 179,
        41 => 181,
        42 => 191,
        43 => 193,
        44 => 197,
        45 => 199,
        46 => 211,
        47 => 223,
        48 => 227,
        49 => 229,
        50 => 233,
        51 => 239,
        52 => 241,
        53 => 251,
        54 => 257,
        55 => 263,
        56 => 269,
        57 => 271,
        58 => 277,
        59 => 281,
        60 => 283,
        61 => 293,
        62 => 307,
        63 => 311,
        _ => 2,
    }
}

/// `n` has no factor `d` or above: trial division, stopping once `d * d`
/// passes `n`, since a composite number has a factor at most its square root.
pub open spec fn has_no_factor_from(n: int, d: int) -> bool
    decreases n - d,
    when 2 <= d
    via has_no_factor_from_decreases
{
    if d * d > n {
        true
    } else {
        n % d != 0 && has_no_factor_from(n, d + 1)
    }
}

#[via_fn]
proof fn has_no_factor_from_decreases(n: int, d: int) {
    if !(d * d > n) {
        vstd::arithmetic::mul::lemma_mul_inequality(2, d, d);
    }
}

/// `n` is a prime number.
pub open spec fn is_prime(n: int) -> bool {
    2 <= n && has_no_factor_from(n, 2)
}

/// Every entry of `s` from position `i` on is prime.
pub open spec fn all_primes_from(s: Seq<u64>, i: int) -> bool
    decreases s.len() - i,
{
    if i < 0 || i >= s.len() {
        true
    } else {
        is_prime(s[i] as int) && all_primes_from(s, i + 1)
    }
}

proof fn lemma_all_primes_step(s: Seq<u64>, i: int, j: int)
    requires
        0 <= i <= j < s.len(),
        all_primes_from(s, i),
    ensures
        is_prime(s[j] as int),
    decreases j - i,
{
    if j > i {
        lemma_all_primes_step(s, i + 1, j);
    }
}

#[verifier::rlimit(100)]
proof fn lemma_all_primes_from_48()
    ensures
        all_primes_from(primes(), 48),
{
    reveal_with_fuel(has_no_factor_from, 21);
    assert(all_primes_from(primes(), 64));
    assert(primes()[63] == 311);
    assert(is_prime(311));
    assert(all_primes_from(primes(), 63));
    assert(primes()[62] == 307);
    assert(is_prime(307));
    assert(all_primes_from(primes(), 62));
    assert(primes()[61] == 293);
    assert(is_prime(293));
    assert(all_primes_from(primes(), 61));
    assert(primes()[60] == 283);
    assert(is_prime(283));
    assert(all_primes_from(primes(), 60));
    assert(primes()[59] == 281);
    assert(is_prime(281));
    assert(all_primes_from(primes(), 59));
    assert(primes()[58] == 277);
    assert(is_prime(277));
    assert(all_primes_from(primes(), 58));
    assert(primes()[57] == 271);
    assert(is_prime(271));
    assert(all_primes_from(primes(), 57));
    assert(primes()[56] == 269);
    assert(is_prime(269));
    assert(all_primes_from(primes(), 56));
    assert(primes()[55] == 263);
    assert(is_prime(263));
    assert(all_primes_from(primes(), 55));
    assert(primes()[54] == 257);
    assert(is_prime(257));
    assert(all_primes_from(primes(), 54));
    assert(primes()[53] == 251);
    assert(is_prime(251));
    assert(all_primes_from(primes(), 53));
    assert(primes()[52] == 241);
    assert(is_prime(241));
    assert(all_primes_from(primes(), 52));
    assert(primes()[51] == 239);
    assert(is_prime(239));
    assert(all_primes_from(primes(), 51));
    assert(primes()[50] == 233);
    assert(is_prime(233));
    assert(all_primes_from(primes(), 50));
    assert(primes()[49] == 229);
    assert(is_prime(229));
    assert(all_primes_from(primes(), 49));
    assert(primes()[48] == 227);
    assert(is_prime(227));
    assert(all_primes_from(primes(), 48));
}

#[verifier::rlimit(100)]
proof fn lemma_all_primes_from_32()
    ensures
        all_primes_from(primes(), 32),
{
    reveal_with_fuel(has_no_factor_from, 21);
    lemma_all_primes_from_48();
    assert(primes()[47] == 223);
    assert(is_prime(223));
    assert(all_primes_from(primes(), 47));
    assert(primes()[46] == 211);
    assert(is_prime(211));
    assert(all_primes_from(primes(), 46));
    assert(primes()[45] == 199);
    assert(is_prime(199));
    assert(all_primes_from(primes(), 45));
    assert(primes()[44] == 197);
    assert(is_prime(197));
    assert(all_primes_from(primes(), 44));
    assert(primes()[43] == 193);
    assert(is_prime(193));
    assert(all_primes_from(primes(), 43));
    assert(primes()[42] == 191);
    assert(is_prime(191));
    assert(all_primes_from(primes(), 42));
    assert(primes()[41] == 181);
    assert(is_prime(181));
    assert(all_primes_from(primes(), 41));
    assert(primes()[40] == 179);
    assert(is_prime(179));
    assert(all_primes_from(primes(), 40));
    assert(primes()[39] == 173);
    assert(is_prime(173));
    assert(all_primes_from(primes(), 39));
    assert(primes()[38] == 167);
    assert(is_prime(167));
    assert(all_primes_from(primes(), 38));
    assert(primes()[37] == 163);
    assert(is_prime(163));
    assert(all_primes_from(primes(), 37));
    assert(primes()[36] == 157);
    assert(is_prime(157));
    assert(all_primes_from(primes(), 36));
    assert(primes()[35] == 151);
    assert(is_prime(151));
    assert(all_primes_from(primes(), 35));
    assert(primes()[34] == 149);
    assert(is_prime(149));
    assert(all_primes_from(primes(), 34));
    assert(primes()[33] == 139);
    assert(is_prime(139));
    assert(all_primes_from(primes(), 33));
    assert(primes()[32] == 137);
    assert(is_prime(137));
    assert(all_primes_from(primes(), 32));
}

#[verifier::rlimit(100)]
proof fn lemma_all_primes_from_16()
    ensures
        all_primes_from(primes(), 16),
{
    reveal_with_fuel(has_no_factor_from, 21);
    lemma_all_primes_from_32();
    assert(primes()[31] == 131);
    assert(is_prime(131));
    assert(all_primes_from(primes(), 31));
    assert(primes()[30] == 127);
    assert(is_prime(127));
    assert(all_primes_from(primes(), 30));
    assert(primes()[29] == 113);
    assert(is_prime(113));
    assert(all_primes_from(primes(), 29));
    assert(primes()[28] == 109);
    assert(is_prime(109));
    assert(all_primes_from(primes(), 28));
    assert(primes()[27] == 107);
    assert(is_prime(107));
    assert(all_primes_from(primes(), 27));
    assert(primes()[26] == 103);
    assert(is_prime(103));
    assert(all_primes_from(primes(), 26));
    assert(primes()[25] == 101);
    assert(is_prime(101));
    assert(all_primes_from(primes(), 25));
    assert(primes()[24] == 97);
    assert(is_prime(97));
    assert(all_primes_from(primes(), 24));
    assert(primes()[23] == 89);
    assert(is_prime(89));
    assert(all_primes_from(primes(), 23));
    assert(primes()[22] == 83);
    assert(is_prime(83));
    assert(all_primes_from(primes(), 22));
    assert(primes()[21] == 79);
    assert(is_prime(79));
    assert(all_primes_from(primes(), 21));
    assert(primes()[20] == 73);
    assert(is_prime(73));
    assert(all_primes_from(primes(), 20));
    assert(primes()[19] == 71);
    assert(is_prime(71));
    assert(all_primes_from(primes(), 19));
    assert(primes()[18] == 67);
    assert(is_prime(67));
    assert(all_primes_from(primes(), 18));
    assert(primes()[17] == 61);
    assert(is_prime(61));
    assert(all_primes_from(primes(), 17));
    assert(primes()[16] == 59);
    assert(is_prime(59));
    assert(all_primes_from(primes(), 16));
}

#[verifier::rlimit(100)]
proof fn lemma_all_primes_from_0()
    ensures
        all_primes_from(primes(), 0),
{
    reveal_with_fuel(has_no_factor_from, 21);
    lemma_all_primes_from_16();
    assert(primes()[15] == 53);
    assert(is_prime(53));
    assert(all_primes_from(primes(), 15));
    assert(primes()[14] == 47);
    assert(is_prime(47));
    assert(all_primes_from(primes(), 14));
    assert(primes()[13] == 43);
    assert(is_prime(43));
    assert(all_primes_from(primes(), 13));
    assert(primes()[12] == 41);
    assert(is_prime(41));
    assert(all_primes_from(primes(), 12));
    assert(primes()[11] == 37);
    assert(is_prime(37));
    assert(all_primes_from(primes(), 11));
    assert(primes()[10] == 31);
    assert(is_prime(31));
    assert(all_primes_from(primes(), 10));
    assert(primes()[9] == 29);
    assert(is_prime(29));
    assert(all_primes_from(primes(), 9));
    assert(primes()[8] == 23);
    assert(is_prime(23));
    assert(all_primes_from(primes(), 8));
    assert(primes()[7] == 19);
    assert(is_prime(19));
    assert(all_primes_from(primes(), 7));
    assert(primes()[6] == 17);
    assert(is_prime(17));
    assert(all_primes_from(primes(), 6));
    assert(primes()[5] == 13);
    assert(is_prime(13));
    assert(all_primes_from(primes(), 5));
    assert(primes()[4] == 11);
    assert(is_prime(11));
    assert(all_primes_from(primes(), 4));
    assert(primes()[3] == 7);
    assert(is_prime(7));
    assert(all_primes_from(primes(), 3));
    assert(primes()[2] == 5);
    assert(is_prime(5));
    assert(all_primes_from(primes(), 2));
    assert(primes()[1] == 3);
    assert(is_prime(3));
    assert(all_primes_from(primes(), 1));
    assert(primes()[0] == 2);
    assert(is_prime(2));
    assert(all_primes_from(primes(), 0));
}

/// Every entry of the prime table is a prime number.
pub proof fn lemma_primes_prime(i: int)
    requires
        0 <= i < PRIME_TABLE_SIZE,
    ensures
        is_prime(primes()[i] as int),
{
    lemma_all_primes_from_0();
    lemma_all_primes_step(primes(), 0, i);
}

/// Adjacent entries of `s` are strictly increasing from position `i` on.
pub open spec fn sorted_from(s: Seq<u64>, i: int) -> bool
    decreases s.len() - i,
{
    if i < 0 || i + 1 >= s.len() {
        true
    } else {
        s[i] < s[i + 1] && sorted_from(s, i + 1)
    }
}

proof fn lemma_sorted_from_step(s: Seq<u64>, i: int, j: int)
    requires
        0 <= i <= j,
        j + 1 < s.len(),
        sorted_from(s, i),
    ensures
        s[j] < s[j + 1],
    decreases j - i,
{
    if j > i {
        lemma_sorted_from_step(s, i + 1, j);
    }
}

proof fn lemma_sorted_range(s: Seq<u64>, i: int, j: int)
    requires
        0 <= i <= j < s.len(),
        sorted_from(s, 0),
    ensures
        s[i] <= s[j],
    decreases j - i,
{
    if i < j {
        lemma_sorted_from_step(s, 0, j - 1);
        lemma_sorted_range(s, i, j - 1);
    }
}

#[verifier::rlimit(50)]
proof fn lemma_primes_sorted()
    ensures
        sorted_from(primes(), 0),
{
    reveal_with_fuel(sorted_from, 65);
    assert(sorted_from(primes(), 0));
}

/// The prime table is strictly increasing.
pub proof fn lemma_primes_increasing(i: int, j: int)
    requires
        0 <= i < j < PRIME_TABLE_SIZE,
    ensures
        primes()[i] < primes()[j],
{
    lemma_primes_sorted();
    lemma_sorted_from_step(primes(), 0, j - 1);
    lemma_sorted_range(primes(), i, j - 1);
}

/// Every base in the table lies between 2 and the last entry.
pub proof fn lemma_primes_bounds(i: int)
    requires
        0 <= i < PRIME_TABLE_SIZE,
    ensures
        2 <= primes()[i] <= 311,
{
    lemma_primes_sorted();
    lemma_sorted_range(primes(), 0, i);
    lemma_sorted_range(primes(), i, PRIME_TABLE_SIZE - 1);
    assert(primes()[0] == 2);
    assert(primes()[PRIME_TABLE_SIZE - 1] == 311);
}

} // verus!
