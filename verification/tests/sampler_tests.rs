use halton::haltonsampler::{radical_inverse, scramble_radical_inverse, HaltonSampler};
use halton::primes::{nth_prime, PRIME_TABLE_SIZE};
use halton::randomizer::DigitPermutation;
use halton::sampler::{RandomStrategy, Sample};

fn as_f64(s: &Sample) -> f64 {
    s.num as f64 / s.den as f64
}

fn same_rational(a: &Sample, b: &Sample) -> bool {
    a.num * b.den == b.num * a.den
}

#[test]
fn radical_inverse_lies_in_unit_interval() {
    for base_index in 0..PRIME_TABLE_SIZE {
        for a in 0..200usize {
            let s = radical_inverse(a, base_index);
            assert!(s.num < s.den);
            let v = as_f64(&s);
            assert!((0.0..1.0).contains(&v));
        }
    }
}

#[test]
fn radical_inverse_of_zero_is_zero() {
    for base_index in 0..PRIME_TABLE_SIZE {
        let s = radical_inverse(0, base_index);
        assert_eq!(s.num, 0);
        assert_eq!(s.den, 1);
        assert_eq!(as_f64(&s), 0.0);
    }
}

#[test]
fn radical_inverse_known_values() {
    let s = radical_inverse(1, 0);
    assert_eq!((s.num, s.den), (1, 2));
    assert_eq!(as_f64(&s), 0.5);

    let s = radical_inverse(2, 0);
    assert_eq!((s.num, s.den), (1, 4));
    assert_eq!(as_f64(&s), 0.25);

    let s = radical_inverse(3, 0);
    assert_eq!((s.num, s.den), (3, 4));
    assert_eq!(as_f64(&s), 0.75);

    let s = radical_inverse(1, 1);
    assert_eq!((s.num, s.den), (1, 3));
    assert!((as_f64(&s) - 1.0 / 3.0).abs() < 1e-12);

    // 6 = 110 in base 2; reversed behind the point: 0.011 = 3/8
    let s = radical_inverse(6, 0);
    assert_eq!((s.num, s.den), (3, 8));
}

#[test]
fn scrambled_with_identity_permutation_matches_plain() {
    for base_index in 0..6usize {
        let base = nth_prime(base_index);
        let id = DigitPermutation::identity(base);
        for a in 0..300usize {
            let plain = radical_inverse(a, base_index);
            let scrambled = scramble_radical_inverse(a, base_index, &id);
            assert!(scrambled.num < scrambled.den);
            assert!(
                same_rational(&plain, &scrambled),
                "base {} index {}: {}/{} vs {}/{}",
                base,
                a,
                plain.num,
                plain.den,
                scrambled.num,
                scrambled.den
            );
        }
    }
}

#[test]
fn identity_permutation_maps_digits_to_themselves() {
    let id = DigitPermutation::identity(13);
    for d in 0..13u64 {
        assert_eq!(id.permute(0, d), d);
        assert_eq!(id.permute(7, d), d);
    }
}

#[test]
fn digit_permutations_with_same_seed_agree() {
    for seed in [0u64, 1, 42, 0xDEADBEEF] {
        let p1 = DigitPermutation::new(13, seed);
        let p2 = DigitPermutation::new(13, seed);
        for pos in 0..5u64 {
            for d in 0..13u64 {
                assert_eq!(p1.permute(pos, d), p2.permute(pos, d));
            }
        }
    }
}

#[test]
fn digit_permutation_is_a_bijection() {
    for seed in [0u64, 5, 99] {
        let p = DigitPermutation::new(7, seed);
        let mut seen = [false; 7];
        for d in 0..7u64 {
            let out = p.permute(0, d);
            assert!(out < 7);
            assert!(!seen[out as usize], "digit {} mapped twice", out);
            seen[out as usize] = true;
        }
    }
}

#[test]
fn sampler_consumes_dimensions_in_order() {
    let mut s = HaltonSampler::new();
    assert_eq!(s.index, 1);
    assert_eq!(s.dim, 0);

    let (v0, v1) = s.get2d();
    assert_eq!(s.dim, 2);
    let v2 = s.get1d();
    assert_eq!(s.dim, 3);

    assert_eq!(v0, radical_inverse(1, 0));
    assert_eq!(v1, radical_inverse(1, 1));
    assert_eq!(v2, radical_inverse(1, 2));
}

#[test]
fn restore_resets_cursor_and_keeps_configuration() {
    let mut s = HaltonSampler::new_randomized(RandomStrategy::PermuteDigits);
    s.set_i(9);
    let first = s.get1d();
    let second = s.get1d();
    assert_eq!(s.dim, 2);

    s.restore();
    assert_eq!(s.dim, 0);
    assert_eq!(s.index, 1);

    // the strategy and the permutation tables are unchanged: the same draws
    // come back after setting the same index again
    s.set_i(9);
    assert_eq!(s.get1d(), first);
    assert_eq!(s.get1d(), second);
}

#[test]
fn set_dim_jumps_to_that_dimension() {
    let mut s = HaltonSampler::new();
    s.set_dim(5);
    let v = s.get1d();
    assert_eq!(s.dim, 6);

    // dimension 5 draws in the 6th prime base, 13
    assert_eq!(nth_prime(5), 13);
    assert_eq!(v, radical_inverse(1, 5));
    assert_eq!((v.num, v.den), (1, 13));
}

#[test]
fn set_i_changes_the_sample_index() {
    let mut s = HaltonSampler::new();
    s.set_i(6);
    let v = s.get1d();
    assert_eq!(s.index, 6);
    assert_eq!(v, radical_inverse(6, 0));
}

#[test]
fn randomized_sampler_draws_scrambled_inverses() {
    let mut s = HaltonSampler::new_randomized(RandomStrategy::PermuteDigits);
    s.set_i(7);
    let v = s.get1d();
    let p = DigitPermutation::new(2, 0);
    assert_eq!(v, scramble_radical_inverse(7, 0, &p));
    assert!(v.num < v.den);
}

#[test]
fn plain_randomization_matches_default_sampler() {
    let mut a = HaltonSampler::new_randomized(RandomStrategy::Plain);
    let mut b = HaltonSampler::new();
    a.set_i(11);
    b.set_i(11);
    assert_eq!(a.get1d(), b.get1d());
    assert_eq!(a.get2d(), b.get2d());
}

#[test]
fn first_base_pow_k_values_enumerate_all_multiples() {
    // base 2, k = 3: the first 8 values are exactly {0/8, ..., 7/8}
    let mut seen = [false; 8];
    for a in 0..8usize {
        let s = radical_inverse(a, 0);
        assert_eq!(8 % s.den, 0, "denominator must divide 8");
        let scaled = (s.num * (8 / s.den)) as usize;
        assert!(scaled < 8);
        assert!(!seen[scaled], "value {}/8 appeared twice", scaled);
        seen[scaled] = true;
    }
    assert!(seen.iter().all(|&x| x));

    // base 3, k = 2: the first 9 values are exactly {0/9, ..., 8/9}
    let mut seen = [false; 9];
    for a in 0..9usize {
        let s = radical_inverse(a, 1);
        assert_eq!(9 % s.den, 0);
        let scaled = (s.num * (9 / s.den)) as usize;
        assert!(scaled < 9);
        assert!(!seen[scaled]);
        seen[scaled] = true;
    }
    assert!(seen.iter().all(|&x| x));
}

#[test]
fn scrambled_inverse_differs_from_plain_for_nontrivial_permutation() {
    // the seed-0 permutation of base 2 must move some digit, or scrambling
    // would be the identity; check the draw actually runs the permutation
    let p = DigitPermutation::new(2, 0);
    let moved = (0..2u64).any(|d| p.permute(0, d) != d);
    let v = scramble_radical_inverse(5, 0, &p);
    let plain = radical_inverse(5, 0);
    if moved {
        assert!(!same_rational(&v, &plain));
    } else {
        assert!(same_rational(&v, &plain));
    }
}

#[test]
fn prime_table_is_increasing_and_starts_at_two() {
    let mut last = 0u64;
    for i in 0..PRIME_TABLE_SIZE {
        let p = nth_prime(i);
        assert!(p > last);
        last = p;
    }
    assert_eq!(nth_prime(0), 2);
    assert_eq!(nth_prime(1), 3);
    assert_eq!(nth_prime(PRIME_TABLE_SIZE - 1), 311);
}

#[test]
fn largest_sample_index_stays_in_unit_interval() {
    // usize::MAX has 64 binary digits: the denominator is 2^64 exactly
    let s = radical_inverse(usize::MAX, 0);
    assert!(s.num < s.den);
    assert_eq!(s.den, 1u128 << 64);
    // all 64 digits are 1, so the reversal is again all ones
    assert_eq!(s.num, u64::MAX as u128);

    // base 3 exercises a denominator that is no power of two
    let s = radical_inverse(usize::MAX, 1);
    assert!(s.num < s.den);

    // the scrambled path consumes all 64 positions of base 2
    let id = DigitPermutation::identity(2);
    let v = scramble_radical_inverse(usize::MAX, 0, &id);
    assert_eq!(v.den, 1u128 << 64);
    assert!(same_rational(&v, &radical_inverse(usize::MAX, 0)));
}
