//! Digit permutations: given a base and a seed, a deterministic permutation of
//! the digits `{0, ..., base - 1}`, used to scramble radical-inverse digits.
//! The same `(base, seed)` pair always yields the same permutation, so two
//! instances built alike behave identically.

use crate::digits::{is_digit_permutation, is_identity_permutation};
use vstd::prelude::*;

verus! {

/// The identity mapping on the digits below `base`.
pub open spec fn identity_seq(base: nat) -> Seq<u64> {
    Seq::new(base, |i: int| i as u64)
}

/// `s` with the entries at `i` and `j` exchanged.
pub open spec fn swap_seq(s: Seq<u64>, i: int, j: int) -> Seq<u64> {
    s.update(i, s[j]).update(j, s[i])
}

/// Deterministic mixing of the seed with a shuffle position.
pub open spec fn mix(seed: u64, i: u64) -> u64 {
    let h = seed.wrapping_mul(0x9E3779B97F4A7C15u64).wrapping_add(i);
    h ^ (h >> 31u64)
}

/// The Fisher-Yates pass, walking position `i` down to 1 and exchanging each
/// position with a seed-determined position at or below it.
pub open spec fn shuffle_down(s: Seq<u64>, i: nat, seed: u64) -> Seq<u64>
    decreases i,
{
    if i == 0 {
        s
    } else {
        shuffle_down(
            swap_seq(s, i as int, mix(seed, i as u64) as int % (i as int + 1)),
            (i - 1) as nat,
            seed,
        )
    }
}

/// The permutation of `{0, ..., base - 1}` that `(base, seed)` determines.
pub open spec fn spec_permutation(base: u64, seed: u64) -> Seq<u64> {
    shuffle_down(identity_seq(base as nat), (base - 1) as nat, seed)
}

/// A permutation of the digits `{0, ..., base - 1}`, built once from a base
/// and a seed, immutable afterwards.  The same permutation is used at every
/// digit position of an expansion: `permute` ignores its position argument,
/// which the interface keeps so that position-dependent schemes stay
/// expressible.
pub struct DigitPermutation {
    base: u64,
    perm: Vec<u64>,
}

impl DigitPermutation {
    /// The base whose digits this permutation maps.
    pub closed spec fn spec_base(&self) -> u64 {
        self.base
    }

    /// The permutation table: entry `d` is the image of digit `d`.
    pub closed spec fn perm_seq(&self) -> Seq<u64> {
        self.perm@
    }

    /// The table is a genuine permutation of the digits below the base.
    pub open spec fn wf(&self) -> bool {
        &&& self.spec_base() >= 2
        &&& is_digit_permutation(self.perm_seq(), self.spec_base() as int)
    }

    /// Build the digit permutation that `(base, seed)` determines, by a
    /// Fisher-Yates shuffle of the identity table driven by `mix`.  The result
    /// is pinned to `spec_permutation(base, seed)`, so construction is
    /// deterministic: two instances built with the same arguments agree on
    /// every digit.
    pub fn new(base: u64, seed: u64) -> (r: DigitPermutation)
        requires
            2 <= base <= 0xFFFF,
        ensures
            r.wf(),
            r.spec_base() == base,
            r.perm_seq() == spec_permutation(base, seed),
    {
        let mut perm: Vec<u64> = Vec::new();
        let mut d: u64 = 0;
        while d < base
            invariant
                d <= base <= 0xFFFF,
                perm@.len() == d as nat,
                forall|k: int| 0 <= k < d ==> perm@[k] == k,
            decreases base - d,
        {
            perm.push(d);
            d = d + 1;
        }
        proof {
            assert(perm@ =~= identity_seq(base as nat));
        }
        let mut i: u64 = base - 1;
        while i >= 1
            invariant
                i <= base - 1,
                base <= 0xFFFF,
                perm@.len() == base as nat,
                is_digit_permutation(perm@, base as int),
                shuffle_down(perm@, i as nat, seed) == spec_permutation(base, seed),
            decreases i,
        {
            let ghost prev = perm@;
            let r = mix_u64(seed, i);
            let j = r % (i + 1);
            let pi = perm[i as usize];
            let pj = perm[j as usize];
            perm.set(i as usize, pj);
            perm.set(j as usize, pi);
            proof {
                let ii = i as int;
                let jj = j as int;
                assert(perm@ =~= swap_seq(prev, ii, jj));
                assert(jj == mix(seed, i) as int % (ii + 1));
                assert(shuffle_down(prev, i as nat, seed) == shuffle_down(
                    swap_seq(prev, ii, jj),
                    (i - 1) as nat,
                    seed,
                ));
                assert forall|k: int| 0 <= k < base implies #[trigger] perm@[k] < base by {
                    if k == ii {
                        assert(perm@[k] == prev[jj]);
                    } else if k == jj {
                        assert(perm@[k] == prev[ii]);
                    } else {
                        assert(perm@[k] == prev[k]);
                    }
                }
                assert forall|k1: int, k2: int| 0 <= k1 < k2 < base implies perm@[k1] != perm@[k2]
                by {
                    let x: int = if k1 == ii {
                        jj
                    } else if k1 == jj {
                        ii
                    } else {
                        k1
                    };
                    let y: int = if k2 == ii {
                        jj
                    } else if k2 == jj {
                        ii
                    } else {
                        k2
                    };
                    assert(perm@[k1] == prev[x]);
                    assert(perm@[k2] == prev[y]);
                    assert(x != y);
                    if x < y {
                        assert(prev[x] != prev[y]);
                    } else {
                        assert(prev[y] != prev[x]);
                    }
                }
            }
            i = i - 1;
        }
        DigitPermutation { base, perm }
    }

    /// The permutation that maps every digit to itself.
    pub fn identity(base: u64) -> (r: DigitPermutation)
        requires
            2 <= base <= 0xFFFF,
        ensures
            r.wf(),
            r.spec_base() == base,
            is_identity_permutation(r.perm_seq(), base as int),
    {
        let mut perm: Vec<u64> = Vec::new();
        let mut d: u64 = 0;
        while d < base
            invariant
                d <= base <= 0xFFFF,
                perm@.len() == d as nat,
                forall|k: int| 0 <= k < d ==> perm@[k] == k,
            decreases base - d,
        {
            perm.push(d);
            d = d + 1;
        }
        DigitPermutation { base, perm }
    }

    /// Map one digit through the permutation.  The digit position is accepted
    /// but does not vary the mapping: a single table serves every position.
    pub fn permute(&self, _digit_index: u64, digit_value: u64) -> (r: u64)
        requires
            self.wf(),
            digit_value < self.spec_base(),
        ensures
            r == self.perm_seq()[digit_value as int],
            r < self.spec_base(),
    {
        let n = self.perm.len();
        assert(digit_value < n);
        self.perm[digit_value as usize]
    }

    /// The base this permutation was built for.
    pub fn base(&self) -> (b: u64)
        ensures
            b == self.spec_base(),
    {
        self.base
    }
}

/// Law: digit-permutation construction is deterministic.  Two instances whose
/// tables both come from the same `(base, seed)` pair — as `new` guarantees —
/// agree on every digit, so they produce identical `permute` outputs for
/// every input pair.
pub proof fn lemma_permutation_deterministic(
    p1: &DigitPermutation,
    p2: &DigitPermutation,
    base: u64,
    seed: u64,
)
    requires
        p1.perm_seq() == spec_permutation(base, seed),
        p2.perm_seq() == spec_permutation(base, seed),
    ensures
        forall|d: int| 0 <= d < p1.perm_seq().len() ==> p1.perm_seq()[d] == p2.perm_seq()[d],
{
}

/// Executable counterpart of `mix`.
fn mix_u64(seed: u64, i: u64) -> (r: u64)
    ensures
        r == mix(seed, i),
{
    let h = seed.wrapping_mul(0x9E3779B97F4A7C15u64).wrapping_add(i);
    h ^ (h >> 31u64)
}

} // verus!
