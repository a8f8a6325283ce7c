use vstd::prelude::*;
use vstd::arithmetic::power2::lemma2_to64;
use vstd::arithmetic::power2::lemma2_to64_rest;
use vstd::arithmetic::power2::lemma_pow2_strictly_increases;
use vstd::arithmetic::power2::lemma_pow2_unfold;
use vstd::arithmetic::power2::pow2;

verus! {

/// The word of the number zero.
pub const ZERO: u64 = 0;

/// The word of the number one.
pub const ONE: u64 = 0x3FF0_0000_0000_0000;

/// The word of the number two.
pub const TWO: u64 = 0x4000_0000_0000_0000;

/// The counts below this bound are exactly the ones a word can hold without rounding.
pub const EXACT_COUNTS: u64 = 0x20_0000_0000_0000;

/// `n` lies in the binade of exponent `e`: between `2^e` and `2^(e + 1)`.
pub open spec fn in_binade(n: nat, e: nat) -> bool {
    pow2(e) <= n < pow2(e + 1)
}

/// The binary exponent of a positive count.
pub open spec fn exponent_of(n: nat) -> nat {
    choose|e: nat| in_binade(n, e)
}

/// The word that stands for the count `n`: the binary64 encoding of `n`, with
/// sign zero, biased exponent `1023 + e` and the 52 fraction bits of
/// `n / 2^e - 1`, where `e` is the binary exponent of `n`. Zero has the zero word.
pub open spec fn count_word(n: nat) -> int {
    if n == 0 {
        0
    } else {
        let e = exponent_of(n);
        (1023 + e) * pow2(52) + (n - pow2(e)) * pow2((52 - e) as nat)
    }
}

/// A count lies in one binade only.
pub proof fn lemma_binade_unique(n: nat, e1: nat, e2: nat)
    requires
        in_binade(n, e1),
        in_binade(n, e2),
    ensures
        e1 == e2,
{
    if e1 < e2 {
        if e1 + 1 < e2 {
            lemma_pow2_strictly_increases(e1 + 1, e2);
        }
    } else if e2 < e1 {
        if e2 + 1 < e1 {
            lemma_pow2_strictly_increases(e2 + 1, e1);
        }
    }
}

/// The word that stands for the count `n`.
pub fn word_of_count(n: u64) -> (r: u64)
    requires
        n < EXACT_COUNTS,
    ensures
        r == count_word(n as nat),
{
    if n == 0 {
        return 0;
    }
    proof {
        lemma2_to64();
        lemma2_to64_rest();
    }
    let mut e: u64 = 0;
    let mut p: u64 = 1;
    while p <= n / 2
        invariant
            n < EXACT_COUNTS,
            pow2(52) == 0x10_0000_0000_0000,
            p == pow2(e as nat),
            0 < p <= n,
            e <= 52,
        decreases n - p,
    {
        proof {
            lemma_pow2_unfold((e + 1) as nat);
        }
        p = p * 2;
        e = e + 1;
    }
    proof {
        lemma_pow2_unfold((e + 1) as nat);
        assert(in_binade(n as nat, e as nat));
        let chosen = exponent_of(n as nat);
        lemma_binade_unique(n as nat, e as nat, chosen);
    }
    let mut m: u64 = n - p;
    let mut k: u64 = e;
    proof {
        assert(pow2(0) == 1);
        assert((n - p) * pow2(0) == n - p) by (nonlinear_arith)
            requires
                pow2(0) == 1,
        ;
    }
    while k < 52
        invariant
            e <= k <= 52,
            pow2(53) == 0x20_0000_0000_0000,
            p == pow2(e as nat),
            m == (n - p) * pow2((k - e) as nat),
            0 <= n - p < p,
            m < pow2(k as nat),
        decreases 52 - k,
    {
        proof {
            lemma_pow2_unfold((k + 1 - e) as nat);
            lemma_pow2_unfold((k + 1) as nat);
            lemma_pow2_strictly_increases(k as nat, 53);
            assert((n - p) * (2 * pow2((k - e) as nat)) == 2 * ((n - p) * pow2((k - e) as nat)))
                by (nonlinear_arith);
        }
        m = m * 2;
        k = k + 1;
    }
    proof {
        lemma2_to64_rest();
        assert(pow2(52) == 0x10_0000_0000_0000);
        assert((1023 + e) * pow2(52) <= 1075 * 0x10_0000_0000_0000) by (nonlinear_arith)
            requires
                e <= 52,
                pow2(52) == 0x10_0000_0000_0000,
        ;
    }
    (1023 + e) * 0x10_0000_0000_0000 + m
}

} // verus!
