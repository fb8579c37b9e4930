//! Hundredths as IEEE 754 binary64 numbers, in integer arithmetic.

use vstd::arithmetic::power2::{
    lemma2_to64, lemma2_to64_rest, lemma_pow2_pos, lemma_pow2_strictly_increases, lemma_pow2_unfold,
    pow2,
};
use vstd::prelude::*;

verus! {

/// `k` binary places bring `h / 100` to a quotient of 53 bits: one in
/// `[2^52, 2^53)`.
pub open spec fn scales(h: nat, k: nat) -> bool {
    100 * pow2(52) <= h * pow2(k) < 100 * pow2(53)
}

/// The number of binary places that bring `h / 100` to a quotient of 53 bits.
pub open spec fn scale_of(h: nat) -> nat {
    choose|k: nat| scales(h, k)
}

/// The integer nearest to `n / d`, the even one of two that are equally near.
pub open spec fn nearest_even(n: nat, d: nat) -> nat {
    let q = n / d;
    let r = n % d;
    if 2 * r > d || (2 * r == d && q % 2 == 1) {
        q + 1
    } else {
        q
    }
}

/// The bit pattern of the binary64 number nearest to `h / 100`: for `h > 0`
/// the significand `m`, the nearest integer to `h * 2^k / 100`, without its
/// leading bit, under the biased exponent `1075 - k`.
pub open spec fn binary64_of_hundredths(h: nat) -> nat {
    if h == 0 {
        0
    } else {
        let k = scale_of(h);
        let m = nearest_even(h * pow2(k), 100);
        ((1075 - k) * pow2(52) + (m - pow2(52))) as nat
    }
}

/// One number of places at most brings `h / 100` to a quotient of 53 bits.
pub proof fn lemma_scale_unique(h: nat, k1: nat, k2: nat)
    requires
        scales(h, k1),
        scales(h, k2),
    ensures
        k1 == k2,
{
    lemma_pow2_unfold(53);
    if k1 < k2 {
        lemma_scale_grows(h, k1, k2);
    } else if k2 < k1 {
        lemma_scale_grows(h, k2, k1);
    }
}

proof fn lemma_scale_grows(h: nat, low: nat, high: nat)
    requires
        low < high,
    ensures
        h * pow2(high) >= 2 * (h * pow2(low)),
{
    lemma_pow2_unfold((low + 1) as nat);
    if low + 1 < high {
        lemma_pow2_strictly_increases((low + 1) as nat, high);
    }
    assert(pow2(high) >= 2 * pow2(low));
    assert(h * pow2(high) >= h * (2 * pow2(low))) by (nonlinear_arith)
        requires
            pow2(high) >= 2 * pow2(low),
    ;
    assert(h * (2 * pow2(low)) == 2 * (h * pow2(low))) by (nonlinear_arith);
}

/// The significand of a positive number of hundredths has 53 bits, or is
/// `2^53` after rounding up, and lies within half a unit of the scaled
/// quotient.
pub proof fn lemma_significand_nearest(h: nat, k: nat)
    requires
        scales(h, k),
    ensures
        pow2(52) <= nearest_even(h * pow2(k), 100) <= pow2(53),
        -100 <= 2 * (100 * nearest_even(h * pow2(k), 100) - h * pow2(k)) <= 100,
{
    let n = h * pow2(k);
    let q = n / 100;
    let r = n % 100;
    assert(n == 100 * q + r && 0 <= r < 100) by (nonlinear_arith)
        requires
            q == n / 100,
            r == n % 100,
    ;
    assert(pow2(52) <= q < pow2(53)) by (nonlinear_arith)
        requires
            100 * pow2(52) <= n < 100 * pow2(53),
            n == 100 * q + r,
            0 <= r < 100,
    ;
}

/// Rounding to the nearest integer keeps the order of the numerators.
pub proof fn lemma_nearest_even_ordered(a: nat, b: nat)
    requires
        a <= b,
    ensures
        nearest_even(a, 100) <= nearest_even(b, 100),
{
    let qa = a / 100;
    let ra = a % 100;
    let qb = b / 100;
    let rb = b % 100;
    assert(a == 100 * qa + ra && 0 <= ra < 100) by (nonlinear_arith)
        requires
            qa == a / 100,
            ra == a % 100,
    ;
    assert(b == 100 * qb + rb && 0 <= rb < 100) by (nonlinear_arith)
        requires
            qb == b / 100,
            rb == b % 100,
    ;
}

/// At most 9999 hundredths give at most the bit pattern of 99.99, which is
/// that of 9999 hundredths.
pub proof fn lemma_hundredths_bound(h: nat)
    requires
        h <= 9999,
    ensures
        binary64_of_hundredths(h) <= 0x4058_FF5C_28F5_C28F,
        binary64_of_hundredths(9999) == 0x4058_FF5C_28F5_C28F,
{
    lemma2_to64_rest();
    let top: nat = 9999 * pow2(46);
    assert(scales(9999, 46));
    lemma_scale_unique(9999, 46, scale_of(9999));
    assert(top == 703_617_073_032_462_336);
    assert(nearest_even(top, 100) == 7_036_170_730_324_623);
    if h > 0 {
        let k = scale_of(h);
        let m = nearest_even(h * pow2(k), 100);
        lemma_scale_exists(h);
        lemma_significand_nearest(h, k);
        if k < 46 {
            lemma_scale_grows(h, k, 46);
            assert(h * pow2(46) <= 9999 * pow2(46)) by (nonlinear_arith)
                requires
                    h <= 9999,
            ;
        } else if k == 46 {
            assert(h * pow2(46) <= 9999 * pow2(46)) by (nonlinear_arith)
                requires
                    h <= 9999,
            ;
            lemma_nearest_even_ordered(h * pow2(46), top);
        } else {
            assert((1075 - k) * pow2(52) <= 1028 * pow2(52)) by (nonlinear_arith)
                requires
                    k >= 47,
            ;
        }
    }
}

/// Some number of places brings a positive `h / 100` below `2^52` to a
/// quotient of 53 bits.
pub proof fn lemma_scale_exists(h: nat)
    requires
        0 < h < 100 * pow2(52),
    ensures
        scales(h, scale_of(h)),
        scale_of(h) <= 59,
{
    lemma2_to64_rest();
    lemma2_to64();
    let k = lemma_scale_search(h, h, 0);
    lemma_scale_unique(h, k, scale_of(h));
}

proof fn lemma_scale_search(h: nat, n: nat, k: nat) -> (found: nat)
    requires
        0 < h,
        n == h * pow2(k),
        n < 100 * pow2(53),
        pow2(k) <= n,
    ensures
        scales(h, found),
        found <= 59,
    decreases 100 * pow2(53) - n,
{
    lemma2_to64_rest();
    lemma_pow2_pos(k);
    if k >= 60 {
        if k > 60 {
            lemma_pow2_strictly_increases(60, k);
        }
    }
    if n >= 100 * pow2(52) {
        k
    } else {
        lemma_pow2_unfold(k + 1);
        assert(h * (2 * pow2(k)) == 2 * (h * pow2(k))) by (nonlinear_arith);
        assert(h * pow2(k + 1) >= pow2(k + 1)) by (nonlinear_arith)
            requires
                h >= 1,
        ;
        lemma_scale_search(h, 2 * n, k + 1)
    }
}

/// The bit pattern of the binary64 number nearest to `h / 100`.
pub fn hundredths_to_binary64(h: u32) -> (bits: u64)
    ensures
        bits == binary64_of_hundredths(h as nat),
{
    if h == 0 {
        return 0;
    }
    proof {
        lemma2_to64_rest();
        assert(pow2(0) == 1) by {
            lemma2_to64();
        }
    }
    let mut n: u64 = h as u64;
    let mut k: u64 = 0;
    while n < 450_359_962_737_049_600
        invariant
            n == h * pow2(k as nat),
            0 < n < 900_719_925_474_099_200,
            k <= 60,
            pow2(52) == 0x10000000000000,
            pow2(53) == 0x20000000000000,
            pow2(60) == 0x1000000000000000,
        decreases 900_719_925_474_099_200 - n,
    {
        proof {
            lemma_pow2_unfold((k + 1) as nat);
            assert(h * (2 * pow2(k as nat)) == 2 * (h * pow2(k as nat))) by (nonlinear_arith);
            if k >= 60 {
                if k > 60 {
                    lemma_pow2_strictly_increases(60, k as nat);
                }
                assert(h * pow2(k as nat) >= pow2(k as nat)) by (nonlinear_arith)
                    requires
                        h >= 1,
                ;
            }
        }
        n = 2 * n;
        k = k + 1;
    }
    proof {
        assert(scales(h as nat, k as nat));
        lemma_scale_unique(h as nat, k as nat, scale_of(h as nat));
        lemma_significand_nearest(h as nat, k as nat);
    }
    let q: u64 = n / 100;
    let r: u64 = n % 100;
    let m: u64 = if r > 50 || (r == 50 && q % 2 == 1) {
        q + 1
    } else {
        q
    };
    assert(m == nearest_even(n as nat, 100));
    (1075 - k) * 0x10000000000000 + (m - 0x10000000000000)
}

} // verus!
