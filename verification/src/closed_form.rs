//! The value at argument zero: F_m(0) = 1 / (2m + 1).
//!
//! The integral of x^(2m) over [0, 1] is a ratio of integers, so its nearest
//! binary64 number is found by integer division alone: with `2^k` the largest
//! power of two below `d = 2m + 1`, the quotient `2^(53 + k) / d` has exactly
//! fifty-three bits, and rounding it to the nearest integer gives the
//! significand.

use vstd::prelude::*;
use vstd::arithmetic::power2::{pow2, lemma_pow2_pos, lemma_pow2_adds, lemma_pow2_strictly_increases, lemma2_to64, lemma2_to64_rest};
use vstd::arithmetic::div_mod::lemma_fundamental_div_mod;
use crate::binary64::{Binary64, EXPONENT_WEIGHT};
use crate::nearest::scaled_one;

verus! {

/// The bit pattern of the number one.
pub const ONE_BITS: u64 = 0x3FF0_0000_0000_0000;

/// Two to the power 53: one above the largest significand.
const SIGNIFICAND_LIMIT: u64 = 0x0020_0000_0000_0000;

/// The binary64 number nearest to `1 / (2 * order + 1)`.
pub open spec fn zero_argument_spec(order: nat) -> Binary64 {
    choose|r: Binary64| !r.sign_negative() && r.is_nearest_to_ratio(1, 2 * order as int + 1)
}

/// The number one has the bit pattern `ONE_BITS`, and no other number is as
/// near to the ratio 1 / 1.
pub proof fn lemma_one()
    ensures
        (Binary64 { bits: ONE_BITS }).scaled() == scaled_one(),
        (Binary64 { bits: ONE_BITS }).is_nearest_to_ratio(1, 1),
{
    let one = Binary64 { bits: ONE_BITS };
    lemma2_to64();
    lemma2_to64_rest();
    assert(one.exponent_field() == 1023);
    assert(one.fraction_field() == 0);
    lemma_pow2_adds(52, 1022);
    assert(one.magnitude() == pow2(1074));
    assert forall|y: Binary64| y.is_finite() && y.scaled() != one.scaled() implies
        one.error_to_ratio(1, 1) < #[trigger] y.error_to_ratio(1, 1) by {}
}

/// Where `p < d < 2p` and `2^53 * p == d * q + rem` with `0 <= rem < d`, the
/// quotient has fifty-three bits, and so has the quotient rounded up when the
/// remainder is above half of `d`.
proof fn lemma_quotient_bounds(p: int, d: int, q: int, rem: int)
    by (nonlinear_arith)
    requires
        0 < p < d < 2 * p,
        d < 0x2_0000_0000,
        0x0020_0000_0000_0000 * p == d * q + rem,
        0 <= rem < d,
    ensures
        0x0010_0000_0000_0000 <= q < 0x0020_0000_0000_0000,
        2 * rem > d ==> q + 1 < 0x0020_0000_0000_0000,
{
}

/// An error below half of `d`, multiplied by a positive `u`, is below half
/// of `u * d`, and keeps its sign.
proof fn lemma_error_scales(sig: int, u: int, d: int, n: int)
    by (nonlinear_arith)
    requires
        u > 0,
        -d < 2 * (sig * d - n) < d,
    ensures
        -(u * d) < 2 * ((sig * u) * d - u * n) < u * d,
        sig * d <= n ==> (sig * u) * d <= u * n,
{
}

/// The significand of `1 / d` for an odd `d` between `2^k` and `2^(k + 1)`:
/// the quotient `2^(53 + k) / d`, rounded to the nearest integer. An odd `d`
/// leaves no remainder of exactly one half.
spec fn rounded_quotient(d: int, k: nat) -> int {
    let n = SIGNIFICAND_LIMIT * pow2(k);
    if 2 * (n % d) > d {
        n / d + 1
    } else {
        n / d
    }
}

/// The rounded quotient has fifty-three bits.
proof fn lemma_rounded_quotient_bounds(d: int, k: nat)
    requires
        pow2(k) < d < 2 * pow2(k),
        k <= 32,
    ensures
        d < 0x2_0000_0000,
        EXPONENT_WEIGHT <= (SIGNIFICAND_LIMIT * pow2(k)) / d,
        EXPONENT_WEIGHT <= rounded_quotient(d, k) < SIGNIFICAND_LIMIT,
{
    let p = pow2(k) as int;
    let n = SIGNIFICAND_LIMIT * p;
    lemma2_to64();
    lemma_pow2_pos(k);
    if k < 32 {
        lemma_pow2_strictly_increases(k, 32);
    }
    lemma_fundamental_div_mod(n, d);
    lemma_quotient_bounds(p, d, n / d, n % d);
}

/// The number with the significand `rounded_quotient(d, k)` and the power of
/// two `-(53 + k)` is the nearest to `1 / d`.
proof fn lemma_rounded_quotient_is_nearest(d: int, k: nat, r: Binary64)
    requires
        d % 2 == 1,
        pow2(k) < d < 2 * pow2(k),
        k <= 32,
        r.bits == (1022 - k) * EXPONENT_WEIGHT + (rounded_quotient(d, k) - EXPONENT_WEIGHT),
    ensures
        !r.sign_negative(),
        r.is_nearest_to_ratio(1, d),
{
    let n = SIGNIFICAND_LIMIT * pow2(k);
    let q = n / d;
    let rem = n % d;
    let sig = rounded_quotient(d, k);
    lemma_rounded_quotient_bounds(d, k);
    lemma_fundamental_div_mod(n, d);
    assert(r.exponent_field() == 1022 - k);
    assert(r.fraction_field() == sig - EXPONENT_WEIGHT);
    assert(r.significand() == sig);
    let s = r.shift();
    assert(s == 1021 - k);
    // 2^1074 == 2^s * n
    lemma2_to64_rest();
    lemma_pow2_adds(53, k);
    lemma_pow2_adds(s, 53 + k);
    assert(scaled_one() == pow2(s) * n);
    if 2 * rem > d {
        assert(sig * d - n == d - rem) by (nonlinear_arith)
            requires
                n == d * q + rem,
                sig == q + 1,
        ;
    } else {
        assert(sig * d - n == -rem) by (nonlinear_arith)
            requires
                n == d * q + rem,
                sig == q,
        ;
    }
    lemma_pow2_pos(s);
    lemma_error_scales(sig, pow2(s) as int, d, n as int);
    r.lemma_within_half_unit_is_nearest(1, d);
}

/// Every positive integer lies between a power of two and its double.
proof fn lemma_leading_power(d: nat) -> (k: nat)
    requires
        d >= 1,
    ensures
        pow2(k) <= d < 2 * pow2(k),
    decreases d,
{
    lemma2_to64();
    if d == 1 {
        0
    } else {
        let k = lemma_leading_power(d / 2);
        lemma_pow2_adds(1, k);
        k + 1
    }
}

/// For every order there is a nearest number to `1 / (2 * order + 1)`, so
/// `zero_argument_spec` is that number: positive, finite, and nearer to the
/// ratio than every other number.
pub proof fn lemma_zero_argument_is_nearest(order: nat)
    requires
        order <= u32::MAX,
    ensures
        !zero_argument_spec(order).sign_negative(),
        zero_argument_spec(order).is_nearest_to_ratio(1, 2 * order as int + 1),
{
    let d = 2 * order as int + 1;
    if order == 0 {
        lemma_one();
        let one = Binary64 { bits: ONE_BITS };
        assert(!one.sign_negative() && one.is_nearest_to_ratio(1, d));
    } else {
        let k = lemma_leading_power(d as nat);
        lemma2_to64();
        lemma2_to64_rest();
        assert(k <= 32) by {
            if k > 33 {
                lemma_pow2_strictly_increases(33, k);
            }
        }
        assert(pow2(k) != d) by {
            if k > 0 {
                lemma_pow2_adds(1, (k - 1) as nat);
            }
        }
        let sig = rounded_quotient(d, k);
        lemma_rounded_quotient_bounds(d, k);
        let r = Binary64 { bits: ((1022 - k) * EXPONENT_WEIGHT + (sig - EXPONENT_WEIGHT)) as u64 };
        lemma_rounded_quotient_is_nearest(d, k, r);
        assert(!r.sign_negative() && r.is_nearest_to_ratio(1, d));
    }
}

/// The largest power of two that is at most `d`, with its exponent.
fn leading_power(d: u64) -> (r: (u64, u64))
    requires
        1 <= d < 0x2_0000_0000,
    ensures
        r.0 == pow2(r.1 as nat),
        r.0 <= d < 2 * r.0,
        r.1 <= 32,
        r.0 == 1 || r.0 % 2 == 0,
{
    let mut p: u64 = 1;
    let mut k: u64 = 0;
    proof {
        lemma2_to64();
    }
    while 2 * p <= d
        invariant
            p == pow2(k as nat),
            1 <= p <= d,
            d < 0x2_0000_0000,
            k <= 32,
            p == 1 || p % 2 == 0,
        decreases d - p,
    {
        proof {
            lemma_pow2_adds(1, k as nat);
            lemma2_to64();
            if k + 1 > 32 {
                if k + 1 > 33 {
                    lemma_pow2_strictly_increases(33, (k + 1) as nat);
                }
                assert(pow2(33) == 0x2_0000_0000);
                assert(false);
            }
        }
        p = 2 * p;
        k = k + 1;
    }
    (p, k)
}

/// The value of the given order at argument zero: the binary64 number
/// nearest to `1 / (2 * order + 1)`.
pub fn zero_argument_value(order: u32) -> (r: Binary64)
    ensures
        r == zero_argument_spec(order as nat),
        !r.sign_negative(),
        r.is_nearest_to_ratio(1, 2 * order as int + 1),
{
    let d: u64 = 2 * (order as u64) + 1;
    let r = if order == 0 {
        proof {
            lemma_one();
        }
        Binary64 { bits: ONE_BITS }
    } else {
        let (p, k) = leading_power(d);
        let n: u128 = (p as u128) * (SIGNIFICAND_LIMIT as u128);
        let wide_d: u128 = d as u128;
        let q: u128 = n / wide_d;
        let rem: u128 = n % wide_d;
        proof {
            lemma_rounded_quotient_bounds(d as int, k as nat);
        }
        let sig: u64 = if 2 * rem > wide_d {
            (q + 1) as u64
        } else {
            q as u64
        };
        let r = Binary64 { bits: (1022 - k) * EXPONENT_WEIGHT + (sig - EXPONENT_WEIGHT) };
        proof {
            lemma_rounded_quotient_is_nearest(d as int, k as nat, r);
        }
        r
    };
    proof {
        lemma_zero_argument_is_nearest(order as nat);
        r.lemma_nearest_is_unique(zero_argument_spec(order as nat), 1, d as int);
    }
    r
}

} // verus!
