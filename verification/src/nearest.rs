//! Which binary64 number lies nearest to a given ratio of integers.

use vstd::prelude::*;
use vstd::arithmetic::power2::{pow2, lemma_pow2_pos, lemma_pow2_adds, lemma_pow2_strictly_increases};
use crate::binary64::{Binary64, EXPONENT_WEIGHT};

verus! {

/// The integer model of the number one: 2^1074.
pub open spec fn scaled_one() -> nat {
    pow2(1074)
}

impl Binary64 {
    /// The distance from this number to the ratio `num / den`, multiplied by
    /// `2^1074 * den`. It is meant for a positive `den`.
    pub open spec fn error_to_ratio(self, num: int, den: int) -> int {
        let e = self.scaled() * den - num * scaled_one();
        if e < 0 {
            -e
        } else {
            e
        }
    }

    /// This finite number lies nearer to `num / den` than every finite number
    /// of another value.
    pub open spec fn is_nearest_to_ratio(self, num: int, den: int) -> bool {
        &&& self.is_finite()
        &&& forall|y: Binary64|
            y.is_finite() && y.scaled() != self.scaled() ==> self.error_to_ratio(num, den)
                < #[trigger] y.error_to_ratio(num, den)
    }

    /// Two numbers of one sign that are both nearest to a ratio are the same
    /// number.
    pub proof fn lemma_nearest_is_unique(self, other: Binary64, num: int, den: int)
        requires
            self.is_nearest_to_ratio(num, den),
            other.is_nearest_to_ratio(num, den),
            self.sign_negative() == other.sign_negative(),
        ensures
            self == other,
    {
        if self.scaled() != other.scaled() {
            assert(self.error_to_ratio(num, den) < other.error_to_ratio(num, den));
            assert(other.error_to_ratio(num, den) < self.error_to_ratio(num, den));
        }
        self.lemma_magnitude_order(other);
    }

    /// A number whose power of two is at least `2^s` has a magnitude that is
    /// a whole multiple of `2^s`.
    proof fn lemma_magnitude_is_multiple(self, s: nat) -> (k: nat)
        requires
            s <= self.shift(),
        ensures
            self.magnitude() == k * pow2(s),
    {
        let rest = (self.shift() - s) as nat;
        lemma_pow2_adds(rest, s);
        let k = self.significand() * pow2(rest);
        assert(self.significand() * (pow2(rest) * pow2(s)) == (self.significand() * pow2(rest))
            * pow2(s)) by (nonlinear_arith);
        k
    }

    /// A number whose power of two is below that of `self` has a magnitude
    /// of at most `2^52 * 2^shift`, the least magnitude `self` can have.
    proof fn lemma_lower_power_lies_below(self, y: Binary64)
        requires
            !self.is_nan(),
            !y.is_nan(),
            y.shift() < self.shift(),
        ensures
            y.magnitude() < EXPONENT_WEIGHT * pow2(self.shift()),
            EXPONENT_WEIGHT * pow2(self.shift()) <= self.magnitude(),
    {
        self.lemma_magnitude_bounds();
        y.lemma_magnitude_bounds();
        let sy = y.shift();
        let s = self.shift();
        lemma_pow2_adds(1, sy);
        vstd::arithmetic::power2::lemma2_to64();
        if sy + 1 < s {
            lemma_pow2_strictly_increases(sy + 1, s);
        }
        let w = EXPONENT_WEIGHT as int;
        assert(2 * w * pow2(sy) <= w * pow2(s)) by (nonlinear_arith)
            requires
                2 * pow2(sy) <= pow2(s),
                w > 0,
        ;
    }

    /// Above a number, the next number is one unit in the last place away.
    pub proof fn lemma_gap_above(self, y: Binary64)
        requires
            !self.is_nan(),
            !y.is_nan(),
            self.magnitude() < y.magnitude(),
        ensures
            self.magnitude() + pow2(self.shift()) <= y.magnitude(),
    {
        let s = self.shift();
        lemma_pow2_pos(s);
        if y.shift() < s {
            self.lemma_lower_power_lies_below(y);
        } else {
            let k = y.lemma_magnitude_is_multiple(s);
            let u = pow2(s) as int;
            let j = self.significand() as int;
            assert(j * u + u <= k * u) by (nonlinear_arith)
                requires
                    j * u < k * u,
                    u > 0,
            ;
        }
    }

    /// Below a number that is not the least of its power of two, the next
    /// number is one unit in the last place away.
    pub proof fn lemma_gap_below(self, y: Binary64)
        requires
            !self.is_nan(),
            !y.is_nan(),
            y.magnitude() < self.magnitude(),
            self.fraction_field() > 0,
        ensures
            y.magnitude() + pow2(self.shift()) <= self.magnitude(),
    {
        let s = self.shift();
        lemma_pow2_pos(s);
        let u = pow2(s) as int;
        let j = self.significand() as int;
        if y.shift() < s {
            self.lemma_lower_power_lies_below(y);
            let w = EXPONENT_WEIGHT as int;
            assert(w * u + u <= j * u) by (nonlinear_arith)
                requires
                    w + 1 <= j,
                    u > 0,
            ;
        } else {
            let k = y.lemma_magnitude_is_multiple(s);
            assert(k * u + u <= j * u) by (nonlinear_arith)
                requires
                    k * u < j * u,
                    u > 0,
            ;
        }
    }

    /// A positive normal number that lies within half a unit in the last
    /// place of a ratio is the nearest number to it. Where the number is the
    /// least of its power of two, the numbers below it are more closely
    /// spaced, so there the ratio must not lie below the number.
    pub proof fn lemma_within_half_unit_is_nearest(self, num: int, den: int)
        requires
            self.is_finite(),
            !self.sign_negative(),
            self.exponent_field() >= 1,
            den > 0,
            2 * self.error_to_ratio(num, den) < pow2(self.shift()) * den,
            self.fraction_field() > 0 || self.scaled() * den <= num * scaled_one(),
        ensures
            self.is_nearest_to_ratio(num, den),
    {
        let u = pow2(self.shift()) as int;
        let r = self.scaled();
        let target = num * scaled_one();
        lemma_pow2_pos(self.shift());
        self.lemma_magnitude_bounds();
        assert(r >= u) by (nonlinear_arith)
            requires
                r >= EXPONENT_WEIGHT * u,
                u > 0,
        ;
        assert forall|y: Binary64| y.is_finite() && y.scaled() != self.scaled() implies
            self.error_to_ratio(num, den) < #[trigger] y.error_to_ratio(num, den) by {
            let v = y.scaled();
            if v > r {
                self.lemma_gap_above(y);
                assert(v * den >= r * den + u * den) by (nonlinear_arith)
                    requires
                        v >= r + u,
                        den > 0,
                ;
            } else if r * den <= target {
                assert(v * den < r * den) by (nonlinear_arith)
                    requires
                        v < r,
                        den > 0,
                ;
            } else {
                if v > 0 {
                    self.lemma_gap_below(y);
                }
                assert(v * den + u * den <= r * den) by (nonlinear_arith)
                    requires
                        v + u <= r,
                        den > 0,
                ;
            }
        }
    }
}

} // verus!
