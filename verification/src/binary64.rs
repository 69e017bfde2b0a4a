//! IEEE 754 binary64 numbers, held by their bit pattern.
//!
//! A bit pattern has a sign bit, eleven exponent bits and fifty-two fraction
//! bits. Every finite binary64 number is a whole multiple of 2^-1074, so the
//! model of a number is that multiple, a mathematical integer: see
//! [`Binary64::scaled`]. Order and equality of numbers are order and equality
//! of these integers.

use vstd::prelude::*;
use vstd::arithmetic::power2::{pow2, lemma_pow2_pos, lemma_pow2_adds, lemma_pow2_strictly_increases, lemma2_to64};
use vstd::arithmetic::mul::{lemma_mul_strict_inequality, lemma_mul_inequality};

verus! {

/// Two to the power 63: the weight of the sign bit.
pub const SIGN_WEIGHT: u64 = 0x8000_0000_0000_0000;

/// Two to the power 52: the weight of the lowest exponent bit.
pub const EXPONENT_WEIGHT: u64 = 0x0010_0000_0000_0000;

/// The bit pattern of positive infinity. Larger magnitudes are not numbers.
pub const INFINITY_BITS: u64 = 0x7FF0_0000_0000_0000;

/// A binary64 number, held by its bit pattern.
///
/// `==` on this type compares bit patterns: it tells the two zeros apart and
/// finds a value that is not a number equal to itself. The order of values
/// is [`Binary64::lt`].
#[derive(Clone, Copy, Debug, PartialEq, Eq, Structural)]
pub struct Binary64 {
    pub bits: u64,
}

impl Binary64 {
    /// Whether the sign bit is set.
    pub open spec fn sign_negative(self) -> bool {
        self.bits >= SIGN_WEIGHT
    }

    /// The bit pattern without its sign bit.
    pub open spec fn magnitude_bits(self) -> u64 {
        if self.bits >= SIGN_WEIGHT {
            (self.bits - SIGN_WEIGHT) as u64
        } else {
            self.bits
        }
    }

    /// The eleven exponent bits, as a number.
    pub open spec fn exponent_field(self) -> nat {
        (self.magnitude_bits() / EXPONENT_WEIGHT) as nat
    }

    /// The fifty-two fraction bits, as a number.
    pub open spec fn fraction_field(self) -> nat {
        (self.magnitude_bits() % EXPONENT_WEIGHT) as nat
    }

    /// Not a number: the exponent field is all ones and the fraction is not zero.
    pub open spec fn is_nan(self) -> bool {
        self.magnitude_bits() > INFINITY_BITS
    }

    /// Zero, subnormal or normal: neither an infinity nor not a number.
    pub open spec fn is_finite(self) -> bool {
        self.magnitude_bits() < INFINITY_BITS
    }

    /// The significand as an integer: the fraction alone for a subnormal
    /// number, the fraction under a leading one otherwise.
    pub open spec fn significand(self) -> nat {
        if self.exponent_field() == 0 {
            self.fraction_field()
        } else {
            EXPONENT_WEIGHT as nat + self.fraction_field()
        }
    }

    /// The power of two that the significand is multiplied by, counted from
    /// 2^-1074, the smallest positive number.
    pub open spec fn shift(self) -> nat {
        if self.exponent_field() == 0 {
            0
        } else {
            (self.exponent_field() - 1) as nat
        }
    }

    /// The absolute value, multiplied by 2^1074.
    ///
    /// For an infinity the same formula gives 2^2098, which lies above the
    /// magnitude of every finite number, so the order of the integers is the
    /// order of the numbers there too. For what is not a number the result
    /// has no meaning.
    pub open spec fn magnitude(self) -> nat {
        self.significand() * pow2(self.shift())
    }

    /// The value, multiplied by 2^1074. Both zeros have the model 0.
    pub open spec fn scaled(self) -> int {
        if self.sign_negative() {
            -(self.magnitude() as int)
        } else {
            self.magnitude() as int
        }
    }

    /// `self < other` as IEEE 754 defines it: false when either side is not a
    /// number, else the order of the values.
    pub open spec fn lt_spec(self, other: Binary64) -> bool {
        &&& !self.is_nan()
        &&& !other.is_nan()
        &&& self.scaled() < other.scaled()
    }

    /// `self <= other` as IEEE 754 defines it.
    pub open spec fn le_spec(self, other: Binary64) -> bool {
        &&& !self.is_nan()
        &&& !other.is_nan()
        &&& self.scaled() <= other.scaled()
    }

    /// The magnitude of a number lies below `2^53 * 2^shift`, and from the
    /// first normal number on it is at least `2^52 * 2^shift`.
    pub proof fn lemma_magnitude_bounds(self)
        requires
            !self.is_nan(),
        ensures
            self.exponent_field() <= 2047,
            self.fraction_field() < EXPONENT_WEIGHT,
            self.magnitude_bits() == self.exponent_field() * EXPONENT_WEIGHT + self.fraction_field(),
            self.magnitude() < 2 * EXPONENT_WEIGHT * pow2(self.shift()),
            self.exponent_field() > 0 ==> self.magnitude() >= EXPONENT_WEIGHT * pow2(self.shift()),
            self.exponent_field() == 0 ==> self.magnitude() == self.fraction_field(),
    {
        let s = self.shift();
        let sig = self.significand();
        lemma_pow2_pos(s);
        lemma2_to64();
        assert(pow2(0) == 1);
        assert(sig < 2 * EXPONENT_WEIGHT);
        lemma_mul_strict_inequality(sig as int, 2 * EXPONENT_WEIGHT as int, pow2(s) as int);
        if self.exponent_field() > 0 {
            lemma_mul_inequality(EXPONENT_WEIGHT as int, sig as int, pow2(s) as int);
        } else {
            assert(sig * 1 == sig);
        }
    }

    /// The encoding keeps order: among numbers, a larger bit pattern (sign
    /// bit aside) is a larger magnitude, and equal magnitudes have equal bit
    /// patterns.
    pub proof fn lemma_magnitude_order(self, other: Binary64)
        requires
            !self.is_nan(),
            !other.is_nan(),
        ensures
            self.magnitude_bits() < other.magnitude_bits() <==> self.magnitude() < other.magnitude(),
            self.magnitude_bits() == other.magnitude_bits() <==> self.magnitude() == other.magnitude(),
    {
        if self.magnitude_bits() < other.magnitude_bits() {
            Self::lemma_magnitude_increases(self, other);
        } else if other.magnitude_bits() < self.magnitude_bits() {
            Self::lemma_magnitude_increases(other, self);
        }
    }

    proof fn lemma_magnitude_increases(low: Binary64, high: Binary64)
        requires
            !low.is_nan(),
            !high.is_nan(),
            low.magnitude_bits() < high.magnitude_bits(),
        ensures
            low.magnitude() < high.magnitude(),
    {
        low.lemma_magnitude_bounds();
        high.lemma_magnitude_bounds();
        let el = low.exponent_field();
        let eh = high.exponent_field();
        if el == eh {
            assert(low.fraction_field() < high.fraction_field());
            lemma_pow2_pos(low.shift());
            lemma_mul_strict_inequality(
                low.significand() as int,
                high.significand() as int,
                pow2(low.shift()) as int,
            );
        } else {
            assert(el < eh) by {
                if el > eh {
                    assert(el * EXPONENT_WEIGHT >= (eh + 1) * EXPONENT_WEIGHT) by (nonlinear_arith)
                        requires
                            el >= eh + 1,
                    ;
                }
            }
            let w = EXPONENT_WEIGHT as int;
            if el == 0 {
                lemma_pow2_pos(high.shift());
                assert(w * pow2(high.shift()) >= w) by (nonlinear_arith)
                    requires
                        pow2(high.shift()) >= 1,
                        w > 0,
                ;
            } else {
                // 2^53 * 2^(el - 1) == 2^52 * 2^el <= 2^52 * 2^(eh - 1)
                let sl = low.shift();
                let sh = high.shift();
                assert(sl + 1 <= sh);
                lemma_pow2_adds(1, sl);
                lemma2_to64();
                assert(pow2(sl + 1) == 2 * pow2(sl));
                if sl + 1 < sh {
                    lemma_pow2_strictly_increases(sl + 1, sh);
                }
                assert(pow2(sl + 1) <= pow2(sh));
                assert(2 * w * pow2(sl) <= w * pow2(sh)) by (nonlinear_arith)
                    requires
                        2 * pow2(sl) <= pow2(sh),
                        w > 0,
                ;
            }
        }
    }

    /// The sign of the model, read from the bit pattern: zero is the bit
    /// pattern without magnitude, and the sign bit tells the rest.
    pub proof fn lemma_sign(self)
        requires
            !self.is_nan(),
        ensures
            self.scaled() == 0 <==> self.magnitude_bits() == 0,
            self.scaled() > 0 <==> !self.sign_negative() && self.magnitude_bits() != 0,
            self.scaled() < 0 <==> self.sign_negative() && self.magnitude_bits() != 0,
    {
        let zero = Binary64 { bits: 0 };
        zero.lemma_magnitude_bounds();
        self.lemma_magnitude_order(zero);
    }

    /// The number with the given bit pattern.
    pub fn from_bits(bits: u64) -> (r: Binary64)
        ensures
            r.bits == bits,
    {
        Binary64 { bits }
    }

    /// The bit pattern.
    pub fn to_bits(self) -> (r: u64)
        ensures
            r == self.bits,
    {
        self.bits
    }

    fn abs_bits(self) -> (r: u64)
        ensures
            r == self.magnitude_bits(),
    {
        if self.bits >= SIGN_WEIGHT {
            self.bits - SIGN_WEIGHT
        } else {
            self.bits
        }
    }

    /// Whether the sign bit is set. True of negative zero as well.
    pub fn is_sign_negative(self) -> (r: bool)
        ensures
            r == self.sign_negative(),
    {
        self.bits >= SIGN_WEIGHT
    }

    /// Whether this is not a number.
    pub fn is_not_a_number(self) -> (r: bool)
        ensures
            r == self.is_nan(),
    {
        self.abs_bits() > INFINITY_BITS
    }

    /// Whether this is a number below zero.
    pub fn is_negative(self) -> (r: bool)
        ensures
            r == (!self.is_nan() && self.scaled() < 0),
    {
        let a = self.abs_bits();
        proof {
            if !self.is_nan() {
                self.lemma_sign();
            }
        }
        self.bits >= SIGN_WEIGHT && a <= INFINITY_BITS && a != 0
    }

    /// Whether this is a number above zero.
    pub fn is_positive(self) -> (r: bool)
        ensures
            r == (!self.is_nan() && self.scaled() > 0),
    {
        proof {
            if !self.is_nan() {
                self.lemma_sign();
            }
        }
        self.bits < SIGN_WEIGHT && self.bits <= INFINITY_BITS && self.bits != 0
    }

    /// `self < other`, as IEEE 754 defines it.
    pub fn lt(self, other: Binary64) -> (r: bool)
        ensures
            r == self.lt_spec(other),
    {
        let a = self.abs_bits();
        let b = other.abs_bits();
        if a > INFINITY_BITS || b > INFINITY_BITS {
            return false;
        }
        proof {
            self.lemma_magnitude_order(other);
            self.lemma_sign();
            other.lemma_sign();
        }
        let self_negative = self.bits >= SIGN_WEIGHT;
        let other_negative = other.bits >= SIGN_WEIGHT;
        if self_negative {
            if other_negative {
                b < a
            } else {
                a != 0 || b != 0
            }
        } else {
            if other_negative {
                false
            } else {
                a < b
            }
        }
    }
}

} // verus!
