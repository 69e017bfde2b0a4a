//! The Boys evaluator: which way a value F_m(t) is obtained.
//!
//! For an order `m` and an argument `t` the evaluator checks the domain and
//! then picks exactly one of three ways, by the argument alone:
//!
//! * below 10^-14 the argument counts as zero and the value is the closed
//!   form 1 / (2m + 1), which the evaluator gives itself;
//! * below 117 the value is the sum of a power series in `t`;
//! * from 117 on it is reached by the upward recurrence in `m`, seeded by
//!   the error function.
//!
//! The series and the recurrence are floating-point work and are left to the
//! caller: the evaluator names the one to run and the order to run it for.
//! When a series ends is ruled in [`crate::series`].

use vstd::prelude::*;
use vstd::arithmetic::power2::{pow2, lemma_pow2_pos, lemma_pow2_adds, lemma2_to64, lemma2_to64_rest};
use crate::binary64::Binary64;
use crate::nearest::scaled_one;
use crate::closed_form::{zero_argument_spec, zero_argument_value, lemma_zero_argument_is_nearest};

verus! {

/// The bit pattern of 117, the argument from which the recurrence is used.
pub const THRESHOLD_BITS: u64 = 0x405D_4000_0000_0000;

/// The bit pattern of the binary64 number nearest to 10^-14. Arguments below
/// it count as zero.
pub const NEAR_ZERO_BITS: u64 = 0x3D06_849B_86A1_2B9B;

/// The bit pattern of the binary64 number nearest to 10^-10, the tolerance
/// of an evaluator that was given none.
pub const DEFAULT_EPSILON_BITS: u64 = 0x3DDB_7CDF_D9D7_BDBB;

/// The argument from which the recurrence is used.
pub open spec fn threshold() -> Binary64 {
    Binary64 { bits: THRESHOLD_BITS }
}

/// The argument below which the closed form at zero is used.
pub open spec fn near_zero() -> Binary64 {
    Binary64 { bits: NEAR_ZERO_BITS }
}

/// The tolerance of an evaluator that was given none.
pub open spec fn default_epsilon() -> Binary64 {
    Binary64 { bits: DEFAULT_EPSILON_BITS }
}

/// Why an order and an argument are refused.
#[derive(Clone, Copy, Debug, PartialEq, Eq, Structural)]
pub enum DomainError {
    /// The order is below zero.
    NegativeOrder,
    /// The argument is not a number.
    ArgumentNotANumber,
    /// The argument is below zero.
    NegativeArgument,
}

/// Why a tolerance is refused.
#[derive(Clone, Copy, Debug, PartialEq, Eq, Structural)]
pub enum ToleranceError {
    /// The tolerance is not a number.
    NotANumber,
    /// The tolerance is zero or below: the series would never end.
    NotPositive,
}

/// How one value F_m(t) is obtained.
#[derive(Clone, Copy, Debug, PartialEq, Eq, Structural)]
pub enum Evaluation {
    /// The value itself: the argument counts as zero, and this is the number
    /// nearest to 1 / (2m + 1).
    Exact(Binary64),
    /// The value is the sum of the series for this order, ended at this
    /// tolerance.
    Series { order: u32, tolerance: Binary64 },
    /// The value is the last of the upward recurrence from order zero to
    /// this order.
    Recurrence { order: u32 },
}

/// How the values F_0(t) ... F_mmax(t) are obtained.
#[derive(Debug, PartialEq, Eq)]
pub enum ArrayEvaluation {
    /// The values themselves, by order: the argument counts as zero.
    Exact(Vec<Binary64>),
    /// One series for each order from zero to `max_order`, each ended at
    /// this tolerance.
    Series { max_order: u32, tolerance: Binary64 },
    /// One pass of the upward recurrence from order zero to `max_order`.
    Recurrence { max_order: u32 },
}

impl ArrayEvaluation {
    /// The number of values.
    pub open spec fn len(&self) -> nat {
        match self {
            ArrayEvaluation::Exact(values) => values@.len(),
            ArrayEvaluation::Series { max_order, .. } => (max_order + 1) as nat,
            ArrayEvaluation::Recurrence { max_order } => (max_order + 1) as nat,
        }
    }

    /// How the value of one order is obtained; `None` beyond the last order.
    pub open spec fn entry_spec(&self, order: nat) -> Option<Evaluation> {
        if order >= self.len() {
            None
        } else {
            Some(
                match self {
                    ArrayEvaluation::Exact(values) => Evaluation::Exact(values@[order as int]),
                    ArrayEvaluation::Series { tolerance, .. } => Evaluation::Series {
                        order: order as u32,
                        tolerance: *tolerance,
                    },
                    ArrayEvaluation::Recurrence { .. } => Evaluation::Recurrence {
                        order: order as u32,
                    },
                },
            )
        }
    }

    /// How the value of one order is obtained; `None` beyond the last order.
    pub fn entry(&self, order: u32) -> (r: Option<Evaluation>)
        ensures
            r == self.entry_spec(order as nat),
    {
        match self {
            ArrayEvaluation::Exact(values) => {
                if (order as usize) < values.len() {
                    Some(Evaluation::Exact(values[order as usize]))
                } else {
                    None
                }
            },
            ArrayEvaluation::Series { max_order, tolerance } => {
                if order <= *max_order {
                    Some(Evaluation::Series { order, tolerance: *tolerance })
                } else {
                    None
                }
            },
            ArrayEvaluation::Recurrence { max_order } => {
                if order <= *max_order {
                    Some(Evaluation::Recurrence { order })
                } else {
                    None
                }
            },
        }
    }
}

/// What `BoysFunction::new` makes of the tolerance it is given: the
/// tolerance of the evaluator, or why there is none.
pub open spec fn tolerance_spec(epsilon: Option<Binary64>) -> Result<Binary64, ToleranceError> {
    match epsilon {
        None => Ok(default_epsilon()),
        Some(e) => if e.is_nan() {
            Err(ToleranceError::NotANumber)
        } else if e.scaled() <= 0 {
            Err(ToleranceError::NotPositive)
        } else {
            Ok(e)
        },
    }
}

/// The threshold is the number 117.
pub proof fn lemma_threshold()
    ensures
        threshold().is_finite(),
        threshold().scaled() == 117 * scaled_one(),
{
    let x = threshold();
    lemma2_to64();
    lemma2_to64_rest();
    assert(x.exponent_field() == 1029);
    assert(x.fraction_field() == 0xD_4000_0000_0000);
    // the significand is 117 * 2^46
    assert(x.significand() == 117 * pow2(46));
    lemma_pow2_adds(46, 1028);
    assert(117 * pow2(46) * pow2(1028) == 117 * (pow2(46) * pow2(1028))) by (nonlinear_arith);
}

/// A number with the significand `sig` and the power of two `2^(s - 1074)`
/// is the nearest to `1 / den` when `sig * den` misses `2^(1074 - s)` by
/// less than half of `den`.
proof fn lemma_nearest_to_unit_fraction(x: Binary64, sig: int, s: nat, den: int)
    requires
        x.is_finite(),
        !x.sign_negative(),
        x.exponent_field() >= 1,
        x.fraction_field() > 0,
        x.significand() == sig,
        x.shift() == s,
        s <= 1074,
        den > 0,
        -den < 2 * (sig * den - pow2((1074 - s) as nat)) < den,
    ensures
        x.is_nearest_to_ratio(1, den),
        x.scaled() > 0,
{
    let u = pow2(s) as int;
    let n = pow2((1074 - s) as nat) as int;
    lemma_pow2_pos(s);
    lemma_pow2_adds(s, (1074 - s) as nat);
    assert(-(u * den) < 2 * ((sig * u) * den - u * n) < u * den) by (nonlinear_arith)
        requires
            u > 0,
            -den < 2 * (sig * den - n) < den,
    ;
    x.lemma_within_half_unit_is_nearest(1, den);
    x.lemma_sign();
}

/// The argument below which the closed form is used is the binary64 number
/// nearest to 10^-14.
pub proof fn lemma_near_zero()
    ensures
        near_zero().is_nearest_to_ratio(1, 100_000_000_000_000),
        near_zero().scaled() > 0,
{
    let x = near_zero();
    lemma2_to64();
    lemma2_to64_rest();
    assert(x.exponent_field() == 976);
    assert(x.fraction_field() == 0x6_849B_86A1_2B9B);
    lemma_pow2_adds(64, 35);
    assert(pow2(99) == 0x8_0000_0000_0000_0000_0000_0000);
    lemma_nearest_to_unit_fraction(x, 6338253001141147, 975, 100_000_000_000_000);
}

/// The default tolerance is the binary64 number nearest to 10^-10.
pub proof fn lemma_default_epsilon()
    ensures
        default_epsilon().is_nearest_to_ratio(1, 10_000_000_000),
        default_epsilon().scaled() > 0,
{
    let x = default_epsilon();
    lemma2_to64();
    lemma2_to64_rest();
    assert(x.exponent_field() == 989);
    assert(x.fraction_field() == 0xB_7CDF_D9D7_BDBB);
    lemma_pow2_adds(64, 22);
    assert(pow2(86) == 0x40_0000_0000_0000_0000_0000);
    lemma_nearest_to_unit_fraction(x, 7737125245533627, 988, 10_000_000_000);
}

/// The Boys evaluator. It holds one setting, the tolerance at which the
/// series ends, which is a number above zero and never changes.
#[derive(Clone, Copy, Debug)]
pub struct BoysFunction {
    epsilon: Binary64,
}

impl BoysFunction {
    #[verifier::type_invariant]
    spec fn tolerance_is_positive(self) -> bool {
        !self.epsilon.is_nan() && self.epsilon.scaled() > 0
    }

    /// The tolerance at which the series ends.
    pub closed spec fn tolerance(self) -> Binary64 {
        self.epsilon
    }

    /// What `eval` returns for an order and an argument.
    ///
    /// An order below zero is refused first, then an argument that is not a
    /// number, then an argument below zero. Negative zero is zero. Positive
    /// infinity is not below the threshold, so it goes to the recurrence.
    pub open spec fn eval_spec(self, m: i32, t: Binary64) -> Result<Evaluation, DomainError> {
        if m < 0 {
            Err(DomainError::NegativeOrder)
        } else if t.is_nan() {
            Err(DomainError::ArgumentNotANumber)
        } else if t.scaled() < 0 {
            Err(DomainError::NegativeArgument)
        } else if t.scaled() < near_zero().scaled() {
            Ok(Evaluation::Exact(zero_argument_spec(m as nat)))
        } else if t.scaled() < threshold().scaled() {
            Ok(Evaluation::Series { order: m as u32, tolerance: self.tolerance() })
        } else {
            Ok(Evaluation::Recurrence { order: m as u32 })
        }
    }

    /// What `eval_array` returns for a largest order and an argument: the
    /// way is picked once, for all the orders, and each order is then
    /// obtained as `eval` obtains it alone.
    pub open spec fn eval_array_spec(
        self,
        mmax: i32,
        t: Binary64,
        r: Result<ArrayEvaluation, DomainError>,
    ) -> bool {
        match r {
            Ok(array) => {
                &&& self.eval_spec(mmax, t) is Ok
                &&& array.len() == mmax + 1
                &&& forall|order: nat|
                    order <= mmax ==> self.eval_spec(order as i32, t) == Ok::<
                        Evaluation,
                        DomainError,
                    >((#[trigger] array.entry_spec(order)).unwrap())
            },
            Err(e) => self.eval_spec(mmax, t) == Err::<Evaluation, DomainError>(e),
        }
    }

    /// An evaluator with the given tolerance, or with 10^-10 where none is
    /// given. A tolerance that is not a number above zero is refused.
    pub fn new(epsilon: Option<Binary64>) -> (r: Result<BoysFunction, ToleranceError>)
        ensures
            match r {
                Ok(boys) => tolerance_spec(epsilon) == Ok::<Binary64, ToleranceError>(
                    boys.tolerance(),
                ),
                Err(e) => tolerance_spec(epsilon) == Err::<Binary64, ToleranceError>(e),
            },
    {
        match epsilon {
            None => {
                proof {
                    lemma_default_epsilon();
                }
                Ok(BoysFunction { epsilon: Binary64 { bits: DEFAULT_EPSILON_BITS } })
            },
            Some(e) => {
                if e.is_not_a_number() {
                    Err(ToleranceError::NotANumber)
                } else if e.is_positive() {
                    Ok(BoysFunction { epsilon: e })
                } else {
                    Err(ToleranceError::NotPositive)
                }
            },
        }
    }

    /// How F_m(t) is obtained, or why the order and the argument are refused.
    /// The tolerance that a series is to end at is a number above zero.
    pub fn eval(&self, m: i32, t: Binary64) -> (r: Result<Evaluation, DomainError>)
        ensures
            r == self.eval_spec(m, t),
            !self.tolerance().is_nan() && self.tolerance().scaled() > 0,
    {
        proof {
            use_type_invariant(self);
        }
        if m < 0 {
            return Err(DomainError::NegativeOrder);
        }
        if t.is_not_a_number() {
            return Err(DomainError::ArgumentNotANumber);
        }
        if t.is_negative() {
            return Err(DomainError::NegativeArgument);
        }
        let order = m as u32;
        if t.lt(Binary64 { bits: NEAR_ZERO_BITS }) {
            Ok(Evaluation::Exact(zero_argument_value(order)))
        } else if t.lt(Binary64 { bits: THRESHOLD_BITS }) {
            Ok(Evaluation::Series { order, tolerance: self.epsilon })
        } else {
            Ok(Evaluation::Recurrence { order })
        }
    }

    /// How F_0(t) ... F_mmax(t) are obtained, or why the order and the
    /// argument are refused: there are `mmax + 1` values, and the value of
    /// each order is obtained as `eval` obtains it alone.
    pub fn eval_array(&self, mmax: i32, t: Binary64) -> (r: Result<ArrayEvaluation, DomainError>)
        ensures
            self.eval_array_spec(mmax, t, r),
            !self.tolerance().is_nan() && self.tolerance().scaled() > 0,
    {
        proof {
            use_type_invariant(self);
        }
        if mmax < 0 {
            return Err(DomainError::NegativeOrder);
        }
        if t.is_not_a_number() {
            return Err(DomainError::ArgumentNotANumber);
        }
        if t.is_negative() {
            return Err(DomainError::NegativeArgument);
        }
        let max_order = mmax as u32;
        if t.lt(Binary64 { bits: NEAR_ZERO_BITS }) {
            let mut values: Vec<Binary64> = Vec::with_capacity(max_order as usize + 1);
            let mut order: u32 = 0;
            while order <= max_order
                invariant
                    order <= max_order + 1,
                    max_order <= i32::MAX,
                    values@.len() == order,
                    forall|i: int|
                        0 <= i < order ==> values@[i] == zero_argument_spec(i as nat),
                decreases max_order + 1 - order,
            {
                values.push(zero_argument_value(order));
                order = order + 1;
            }
            Ok(ArrayEvaluation::Exact(values))
        } else if t.lt(Binary64 { bits: THRESHOLD_BITS }) {
            Ok(ArrayEvaluation::Series { max_order, tolerance: self.epsilon })
        } else {
            Ok(ArrayEvaluation::Recurrence { max_order })
        }
    }
}

/// A value is the same whichever way it is asked for: what `eval_array`
/// holds for an order is what `eval` returns for that order alone, and the
/// two refuse the same orders and arguments for the same reason.
pub proof fn lemma_array_entry_is_single_value(
    boys: BoysFunction,
    mmax: i32,
    t: Binary64,
    array: Result<ArrayEvaluation, DomainError>,
    order: i32,
)
    requires
        boys.eval_array_spec(mmax, t, array),
        0 <= order <= mmax,
    ensures
        match array {
            Ok(values) => Ok::<Evaluation, DomainError>(values.entry_spec(order as nat).unwrap())
                == boys.eval_spec(order, t),
            Err(e) => Err::<Evaluation, DomainError>(e) == boys.eval_spec(order, t),
        },
{
    if let Ok(values) = array {
        assert(values.entry_spec(order as nat) is Some);
    }
}

/// At an argument that counts as zero, every order has the value
/// 1 / (2m + 1): `eval` gives the binary64 number nearest to that ratio.
pub proof fn lemma_zero_argument_closed_form(boys: BoysFunction, m: i32, t: Binary64)
    requires
        m >= 0,
        !t.is_nan(),
        0 <= t.scaled() < near_zero().scaled(),
    ensures
        boys.eval_spec(m, t) == Ok::<Evaluation, DomainError>(
            Evaluation::Exact(zero_argument_spec(m as nat)),
        ),
        !zero_argument_spec(m as nat).sign_negative(),
        zero_argument_spec(m as nat).is_nearest_to_ratio(1, 2 * m + 1),
{
    lemma_zero_argument_is_nearest(m as nat);
}

/// Both zeros count as zero: `eval` gives the closed form for them.
pub proof fn lemma_zero_is_near_zero(t: Binary64)
    requires
        t.magnitude_bits() == 0,
    ensures
        !t.is_nan(),
        0 <= t.scaled() < near_zero().scaled(),
{
    t.lemma_sign();
    lemma_near_zero();
}

/// The way is picked by the threshold alone: below 117 an argument that
/// does not count as zero goes to the series, and from 117 on every argument
/// goes to the recurrence.
pub proof fn lemma_dispatch(boys: BoysFunction, m: i32, t: Binary64)
    requires
        m >= 0,
        !t.is_nan(),
        t.scaled() >= near_zero().scaled(),
    ensures
        t.scaled() < 117 * scaled_one() ==> boys.eval_spec(m, t) == Ok::<Evaluation, DomainError>(
            Evaluation::Series { order: m as u32, tolerance: boys.tolerance() },
        ),
        t.scaled() >= 117 * scaled_one() ==> boys.eval_spec(m, t) == Ok::<
            Evaluation,
            DomainError,
        >(Evaluation::Recurrence { order: m as u32 }),
{
    lemma_threshold();
    lemma_near_zero();
}

/// An evaluator behind the interface of a cache. It keeps nothing: every
/// call goes to the evaluator.
#[derive(Clone, Copy, Debug)]
pub struct BoysFunctionCached {
    boys: BoysFunction,
}

impl BoysFunctionCached {
    /// The evaluator that every call goes to.
    pub closed spec fn evaluator(self) -> BoysFunction {
        self.boys
    }

    /// An evaluator with the given tolerance, as `BoysFunction::new` makes
    /// it. The largest order to prepare for is not used.
    pub fn new(_mmax: i32, epsilon: Option<Binary64>) -> (r: Result<
        BoysFunctionCached,
        ToleranceError,
    >)
        ensures
            match r {
                Ok(cached) => tolerance_spec(epsilon) == Ok::<Binary64, ToleranceError>(
                    cached.evaluator().tolerance(),
                ),
                Err(e) => tolerance_spec(epsilon) == Err::<Binary64, ToleranceError>(e),
            },
    {
        match BoysFunction::new(epsilon) {
            Ok(boys) => Ok(BoysFunctionCached { boys }),
            Err(e) => Err(e),
        }
    }

    /// What `BoysFunction::eval` returns.
    pub fn eval(&self, m: i32, t: Binary64) -> (r: Result<Evaluation, DomainError>)
        ensures
            r == self.evaluator().eval_spec(m, t),
    {
        self.boys.eval(m, t)
    }

    /// What `BoysFunction::eval_array` returns.
    pub fn eval_array(&self, mmax: i32, t: Binary64) -> (r: Result<ArrayEvaluation, DomainError>)
        ensures
            self.evaluator().eval_array_spec(mmax, t, r),
    {
        self.boys.eval_array(mmax, t)
    }
}

} // verus!
