// The evaluator from end to end: the library picks the way, and the
// floating-point work that it leaves to its caller is done here.

use boys::binary64::Binary64;
use boys::boys_impl::{
    ArrayEvaluation, BoysFunction, BoysFunctionCached, DomainError, Evaluation, ToleranceError,
    DEFAULT_EPSILON_BITS, NEAR_ZERO_BITS, THRESHOLD_BITS,
};
use boys::series;

fn number(x: f64) -> Binary64 {
    Binary64::from_bits(x.to_bits())
}

fn float(x: Binary64) -> f64 {
    f64::from_bits(x.to_bits())
}

fn series_sum(order: u32, t: f64, tolerance: f64) -> f64 {
    let mut denom = order as f64 + 0.5;
    let mut term = (-t).exp() / (2.0 * denom);
    let mut old_term = 0.0_f64;
    let mut sum = term;
    let eps_div_10 = tolerance / 10.0;
    while series::continues(number(term), number(sum * eps_div_10), number(old_term)) {
        denom += 1.0;
        old_term = term;
        term = old_term * t / denom;
        sum += term;
    }
    sum
}

fn recurrence(max_order: u32, t: f64) -> Vec<f64> {
    let k = 0.5 * std::f64::consts::PI.sqrt();
    let t2 = 2.0 * t;
    let et = (-t).exp();
    let sqrt_t = t.sqrt();
    let mut fm = vec![0.0_f64; max_order as usize + 1];
    fm[0] = k * libm::erf(sqrt_t) / sqrt_t;
    for m in 0..max_order as usize {
        fm[m + 1] = ((2.0 * m as f64 + 1.0) * fm[m] - et) / t2;
    }
    fm
}

fn complete(evaluation: Evaluation, t: f64) -> f64 {
    match evaluation {
        Evaluation::Exact(value) => float(value),
        Evaluation::Series { order, tolerance } => series_sum(order, t, float(tolerance)),
        Evaluation::Recurrence { order } => recurrence(order, t)[order as usize],
    }
}

fn eval(boys: &BoysFunction, m: i32, t: f64) -> f64 {
    complete(boys.eval(m, number(t)).unwrap(), t)
}

fn eval_array(boys: &BoysFunction, mmax: i32, t: f64) -> Vec<f64> {
    match boys.eval_array(mmax, number(t)).unwrap() {
        ArrayEvaluation::Exact(values) => values.iter().map(|v| float(*v)).collect(),
        ArrayEvaluation::Series { max_order, tolerance } => (0..=max_order)
            .map(|order| series_sum(order, t, float(tolerance)))
            .collect(),
        ArrayEvaluation::Recurrence { max_order } => recurrence(max_order, t),
    }
}

#[test]
fn test_small_t() {
    let boys = BoysFunction::new(None).unwrap();
    let result = eval(&boys, 0, 0.1);
    assert!((result - 0.9676433126).abs() < 1e-6);
}

#[test]
fn test_medium_t() {
    let boys = BoysFunction::new(None).unwrap();
    let result = eval(&boys, 1, 5.0);
    assert!((result - 0.0388974363).abs() < 1e-6);
}

#[test]
fn test_large_t() {
    let boys = BoysFunction::new(None).unwrap();
    let result = eval(&boys, 2, 150.0);
    assert!((result - 0.0000024120).abs() < 1e-6);
}

#[test]
fn test_array() {
    let boys = BoysFunction::new(None).unwrap();
    let results = eval_array(&boys, 5, 5.0);
    assert!(results.len() == 6);
    assert!((results[0] - 0.3957123096).abs() < 1e-6);
    assert!((results[1] - 0.0388974363).abs() < 1e-6);
}

#[test]
fn test_near_zero() {
    let boys = BoysFunction::new(None).unwrap();
    let result = eval(&boys, 1, 1e-15);
    assert!((result - 0.3333333).abs() < 1e-6);
}

#[test]
fn constants_are_the_bit_patterns_of_their_numbers() {
    assert_eq!(THRESHOLD_BITS, 117.0_f64.to_bits());
    assert_eq!(NEAR_ZERO_BITS, 1e-14_f64.to_bits());
    assert_eq!(DEFAULT_EPSILON_BITS, 1e-10_f64.to_bits());
}

#[test]
fn small_argument_goes_to_the_series_at_the_default_tolerance() {
    let boys = BoysFunction::new(None).unwrap();
    assert_eq!(
        boys.eval(0, number(0.1)),
        Ok(Evaluation::Series { order: 0, tolerance: number(1e-10) })
    );
    assert_eq!(
        boys.eval(3, number(10.0)),
        Ok(Evaluation::Series { order: 3, tolerance: number(1e-10) })
    );
}

#[test]
fn given_tolerance_is_handed_to_the_series() {
    let boys = BoysFunction::new(Some(number(1e-6))).unwrap();
    assert_eq!(
        boys.eval(2, number(5.0)),
        Ok(Evaluation::Series { order: 2, tolerance: number(1e-6) })
    );
    assert_eq!(
        boys.eval_array(4, number(5.0)),
        Ok(ArrayEvaluation::Series { max_order: 4, tolerance: number(1e-6) })
    );
}

#[test]
fn threshold_parts_series_and_recurrence() {
    let boys = BoysFunction::new(None).unwrap();
    let below = f64::from_bits(THRESHOLD_BITS - 1);
    assert!(below < 117.0);
    assert_eq!(
        boys.eval(2, number(below)),
        Ok(Evaluation::Series { order: 2, tolerance: number(1e-10) })
    );
    assert_eq!(
        boys.eval(2, number(116.999)),
        Ok(Evaluation::Series { order: 2, tolerance: number(1e-10) })
    );
    assert_eq!(boys.eval(2, number(117.0)), Ok(Evaluation::Recurrence { order: 2 }));
    assert_eq!(boys.eval(2, number(117.001)), Ok(Evaluation::Recurrence { order: 2 }));
    assert_eq!(boys.eval(5, number(200.0)), Ok(Evaluation::Recurrence { order: 5 }));
    assert_eq!(boys.eval(0, number(f64::MAX)), Ok(Evaluation::Recurrence { order: 0 }));
    assert_eq!(boys.eval(0, number(f64::INFINITY)), Ok(Evaluation::Recurrence { order: 0 }));
}

#[test]
fn near_zero_parts_closed_form_and_series() {
    let boys = BoysFunction::new(None).unwrap();
    let below = f64::from_bits(NEAR_ZERO_BITS - 1);
    assert_eq!(boys.eval(1, number(below)), Ok(Evaluation::Exact(number(1.0 / 3.0))));
    assert_eq!(
        boys.eval(1, number(1e-14)),
        Ok(Evaluation::Series { order: 1, tolerance: number(1e-10) })
    );
    assert_eq!(boys.eval(0, number(0.0)), Ok(Evaluation::Exact(number(1.0))));
    assert_eq!(boys.eval(2, number(-0.0)), Ok(Evaluation::Exact(number(0.2))));
    assert_eq!(
        boys.eval(2, number(f64::from_bits(1))),
        Ok(Evaluation::Exact(number(0.2)))
    );
}

#[test]
fn zero_argument_is_the_closed_form_for_every_order() {
    let boys = BoysFunction::new(None).unwrap();
    for m in [0, 1, 2, 3, 10, 1000, 123_456_789, i32::MAX] {
        let expected = 1.0 / (2.0 * m as f64 + 1.0);
        assert_eq!(eval(&boys, m, 0.0).to_bits(), expected.to_bits());
        assert_eq!(eval(&boys, m, 9.9e-15).to_bits(), expected.to_bits());
        assert!((eval(&boys, m, 0.0) - expected).abs() < 1e-9);
    }
}

#[test]
fn negative_order_is_refused() {
    let boys = BoysFunction::new(None).unwrap();
    assert_eq!(boys.eval(-1, number(1.0)), Err(DomainError::NegativeOrder));
    assert_eq!(boys.eval(i32::MIN, number(1.0)), Err(DomainError::NegativeOrder));
    assert_eq!(boys.eval_array(-1, number(1.0)), Err(DomainError::NegativeOrder));
    // the order is looked at first
    assert_eq!(boys.eval(-1, number(f64::NAN)), Err(DomainError::NegativeOrder));
    assert_eq!(boys.eval(-1, number(-1.0)), Err(DomainError::NegativeOrder));
}

#[test]
fn negative_argument_is_refused() {
    let boys = BoysFunction::new(None).unwrap();
    assert_eq!(boys.eval(0, number(-1.0)), Err(DomainError::NegativeArgument));
    assert_eq!(boys.eval(0, number(-5e-324)), Err(DomainError::NegativeArgument));
    assert_eq!(boys.eval(0, number(f64::NEG_INFINITY)), Err(DomainError::NegativeArgument));
    assert_eq!(boys.eval_array(3, number(-117.0)), Err(DomainError::NegativeArgument));
}

#[test]
fn argument_that_is_not_a_number_is_refused() {
    let boys = BoysFunction::new(None).unwrap();
    assert_eq!(boys.eval(0, number(f64::NAN)), Err(DomainError::ArgumentNotANumber));
    assert_eq!(boys.eval(0, number(-f64::NAN)), Err(DomainError::ArgumentNotANumber));
    assert_eq!(
        boys.eval_array(2, Binary64::from_bits(0x7FF0_0000_0000_0001)),
        Err(DomainError::ArgumentNotANumber)
    );
}

#[test]
fn tolerance_must_be_a_number_above_zero() {
    assert_eq!(BoysFunction::new(Some(number(0.0))).err(), Some(ToleranceError::NotPositive));
    assert_eq!(BoysFunction::new(Some(number(-0.0))).err(), Some(ToleranceError::NotPositive));
    assert_eq!(BoysFunction::new(Some(number(-1e-10))).err(), Some(ToleranceError::NotPositive));
    assert_eq!(
        BoysFunction::new(Some(number(f64::NEG_INFINITY))).err(),
        Some(ToleranceError::NotPositive)
    );
    assert_eq!(BoysFunction::new(Some(number(f64::NAN))).err(), Some(ToleranceError::NotANumber));
    assert!(BoysFunction::new(Some(number(5e-324))).is_ok());
    assert!(BoysFunction::new(Some(number(1e-3))).is_ok());
    assert!(BoysFunction::new(None).is_ok());
}

#[test]
fn array_has_one_entry_for_each_order() {
    let boys = BoysFunction::new(None).unwrap();
    for t in [0.0, 1e-15, 0.5, 5.0, 116.999, 117.0, 150.0] {
        let array = boys.eval_array(5, number(t)).unwrap();
        for order in 0..=5 {
            assert_eq!(array.entry(order as u32), Some(boys.eval(order, number(t)).unwrap()));
        }
        assert_eq!(array.entry(6), None);
        assert_eq!(array.entry(u32::MAX), None);
        assert_eq!(eval_array(&boys, 5, t).len(), 6);
    }
    assert_eq!(boys.eval_array(0, number(3.0)).unwrap().entry(0), boys.eval(0, number(3.0)).ok());
    assert_eq!(boys.eval_array(0, number(3.0)).unwrap().entry(1), None);
}

#[test]
fn array_of_closed_forms_holds_the_values() {
    let boys = BoysFunction::new(None).unwrap();
    let expected: Vec<Binary64> =
        (0..4).map(|m| number(1.0 / (2.0 * m as f64 + 1.0))).collect();
    assert_eq!(boys.eval_array(3, number(0.0)), Ok(ArrayEvaluation::Exact(expected)));
}

#[test]
fn array_entry_is_the_single_value() {
    let boys = BoysFunction::new(None).unwrap();
    for t in [0.0, 1e-15, 0.1, 1.0, 5.0, 50.0, 116.999, 117.0, 117.001, 150.0, 200.0] {
        for m in [0, 1, 2, 5, 10] {
            let array = eval_array(&boys, m, t);
            assert_eq!(array.len(), m as usize + 1);
            assert!((array[m as usize] - eval(&boys, m, t)).abs() < 1e-9);
            assert_eq!(array[m as usize].to_bits(), eval(&boys, m, t).to_bits());
        }
    }
}

#[test]
fn values_agree_across_the_threshold() {
    let boys = BoysFunction::new(None).unwrap();
    for m in [0, 1, 2, 5] {
        let below = eval(&boys, m, 116.999);
        let above = eval(&boys, m, 117.001);
        assert!((below - above).abs() < 1e-6);
    }
    // F_0(t) is sqrt(pi / t) / 2 for large t
    let reference = 0.5 * (std::f64::consts::PI / 117.0).sqrt();
    assert!((eval(&boys, 0, 116.999) - reference).abs() < 1e-6);
    assert!((eval(&boys, 0, 117.001) - reference).abs() < 1e-6);
}

#[test]
fn values_decrease_as_the_argument_grows() {
    let boys = BoysFunction::new(None).unwrap();
    let arguments = [1e-3, 0.1, 0.5, 1.0, 2.0, 5.0, 10.0, 30.0, 50.0, 100.0, 116.0, 118.0, 150.0];
    for m in [0, 1, 2, 3] {
        for pair in arguments.windows(2) {
            assert!(eval(&boys, m, pair[0]) > eval(&boys, m, pair[1]));
        }
    }
}

#[test]
fn neighbouring_orders_obey_the_recurrence() {
    let boys = BoysFunction::new(None).unwrap();
    for t in [0.1, 1.0, 5.0, 10.0, 50.0, 100.0, 150.0, 200.0] {
        for m in [0, 1, 2, 3, 4] {
            let left = 2.0 * t * eval(&boys, m + 1, t);
            let right = (2.0 * m as f64 + 1.0) * eval(&boys, m, t) - (-t).exp();
            assert!((left - right).abs() < 1e-9);
        }
    }
}

#[test]
fn first_value_at_five() {
    let boys = BoysFunction::new(None).unwrap();
    assert!((eval(&boys, 0, 5.0) - 0.3957123096).abs() < 1e-6);
}

#[test]
fn cached_evaluator_passes_every_call_on() {
    let boys = BoysFunction::new(Some(number(1e-8))).unwrap();
    let cached = BoysFunctionCached::new(10, Some(number(1e-8))).unwrap();
    for t in [0.0, 0.1, 5.0, 117.0, 150.0, -1.0, f64::NAN] {
        for m in [-1, 0, 1, 7] {
            assert_eq!(cached.eval(m, number(t)), boys.eval(m, number(t)));
            assert_eq!(cached.eval_array(m, number(t)), boys.eval_array(m, number(t)));
        }
    }
    assert_eq!(
        BoysFunctionCached::new(3, Some(number(0.0))).err(),
        Some(ToleranceError::NotPositive)
    );
    assert_eq!(
        BoysFunctionCached::new(3, Some(number(f64::NAN))).err(),
        Some(ToleranceError::NotANumber)
    );
    assert_eq!(
        BoysFunctionCached::new(3, None).unwrap().eval(0, number(1.0)),
        Ok(Evaluation::Series { order: 0, tolerance: number(1e-10) })
    );
}
