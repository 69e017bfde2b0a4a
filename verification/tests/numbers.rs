// Binary64 against the floating-point numbers of the machine.

use boys::binary64::Binary64;
use boys::closed_form::{zero_argument_value, ONE_BITS};
use boys::series;

fn number(x: f64) -> Binary64 {
    Binary64::from_bits(x.to_bits())
}

fn samples() -> Vec<f64> {
    vec![
        0.0,
        -0.0,
        5e-324,
        -5e-324,
        2.2250738585072009e-308,
        2.2250738585072014e-308,
        -2.2250738585072014e-308,
        1e-15,
        1e-14,
        0.1,
        0.5,
        1.0,
        -1.0,
        1.0000000000000002,
        2.0,
        116.999,
        117.0,
        117.001,
        -117.0,
        1e300,
        f64::MAX,
        f64::MIN,
        f64::INFINITY,
        f64::NEG_INFINITY,
        f64::NAN,
        -f64::NAN,
    ]
}

#[test]
fn bits_round_trip() {
    for x in samples() {
        assert_eq!(number(x).to_bits(), x.to_bits());
        assert_eq!(Binary64::from_bits(x.to_bits()), number(x));
    }
    assert_eq!(Binary64::from_bits(0x405D_4000_0000_0000).to_bits(), 117.0_f64.to_bits());
}

#[test]
fn order_is_the_order_of_the_numbers() {
    for a in samples() {
        for b in samples() {
            assert_eq!(number(a).lt(number(b)), a < b, "{a} < {b}");
        }
    }
}

#[test]
fn classification_is_that_of_the_numbers() {
    for x in samples() {
        assert_eq!(number(x).is_not_a_number(), x.is_nan(), "{x}");
        assert_eq!(number(x).is_sign_negative(), x.is_sign_negative(), "{x}");
        assert_eq!(number(x).is_negative(), x < 0.0, "{x}");
        assert_eq!(number(x).is_positive(), x > 0.0, "{x}");
    }
}

#[test]
fn zeros_are_neither_below_nor_above_each_other() {
    assert!(!number(0.0).lt(number(-0.0)));
    assert!(!number(-0.0).lt(number(0.0)));
    assert!(number(0.0) != number(-0.0));
}

#[test]
fn zero_argument_value_is_the_quotient() {
    assert_eq!(zero_argument_value(0).to_bits(), ONE_BITS);
    assert_eq!(zero_argument_value(0).to_bits(), 1.0_f64.to_bits());
    assert_eq!(zero_argument_value(1).to_bits(), 0x3FD5_5555_5555_5555);
    assert_eq!(zero_argument_value(2).to_bits(), 0x3FC9_9999_9999_999A);
    assert_eq!(zero_argument_value(3).to_bits(), 0x3FC2_4924_9249_2492);
    for order in 0..20_000_u32 {
        let expected = 1.0 / (2.0 * order as f64 + 1.0);
        assert_eq!(zero_argument_value(order).to_bits(), expected.to_bits(), "{order}");
    }
}

#[test]
fn zero_argument_value_of_large_orders() {
    let mut order: u32 = 1;
    while order < u32::MAX / 3 {
        for near in [order - 1, order, order + 1] {
            let expected = 1.0 / (2.0 * near as f64 + 1.0);
            assert_eq!(zero_argument_value(near).to_bits(), expected.to_bits(), "{near}");
        }
        order = order * 3 + 1;
    }
    for order in [i32::MAX as u32, u32::MAX - 1, u32::MAX] {
        let expected = 1.0 / (2.0 * order as f64 + 1.0);
        assert_eq!(zero_argument_value(order).to_bits(), expected.to_bits(), "{order}");
    }
}

#[test]
fn series_goes_on_while_the_term_is_large_or_growing() {
    // large and shrinking
    assert!(series::continues(number(1e-3), number(1e-11), number(2e-3)));
    // small but growing
    assert!(series::continues(number(1e-40), number(1e-30), number(5e-41)));
    // large and growing
    assert!(series::continues(number(2.0), number(1.0), number(1.0)));
    // small and shrinking
    assert!(!series::continues(number(1e-13), number(1e-11), number(3e-13)));
    // at the bound and level with the term before
    assert!(!series::continues(number(1e-11), number(1e-11), number(1e-11)));
    // the first term, after none
    assert!(series::continues(number(0.5), number(0.5e-11), number(0.0)));
    // a term of zero ends it
    assert!(!series::continues(number(0.0), number(0.0), number(5e-324)));
}

#[test]
fn series_ends_on_what_is_not_a_number() {
    assert!(!series::continues(number(f64::NAN), number(1.0), number(1.0)));
    assert!(!series::continues(number(1.0), number(f64::NAN), number(f64::NAN)));
    assert!(series::continues(number(1.0), number(f64::NAN), number(0.5)));
    assert!(series::continues(number(1.0), number(0.5), number(f64::NAN)));
}

#[test]
fn series_rule_is_the_comparison_of_the_numbers() {
    for term in samples() {
        for bound in samples() {
            for old_term in samples() {
                assert_eq!(
                    series::continues(number(term), number(bound), number(old_term)),
                    term > bound || old_term < term
                );
            }
        }
    }
}
