use state_keeper::decimal::{number_to_integer, Decimal, MAX_MANTISSA, MAX_SCALE};
use state_keeper::field::Fr;

fn dec(mantissa: i128, scale: u32) -> Decimal {
    Decimal::new(mantissa, scale).unwrap()
}

#[test]
fn new_checks_the_ranges() {
    assert!(Decimal::new(0, 0).is_some());
    assert!(Decimal::new(MAX_MANTISSA, MAX_SCALE).is_some());
    assert!(Decimal::new(-MAX_MANTISSA, 0).is_some());
    assert!(Decimal::new(MAX_MANTISSA + 1, 0).is_none());
    assert!(Decimal::new(-MAX_MANTISSA - 1, 0).is_none());
    assert!(Decimal::new(1, MAX_SCALE + 1).is_none());
    let d = dec(-125, 2);
    assert_eq!(d.mantissa(), -125);
    assert_eq!(d.scale(), 2);
    assert!(d.is_sign_negative());
    assert!(!dec(0, 3).is_sign_negative());
    assert!(!dec(1, 3).is_sign_negative());
}

#[test]
fn difference_is_computed_by_the_decimal_crate() {
    let r = dec(150, 2).checked_sub(&dec(25, 2)).unwrap();
    assert_eq!((r.mantissa(), r.scale()), (125, 2));
    let r = dec(15, 1).checked_sub(&dec(25, 2)).unwrap();
    assert_eq!((r.mantissa(), r.scale()), (125, 2));
    let r = dec(1, 0).checked_sub(&dec(3, 0)).unwrap();
    assert_eq!((r.mantissa(), r.scale()), (-2, 0));
    assert!(r.is_sign_negative());
    let r = dec(1_000_000, 6).checked_sub(&dec(1_000_000, 6)).unwrap();
    assert_eq!(r.mantissa(), 0);
    assert!(!r.is_sign_negative());
    assert!(dec(MAX_MANTISSA, 0).checked_sub(&dec(-MAX_MANTISSA, 0)).is_none());
    let expected = rust_decimal::Decimal::from_i128_with_scale(987654321, 5)
        - rust_decimal::Decimal::from_i128_with_scale(123456789, 3);
    let r = dec(987654321, 5).checked_sub(&dec(123456789, 3)).unwrap();
    assert_eq!((r.mantissa(), r.scale()), (expected.mantissa(), expected.scale()));
}

#[test]
fn product_is_computed_by_the_decimal_crate() {
    let r = dec(5, 1).checked_mul(&dec(20, 1)).unwrap();
    assert_eq!((r.mantissa(), r.scale()), (100, 2));
    let r = dec(3, 0).checked_mul(&dec(-7, 0)).unwrap();
    assert_eq!((r.mantissa(), r.scale()), (-21, 0));
    assert!(dec(MAX_MANTISSA, 0).checked_mul(&dec(2, 0)).is_none());
    let expected = rust_decimal::Decimal::from_i128_with_scale(123456789, 7)
        * rust_decimal::Decimal::from_i128_with_scale(987654321, 9);
    let r = dec(123456789, 7).checked_mul(&dec(987654321, 9)).unwrap();
    assert_eq!((r.mantissa(), r.scale()), (expected.mantissa(), expected.scale()));
}

#[test]
fn number_to_integer_counts_in_units() {
    assert_eq!(number_to_integer(&dec(1_000_000, 6), 6), Some(Fr::from_u32(1_000_000)));
    assert_eq!(number_to_integer(&dec(1, 0), 6), Some(Fr::from_u32(1_000_000)));
    assert_eq!(number_to_integer(&dec(5, 1), 6), Some(Fr::from_u32(500_000)));
    assert_eq!(number_to_integer(&dec(100, 2), 6), Some(Fr::from_u32(1_000_000)));
    assert_eq!(number_to_integer(&dec(1234567, 6), 6), Some(Fr::from_u32(1234567)));
    assert_eq!(number_to_integer(&dec(12345670, 7), 6), Some(Fr::from_u32(1234567)));
    assert_eq!(number_to_integer(&dec(0, 28), 0), Some(Fr::zero()));
    assert_eq!(number_to_integer(&dec(0, 0), u32::MAX), Some(Fr::zero()));
    assert_eq!(number_to_integer(&dec(7, 0), 0), Some(Fr::from_u32(7)));
}

#[test]
fn number_to_integer_rounds_nothing() {
    assert_eq!(number_to_integer(&dec(12345678, 7), 6), None);
    assert_eq!(number_to_integer(&dec(1, 7), 6), None);
    assert_eq!(number_to_integer(&dec(5, 1), 0), None);
    assert_eq!(number_to_integer(&dec(1, 28), 27), None);
}

#[test]
fn number_to_integer_refuses_negative_numbers() {
    assert_eq!(number_to_integer(&dec(-1, 0), 6), None);
    assert_eq!(number_to_integer(&dec(-1_000_000, 6), 6), None);
}

#[test]
fn number_to_integer_refuses_what_does_not_fit() {
    // 2^96 - 1 times 10^9 is below 2^128, times 10^10 is not
    let big = dec(MAX_MANTISSA, 0);
    let expected = (MAX_MANTISSA as u128) * 1_000_000_000;
    assert_eq!(number_to_integer(&big, 9), Some(Fr::from_u128(expected)));
    assert_eq!(number_to_integer(&big, 10), None);
    assert_eq!(number_to_integer(&dec(1, 0), 38), Some(Fr::from_u128(10u128.pow(38))));
    assert_eq!(number_to_integer(&dec(1, 0), 39), None);
    assert_eq!(number_to_integer(&dec(1, 0), u32::MAX), None);
    assert_eq!(number_to_integer(&dec(4, 0), 38), None);
    assert_eq!(number_to_integer(&dec(3, 0), 38), Some(Fr::from_u128(3 * 10u128.pow(38))));
}
