use lona::integer::{BigNum, Integer};
use num_bigint::{BigInt, Sign};

/// The sign and digits of a `num-bigint` value.
fn to_num(b: BigInt) -> BigNum {
    let (sign, magnitude) = b.to_u32_digits();
    BigNum {
        negative: sign == Sign::Minus,
        magnitude,
    }
}

#[test]
fn integer_from_i64_creates_small() {
    let int = Integer::from_i64(42);
    assert!(matches!(int, Integer::Small(42)));
}

#[test]
fn integer_from_bigint_downgrades_when_possible() {
    let big = BigInt::from(42_i64);
    let int = Integer::from_bigint(to_num(big));
    assert!(matches!(int, Integer::Small(42)));
}

#[test]
fn integer_from_bigint_stays_big_when_needed() {
    // Create a value larger than i64::MAX
    let big = BigInt::from(i64::MAX) + BigInt::from(1_i64);
    let int = Integer::from_bigint(to_num(big));
    assert!(matches!(int, Integer::Big(_)));
}

#[test]
fn integer_display_small() {
    let int = Integer::from_i64(42);
    assert_eq!(int.to_string(), "42");
}

#[test]
fn integer_display_negative() {
    let int = Integer::from_i64(-123);
    assert_eq!(int.to_string(), "-123");
}

#[test]
fn integer_display_big() {
    let big = BigInt::from(i64::MAX) + BigInt::from(1_i64);
    let int = Integer::from_bigint(to_num(big));
    assert_eq!(int.to_string(), "9223372036854775808");
}

#[test]
fn integer_add_small_no_overflow() {
    let result = Integer::from_i64(1) + Integer::from_i64(2);
    assert_eq!(result, Integer::from_i64(3));
}

#[test]
fn integer_add_small_with_overflow() {
    let result = Integer::from_i64(i64::MAX) + Integer::from_i64(1);
    // Should be Big since it overflows
    assert!(matches!(result, Integer::Big(_)));
    // Verify the value is correct
    let expected = BigInt::from(i64::MAX) + BigInt::from(1_i64);
    assert_eq!(result, Integer::from_bigint(to_num(expected)));
}

#[test]
fn integer_sub_small_no_overflow() {
    let result = Integer::from_i64(5) - Integer::from_i64(3);
    assert_eq!(result, Integer::from_i64(2));
}

#[test]
fn integer_sub_small_with_overflow() {
    let result = Integer::from_i64(i64::MIN) - Integer::from_i64(1);
    assert!(matches!(result, Integer::Big(_)));
}

#[test]
fn integer_mul_small_no_overflow() {
    let result = Integer::from_i64(6) * Integer::from_i64(7);
    assert_eq!(result, Integer::from_i64(42));
}

#[test]
fn integer_mul_small_with_overflow() {
    let result = Integer::from_i64(i64::MAX) * Integer::from_i64(2);
    assert!(matches!(result, Integer::Big(_)));
}

#[test]
fn integer_div_small() {
    let result = Integer::from_i64(10) / Integer::from_i64(3);
    assert_eq!(result, Integer::from_i64(3));
}

#[test]
fn integer_div_min_by_neg_one() {
    // This case overflows in i64 (MIN / -1 = MAX + 1)
    let result = Integer::from_i64(i64::MIN) / Integer::from_i64(-1);
    assert!(matches!(result, Integer::Big(_)));
}

#[test]
fn integer_checked_div_by_zero_returns_none() {
    let result = Integer::from_i64(42).checked_div(&Integer::from_i64(0));
    assert!(result.is_none());
}

#[test]
fn integer_rem_small() {
    let result = Integer::from_i64(10) % Integer::from_i64(3);
    assert_eq!(result, Integer::from_i64(1));
}

#[test]
fn integer_checked_rem_by_zero_returns_none() {
    let result = Integer::from_i64(42).checked_rem(&Integer::from_i64(0));
    assert!(result.is_none());
}

#[test]
fn integer_neg_small() {
    let result = -Integer::from_i64(42);
    assert_eq!(result, Integer::from_i64(-42));
}

#[test]
fn integer_neg_min_overflows_to_big() {
    let result = -Integer::from_i64(i64::MIN);
    assert!(matches!(result, Integer::Big(_)));
    // Verify the value
    let expected = BigInt::from(i64::MAX) + BigInt::from(1_i64);
    assert_eq!(result, Integer::from_bigint(to_num(expected)));
}

#[test]
fn integer_equality_small() {
    assert_eq!(Integer::from_i64(42), Integer::from_i64(42));
    assert_ne!(Integer::from_i64(42), Integer::from_i64(43));
}

#[test]
fn integer_equality_cross_variant() {
    // Create a Big that equals a representable i64
    let big = Integer::Big(to_num(BigInt::from(42_i64)));
    let small = Integer::from_i64(42);
    assert_eq!(big, small);
    assert_eq!(small, big);
}

#[test]
fn integer_ordering_small() {
    assert!(Integer::from_i64(1) < Integer::from_i64(2));
    assert!(Integer::from_i64(2) > Integer::from_i64(1));
}

#[test]
fn integer_ordering_cross_variant() {
    let big = Integer::Big(to_num(BigInt::from(i64::MAX) + BigInt::from(1_i64)));
    let small = Integer::from_i64(i64::MAX);
    assert!(big > small);
    assert!(small < big);
}

#[test]
fn integer_is_zero_small() {
    assert!(Integer::from_i64(0).is_zero());
    assert!(!Integer::from_i64(1).is_zero());
}

#[test]
fn integer_is_positive_negative() {
    assert!(Integer::from_i64(42).is_positive());
    assert!(!Integer::from_i64(0).is_positive());
    assert!(!Integer::from_i64(-42).is_positive());

    assert!(Integer::from_i64(-42).is_negative());
    assert!(!Integer::from_i64(0).is_negative());
    assert!(!Integer::from_i64(42).is_negative());
}

#[test]
fn integer_to_i64_small() {
    assert_eq!(Integer::from_i64(42).to_i64(), Some(42));
}

#[test]
fn integer_to_i64_big_that_fits() {
    let big = Integer::Big(to_num(BigInt::from(42_i64)));
    assert_eq!(big.to_i64(), Some(42));
}

#[test]
fn integer_to_i64_big_that_doesnt_fit() {
    let big = Integer::from_bigint(to_num(BigInt::from(i64::MAX) + BigInt::from(1_i64)));
    assert_eq!(big.to_i64(), None);
}

#[test]
fn integer_abs_positive() {
    assert_eq!(Integer::from_i64(42).abs(), Integer::from_i64(42));
}

#[test]
fn integer_abs_negative() {
    assert_eq!(Integer::from_i64(-42).abs(), Integer::from_i64(42));
}

#[test]
fn integer_abs_min_overflows_to_big() {
    let result = Integer::from_i64(i64::MIN).abs();
    assert!(matches!(result, Integer::Big(_)));
}

#[test]
fn integer_gcd_small() {
    let result = Integer::from_i64(12).gcd(&Integer::from_i64(8));
    assert_eq!(result, Integer::from_i64(4));
}

#[test]
fn integer_big_times_big() {
    let big_left = Integer::from_bigint(to_num(BigInt::from(i64::MAX) + BigInt::from(1_i64)));
    let big_right = Integer::from_bigint(to_num(BigInt::from(2_i64)));
    let result = big_left * big_right;
    let expected =
        Integer::from_bigint(to_num((BigInt::from(i64::MAX) + BigInt::from(1_i64)) * BigInt::from(2)));
    assert_eq!(result, expected);
}

#[test]
fn integer_mixed_small_and_big() {
    let small = Integer::from_i64(1_000_000_000);
    let big = Integer::from_bigint(to_num(BigInt::from(1_000_000_000_000_000_i64)));
    let result = small * big;
    let expected = Integer::from_bigint(to_num(
        BigInt::from(1_000_000_000_i64) * BigInt::from(1_000_000_000_000_000_i64),
    ));
    assert_eq!(result, expected);
}

#[test]
fn integer_add_by_reference() {
    let left = Integer::from_i64(1);
    let right = Integer::from_i64(2);
    let result = &left + &right;
    assert_eq!(result, Integer::from_i64(3));
    // Original values should still be usable
    assert_eq!(left, Integer::from_i64(1));
    assert_eq!(right, Integer::from_i64(2));
}

#[test]
fn integer_sub_by_reference() {
    let left = Integer::from_i64(5);
    let right = Integer::from_i64(3);
    let result = &left - &right;
    assert_eq!(result, Integer::from_i64(2));
}

#[test]
fn integer_mul_by_reference() {
    let left = Integer::from_i64(6);
    let right = Integer::from_i64(7);
    let result = &left * &right;
    assert_eq!(result, Integer::from_i64(42));
}

#[test]
fn integer_div_by_reference() {
    let left = Integer::from_i64(10);
    let right = Integer::from_i64(3);
    let result = &left / &right;
    assert_eq!(result, Integer::from_i64(3));
}

#[test]
fn integer_rem_by_reference() {
    let left = Integer::from_i64(10);
    let right = Integer::from_i64(3);
    let result = &left % &right;
    assert_eq!(result, Integer::from_i64(1));
}

#[test]
fn integer_neg_by_reference() {
    let int = Integer::from_i64(42);
    let result = -&int;
    assert_eq!(result, Integer::from_i64(-42));
    // Original should still be usable
    assert_eq!(int, Integer::from_i64(42));
}

#[test]
fn integer_zero_trait() {
    let zero: Integer = Integer::zero();
    assert!(zero.is_zero());
    assert_eq!(zero, Integer::from_i64(0));
}

#[test]
fn integer_one_trait() {
    let one: Integer = Integer::one();
    assert_eq!(one, Integer::from_i64(1));
}

#[test]
fn integer_default_is_zero() {
    let def: Integer = Integer::default();
    assert!(def.is_zero());
}

#[test]
fn tests_from_i64_creates_small() {
    let int = Integer::from_i64(42);
    assert!(matches!(int, Integer::Small(42)));
}

#[test]
fn tests_from_bigint_downgrades_when_possible() {
    let big = BigInt::from(42_i64);
    let int = Integer::from_bigint(to_num(big));
    assert!(matches!(int, Integer::Small(42)));
}

#[test]
fn tests_from_bigint_stays_big_when_needed() {
    // Create a value larger than i64::MAX
    let big = BigInt::from(i64::MAX) + BigInt::from(1_i64);
    let int = Integer::from_bigint(to_num(big));
    assert!(matches!(int, Integer::Big(_)));
}

#[test]
fn tests_display_small() {
    let int = Integer::from_i64(42);
    assert_eq!(int.to_string(), "42");
}

#[test]
fn tests_display_negative() {
    let int = Integer::from_i64(-123);
    assert_eq!(int.to_string(), "-123");
}

#[test]
fn tests_display_big() {
    let big = BigInt::from(i64::MAX) + BigInt::from(1_i64);
    let int = Integer::from_bigint(to_num(big));
    assert_eq!(int.to_string(), "9223372036854775808");
}

#[test]
fn tests_add_small_no_overflow() {
    let result = Integer::from_i64(1) + Integer::from_i64(2);
    assert_eq!(result, Integer::from_i64(3));
}

#[test]
fn tests_add_small_with_overflow() {
    let result = Integer::from_i64(i64::MAX) + Integer::from_i64(1);
    // Should be Big since it overflows
    assert!(matches!(result, Integer::Big(_)));
    // Verify the value is correct
    let expected = BigInt::from(i64::MAX) + BigInt::from(1_i64);
    assert_eq!(result, Integer::from_bigint(to_num(expected)));
}

#[test]
fn tests_sub_small_no_overflow() {
    let result = Integer::from_i64(5) - Integer::from_i64(3);
    assert_eq!(result, Integer::from_i64(2));
}

#[test]
fn tests_sub_small_with_overflow() {
    let result = Integer::from_i64(i64::MIN) - Integer::from_i64(1);
    assert!(matches!(result, Integer::Big(_)));
}

#[test]
fn tests_mul_small_no_overflow() {
    let result = Integer::from_i64(6) * Integer::from_i64(7);
    assert_eq!(result, Integer::from_i64(42));
}

#[test]
fn tests_mul_small_with_overflow() {
    let result = Integer::from_i64(i64::MAX) * Integer::from_i64(2);
    assert!(matches!(result, Integer::Big(_)));
}

#[test]
fn tests_div_small() {
    let result = Integer::from_i64(10) / Integer::from_i64(3);
    assert_eq!(result, Integer::from_i64(3));
}

#[test]
fn tests_div_min_by_neg_one() {
    // This case overflows in i64 (MIN / -1 = MAX + 1)
    let result = Integer::from_i64(i64::MIN) / Integer::from_i64(-1);
    assert!(matches!(result, Integer::Big(_)));
}

#[test]
fn tests_checked_div_by_zero_returns_none() {
    let result = Integer::from_i64(42).checked_div(&Integer::from_i64(0));
    assert!(result.is_none());
}

#[test]
fn tests_rem_small() {
    let result = Integer::from_i64(10) % Integer::from_i64(3);
    assert_eq!(result, Integer::from_i64(1));
}

#[test]
fn tests_checked_rem_by_zero_returns_none() {
    let result = Integer::from_i64(42).checked_rem(&Integer::from_i64(0));
    assert!(result.is_none());
}

#[test]
fn tests_neg_small() {
    let result = -Integer::from_i64(42);
    assert_eq!(result, Integer::from_i64(-42));
}

#[test]
fn tests_neg_min_overflows_to_big() {
    let result = -Integer::from_i64(i64::MIN);
    assert!(matches!(result, Integer::Big(_)));
    // Verify the value
    let expected = BigInt::from(i64::MAX) + BigInt::from(1_i64);
    assert_eq!(result, Integer::from_bigint(to_num(expected)));
}

#[test]
fn tests_equality_small() {
    assert_eq!(Integer::from_i64(42), Integer::from_i64(42));
    assert_ne!(Integer::from_i64(42), Integer::from_i64(43));
}

#[test]
fn tests_equality_cross_variant() {
    // Create a Big that equals a representable i64
    let big = Integer::Big(to_num(BigInt::from(42_i64)));
    let small = Integer::from_i64(42);
    assert_eq!(big, small);
    assert_eq!(small, big);
}

#[test]
fn tests_ordering_small() {
    assert!(Integer::from_i64(1) < Integer::from_i64(2));
    assert!(Integer::from_i64(2) > Integer::from_i64(1));
}

#[test]
fn tests_ordering_cross_variant() {
    let big = Integer::Big(to_num(BigInt::from(i64::MAX) + BigInt::from(1_i64)));
    let small = Integer::from_i64(i64::MAX);
    assert!(big > small);
    assert!(small < big);
}

#[test]
fn tests_is_zero_small() {
    assert!(Integer::from_i64(0).is_zero());
    assert!(!Integer::from_i64(1).is_zero());
}

#[test]
fn tests_is_positive_negative() {
    assert!(Integer::from_i64(42).is_positive());
    assert!(!Integer::from_i64(0).is_positive());
    assert!(!Integer::from_i64(-42).is_positive());

    assert!(Integer::from_i64(-42).is_negative());
    assert!(!Integer::from_i64(0).is_negative());
    assert!(!Integer::from_i64(42).is_negative());
}

#[test]
fn tests_to_i64_small() {
    assert_eq!(Integer::from_i64(42).to_i64(), Some(42));
}

#[test]
fn tests_to_i64_big_that_fits() {
    let big = Integer::Big(to_num(BigInt::from(42_i64)));
    assert_eq!(big.to_i64(), Some(42));
}

#[test]
fn tests_to_i64_big_that_doesnt_fit() {
    let big = Integer::from_bigint(to_num(BigInt::from(i64::MAX) + BigInt::from(1_i64)));
    assert_eq!(big.to_i64(), None);
}

#[test]
fn tests_abs_positive() {
    assert_eq!(Integer::from_i64(42).abs(), Integer::from_i64(42));
}

#[test]
fn tests_abs_negative() {
    assert_eq!(Integer::from_i64(-42).abs(), Integer::from_i64(42));
}

#[test]
fn tests_abs_min_overflows_to_big() {
    let result = Integer::from_i64(i64::MIN).abs();
    assert!(matches!(result, Integer::Big(_)));
}

#[test]
fn tests_gcd_small() {
    let result = Integer::from_i64(12).gcd(&Integer::from_i64(8));
    assert_eq!(result, Integer::from_i64(4));
}

#[test]
fn tests_big_times_big() {
    let big_left = Integer::from_bigint(to_num(BigInt::from(i64::MAX) + BigInt::from(1_i64)));
    let big_right = Integer::from_bigint(to_num(BigInt::from(2_i64)));
    let result = big_left * big_right;
    let expected =
        Integer::from_bigint(to_num((BigInt::from(i64::MAX) + BigInt::from(1_i64)) * BigInt::from(2)));
    assert_eq!(result, expected);
}

#[test]
fn tests_mixed_small_and_big() {
    let small = Integer::from_i64(1_000_000_000);
    let big = Integer::from_bigint(to_num(BigInt::from(1_000_000_000_000_000_i64)));
    let result = small * big;
    let expected = Integer::from_bigint(to_num(
        BigInt::from(1_000_000_000_i64) * BigInt::from(1_000_000_000_000_000_i64),
    ));
    assert_eq!(result, expected);
}

#[test]
fn tests_add_by_reference() {
    let left = Integer::from_i64(1);
    let right = Integer::from_i64(2);
    let result = &left + &right;
    assert_eq!(result, Integer::from_i64(3));
    // Original values should still be usable
    assert_eq!(left, Integer::from_i64(1));
    assert_eq!(right, Integer::from_i64(2));
}

#[test]
fn tests_sub_by_reference() {
    let left = Integer::from_i64(5);
    let right = Integer::from_i64(3);
    let result = &left - &right;
    assert_eq!(result, Integer::from_i64(2));
}

#[test]
fn tests_mul_by_reference() {
    let left = Integer::from_i64(6);
    let right = Integer::from_i64(7);
    let result = &left * &right;
    assert_eq!(result, Integer::from_i64(42));
}

#[test]
fn tests_div_by_reference() {
    let left = Integer::from_i64(10);
    let right = Integer::from_i64(3);
    let result = &left / &right;
    assert_eq!(result, Integer::from_i64(3));
}

#[test]
fn tests_rem_by_reference() {
    let left = Integer::from_i64(10);
    let right = Integer::from_i64(3);
    let result = &left % &right;
    assert_eq!(result, Integer::from_i64(1));
}

#[test]
fn tests_neg_by_reference() {
    let int = Integer::from_i64(42);
    let result = -&int;
    assert_eq!(result, Integer::from_i64(-42));
    // Original should still be usable
    assert_eq!(int, Integer::from_i64(42));
}

#[test]
fn tests_zero_trait() {
    let zero: Integer = Integer::zero();
    assert!(zero.is_zero());
    assert_eq!(zero, Integer::from_i64(0));
}

#[test]
fn tests_one_trait() {
    let one: Integer = Integer::one();
    assert_eq!(one, Integer::from_i64(1));
}

#[test]
fn tests_default_is_zero() {
    let def: Integer = Integer::default();
    assert!(def.is_zero());
}
