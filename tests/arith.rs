use omnipool_core::arith::{
    checked_mul_div, checked_mul_div_ceil, multiply_by_rational, Percent, Permill, Price, Rounding,
};

#[test]
fn ratio_is_exact_beyond_128_bit_products() {
    let big = 1u128 << 100;
    assert_eq!(checked_mul_div(big, 1u128 << 60, 1u128 << 64), Some(1u128 << 96));
    assert_eq!(checked_mul_div(big, big, u128::MAX), Some(4722366482869645213696));
    assert_eq!(checked_mul_div(big, big, 1u128 << 64), None);
    assert_eq!(checked_mul_div_ceil(u128::MAX, u128::MAX, u128::MAX), Some(u128::MAX));
    assert_eq!(checked_mul_div(10, 7, 3), Some(23));
    assert_eq!(checked_mul_div_ceil(10, 7, 3), Some(24));
    assert_eq!(checked_mul_div_ceil(9, 7, 3), Some(21));
    assert_eq!(multiply_by_rational(10, 7, 3, Rounding::Down), Some(23));
    assert_eq!(multiply_by_rational(10, 7, 3, Rounding::Up), Some(24));
}

#[test]
fn ratio_refuses_zero_divisor_and_overflow() {
    assert_eq!(checked_mul_div(1, 1, 0), None);
    assert_eq!(checked_mul_div_ceil(1, 1, 0), None);
    assert_eq!(checked_mul_div(u128::MAX, 2, 1), None);
    assert_eq!(checked_mul_div(u128::MAX, u128::MAX, u128::MAX), Some(u128::MAX));
    assert_eq!(checked_mul_div(u128::MAX, u128::MAX, u128::MAX - 1), None);
}

#[test]
fn permill_fractions() {
    let p = Permill::from_percent(10);
    assert_eq!(p.parts, 100_000);
    assert_eq!(p.mul_floor(47_619_047_619_047), 4_761_904_761_904);
    assert_eq!(p.mul_ceil(47_619_047_619_047), 4_761_904_761_905);
    assert_eq!(p.complement().parts, 900_000);
    assert_eq!(Permill::from_percent(250).parts, 1_000_000);
    assert_eq!(Permill::from_parts(2_000_000).parts, 1_000_000);
    assert_eq!(Permill::from_rational(1, 100_000).unwrap().parts, 10);
    assert_eq!(Permill::from_rational(2, 1), None);
    assert_eq!(Permill::from_rational(1, 0), None);
    assert_eq!(Permill::from_percent(50).to_price().inner, 500_000_000_000_000_000);
    assert!(Permill::from_percent(0).is_zero());
}

#[test]
fn percent_fractions() {
    assert_eq!(Percent::from_percent(20).mul_floor(999), 199);
    assert_eq!(Percent::from_percent(200).parts, 100);
    assert!(Percent::from_percent(0).is_zero());
}

#[test]
fn price_times_integer() {
    let half = Price::checked_from_rational(1, 2).unwrap();
    assert_eq!(half.inner, 500_000_000_000_000_000);
    assert_eq!(half.checked_mul_int(100_000_000_000_000), Some(50_000_000_000_000));
    assert_eq!(Price::checked_from_rational(65, 100).unwrap().checked_mul_int(2_000_000_000_000_000), Some(1_300_000_000_000_000));
    assert_eq!(Price::checked_from_integer(3).unwrap().inner, 3_000_000_000_000_000_000);
    assert_eq!(Price::checked_from_integer(u128::MAX), None);
    assert_eq!(Price::from_inner(u128::MAX).checked_mul_int(u128::MAX), None);
    assert_eq!(Price::checked_from_rational(1, 0), None);
    assert!(Price::from_inner(0).is_zero());
}
