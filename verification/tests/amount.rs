//! Amounts: construction, conversion, arithmetic and fees.

use meridian_api::amount::{Amount, AmountError, MAX_STROOPS, STROOPS_PER_XLM};

#[test]
fn new_rejects_zero() {
    assert_eq!(Amount::new(0), Err(AmountError::Zero));
}

#[test]
fn new_rejects_overflow() {
    assert_eq!(Amount::new(MAX_STROOPS + 1), Err(AmountError::Overflow));
}

#[test]
fn new_accepts_minimum() {
    let a = Amount::new(1).unwrap();
    assert_eq!(a.stroops(), 1);
}

#[test]
fn new_accepts_maximum() {
    let a = Amount::new(MAX_STROOPS).unwrap();
    assert_eq!(a.stroops(), MAX_STROOPS);
}

#[test]
fn new_accepts_typical_value() {
    let a = Amount::new(1_000_000).unwrap();
    assert_eq!(a.stroops(), 1_000_000);
}

#[test]
fn from_xlm_zero_is_rejected() {
    assert_eq!(Amount::from_xlm(0), Err(AmountError::Zero));
}

#[test]
fn from_xlm_overflow_is_rejected() {
    // u64::MAX / STROOPS_PER_XLM + 1 should overflow
    let too_many = u64::MAX / STROOPS_PER_XLM + 1;
    assert_eq!(Amount::from_xlm(too_many), Err(AmountError::Overflow));
}

#[test]
fn from_xlm_one() {
    let a = Amount::from_xlm(1).unwrap();
    assert_eq!(a.stroops(), STROOPS_PER_XLM);
}

#[test]
fn decimal_whole() {
    let a = Amount::from_xlm_decimal("5").unwrap();
    assert_eq!(a.stroops(), 5 * STROOPS_PER_XLM);
}

#[test]
fn decimal_fractional() {
    let a = Amount::from_xlm_decimal("1.2345678").unwrap();
    assert_eq!(a.stroops(), 1 * STROOPS_PER_XLM + 2_345_678);
}

#[test]
fn decimal_too_many_digits_rejected() {
    assert_eq!(
        Amount::from_xlm_decimal("1.12345678"),
        Err(AmountError::LossOfPrecision)
    );
}

#[test]
fn decimal_zero_rejected() {
    assert_eq!(Amount::from_xlm_decimal("0"), Err(AmountError::Zero));
    assert_eq!(
        Amount::from_xlm_decimal("0.0000000"),
        Err(AmountError::Zero)
    );
}

#[test]
fn decimal_negative_rejected() {
    assert_eq!(
        Amount::from_xlm_decimal("-1.0"),
        Err(AmountError::NotRepresentable)
    );
}

#[test]
fn decimal_partial_stroops() {
    let a = Amount::from_xlm_decimal("0.0000001").unwrap();
    assert_eq!(a.stroops(), 1);
}

#[test]
fn decimal_large_value() {
    // MAX_STROOPS = 9_223_372_036_854_775_807
    // In XLM: 922_337_203_685.4775807
    let a = Amount::from_xlm_decimal("922337203685.4775807").unwrap();
    assert_eq!(a.stroops(), MAX_STROOPS);
}

#[test]
fn from_i64_positive() {
    let a = Amount::from_i64(100).unwrap();
    assert_eq!(a.stroops(), 100);
}

#[test]
fn from_i64_zero_rejected() {
    assert_eq!(Amount::from_i64(0), Err(AmountError::Zero));
}

#[test]
fn from_i64_negative_rejected() {
    assert_eq!(Amount::from_i64(-1), Err(AmountError::NotRepresentable));
}

#[test]
fn display_whole() {
    let a = Amount::from_xlm(5).unwrap();
    assert_eq!(a.to_xlm_string(), "5.0000000");
}

#[test]
fn display_fractional() {
    let a = Amount::new(1_234_567).unwrap();
    assert_eq!(a.to_xlm_string(), "0.1234567");
}

#[test]
fn add_basic() {
    let a = Amount::new(100).unwrap();
    let b = Amount::new(200).unwrap();
    assert_eq!((a + b).unwrap().stroops(), 300);
}

#[test]
fn add_overflow_rejected() {
    let a = Amount::new(MAX_STROOPS).unwrap();
    let b = Amount::new(1).unwrap();
    // u64 addition succeeds (both < u64::MAX), but result > MAX_STROOPS
    // so Amount::new() returns Overflow.
    assert_eq!(a + b, Err(AmountError::Overflow));
}

#[test]
fn sub_basic() {
    let a = Amount::new(300).unwrap();
    let b = Amount::new(100).unwrap();
    assert_eq!((a - b).unwrap().stroops(), 200);
}

#[test]
fn sub_negative_rejected() {
    let a = Amount::new(100).unwrap();
    let b = Amount::new(200).unwrap();
    assert_eq!(a - b, Err(AmountError::NegativeResult));
}

#[test]
fn sub_exact_zero_rejected() {
    let a = Amount::new(100).unwrap();
    let b = Amount::new(100).unwrap();
    assert_eq!(a - b, Err(AmountError::Zero));
}

#[test]
fn mul_u64_basic() {
    let a = Amount::new(100).unwrap();
    assert_eq!(a.checked_mul_u64(5).unwrap().stroops(), 500);
}

#[test]
fn mul_u64_overflow() {
    let a = Amount::new(MAX_STROOPS).unwrap();
    // u64 mul succeeds but result > MAX_STROOPS → Overflow.
    assert_eq!(a.checked_mul_u64(2), Err(AmountError::Overflow));
}

#[test]
fn div_u64_basic() {
    let a = Amount::new(1000).unwrap();
    assert_eq!(a.checked_div_u64(10).unwrap(), 100);
}

#[test]
fn div_u64_by_zero() {
    let a = Amount::new(100).unwrap();
    assert_eq!(a.checked_div_u64(0), Err(AmountError::DivisionByZero));
}

#[test]
fn bps_fee_basic() {
    let a = Amount::from_xlm(100).unwrap();
    let fee = a.basis_point_fee(250).unwrap(); // 2.5%
    assert_eq!(
        fee,
        (Amount::from_xlm(2).unwrap() + Amount::from_xlm_decimal("0.5").unwrap()).unwrap()
    );
}

#[test]
fn bps_fee_zero_rejected() {
    let a = Amount::new(100).unwrap();
    assert_eq!(a.basis_point_fee(0), Err(AmountError::Zero));
}

#[test]
fn bps_fee_over_10000_rejected() {
    let a = Amount::new(100).unwrap();
    assert_eq!(a.basis_point_fee(10_001), Err(AmountError::Overflow));
}

#[test]
fn bps_fee_max_amount() {
    let a = Amount::new(MAX_STROOPS).unwrap();
    let fee = a.basis_point_fee(1).unwrap();
    assert_eq!(fee.stroops(), MAX_STROOPS / 10_000);
}

#[test]
fn bps_fee_exact_10000_is_full_amount() {
    let a = Amount::from_xlm(10).unwrap();
    let fee = a.basis_point_fee(10_000).unwrap();
    assert_eq!(fee, a);
}

#[test]
fn pct_fee_basic() {
    let a = Amount::from_xlm(200).unwrap();
    let fee = a.percentage_fee(10).unwrap(); // 10%
    assert_eq!(fee.stroops(), 20 * STROOPS_PER_XLM);
}

#[test]
fn pct_fee_zero_rejected() {
    let a = Amount::new(100).unwrap();
    assert_eq!(a.percentage_fee(0), Err(AmountError::Zero));
}

#[test]
fn pct_fee_over_100_rejected() {
    let a = Amount::new(100).unwrap();
    assert_eq!(a.percentage_fee(101), Err(AmountError::Overflow));
}

#[test]
fn accumulate_balance_basic() {
    let bal = Amount::from_xlm(100).unwrap();
    let delta = Amount::from_xlm(50).unwrap();
    let new = Amount::accumulate_balance(bal, delta).unwrap();
    assert_eq!(new, Amount::from_xlm(150).unwrap());
}

#[test]
fn accumulate_balance_overflow() {
    let bal = Amount::new(MAX_STROOPS).unwrap();
    let delta = Amount::new(1).unwrap();
    assert_eq!(
        Amount::accumulate_balance(bal, delta),
        Err(AmountError::Overflow)
    );
}

#[test]
fn deduct_balance_basic() {
    let bal = Amount::from_xlm(100).unwrap();
    let delta = Amount::from_xlm(30).unwrap();
    let new = Amount::deduct_balance(bal, delta).unwrap();
    assert_eq!(new, Amount::from_xlm(70).unwrap());
}

#[test]
fn deduct_balance_insufficient() {
    let bal = Amount::from_xlm(10).unwrap();
    let delta = Amount::from_xlm(20).unwrap();
    assert_eq!(
        Amount::deduct_balance(bal, delta),
        Err(AmountError::NegativeResult)
    );
}

#[test]
fn mul_amount_basic() {
    let a = Amount::new(1_000).unwrap();
    let b = Amount::new(2_000).unwrap();
    assert_eq!(a.checked_mul_amount(b).unwrap(), 2_000_000);
}

#[test]
fn mul_amount_large_values() {
    let a = Amount::new(MAX_STROOPS).unwrap();
    let b = Amount::new(MAX_STROOPS).unwrap();
    let result = a.checked_mul_amount(b).unwrap();
    assert_eq!(result, (MAX_STROOPS as u128) * (MAX_STROOPS as u128));
}

#[test]
fn stroops_one_below_max() {
    let a = Amount::new(MAX_STROOPS - 1).unwrap();
    let one = Amount::new(1).unwrap();
    assert_eq!(a.checked_add(one).unwrap().stroops(), MAX_STROOPS);
}

#[test]
fn stroops_max_minus_stroops_max_is_zero_rejected() {
    let a = Amount::new(MAX_STROOPS).unwrap();
    let b = Amount::new(MAX_STROOPS).unwrap();
    assert_eq!(a - b, Err(AmountError::Zero));
}

#[test]
fn conversion_roundtrip_xlm() {
    let original = Amount::from_xlm(42).unwrap();
    let as_i64 = original.as_i64();
    let reconstructed = Amount::from_i64(as_i64).unwrap();
    assert_eq!(original, reconstructed);
}

#[test]
fn conversion_roundtrip_decimal() {
    let original = Amount::from_xlm_decimal("3.1415926").unwrap();
    let reconstructed = Amount::from_xlm_decimal(&original.to_xlm_string()).unwrap();
    assert_eq!(original, reconstructed);
}

/// Verify against an independent oracle: 1 XLM = 10^7 stroops.
#[test]
fn oracle_one_xlm_equals_10e7_stroops() {
    let a = Amount::from_xlm(1).unwrap();
    assert_eq!(a.stroops(), 10_000_000);
}

/// Verify fee oracle: 250 bps on 1000 XLM = 25 XLM.
#[test]
fn oracle_bps_fee_250_on_1000_xlm() {
    let amount = Amount::from_xlm(1000).unwrap();
    let fee = amount.basis_point_fee(250).unwrap();
    assert_eq!(fee, Amount::from_xlm(25).unwrap());
}

/// Verify fee oracle: 10% on 500 XLM = 50 XLM.
#[test]
fn oracle_pct_fee_10_on_500_xlm() {
    let amount = Amount::from_xlm(500).unwrap();
    let fee = amount.percentage_fee(10).unwrap();
    assert_eq!(fee, Amount::from_xlm(50).unwrap());
}

/// Verify that near-max addition does not silently wrap.
#[test]
fn oracle_near_max_no_wrap() {
    let a = Amount::new(MAX_STROOPS - 1).unwrap();
    let b = Amount::new(2).unwrap();
    assert_eq!(a + b, Err(AmountError::Overflow));
}
