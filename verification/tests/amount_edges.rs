//! Amounts at the edges of their range and of their text.

use meridian_api::amount::{Amount, AmountError, MAX_STROOPS, STROOPS_PER_XLM, STROOP_DECIMALS};
use meridian_api::decimal::{decimal_string, fixed_decimal_string, parse_u64};

#[test]
fn constants_agree() {
    assert_eq!(MAX_STROOPS, i64::MAX as u64);
    assert_eq!(STROOPS_PER_XLM, 10u64.pow(STROOP_DECIMALS));
}

#[test]
fn decimal_text_without_whole_part() {
    assert_eq!(Amount::from_xlm_decimal(".5").unwrap().stroops(), 5_000_000);
    assert_eq!(Amount::from_xlm_decimal("."), Err(AmountError::Zero));
}

#[test]
fn decimal_text_without_fraction() {
    assert_eq!(Amount::from_xlm_decimal("3.").unwrap().stroops(), 30_000_000);
}

#[test]
fn decimal_text_that_is_no_number() {
    for text in ["", "abc", "1.2.3", "..", "1,5", "1.x", "1.-5", "1.5+", "-5", " 1", "1.\u{e9}"] {
        assert_eq!(
            Amount::from_xlm_decimal(text),
            Err(AmountError::NotRepresentable),
            "{text}"
        );
    }
}

#[test]
fn decimal_text_with_plus_sign() {
    assert_eq!(Amount::from_xlm_decimal("+2").unwrap().stroops(), 20_000_000);
    assert_eq!(Amount::from_xlm_decimal("1.+5").unwrap().stroops(), 10_500_000);
    assert_eq!(Amount::from_xlm_decimal("1.+").unwrap().stroops(), 10_000_000);
}

#[test]
fn decimal_precision_is_counted_in_bytes() {
    assert_eq!(
        Amount::from_xlm_decimal("1.\u{e9}\u{e9}\u{e9}\u{e9}"),
        Err(AmountError::LossOfPrecision)
    );
    assert_eq!(
        Amount::from_xlm_decimal("x.12345678"),
        Err(AmountError::LossOfPrecision)
    );
}

#[test]
fn decimal_text_over_the_range() {
    assert_eq!(
        Amount::from_xlm_decimal("922337203685.4775808"),
        Err(AmountError::Overflow)
    );
    assert_eq!(
        Amount::from_xlm_decimal("18446744073709551615"),
        Err(AmountError::Overflow)
    );
    assert_eq!(
        Amount::from_xlm_decimal("18446744073709551615.5"),
        Err(AmountError::Overflow)
    );
    assert_eq!(
        Amount::from_xlm_decimal("18446744073709551616"),
        Err(AmountError::NotRepresentable)
    );
}

#[test]
fn text_and_decimal_roundtrip_at_the_edges() {
    for stroops in [1, 9_999_999, 10_000_000, 10_000_001, MAX_STROOPS] {
        let amount = Amount::new(stroops).unwrap();
        let text = amount.to_xlm_string();
        assert_eq!(Amount::from_xlm_decimal(&text), Ok(amount));
        assert_eq!(Amount::from_i64(amount.as_i64()), Ok(amount));
        assert_eq!(
            amount.whole_xlm() * STROOPS_PER_XLM + amount.fractional_stroops(),
            stroops
        );
    }
    assert_eq!(
        Amount::new(MAX_STROOPS).unwrap().to_xlm_string(),
        "922337203685.4775807"
    );
}

#[test]
fn amount_text_has_its_unit() {
    assert_eq!(Amount::new(10_000_001).unwrap().to_string(), "1.0000001 XLM");
}

#[test]
fn multiplication_past_64_bits() {
    let amount = Amount::new(MAX_STROOPS).unwrap();
    assert_eq!(amount.checked_mul_u64(3), Err(AmountError::ArithmeticOverflow));
    assert_eq!(amount.checked_mul_u64(0), Err(AmountError::Zero));
}

#[test]
fn division_rounds_down() {
    assert_eq!(Amount::new(7).unwrap().checked_div_u64(2), Ok(3));
    assert_eq!(Amount::new(7).unwrap().checked_div_u64(8), Ok(0));
}

#[test]
fn fees_round_down() {
    let amount = Amount::new(19_999).unwrap();
    assert_eq!(amount.basis_point_fee(1).unwrap().stroops(), 1);
    assert_eq!(Amount::new(9_999).unwrap().basis_point_fee(1), Err(AmountError::Zero));
    assert_eq!(Amount::new(199).unwrap().percentage_fee(1).unwrap().stroops(), 1);
    assert_eq!(Amount::new(99).unwrap().percentage_fee(1), Err(AmountError::Zero));
}

#[test]
fn full_fee_is_the_principal_and_no_fee_is_more() {
    let amount = Amount::new(MAX_STROOPS).unwrap();
    assert_eq!(amount.percentage_fee(100), Ok(amount));
    assert_eq!(amount.basis_point_fee(10_000), Ok(amount));
    for bps in [1, 17, 5_000, 9_999] {
        assert!(amount.basis_point_fee(bps).unwrap() <= amount);
    }
}

#[test]
fn deducting_undoes_accumulating() {
    let current = Amount::new(123).unwrap();
    let delta = Amount::new(456).unwrap();
    let sum = Amount::accumulate_balance(current, delta).unwrap();
    assert_eq!(Amount::deduct_balance(sum, delta), Ok(current));
}

#[test]
fn amount_error_texts() {
    let texts = [
        (AmountError::Zero, "amount must be strictly positive"),
        (AmountError::Overflow, "amount exceeds maximum stellar value"),
        (AmountError::ArithmeticOverflow, "arithmetic overflow"),
        (AmountError::NegativeResult, "subtraction would produce a negative result"),
        (AmountError::DivisionByZero, "division by zero"),
        (AmountError::LossOfPrecision, "conversion would lose fractional precision"),
        (AmountError::NotRepresentable, "value cannot be represented"),
    ];
    for (error, text) in texts {
        assert_eq!(error.to_string(), text);
    }
}

#[test]
fn decimal_numbers_roundtrip() {
    for n in [0, 9, 10, 99, 12_345, u64::MAX] {
        assert_eq!(decimal_string(n), format!("{n}"));
        assert_eq!(parse_u64(&decimal_string(n)), Some(n));
    }
    assert_eq!(parse_u64("18446744073709551616"), None);
    assert_eq!(parse_u64("+"), None);
    assert_eq!(parse_u64("007"), Some(7));
}

#[test]
fn fixed_decimal_numbers() {
    assert_eq!(fixed_decimal_string(42, 7), "0000042");
    assert_eq!(fixed_decimal_string(123, 2), "23");
    assert_eq!(fixed_decimal_string(5, 0), "");
}
