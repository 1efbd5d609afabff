//! Validation of what requests carry.

use meridian_api::amount::{Amount, MAX_STROOPS};
use meridian_api::auth::validation::{
    validate_auth_amount, validate_balance_delta, validate_fee_amount, validate_password,
    validate_recovery_balance_consistency, validate_recovery_token_expiry, validate_session_id,
    validate_subject,
};
use meridian_api::auth::AuthError;

#[test]
fn validate_auth_amount_valid() {
    let a = validate_auth_amount(1_000_000).unwrap();
    assert_eq!(a.stroops(), 1_000_000);
}

#[test]
fn validate_auth_amount_zero_rejected() {
    assert!(validate_auth_amount(0).is_err());
}

#[test]
fn validate_auth_amount_overflow_rejected() {
    assert!(validate_auth_amount(MAX_STROOPS + 1).is_err());
}

#[test]
fn validate_balance_delta_credit() {
    let current = Amount::from_xlm(100).unwrap();
    let delta = Amount::from_xlm(50).unwrap();
    let result = validate_balance_delta(current, delta, "credit").unwrap();
    assert_eq!(result, Amount::from_xlm(150).unwrap());
}

#[test]
fn validate_balance_delta_debit() {
    let current = Amount::from_xlm(100).unwrap();
    let delta = Amount::from_xlm(30).unwrap();
    let result = validate_balance_delta(current, delta, "debit").unwrap();
    assert_eq!(result, Amount::from_xlm(70).unwrap());
}

#[test]
fn validate_balance_delta_insufficient_debit() {
    let current = Amount::from_xlm(10).unwrap();
    let delta = Amount::from_xlm(20).unwrap();
    assert!(validate_balance_delta(current, delta, "debit").is_err());
}

#[test]
fn validate_balance_delta_unknown_operation() {
    let current = Amount::from_xlm(10).unwrap();
    let delta = Amount::from_xlm(5).unwrap();
    assert!(validate_balance_delta(current, delta, "multiply").is_err());
}

#[test]
fn validate_balance_delta_overflow_credit() {
    let current = Amount::new(MAX_STROOPS).unwrap();
    let delta = Amount::new(1).unwrap();
    assert!(validate_balance_delta(current, delta, "credit").is_err());
}

#[test]
fn validate_fee_within_bounds() {
    let principal = Amount::from_xlm(1000).unwrap();
    let fee = validate_fee_amount(principal, 250, 500).unwrap(); // 2.5% fee, max 5%
    assert_eq!(fee, Amount::from_xlm(25).unwrap());
}

#[test]
fn validate_fee_exceeds_max() {
    let principal = Amount::from_xlm(1000).unwrap();
    let result = validate_fee_amount(principal, 500, 250); // 5% fee, max 2.5%
    assert!(result.is_err());
}

#[test]
fn validate_session_id_valid() {
    assert_eq!(validate_session_id(1).unwrap(), 1);
}

#[test]
fn validate_session_id_zero_rejected() {
    assert!(validate_session_id(0).is_err());
}

#[test]
fn validate_subject_valid() {
    assert!(validate_subject("alice").is_ok());
}

#[test]
fn validate_subject_empty_rejected() {
    assert!(validate_subject("").is_err());
}

#[test]
fn validate_subject_too_long_rejected() {
    let long = "x".repeat(257);
    assert!(validate_subject(&long).is_err());
}

#[test]
fn validate_password_valid() {
    assert!(validate_password("securepassword").is_ok());
}

#[test]
fn validate_password_too_short() {
    assert!(validate_password("short").is_err());
}

#[test]
fn validate_password_too_long() {
    let long = "x".repeat(73);
    assert!(validate_password(&long).is_err());
}

#[test]
fn validate_recovery_token_expiry_valid() {
    assert!(validate_recovery_token_expiry(200, 100).is_ok());
}

#[test]
fn validate_recovery_token_expiry_expired() {
    assert_eq!(
        validate_recovery_token_expiry(100, 100),
        Err(AuthError::TokenExpired)
    );
}

#[test]
fn validate_recovery_token_expiry_already_past() {
    assert_eq!(
        validate_recovery_token_expiry(50, 100),
        Err(AuthError::TokenExpired)
    );
}

#[test]
fn validate_recovery_balance_consistent() {
    let prev = Amount::from_xlm(100).unwrap();
    let delta = Amount::from_xlm(50).unwrap();
    let claimed = Amount::from_xlm(150).unwrap();
    assert!(validate_recovery_balance_consistency(prev, claimed, Some(delta)).is_ok());
}

#[test]
fn validate_recovery_balance_inconsistent() {
    let prev = Amount::from_xlm(100).unwrap();
    let delta = Amount::from_xlm(50).unwrap();
    let claimed = Amount::from_xlm(200).unwrap(); // wrong!
    assert!(validate_recovery_balance_consistency(prev, claimed, Some(delta)).is_err());
}

#[test]
fn validate_recovery_balance_within_range() {
    let prev = Amount::from_xlm(100).unwrap();
    let claimed = Amount::new(MAX_STROOPS).unwrap();
    assert!(validate_recovery_balance_consistency(prev, claimed, None).is_ok());
}

/// Verify that fee validation is consistent with the amount module's
/// oracle tests.
#[test]
fn oracle_fee_consistency() {
    let principal = Amount::from_xlm(1000).unwrap();
    let fee_250bps = validate_fee_amount(principal, 250, 10_000).unwrap();
    let manual_fee = Amount::from_xlm(25).unwrap();
    assert_eq!(fee_250bps, manual_fee);
}

/// Verify that balance delta validation is lossless.
#[test]
fn oracle_delta_lossless() {
    let a = Amount::from_xlm_decimal("1.2345678").unwrap();
    let b = Amount::from_xlm_decimal("0.0000001").unwrap();
    let sum = validate_balance_delta(a, b, "credit").unwrap();
    let expected = Amount::from_xlm_decimal("1.2345679").unwrap();
    assert_eq!(sum, expected);
}
