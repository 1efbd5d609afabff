//! What the validators say, and where their limits lie.

use meridian_api::amount::{Amount, MAX_STROOPS};
use meridian_api::auth::validation::{
    validate_auth_amount, validate_balance_delta, validate_fee_amount, validate_password,
    validate_recovery_balance_consistency, validate_session_id, validate_subject,
};
use meridian_api::auth::AuthError;

fn amount_failure<T>(text: &str) -> Result<T, AuthError> {
    Err(AuthError::AmountValidationFailed(text.to_string()))
}

fn malformed<T>(text: &str) -> Result<T, AuthError> {
    Err(AuthError::ValidationError(text.to_string()))
}

#[test]
fn auth_amount_failures_in_words() {
    assert_eq!(
        validate_auth_amount(0),
        amount_failure("amount must be strictly positive")
    );
    assert_eq!(
        validate_auth_amount(MAX_STROOPS + 1),
        amount_failure("amount exceeds maximum stellar value")
    );
}

#[test]
fn balance_delta_failures_in_words() {
    let one = Amount::new(1).unwrap();
    let two = Amount::new(2).unwrap();
    let most = Amount::new(MAX_STROOPS).unwrap();
    assert_eq!(
        validate_balance_delta(most, one, "credit"),
        amount_failure("credit: amount exceeds maximum stellar value")
    );
    assert_eq!(
        validate_balance_delta(one, two, "debit"),
        amount_failure("debit: subtraction would produce a negative result")
    );
    assert_eq!(
        validate_balance_delta(one, one, "debit"),
        amount_failure("debit: amount must be strictly positive")
    );
    assert_eq!(
        validate_balance_delta(one, two, "Credit"),
        malformed("unknown operation: Credit")
    );
    assert_eq!(validate_balance_delta(one, two, ""), malformed("unknown operation: "));
}

#[test]
fn fee_failures_in_words() {
    let principal = Amount::from_xlm(1000).unwrap();
    assert_eq!(
        validate_fee_amount(principal, 500, 250),
        amount_failure("fee 500000000 exceeds max ratio 250 bps")
    );
    assert_eq!(
        validate_fee_amount(principal, 0, 250),
        amount_failure("fee calc: amount must be strictly positive")
    );
    assert_eq!(
        validate_fee_amount(principal, 10, 10_001),
        amount_failure("fee calc: amount exceeds maximum stellar value")
    );
}

#[test]
fn fee_that_passes_is_bounded() {
    let principal = Amount::from_xlm(1000).unwrap();
    let fee = validate_fee_amount(principal, 250, 250).unwrap();
    assert_eq!(fee, principal.basis_point_fee(250).unwrap());
    assert!(fee <= principal);
}

#[test]
fn subject_limits_are_in_bytes() {
    assert!(validate_subject(&"x".repeat(256)).is_ok());
    assert!(validate_subject(&"\u{e9}".repeat(128)).is_ok());
    assert_eq!(
        validate_subject(&"\u{e9}".repeat(129)),
        malformed("subject exceeds maximum length of 256")
    );
    assert_eq!(validate_subject(""), malformed("subject must not be empty"));
}

#[test]
fn password_limits_are_in_bytes() {
    assert_eq!(
        validate_password("1234567"),
        malformed("password must be at least 8 characters")
    );
    assert!(validate_password("12345678").is_ok());
    assert!(validate_password("\u{e9}\u{e9}\u{e9}\u{e9}").is_ok());
    assert!(validate_password(&"x".repeat(72)).is_ok());
    assert_eq!(
        validate_password(&"x".repeat(73)),
        malformed("password must not exceed 72 characters")
    );
}

#[test]
fn session_id_zero_in_words() {
    assert_eq!(validate_session_id(0), malformed("session id must be positive"));
    assert_eq!(validate_session_id(u64::MAX), Ok(u64::MAX));
}

#[test]
fn balance_consistency_failures_in_words() {
    let one = Amount::new(1).unwrap();
    let most = Amount::new(MAX_STROOPS).unwrap();
    assert_eq!(
        validate_recovery_balance_consistency(most, most, Some(one)),
        amount_failure("recovery balance: amount exceeds maximum stellar value")
    );
    assert_eq!(
        validate_recovery_balance_consistency(one, one, Some(one)),
        amount_failure("recovery balance does not match expected value")
    );
}

#[test]
fn auth_error_texts() {
    let texts = [
        (AuthError::TokenExpired, "token has expired"),
        (AuthError::TokenRevoked, "token has been revoked"),
        (AuthError::TokenInvalid("x".to_string()), "invalid token: x"),
        (AuthError::TokenAlreadyUsed, "token has already been used"),
        (AuthError::InvalidCredentials, "invalid credentials"),
        (
            AuthError::AccountLocked { retry_after_secs: 42 },
            "account locked, retry after 42s",
        ),
        (AuthError::AccountDeactivated, "account is deactivated"),
        (AuthError::RecoveryTokenInvalid, "recovery token is invalid"),
        (AuthError::RecoveryAlreadyCompleted, "recovery already completed"),
        (AuthError::RecoveryPending, "recovery request is still pending"),
        (AuthError::RecoveryCancelled, "recovery request has been cancelled"),
        (AuthError::SessionNotFound, "session not found"),
        (AuthError::SessionSuperseded, "session superseded by newer login"),
        (AuthError::ConcurrencyConflict, "concurrent modification conflict"),
        (
            AuthError::AmountValidationFailed("x".to_string()),
            "amount validation: x",
        ),
        (AuthError::ValidationError("x".to_string()), "validation: x"),
        (AuthError::InternalError("x".to_string()), "internal error: x"),
    ];
    for (error, text) in texts {
        assert_eq!(error.to_string(), text);
    }
}
