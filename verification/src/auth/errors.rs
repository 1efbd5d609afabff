//! Authentication errors.

use vstd::prelude::*;

use crate::decimal::decimal_string;
use crate::text::joined;

verus! {

/// Errors of the authentication and recovery flows.
#[derive(Debug, Clone, PartialEq, Eq, Hash)]
pub enum AuthError {
    /// The access or refresh token has expired.
    TokenExpired,
    /// The token was revoked.
    TokenRevoked,
    /// The token is not one that the store knows.
    TokenInvalid(String),
    /// The token has already been consumed.
    TokenAlreadyUsed,
    /// The provided credentials are incorrect.
    InvalidCredentials,
    /// The account is locked after too many failed attempts.
    AccountLocked { retry_after_secs: u64 },
    /// The account has been deactivated.
    AccountDeactivated,
    /// The recovery token is invalid or expired.
    RecoveryTokenInvalid,
    /// The recovery request has already been completed.
    RecoveryAlreadyCompleted,
    /// The recovery request is still pending.
    RecoveryPending,
    /// The recovery request has been cancelled.
    RecoveryCancelled,
    /// The session does not exist or was terminated.
    SessionNotFound,
    /// The session was superseded by a new login.
    SessionSuperseded,
    /// Concurrent modification detected.
    ConcurrencyConflict,
    /// An amount in the payload failed the precision checks.
    AmountValidationFailed(String),
    /// A required field is missing or malformed.
    ValidationError(String),
    /// An internal invariant was violated.
    InternalError(String),
}

impl AuthError {
    /// The message of this error.
    pub open spec fn message(self) -> Seq<char> {
        match self {
            AuthError::TokenExpired => "token has expired"@,
            AuthError::TokenRevoked => "token has been revoked"@,
            AuthError::TokenInvalid(detail) => "invalid token: "@ + detail@,
            AuthError::TokenAlreadyUsed => "token has already been used"@,
            AuthError::InvalidCredentials => "invalid credentials"@,
            AuthError::AccountLocked { retry_after_secs } => "account locked, retry after "@
                + crate::decimal::digits(retry_after_secs as nat) + "s"@,
            AuthError::AccountDeactivated => "account is deactivated"@,
            AuthError::RecoveryTokenInvalid => "recovery token is invalid"@,
            AuthError::RecoveryAlreadyCompleted => "recovery already completed"@,
            AuthError::RecoveryPending => "recovery request is still pending"@,
            AuthError::RecoveryCancelled => "recovery request has been cancelled"@,
            AuthError::SessionNotFound => "session not found"@,
            AuthError::SessionSuperseded => "session superseded by newer login"@,
            AuthError::ConcurrencyConflict => "concurrent modification conflict"@,
            AuthError::AmountValidationFailed(msg) => "amount validation: "@ + msg@,
            AuthError::ValidationError(msg) => "validation: "@ + msg@,
            AuthError::InternalError(msg) => "internal error: "@ + msg@,
        }
    }

    /// The message of this error, for people to read.
    pub fn to_string(&self) -> (text: String)
        ensures
            text@ == self.message(),
    {
        match self {
            AuthError::TokenExpired => "token has expired".to_owned(),
            AuthError::TokenRevoked => "token has been revoked".to_owned(),
            AuthError::TokenInvalid(detail) => joined("invalid token: ", detail.as_str()),
            AuthError::TokenAlreadyUsed => "token has already been used".to_owned(),
            AuthError::InvalidCredentials => "invalid credentials".to_owned(),
            AuthError::AccountLocked { retry_after_secs } => {
                let mut text = "account locked, retry after ".to_owned();
                text.append(decimal_string(*retry_after_secs).as_str());
                text.append("s");
                text
            },
            AuthError::AccountDeactivated => "account is deactivated".to_owned(),
            AuthError::RecoveryTokenInvalid => "recovery token is invalid".to_owned(),
            AuthError::RecoveryAlreadyCompleted => "recovery already completed".to_owned(),
            AuthError::RecoveryPending => "recovery request is still pending".to_owned(),
            AuthError::RecoveryCancelled => "recovery request has been cancelled".to_owned(),
            AuthError::SessionNotFound => "session not found".to_owned(),
            AuthError::SessionSuperseded => "session superseded by newer login".to_owned(),
            AuthError::ConcurrencyConflict => "concurrent modification conflict".to_owned(),
            AuthError::AmountValidationFailed(msg) => joined("amount validation: ", msg.as_str()),
            AuthError::ValidationError(msg) => joined("validation: ", msg.as_str()),
            AuthError::InternalError(msg) => joined("internal error: ", msg.as_str()),
        }
    }
}

} // verus!
