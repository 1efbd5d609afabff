//! Sign-in, logout, verification and session refresh.

use meridian_api::amount::{Amount, MAX_STROOPS};
use meridian_api::auth::{AuthError, AuthService};

fn setup() -> AuthService {
    AuthService::new()
}

#[test]
fn login_success() {
    let mut auth = setup();
    let result = auth.login("alice".into(), "password123", None);
    assert!(result.is_ok());
    let lr = result.unwrap();
    assert_eq!(lr.session.subject, "alice");
    assert!(lr.balance.is_none());
}

#[test]
fn login_with_valid_balance() {
    let mut auth = setup();
    let result = auth.login("alice".into(), "password123", Some(1_000_000_000));
    assert!(result.is_ok());
    let lr = result.unwrap();
    assert_eq!(lr.balance, Some(Amount::new(1_000_000_000).unwrap()));
}

#[test]
fn login_rejects_zero_balance() {
    let mut auth = setup();
    let result = auth.login("alice".into(), "password123", Some(0));
    assert!(result.is_err());
    match result.unwrap_err() {
        AuthError::AmountValidationFailed(_) => {}
        other => panic!("expected AmountValidationFailed, got {other:?}"),
    }
}

#[test]
fn login_rejects_overflow_balance() {
    let mut auth = setup();
    let result = auth.login(
        "alice".into(),
        "password123",
        Some(MAX_STROOPS + 1),
    );
    assert!(result.is_err());
    match result.unwrap_err() {
        AuthError::AmountValidationFailed(_) => {}
        other => panic!("expected AmountValidationFailed, got {other:?}"),
    }
}

#[test]
fn login_empty_password_fails() {
    let mut auth = setup();
    let result = auth.login("alice".into(), "", None);
    assert_eq!(result, Err(AuthError::InvalidCredentials));
}

#[test]
fn login_lockout_after_max_attempts() {
    let mut auth = setup();
    for _ in 0..5 {
        let _ = auth.login("alice".into(), "", None); // empty = wrong
    }
    // Next attempt should be locked.
    let result = auth.login("alice".into(), "", None);
    assert!(matches!(result, Err(AuthError::AccountLocked { .. })));
}

#[test]
fn login_success_resets_attempt_counter() {
    let mut auth = setup();
    let _ = auth.login("alice".into(), "", None); // 1 failure
    let _ = auth.login("alice".into(), "", None); // 2 failures
    let _ = auth.login("alice".into(), "password", None); // success
                                                          // Should not be locked.
    let result = auth.login("alice".into(), "", None);
    assert_eq!(result, Err(AuthError::InvalidCredentials)); // not locked
}

#[test]
fn logout_revokes_tokens() {
    let mut auth = setup();
    let lr = auth.login("alice".into(), "password", None).unwrap();
    let session_id = lr.session.id;

    auth.logout(session_id).unwrap();

    assert!(auth.store().is_revoked(lr.tokens.access.id));
    assert!(auth.store().is_revoked(lr.tokens.refresh.id));
}

#[test]
fn logout_nonexistent_session_fails() {
    let mut auth = setup();
    assert_eq!(auth.logout(999), Err(AuthError::SessionNotFound));
}

#[test]
fn logout_all_terminates_every_session() {
    let mut auth = setup();
    let lr1 = auth.login("alice".into(), "password", None).unwrap();
    let lr2 = auth.login("alice".into(), "password", None).unwrap();

    let count = auth.logout_all("alice").unwrap();
    assert_eq!(count, 2);

    assert!(auth.store().is_revoked(lr1.tokens.access.id));
    assert!(auth.store().is_revoked(lr2.tokens.access.id));
}

#[test]
fn verify_valid_token_returns_subject() {
    let mut auth = setup();
    let lr = auth.login("alice".into(), "password", None).unwrap();
    let subject = auth.verify_token(&lr.tokens.access).unwrap();
    assert_eq!(subject, "alice");
}

#[test]
fn flows_verify_revoked_token_fails() {
    let mut auth = setup();
    let lr = auth.login("alice".into(), "password", None).unwrap();
    auth.logout(lr.session.id).unwrap();
    assert_eq!(
        auth.verify_token(&lr.tokens.access),
        Err(AuthError::TokenRevoked)
    );
}

#[test]
fn concurrent_logins_create_separate_sessions() {
    let mut auth = setup();
    let lr1 = auth.login("alice".into(), "password", None).unwrap();
    let lr2 = auth.login("alice".into(), "password", None).unwrap();

    assert_ne!(lr1.session.id, lr2.session.id);
    assert_ne!(lr1.tokens.access.id, lr2.tokens.access.id);
    assert_eq!(auth.session_count(), 2);
}

#[test]
fn logout_one_session_does_not_affect_other() {
    let mut auth = setup();
    let lr1 = auth.login("alice".into(), "password", None).unwrap();
    let lr2 = auth.login("alice".into(), "password", None).unwrap();

    auth.logout(lr1.session.id).unwrap();

    // Second session's tokens should still be valid.
    assert!(auth.verify_token(&lr2.tokens.access).is_ok());
}

#[test]
fn refresh_creates_new_valid_tokens() {
    let mut auth = setup();
    let lr = auth.login("alice".into(), "password", None).unwrap();
    let new_pair = auth.refresh_session(&lr.tokens.refresh).unwrap();

    // New tokens are valid.
    assert!(auth.verify_token(&new_pair.access).is_ok());
}

#[test]
fn refresh_replay_kills_session() {
    let mut auth = setup();
    let lr = auth.login("alice".into(), "password", None).unwrap();
    let _ = auth.refresh_session(&lr.tokens.refresh).unwrap();

    // Replay old refresh token.
    let result = auth.refresh_session(&lr.tokens.refresh);
    assert_eq!(result, Err(AuthError::TokenAlreadyUsed));
}

#[test]
fn refresh_updates_session_tokens() {
    let mut auth = setup();
    let lr = auth.login("alice".into(), "password", None).unwrap();
    let session_id = lr.session.id;

    let new_pair = auth.refresh_session(&lr.tokens.refresh).unwrap();

    // The session should now hold the new tokens.
    let session = auth.session(session_id).unwrap();
    assert_eq!(session.tokens.access.id, new_pair.access.id);
    assert_eq!(session.tokens.refresh.id, new_pair.refresh.id);
}

#[test]
fn refresh_old_access_token_invalidated() {
    let mut auth = setup();
    let lr = auth.login("alice".into(), "password", None).unwrap();
    let old_access = lr.tokens.access.clone();

    let _ = auth.refresh_session(&lr.tokens.refresh).unwrap();

    // Old access token should be revoked.
    assert!(auth.store().is_revoked(old_access.id));
}

#[test]
fn refresh_new_access_token_valid() {
    let mut auth = setup();
    let lr = auth.login("alice".into(), "password", None).unwrap();

    let new_pair = auth.refresh_session(&lr.tokens.refresh).unwrap();

    // New access token should be valid.
    let subject = auth.verify_token(&new_pair.access).unwrap();
    assert_eq!(subject, "alice");
}

#[test]
fn logout_revokes_tokens_and_supersedes_session() {
    let mut auth = setup();
    let lr = auth.login("alice".into(), "password", None).unwrap();
    let session_id = lr.session.id;

    auth.logout(session_id).unwrap();

    // Tokens are revoked.
    assert!(auth.store().is_revoked(lr.tokens.access.id));
    assert!(auth.store().is_revoked(lr.tokens.refresh.id));
    // Session is superseded.
    assert!(auth.session(session_id).unwrap().superseded);
}

#[test]
fn logout_all_supersedes_all_sessions() {
    let mut auth = setup();
    let lr1 = auth.login("alice".into(), "password", None).unwrap();
    let lr2 = auth.login("alice".into(), "password", None).unwrap();

    let count = auth.logout_all("alice").unwrap();
    assert_eq!(count, 2);

    assert!(auth.session(lr1.session.id).unwrap().superseded);
    assert!(auth.session(lr2.session.id).unwrap().superseded);
    assert!(auth.store().is_revoked(lr1.tokens.access.id));
    assert!(auth.store().is_revoked(lr2.tokens.access.id));
}

#[test]
fn login_failure_leaves_no_partial_state() {
    let mut auth = setup();
    let session_count_before = auth.session_count();
    let token_count_before = auth.store().active_access_count();

    // Failed login (empty password).
    let _ = auth.login("alice".into(), "", None);

    // No new sessions or tokens should exist.
    assert_eq!(auth.session_count(), session_count_before);
    assert_eq!(auth.store().active_access_count(), token_count_before);
}

#[test]
fn login_lockout_leaves_no_partial_state() {
    let mut auth = setup();
    let session_count_before = auth.session_count();

    for _ in 0..5 {
        let _ = auth.login("alice".into(), "", None);
    }
    let result = auth.login("alice".into(), "", None);
    assert!(matches!(result, Err(AuthError::AccountLocked { .. })));

    // No sessions created.
    assert_eq!(auth.session_count(), session_count_before);
}
