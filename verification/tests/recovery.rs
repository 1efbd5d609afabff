//! Account recovery.

use meridian_api::auth::{AuthError, RecoveryService, TokenStore};

fn setup() -> RecoveryService {
    RecoveryService::new()
}

#[test]
fn request_recovery_returns_token() {
    let mut svc = setup();
    let token = svc.request_recovery("alice".into(), 1).unwrap();
    assert_eq!(token.subject, "alice");
    assert_eq!(token.session_id, 1);
}

#[test]
fn request_recovery_is_idempotent() {
    let mut svc = setup();
    let t1 = svc.request_recovery("alice".into(), 1).unwrap().clone();
    let t2 = svc.request_recovery("alice".into(), 1).unwrap().clone();
    assert_eq!(t1.id, t2.id); // same token
}

#[test]
fn complete_recovery_revokes_other_sessions() {
    let mut svc = setup();
    let mut store = TokenStore::new();
    let _ = store.issue_pair("alice".into());
    let _ = store.issue_pair("alice".into());

    let token = svc.request_recovery("alice".into(), 1).unwrap().clone();
    let result = svc.complete_recovery(&token, &mut store).unwrap();

    assert!(result.other_sessions_revoked > 0);
}

#[test]
fn complete_recovery_issues_fresh_tokens() {
    let mut svc = setup();
    let mut store = TokenStore::new();
    let _ = store.issue_pair("alice".into());

    let token = svc.request_recovery("alice".into(), 1).unwrap().clone();
    let result = svc.complete_recovery(&token, &mut store).unwrap();

    // Fresh tokens should be valid.
    let subject = store.verify_access(&result.tokens.access).unwrap();
    assert_eq!(subject.subject, "alice");
}

#[test]
fn recovery_replay_rejected() {
    let mut svc = setup();
    let mut store = TokenStore::new();
    let _ = store.issue_pair("alice".into());

    let token = svc.request_recovery("alice".into(), 1).unwrap().clone();
    let _ = svc.complete_recovery(&token, &mut store).unwrap();

    // Replay.
    let result = svc.complete_recovery(&token, &mut store);
    assert_eq!(result, Err(AuthError::TokenAlreadyUsed));
}

#[test]
fn recovery_cancelled_then_rerequest_completes() {
    let mut svc = setup();
    let _old_token = svc.request_recovery("alice".into(), 1).unwrap().clone();
    svc.cancel_recovery(1).unwrap();

    let mut store = TokenStore::new();
    let _ = store.issue_pair("alice".into());
    let new_token = svc.request_recovery("alice".into(), 1).unwrap().clone();

    // Re-request after cancellation produces a fresh token that works.
    let result = svc.complete_recovery(&new_token, &mut store);
    assert!(result.is_ok());
}

#[test]
fn cancel_nonexistent_request_fails() {
    let mut svc = setup();
    assert_eq!(
        svc.cancel_recovery(999),
        Err(AuthError::RecoveryTokenInvalid)
    );
}

#[test]
fn recovery_already_completed_rejects_new_request() {
    let mut svc = setup();
    let mut store = TokenStore::new();
    let _ = store.issue_pair("alice".into());

    let token = svc.request_recovery("alice".into(), 1).unwrap().clone();
    let _ = svc.complete_recovery(&token, &mut store).unwrap();

    let result = svc.request_recovery("alice".into(), 1);
    assert_eq!(result, Err(AuthError::RecoveryAlreadyCompleted));
}

#[test]
fn balance_not_exposed_in_recovery_token() {
    let mut svc = setup();
    let token = svc.request_recovery("alice".into(), 1).unwrap().clone();
    // RecoveryToken has no balance field — by design.
    assert_eq!(token.subject, "alice");
    // If someone adds a balance field, this test will fail — forcing
    // them to reconsider the security implication.
}
