//! Token lifecycle.

use meridian_api::auth::{AuthError, TokenStore};

#[test]
fn issue_pair_returns_valid_tokens() {
    let mut store = TokenStore::new();
    let pair = store.issue_pair("user-1".into());
    assert_eq!(pair.access.subject, "user-1");
    assert_eq!(pair.refresh.subject, "user-1");
    assert!(pair.access.expires_at > pair.access.issued_at);
    assert!(pair.refresh.expires_at > pair.refresh.issued_at);
}

#[test]
fn verify_valid_access_token() {
    let mut store = TokenStore::new();
    let pair = store.issue_pair("user-1".into());
    let result = store.verify_access(&pair.access);
    assert!(result.is_ok());
    assert_eq!(result.unwrap().subject, "user-1");
}

#[test]
fn tokens_verify_revoked_token_fails() {
    let mut store = TokenStore::new();
    let pair = store.issue_pair("user-1".into());
    store.revoke(pair.access.id);
    assert_eq!(
        store.verify_access(&pair.access),
        Err(AuthError::TokenRevoked)
    );
}

#[test]
fn verify_expired_token_fails() {
    let mut store = TokenStore::new();
    let pair = store.issue_pair("user-1".into());
    let mut expired = pair.access;
    // Backdate the expiry so the token is expired but was issued
    // through the store (thus in the active set).
    expired.expires_at = 1;
    assert_eq!(store.verify_access(&expired), Err(AuthError::TokenExpired));
}

#[test]
fn refresh_rotates_tokens() {
    let mut store = TokenStore::new();
    let pair = store.issue_pair("user-1".into());
    let new_pair = store.refresh(&pair.refresh).unwrap();

    // New tokens have new ids.
    assert_ne!(new_pair.access.id, pair.access.id);
    assert_ne!(new_pair.refresh.id, pair.refresh.id);

    // Old refresh token is revoked.
    assert!(store.is_revoked(pair.refresh.id));

    // New refresh token is valid.
    assert!(store.is_active_refresh(new_pair.refresh.id));
}

#[test]
fn refresh_replay_revokes_session() {
    let mut store = TokenStore::new();
    let pair = store.issue_pair("user-1".into());
    let _ = store.refresh(&pair.refresh).unwrap();

    // Replay the old refresh token.
    let result = store.refresh(&pair.refresh);
    assert_eq!(result, Err(AuthError::TokenAlreadyUsed));
}

#[test]
fn refresh_expired_token_fails() {
    let mut store = TokenStore::new();
    let pair = store.issue_pair("user-1".into());
    let mut expired = pair.refresh;
    // Backdate expiry so the token is expired but was issued
    // through the store (thus in the active set).
    expired.expires_at = 1;
    assert_eq!(store.refresh(&expired), Err(AuthError::TokenExpired));
}

#[test]
fn revoke_all_removes_tokens() {
    let mut store = TokenStore::new();
    let pair = store.issue_pair("user-1".into());
    store.revoke_all_for_subject("user-1");
    assert!(store.is_revoked(pair.access.id));
    assert!(store.is_revoked(pair.refresh.id));
}

#[test]
fn token_ids_are_monotonic() {
    let mut store = TokenStore::new();
    let p1 = store.issue_pair("a".into());
    let p2 = store.issue_pair("b".into());
    assert!(p2.access.id > p1.access.id);
    assert!(p2.refresh.id > p1.refresh.id);
}

#[test]
fn balance_stroops_preserved_as_u64() {
    let mut store = TokenStore::new();
    let mut pair = store.issue_pair("user-1".into());
    // Embed a balance — must be raw stroops, no rounding.
    pair.access.balance_stroops = Some(1_234_567_890);
    let verified = store.verify_access(&pair.access).unwrap();
    assert_eq!(verified.balance_stroops, Some(1_234_567_890));
}
