//! Authentication and recovery over time and over several sessions.

use meridian_api::auth::flows::{LOCKOUT_SECS, MAX_LOGIN_ATTEMPTS};
use meridian_api::auth::tokens::{
    DEFAULT_ACCESS_TOKEN_LIFETIME, DEFAULT_REFRESH_TOKEN_LIFETIME, MAX_REFRESH_ATTEMPTS,
};
use meridian_api::auth::{
    AuthError, AuthService, RecoveryService, RecoveryStatus, TokenStore, Verifier,
};

#[test]
fn default_lifetimes() {
    assert_eq!(DEFAULT_ACCESS_TOKEN_LIFETIME, 900);
    assert_eq!(DEFAULT_REFRESH_TOKEN_LIFETIME, 2_592_000);
    assert_eq!(MAX_REFRESH_ATTEMPTS, 10);
    let mut store = TokenStore::default();
    let pair = store.issue_pair_at("alice".into(), 1_000);
    assert_eq!(pair.access.expires_at, 1_900);
    assert_eq!(pair.refresh.expires_at, 2_593_000);
    assert_eq!(pair.access.balance_stroops, None);
    assert_eq!(pair.refresh.previous_id, None);
}

#[test]
fn issued_tokens_carry_the_time_of_the_clock() {
    let mut store = TokenStore::new();
    let pair = store.issue_pair("alice".into());
    assert!(pair.access.issued_at > 1_600_000_000);
    assert_eq!(pair.access.issued_at, pair.refresh.issued_at);
}

#[test]
fn expiry_saturates() {
    let mut store = TokenStore::with_lifetimes(u64::MAX, 10);
    let pair = store.issue_pair_at("alice".into(), 5);
    assert_eq!(pair.access.expires_at, u64::MAX);
    assert_eq!(pair.refresh.expires_at, 15);
}

#[test]
fn access_token_lives_until_its_expiry() {
    let mut store = TokenStore::with_lifetimes(100, 1_000);
    let pair = store.issue_pair_at("alice".into(), 50);
    assert_eq!(store.verify_access_at(&pair.access, 149), Ok(pair.access.clone()));
    assert_eq!(
        store.verify_access_at(&pair.access, 150),
        Err(AuthError::TokenExpired)
    );
}

#[test]
fn unknown_tokens_are_invalid() {
    let mut store = TokenStore::new();
    let mut pair = store.issue_pair_at("alice".into(), 0);
    pair.access.id = 77;
    pair.refresh.id = 78;
    assert_eq!(
        store.verify_access_at(&pair.access, 1),
        Err(AuthError::TokenInvalid("unknown token id".to_string()))
    );
    assert_eq!(
        store.refresh_at(&pair.refresh, 1),
        Err(AuthError::TokenInvalid("unknown refresh token".to_string()))
    );
    assert_eq!(store.active_access_count(), 1);
    assert_eq!(store.active_refresh_count(), 1);
}

#[test]
fn revocation_comes_before_expiry_and_stays() {
    let mut store = TokenStore::with_lifetimes(10, 10);
    let pair = store.issue_pair_at("alice".into(), 0);
    store.revoke(pair.access.id);
    store.issue_pair_at("alice".into(), 0);
    assert_eq!(
        store.verify_access_at(&pair.access, 99),
        Err(AuthError::TokenRevoked)
    );
    assert!(store.is_revoked(pair.access.id));
    assert!(!store.is_revoked(pair.refresh.id));
}

#[test]
fn replay_revokes_every_active_token() {
    let mut store = TokenStore::new();
    let first = store.issue_pair_at("alice".into(), 0);
    let second = store.refresh_at(&first.refresh, 1).unwrap();
    assert_eq!(store.active_access_count(), 1);
    assert_eq!(store.active_refresh_count(), 1);
    assert_eq!(
        store.refresh_at(&first.refresh, 2),
        Err(AuthError::TokenAlreadyUsed)
    );
    assert_eq!(store.active_access_count(), 0);
    assert_eq!(store.active_refresh_count(), 0);
    assert!(store.is_revoked(second.access.id));
    assert!(store.is_revoked(second.refresh.id));
    assert!(!store.is_active_refresh(second.refresh.id));
}

#[test]
fn verifier_reads_the_store() {
    let mut store = TokenStore::new();
    let pair = store.issue_pair("alice".into());
    assert_eq!(Verifier::new(&store).verify(&pair.access), Ok(pair.access.clone()));
    store.revoke(pair.access.id);
    assert_eq!(
        Verifier::new(&store).verify(&pair.access),
        Err(AuthError::TokenRevoked)
    );
}

#[test]
fn lockout_counts_runs_and_ends() {
    let mut auth = AuthService::new();
    for _ in 0..MAX_LOGIN_ATTEMPTS {
        assert_eq!(
            auth.login_at("alice".into(), "", None, 1_000),
            Err(AuthError::InvalidCredentials)
        );
    }
    assert_eq!(
        auth.login_at("alice".into(), "password", None, 1_000),
        Err(AuthError::AccountLocked { retry_after_secs: LOCKOUT_SECS })
    );
    assert_eq!(
        auth.login_at("alice".into(), "password", None, 1_100),
        Err(AuthError::AccountLocked { retry_after_secs: 200 })
    );
    assert!(auth.login_at("bob".into(), "password", None, 1_100).is_ok());
    assert_eq!(
        auth.login_at("alice".into(), "", None, 1_300),
        Err(AuthError::InvalidCredentials)
    );
    assert!(auth.login_at("alice".into(), "password", None, 1_300).is_ok());
}

#[test]
fn rejected_balance_counts_no_failure() {
    let mut auth = AuthService::new();
    for _ in 0..10 {
        assert_eq!(
            auth.login_at("alice".into(), "", Some(0), 0),
            Err(AuthError::AmountValidationFailed(
                "amount must be strictly positive".to_string()
            ))
        );
    }
    assert!(auth.login_at("alice".into(), "password", None, 0).is_ok());
}

#[test]
fn login_opens_a_session_of_its_own() {
    let mut auth = AuthService::with_lifetimes(60, 600);
    let login = auth.login_at("alice".into(), "password", None, 1_000).unwrap();
    assert_eq!(login.session.id, 1);
    assert_eq!(login.session.created_at, 1_000);
    assert_eq!(login.session.last_activity_at, 1_000);
    assert_eq!(login.session.tokens, login.tokens);
    assert!(!login.session.superseded);
    assert_eq!(login.tokens.access.expires_at, 1_060);
    assert_eq!(auth.session(1), Some(&login.session));
    assert!(auth.session(2).is_none());
    assert_eq!(
        auth.verify_token_at(&login.tokens.access, 1_059),
        Ok("alice".to_string())
    );
    assert_eq!(
        auth.verify_token_at(&login.tokens.access, 1_060),
        Err(AuthError::TokenExpired)
    );
}

#[test]
fn logging_out_twice_is_logging_out_once() {
    let mut auth = AuthService::default();
    let login = auth.login("alice".into(), "password", None).unwrap();
    assert_eq!(auth.logout(login.session.id), Ok(()));
    assert_eq!(auth.logout(login.session.id), Ok(()));
    assert_eq!(auth.session_count(), 1);
    assert_eq!(auth.logout_all("alice"), Ok(0));
}

#[test]
fn logout_all_counts_open_sessions_of_the_subject() {
    let mut auth = AuthService::new();
    let first = auth.login("alice".into(), "password", None).unwrap();
    auth.login("alice".into(), "password", None).unwrap();
    auth.login("bob".into(), "password", None).unwrap();
    auth.logout(first.session.id).unwrap();
    assert_eq!(auth.logout_all("alice"), Ok(1));
    assert_eq!(auth.logout_all("carol"), Ok(0));
    assert!(!auth.session(3).unwrap().superseded);
}

#[test]
fn refresh_renews_the_session_that_held_the_token() {
    let mut auth = AuthService::new();
    let first = auth.login_at("alice".into(), "password", None, 10).unwrap();
    let second = auth.login_at("alice".into(), "password", None, 20).unwrap();
    let bob = auth.login_at("bob".into(), "password", None, 30).unwrap();
    auth.logout(second.session.id).unwrap();
    let pair = auth.refresh_session_at(&first.tokens.refresh, 40).unwrap();
    assert_eq!(pair.access.issued_at, 40);
    assert_eq!(auth.session(first.session.id).unwrap().tokens, pair);
    assert_eq!(auth.session(first.session.id).unwrap().last_activity_at, 40);
    assert_eq!(auth.session(first.session.id).unwrap().created_at, 10);
    assert_eq!(auth.session(second.session.id).unwrap().tokens, second.tokens);
    assert_eq!(auth.session(bob.session.id).unwrap().tokens, bob.tokens);
    assert_eq!(auth.verify_token_at(&bob.tokens.access, 40), Ok("bob".to_string()));
}

#[test]
fn refreshing_one_session_leaves_the_other_valid() {
    let mut auth = AuthService::new();
    let first = auth.login("alice".into(), "password", None).unwrap();
    let second = auth.login("alice".into(), "password", None).unwrap();
    let pair = auth.refresh_session(&second.tokens.refresh).unwrap();
    assert_eq!(auth.verify_token(&first.tokens.access), Ok("alice".to_string()));
    assert!(!auth.store().is_revoked(first.tokens.refresh.id));
    assert!(auth.store().is_revoked(second.tokens.access.id));
    assert_eq!(auth.session(first.session.id).unwrap().tokens, first.tokens);
    assert_eq!(auth.session(second.session.id).unwrap().tokens, pair);
    auth.logout(second.session.id).unwrap();
    assert_eq!(auth.verify_token(&first.tokens.access), Ok("alice".to_string()));
    assert!(auth.refresh_session(&first.tokens.refresh).is_ok());
}

#[test]
fn replay_concerns_its_subject_alone() {
    let mut auth = AuthService::new();
    let alice = auth.login("alice".into(), "password", None).unwrap();
    let other = auth.login("alice".into(), "password", None).unwrap();
    let bob = auth.login("bob".into(), "password", None).unwrap();
    auth.refresh_session(&alice.tokens.refresh).unwrap();
    assert_eq!(
        auth.refresh_session(&alice.tokens.refresh),
        Err(AuthError::TokenAlreadyUsed)
    );
    assert!(auth.store().is_revoked(other.tokens.access.id));
    assert_eq!(auth.verify_token(&bob.tokens.access), Ok("bob".to_string()));
}

#[test]
fn logged_out_refresh_token_is_answered_as_revoked() {
    let mut auth = AuthService::new();
    let gone = auth.login("alice".into(), "password", None).unwrap();
    let kept = auth.login("alice".into(), "password", None).unwrap();
    auth.logout(gone.session.id).unwrap();
    assert_eq!(
        auth.refresh_session(&gone.tokens.refresh),
        Err(AuthError::TokenRevoked)
    );
    assert_eq!(auth.verify_token(&kept.tokens.access), Ok("alice".to_string()));
}

#[test]
fn logout_all_leaves_other_subjects_alone() {
    let mut auth = AuthService::new();
    auth.login("alice".into(), "password", None).unwrap();
    let bob = auth.login("bob".into(), "password", None).unwrap();
    assert_eq!(auth.logout_all("alice"), Ok(1));
    assert_eq!(auth.verify_token(&bob.tokens.access), Ok("bob".to_string()));
    assert!(auth.refresh_session(&bob.tokens.refresh).is_ok());
}

#[test]
fn revoking_all_tokens_of_a_subject_spares_the_others() {
    let mut store = TokenStore::new();
    let first = store.issue_pair("user-1".into());
    let second = store.issue_pair("user-2".into());
    store.revoke_all_for_subject("user-1");
    assert!(store.is_revoked(first.access.id));
    assert!(store.is_revoked(first.refresh.id));
    assert!(!store.is_revoked(second.access.id));
    assert!(!store.is_revoked(second.refresh.id));
    assert_eq!(store.active_access_count(), 1);
    assert_eq!(store.active_refresh_count(), 1);
}

#[test]
fn rotated_token_names_the_one_before_it() {
    let mut store = TokenStore::new();
    let first = store.issue_pair("user-1".into());
    let second = store.refresh(&first.refresh).unwrap();
    let third = store.refresh(&second.refresh).unwrap();
    assert_eq!(first.refresh.previous_id, None);
    assert_eq!(second.refresh.previous_id, Some(first.refresh.id));
    assert_eq!(third.refresh.previous_id, Some(second.refresh.id));
}

#[test]
fn failed_refresh_keeps_sessions() {
    let mut auth = AuthService::with_lifetimes(10, 10);
    let login = auth.login_at("alice".into(), "password", None, 0).unwrap();
    assert_eq!(
        auth.refresh_session_at(&login.tokens.refresh, 10),
        Err(AuthError::TokenExpired)
    );
    assert_eq!(auth.session(login.session.id), Some(&login.session));
    assert!(auth.verify_token_at(&login.tokens.access, 9).is_ok());
}

#[test]
fn recovery_token_expires() {
    let mut recovery = RecoveryService::with_token_lifetime(100);
    let mut store = TokenStore::new();
    let token = recovery.request_recovery_at("alice".into(), 7, 1_000).unwrap();
    assert_eq!(token.expires_at, 1_100);
    assert_eq!(
        recovery.complete_recovery_at(&token, &mut store, 1_100),
        Err(AuthError::TokenExpired)
    );
    assert_eq!(
        recovery.complete_recovery_at(&token, &mut store, 1_101),
        Err(AuthError::TokenExpired)
    );
    let again = recovery.request_recovery_at("alice".into(), 7, 1_200).unwrap();
    assert_ne!(again.id, token.id);
    assert!(recovery.complete_recovery_at(&again, &mut store, 1_250).is_ok());
}

#[test]
fn recovery_request_is_repeated_while_the_token_lives() {
    let mut recovery = RecoveryService::default();
    let first = recovery.request_recovery_at("alice".into(), 7, 0).unwrap();
    let second = recovery.request_recovery_at("alice".into(), 7, 3_599).unwrap();
    assert_eq!(first, second);
    let third = recovery.request_recovery_at("alice".into(), 7, 3_600).unwrap();
    assert_ne!(first.id, third.id);
    let fourth = recovery.request_recovery_at("alice".into(), 7, 3_601).unwrap();
    assert_eq!(third, fourth);
}

#[test]
fn recovery_leaves_its_subject_only_the_fresh_pair() {
    let mut recovery = RecoveryService::new();
    let mut store = TokenStore::new();
    let old: Vec<_> = (0..3).map(|_| store.issue_pair_at("alice".into(), 0)).collect();
    let bob = store.issue_pair_at("bob".into(), 0);
    let token = recovery.request_recovery_at("alice".into(), 1, 0).unwrap();
    let result = recovery.complete_recovery_at(&token, &mut store, 1).unwrap();
    assert_eq!(result.other_sessions_revoked, 2);
    for pair in &old {
        assert!(store.is_revoked(pair.access.id));
        assert!(store.is_revoked(pair.refresh.id));
    }
    assert_eq!(store.active_access_count(), 2);
    assert_eq!(
        store.verify_access_at(&bob.access, 2),
        Ok(bob.access.clone())
    );
    assert_eq!(
        store.verify_access_at(&result.tokens.access, 2),
        Ok(result.tokens.access.clone())
    );
}

#[test]
fn refused_recovery_keeps_the_store() {
    let mut recovery = RecoveryService::new();
    let mut store = TokenStore::new();
    store.issue_pair_at("alice".into(), 0);
    let mut token = recovery.request_recovery_at("alice".into(), 1, 0).unwrap();
    token.id += 1;
    assert_eq!(
        recovery.complete_recovery_at(&token, &mut store, 1),
        Err(AuthError::RecoveryTokenInvalid)
    );
    assert_eq!(store.active_access_count(), 1);
}

#[test]
fn cancelled_token_is_invalid() {
    let mut recovery = RecoveryService::new();
    let mut store = TokenStore::new();
    let token = recovery.request_recovery_at("alice".into(), 1, 0).unwrap();
    assert_eq!(recovery.cancel_recovery(1), Ok(()));
    assert_eq!(recovery.cancel_recovery(1), Err(AuthError::RecoveryTokenInvalid));
    assert_eq!(
        recovery.complete_recovery_at(&token, &mut store, 1),
        Err(AuthError::RecoveryTokenInvalid)
    );
    let page = recovery.list_requests("alice", None, 10).unwrap();
    assert_eq!(page.items[0].status, RecoveryStatus::Cancelled);
}

#[test]
fn used_token_stays_used() {
    let mut recovery = RecoveryService::new();
    let mut store = TokenStore::new();
    let token = recovery.request_recovery_at("alice".into(), 1, 0).unwrap();
    recovery.complete_recovery_at(&token, &mut store, 1).unwrap();
    recovery.request_recovery_at("alice".into(), 2, 2).unwrap();
    for now in [1, 3_600, u64::MAX] {
        assert_eq!(
            recovery.complete_recovery_at(&token, &mut store, now),
            Err(AuthError::TokenAlreadyUsed)
        );
    }
    assert_eq!(
        recovery.request_recovery_at("alice".into(), 1, 9),
        Err(AuthError::RecoveryAlreadyCompleted)
    );
}

#[test]
fn service_keeps_revocations() {
    let mut auth = AuthService::new();
    let gone = auth.login_at("alice".into(), "password", None, 0).unwrap();
    auth.logout(gone.session.id).unwrap();
    let login = auth.login_at("alice".into(), "password", None, 1).unwrap();
    auth.refresh_session_at(&login.tokens.refresh, 2).unwrap();
    auth.logout_all("alice").unwrap();
    assert!(auth.store().is_revoked(gone.tokens.access.id));
    assert_eq!(
        auth.verify_token_at(&gone.tokens.access, 3),
        Err(AuthError::TokenRevoked)
    );
}
