//! Token lifecycle: issue, verification, refresh and revocation.
//!
//! Access tokens are short-lived; refresh tokens live longer and are rotated on
//! every use.  Revocation is tracked by token id in a log that only grows.  The
//! store knows which subject each token went to, and which refresh tokens were
//! rotated away, so that one that comes back is recognised.

use std::collections::{HashMap, HashSet};

use vstd::prelude::*;

use crate::auth::errors::AuthError;
use crate::clock::now_secs;
use crate::pagination::listing::ids_where;

verus! {

broadcast use vstd::std_specs::hash::group_hash_axioms;

/// Default access-token lifetime, in seconds: fifteen minutes.
pub const DEFAULT_ACCESS_TOKEN_LIFETIME: u64 = 15 * 60;

/// Default refresh-token lifetime, in seconds: thirty days.
pub const DEFAULT_REFRESH_TOKEN_LIFETIME: u64 = 30 * 24 * 60 * 60;

/// Maximum number of refresh attempts before a session is killed.
pub const MAX_REFRESH_ATTEMPTS: u32 = 10;

/// A unique token identifier.
pub type TokenId = u64;

/// An access token.
#[derive(Debug, PartialEq, Eq, Hash)]
pub struct AccessToken {
    pub id: TokenId,
    pub subject: String,
    pub issued_at: u64,
    pub expires_at: u64,
    /// Optional balance snapshot, in stroops.
    pub balance_stroops: Option<u64>,
}

impl Clone for AccessToken {
    fn clone(&self) -> (copy: Self)
        ensures
            copy == *self,
    {
        AccessToken {
            id: self.id,
            subject: self.subject.clone(),
            issued_at: self.issued_at,
            expires_at: self.expires_at,
            balance_stroops: self.balance_stroops,
        }
    }
}

/// A refresh token.
#[derive(Debug, PartialEq, Eq)]
pub struct RefreshToken {
    pub id: TokenId,
    pub subject: String,
    pub issued_at: u64,
    pub expires_at: u64,
    /// The id of the refresh token that this one replaced, if it replaced one.
    pub previous_id: Option<TokenId>,
}

impl Clone for RefreshToken {
    fn clone(&self) -> (copy: Self)
        ensures
            copy == *self,
    {
        RefreshToken {
            id: self.id,
            subject: self.subject.clone(),
            issued_at: self.issued_at,
            expires_at: self.expires_at,
            previous_id: self.previous_id,
        }
    }
}

/// An access token and a refresh token that were issued together.
#[derive(Debug, PartialEq)]
pub struct TokenPair {
    pub access: AccessToken,
    pub refresh: RefreshToken,
}

impl Clone for TokenPair {
    fn clone(&self) -> (copy: Self)
        ensures
            copy == *self,
    {
        TokenPair { access: self.access.clone(), refresh: self.refresh.clone() }
    }
}

/// Result of a token verification.
#[derive(Debug, Clone, PartialEq, Eq)]
pub enum VerifyResult {
    /// Token is valid and fresh.
    Valid(AccessToken),
    /// Token is expired but was once valid.
    Expired(TokenId),
    /// Token was revoked.
    Revoked(TokenId),
    /// Token structure is corrupt.
    Invalid(String),
}

/// The moment `lifetime` seconds after `now`, or the last one that there is.
pub open spec fn expiry(now: u64, lifetime: u64) -> u64 {
    if now + lifetime > u64::MAX {
        u64::MAX
    } else {
        (now + lifetime) as u64
    }
}

/// What a token store holds.
#[verifier::ext_equal]
pub struct StoreState {
    pub active_access: Set<TokenId>,
    pub active_refresh: Set<TokenId>,
    pub revoked: Set<TokenId>,
    /// The refresh tokens that were traded for a new pair.
    pub rotated: Set<TokenId>,
    /// The subject that each token went to.
    pub owners: Map<TokenId, String>,
    /// The access token that each refresh token was issued with.
    pub partners: Map<TokenId, TokenId>,
    pub next_id: TokenId,
    pub access_lifetime: u64,
    pub refresh_lifetime: u64,
}

impl StoreState {
    /// A store from which no token has been issued.
    pub open spec fn empty(access_lifetime: u64, refresh_lifetime: u64) -> Self {
        StoreState {
            active_access: Set::empty(),
            active_refresh: Set::empty(),
            revoked: Set::empty(),
            rotated: Set::empty(),
            owners: Map::empty(),
            partners: Map::empty(),
            next_id: 1,
            access_lifetime,
            refresh_lifetime,
        }
    }

    /// What holds of every store: the ids that were issued have owners, and each of
    /// them is active or revoked; an active refresh token has a partner and an active
    /// access token has none; partners have consecutive ids and went to the same
    /// subject; what was rotated is revoked.
    pub open spec fn wf(self) -> bool {
        &&& 1 <= self.next_id
        &&& forall|id: TokenId| #[trigger]
            self.owners.contains_key(id) <==> 1 <= id < self.next_id
        &&& forall|id: TokenId| #[trigger]
            self.owners.contains_key(id) ==> self.active_access.contains(id)
                || self.active_refresh.contains(id) || self.revoked.contains(id)
        &&& forall|id: TokenId| #[trigger]
            self.active_access.contains(id) ==> self.owners.contains_key(id)
                && !self.partners.contains_key(id)
        &&& forall|id: TokenId| #[trigger]
            self.active_refresh.contains(id) ==> self.partners.contains_key(id)
        &&& forall|id: TokenId| #[trigger]
            self.partners.contains_key(id) ==> {
                &&& self.owners.contains_key(id)
                &&& self.owners.contains_key(self.partners[id])
                &&& self.owners[self.partners[id]] == self.owners[id]
                &&& !self.partners.contains_key(self.partners[id])
                &&& self.partners[id] + 1 == id
            }
        &&& self.rotated.subset_of(self.revoked)
    }

    /// Whether there are ids left for one more pair of tokens.
    pub open spec fn has_ids(self) -> bool {
        self.next_id + 2 <= u64::MAX
    }

    /// The tokens that went to `subject`.
    pub open spec fn owned(self, subject: Seq<char>) -> Set<TokenId> {
        self.owners.dom().filter(|id: TokenId| self.owners[id]@ == subject)
    }

    /// The pair that is issued next, to `subject` at `now`.
    pub open spec fn next_pair(self, subject: String, now: u64) -> TokenPair {
        TokenPair {
            access: AccessToken {
                id: self.next_id,
                subject,
                issued_at: now,
                expires_at: expiry(now, self.access_lifetime),
                balance_stroops: None,
            },
            refresh: RefreshToken {
                id: (self.next_id + 1) as u64,
                subject,
                issued_at: now,
                expires_at: expiry(now, self.refresh_lifetime),
                previous_id: None,
            },
        }
    }

    /// The pair that `token` is traded for at `now`: the next pair, whose refresh
    /// token names the one that it replaces.
    pub open spec fn rotated_pair(self, token: RefreshToken, now: u64) -> TokenPair {
        let pair = self.next_pair(token.subject, now);
        TokenPair {
            refresh: RefreshToken { previous_id: Some(token.id), ..pair.refresh },
            ..pair
        }
    }

    /// The store after issuing a pair to `subject`.
    pub open spec fn issue(self, subject: String) -> Self {
        let access = self.next_id;
        let refresh = (self.next_id + 1) as u64;
        StoreState {
            active_access: self.active_access.insert(access),
            active_refresh: self.active_refresh.insert(refresh),
            owners: self.owners.insert(access, subject).insert(refresh, subject),
            partners: self.partners.insert(refresh, access),
            next_id: (self.next_id + 2) as u64,
            ..self
        }
    }

    /// The store after revoking `id`.
    pub open spec fn revoke(self, id: TokenId) -> Self {
        StoreState {
            active_access: self.active_access.remove(id),
            active_refresh: self.active_refresh.remove(id),
            revoked: self.revoked.insert(id),
            ..self
        }
    }

    /// The store after revoking those of `ids` that are active.
    pub open spec fn revoke_active(self, ids: Set<TokenId>) -> Self {
        StoreState {
            active_access: self.active_access.difference(ids),
            active_refresh: self.active_refresh.difference(ids),
            revoked: self.revoked.union(
                self.active_access.union(self.active_refresh).intersect(ids),
            ),
            ..self
        }
    }

    /// The store after revoking every active token of `subject`.
    pub open spec fn revoke_all(self, subject: Seq<char>) -> Self {
        self.revoke_active(self.owned(subject))
    }

    /// What verifying `token` at `now` gives.
    pub open spec fn verifies(
        self,
        token: AccessToken,
        now: u64,
        res: Result<AccessToken, AuthError>,
    ) -> bool {
        if self.revoked.contains(token.id) {
            res == Err::<AccessToken, AuthError>(AuthError::TokenRevoked)
        } else if !self.active_access.contains(token.id) {
            res matches Err(AuthError::TokenInvalid(detail)) && detail@ == "unknown token id"@
        } else if token.expires_at <= now {
            res == Err::<AccessToken, AuthError>(AuthError::TokenExpired)
        } else {
            res == Ok::<AccessToken, AuthError>(token)
        }
    }

    /// What verifying `token` at `now` gives, where only the subject is asked for.
    pub open spec fn verifies_subject(
        self,
        token: AccessToken,
        now: u64,
        res: Result<String, AuthError>,
    ) -> bool {
        match res {
            Ok(subject) => self.verifies(token, now, Ok(token)) && subject == token.subject,
            Err(e) => self.verifies(token, now, Err(e)),
        }
    }

    /// Whether refreshing with `token` at `now` rotates it.
    pub open spec fn rotates(self, token: RefreshToken, now: u64) -> bool {
        &&& !self.rotated.contains(token.id)
        &&& !self.revoked.contains(token.id)
        &&& self.active_refresh.contains(token.id)
        &&& now < token.expires_at
    }

    /// The store with the refresh token `id` rotated away: it and the access token
    /// that it was issued with are revoked.
    pub open spec fn retire(self, id: TokenId) -> Self {
        let used = StoreState { rotated: self.rotated.insert(id), ..self }.revoke(id);
        if self.partners.contains_key(id) {
            used.revoke(self.partners[id])
        } else {
            used
        }
    }

    /// The store after refreshing with `token` at `now`.
    pub open spec fn refresh(self, token: RefreshToken, now: u64) -> Self {
        if self.rotated.contains(token.id) {
            self.revoke_all(token.subject@)
        } else if self.rotates(token, now) {
            self.retire(token.id).issue(token.subject)
        } else {
            self
        }
    }

    /// What refreshing with `token` at `now` gives.
    pub open spec fn refreshes(
        self,
        token: RefreshToken,
        now: u64,
        res: Result<TokenPair, AuthError>,
    ) -> bool {
        if self.rotated.contains(token.id) {
            res == Err::<TokenPair, AuthError>(AuthError::TokenAlreadyUsed)
        } else if self.revoked.contains(token.id) {
            res == Err::<TokenPair, AuthError>(AuthError::TokenRevoked)
        } else if !self.active_refresh.contains(token.id) {
            res matches Err(AuthError::TokenInvalid(detail)) && detail@ == "unknown refresh token"@
        } else if token.expires_at <= now {
            res == Err::<TokenPair, AuthError>(AuthError::TokenExpired)
        } else {
            res == Ok::<TokenPair, AuthError>(self.rotated_pair(token, now))
        }
    }
}

/// In-memory token store.
#[derive(Debug)]
pub struct TokenStore {
    active_access: HashSet<TokenId>,
    active_refresh: HashSet<TokenId>,
    revoked: HashSet<TokenId>,
    rotated: HashSet<TokenId>,
    owners: HashMap<TokenId, String>,
    partners: HashMap<TokenId, TokenId>,
    next_id: TokenId,
    access_lifetime: u64,
    refresh_lifetime: u64,
}

impl View for TokenStore {
    type V = StoreState;

    closed spec fn view(&self) -> StoreState {
        StoreState {
            active_access: self.active_access@,
            active_refresh: self.active_refresh@,
            revoked: self.revoked@,
            rotated: self.rotated@,
            owners: self.owners@,
            partners: self.partners@,
            next_id: self.next_id,
            access_lifetime: self.access_lifetime,
            refresh_lifetime: self.refresh_lifetime,
        }
    }
}

impl TokenStore {
    /// A store with the default lifetimes.
    pub fn new() -> (store: Self)
        ensures
            store@ == StoreState::empty(
                DEFAULT_ACCESS_TOKEN_LIFETIME,
                DEFAULT_REFRESH_TOKEN_LIFETIME,
            ),
            store@.wf(),
    {
        Self::with_lifetimes(DEFAULT_ACCESS_TOKEN_LIFETIME, DEFAULT_REFRESH_TOKEN_LIFETIME)
    }

    /// A store whose tokens live for the given numbers of seconds.
    pub fn with_lifetimes(access: u64, refresh: u64) -> (store: Self)
        ensures
            store@ == StoreState::empty(access, refresh),
            store@.wf(),
    {
        TokenStore {
            active_access: HashSet::new(),
            active_refresh: HashSet::new(),
            revoked: HashSet::new(),
            rotated: HashSet::new(),
            owners: HashMap::new(),
            partners: HashMap::new(),
            next_id: 1,
            access_lifetime: access,
            refresh_lifetime: refresh,
        }
    }

    /// Takes the next token id.
    fn next_token_id(&mut self) -> (id: TokenId)
        requires
            old(self)@.next_id < u64::MAX,
        ensures
            id == old(self)@.next_id,
            final(self)@ == (StoreState { next_id: (id + 1) as u64, ..old(self)@ }),
    {
        let id = self.next_id;
        self.next_id = id + 1;
        id
    }

    /// Issues a fresh pair of tokens to `subject`, by the system clock.
    pub fn issue_pair(&mut self, subject: String) -> (pair: TokenPair)
        requires
            old(self)@.has_ids(),
        ensures
            final(self)@ == old(self)@.issue(subject),
            old(self)@.wf() ==> final(self)@.wf(),
            exists|now: u64| pair == #[trigger] old(self)@.next_pair(subject, now),
    {
        self.issue_pair_at(subject, now_secs())
    }

    /// Issues a fresh pair of tokens to `subject` at `now`.
    pub fn issue_pair_at(&mut self, subject: String, now: u64) -> (pair: TokenPair)
        requires
            old(self)@.has_ids(),
        ensures
            final(self)@ == old(self)@.issue(subject),
            old(self)@.wf() ==> final(self)@.wf(),
            pair == old(self)@.next_pair(subject, now),
    {
        let access = AccessToken {
            id: self.next_token_id(),
            subject: subject.clone(),
            issued_at: now,
            expires_at: now.saturating_add(self.access_lifetime),
            balance_stroops: None,
        };
        self.active_access.insert(access.id);
        self.owners.insert(access.id, subject.clone());
        let refresh = RefreshToken {
            id: self.next_token_id(),
            subject: subject.clone(),
            issued_at: now,
            expires_at: now.saturating_add(self.refresh_lifetime),
            previous_id: None,
        };
        self.active_refresh.insert(refresh.id);
        self.owners.insert(refresh.id, subject);
        self.partners.insert(refresh.id, access.id);
        TokenPair { access, refresh }
    }

    /// Verifies an access token by the system clock.
    pub fn verify_access(&self, token: &AccessToken) -> (res: Result<AccessToken, AuthError>)
        ensures
            exists|now: u64| #[trigger] self@.verifies(*token, now, res),
    {
        self.verify_access_at(token, now_secs())
    }

    /// Verifies an access token at `now`.
    pub fn verify_access_at(&self, token: &AccessToken, now: u64) -> (res: Result<
        AccessToken,
        AuthError,
    >)
        ensures
            self@.verifies(*token, now, res),
    {
        if self.revoked.contains(&token.id) {
            return Err(AuthError::TokenRevoked);
        }
        if !self.active_access.contains(&token.id) {
            return Err(AuthError::TokenInvalid("unknown token id".to_owned()));
        }
        if token.expires_at <= now {
            return Err(AuthError::TokenExpired);
        }
        Ok(token.clone())
    }

    /// Trades a refresh token for a new pair, by the system clock.
    pub fn refresh(&mut self, old_refresh: &RefreshToken) -> (res: Result<TokenPair, AuthError>)
        requires
            forall|now: u64| #[trigger]
                old(self)@.rotates(*old_refresh, now) ==> old(self)@.has_ids(),
        ensures
            exists|now: u64|
                {
                    &&& #[trigger] old(self)@.refreshes(*old_refresh, now, res)
                    &&& final(self)@ == old(self)@.refresh(*old_refresh, now)
                },
            old(self)@.wf() ==> final(self)@.wf(),
    {
        self.refresh_at(old_refresh, now_secs())
    }

    /// Trades a refresh token for a new pair at `now`.  The old refresh token and the
    /// access token that it was issued with are revoked.  A refresh token that was
    /// rotated before is a replay: it revokes every active token of its subject.
    pub fn refresh_at(&mut self, old_refresh: &RefreshToken, now: u64) -> (res: Result<
        TokenPair,
        AuthError,
    >)
        requires
            old(self)@.rotates(*old_refresh, now) ==> old(self)@.has_ids(),
        ensures
            old(self)@.refreshes(*old_refresh, now, res),
            final(self)@ == old(self)@.refresh(*old_refresh, now),
            old(self)@.wf() ==> final(self)@.wf(),
    {
        if self.rotated.contains(&old_refresh.id) {
            self.revoke_all_for_subject(old_refresh.subject.as_str());
            return Err(AuthError::TokenAlreadyUsed);
        }
        if self.revoked.contains(&old_refresh.id) {
            return Err(AuthError::TokenRevoked);
        }
        if !self.active_refresh.contains(&old_refresh.id) {
            return Err(AuthError::TokenInvalid("unknown refresh token".to_owned()));
        }
        if old_refresh.expires_at <= now {
            return Err(AuthError::TokenExpired);
        }
        self.retire(old_refresh.id);
        let mut pair = self.issue_pair_at(old_refresh.subject.clone(), now);
        pair.refresh.previous_id = Some(old_refresh.id);
        Ok(pair)
    }

    /// Revokes one token.
    pub fn revoke(&mut self, id: TokenId)
        ensures
            final(self)@ == old(self)@.revoke(id),
            old(self)@.wf() ==> final(self)@.wf(),
    {
        self.active_access.remove(&id);
        self.active_refresh.remove(&id);
        self.revoked.insert(id);
        assert(self@ == old(self)@.revoke(id));
    }

    /// The tokens that went to a subject.
    fn owned_ids(&self, subject: &str) -> (ids: Vec<TokenId>)
        ensures
            ids@.no_duplicates(),
            ids@.to_set() == self@.owned(subject@),
    {
        let owner = subject.to_owned();
        let ghost kept = |holder: String| holder@ == subject@;
        let keep = |holder: &String| -> (keep: bool)
            ensures
                keep == (holder@ == subject@),
            { *holder == owner };
        let ids = ids_where(&self.owners, keep, Ghost(kept));
        proof {
            assert(self.owners@.dom().filter(|id: TokenId| kept(self.owners@[id])) == self@.owned(
                subject@,
            ));
        }
        ids
    }

    /// Revokes every active token of a subject, and no other token.
    pub fn revoke_all_for_subject(&mut self, subject: &str)
        ensures
            final(self)@ == old(self)@.revoke_all(subject@),
            old(self)@.wf() ==> final(self)@.wf(),
    {
        let owned = self.owned_ids(subject);
        let ghost before = self@;
        let mut i: usize = 0;
        proof {
            assert(owned@.take(0).to_set() =~= Set::<TokenId>::empty());
            assert(before =~= before.revoke_active(Set::empty()));
        }
        while i < owned.len()
            invariant
                i <= owned@.len(),
                self@ == before.revoke_active(owned@.take(i as int).to_set()),
            decreases owned@.len() - i,
        {
            let id: TokenId = owned[i];
            if self.active_access.contains(&id) || self.active_refresh.contains(&id) {
                self.revoke(id);
            }
            proof {
                let done = owned@.take(i as int).to_set();
                assert(owned@.take(i + 1) == owned@.take(i as int).push(id));
                owned@.take(i as int).lemma_push_to_set_commute(id);
                assert(self@ =~= before.revoke_active(done.insert(id)));
            }
            i = i + 1;
        }
        proof {
            assert(owned@.take(i as int) == owned@);
        }
    }

    /// Rotates the refresh token `id` away, together with the access token that it
    /// was issued with.
    fn retire(&mut self, id: TokenId)
        ensures
            final(self)@ == old(self)@.retire(id),
            old(self)@.wf() ==> final(self)@.wf(),
    {
        self.rotated.insert(id);
        self.revoke(id);
        let ghost used = self@;
        assert(used == (StoreState { rotated: old(self)@.rotated.insert(id), ..old(self)@ }).revoke(
            id,
        ));
        let partner: Option<TokenId> = match self.partners.get(&id) {
            Some(access) => Some(*access),
            None => None,
        };
        if let Some(access) = partner {
            self.revoke(access);
        }
    }

    /// Number of active access tokens of a subject.
    pub(crate) fn active_access_count_for(&self, subject: &str) -> (count: usize)
        ensures
            count == self@.active_access.intersect(self@.owned(subject@)).len(),
    {
        let owned = self.owned_ids(subject);
        let mut count: usize = 0;
        let mut i: usize = 0;
        proof {
            assert(self@.active_access.intersect(owned@.take(0).to_set()) =~= Set::empty());
        }
        while i < owned.len()
            invariant
                count <= i <= owned@.len(),
                owned@.no_duplicates(),
                count == self@.active_access.intersect(owned@.take(i as int).to_set()).len(),
            decreases owned@.len() - i,
        {
            let id: TokenId = owned[i];
            proof {
                let done = owned@.take(i as int);
                assert(owned@.take(i + 1) == done.push(id));
                done.lemma_push_to_set_commute(id);
                assert(!done.contains(id));
                let counted = self@.active_access.intersect(done.to_set());
                assert(self@.active_access.intersect(done.to_set().insert(id)) =~= if
                    self@.active_access.contains(id) {
                    counted.insert(id)
                } else {
                    counted
                });
            }
            if self.active_access.contains(&id) {
                count = count + 1;
            }
            i = i + 1;
        }
        proof {
            assert(owned@.take(i as int) == owned@);
        }
        count
    }

    /// Whether a token has been revoked.
    pub fn is_revoked(&self, id: TokenId) -> (revoked: bool)
        ensures
            revoked == self@.revoked.contains(id),
    {
        self.revoked.contains(&id)
    }

    /// Whether a refresh token is active.
    pub fn is_active_refresh(&self, id: TokenId) -> (active: bool)
        ensures
            active == self@.active_refresh.contains(id),
    {
        self.active_refresh.contains(&id)
    }

    /// Number of active access tokens.
    pub fn active_access_count(&self) -> (count: usize)
        ensures
            count == self@.active_access.len(),
    {
        self.active_access.len()
    }

    /// Number of active refresh tokens.
    pub fn active_refresh_count(&self) -> (count: usize)
        ensures
            count == self@.active_refresh.len(),
    {
        self.active_refresh.len()
    }
}

impl Default for TokenStore {
    fn default() -> (store: Self)
        ensures
            store@ == StoreState::empty(
                DEFAULT_ACCESS_TOKEN_LIFETIME,
                DEFAULT_REFRESH_TOKEN_LIFETIME,
            ),
            store@.wf(),
    {
        Self::new()
    }
}

/// A new store is well formed.
pub proof fn law_empty_store_wf(access_lifetime: u64, refresh_lifetime: u64)
    ensures
        StoreState::empty(access_lifetime, refresh_lifetime).wf(),
{
}

/// In a new store no token is active, revoked or rotated, ids start at one, and the
/// lifetimes are those asked for.
pub proof fn law_new_store(access_lifetime: u64, refresh_lifetime: u64, id: TokenId)
    ensures
        ({
            let store = StoreState::empty(access_lifetime, refresh_lifetime);
            &&& !store.active_access.contains(id)
            &&& !store.active_refresh.contains(id)
            &&& !store.revoked.contains(id)
            &&& !store.rotated.contains(id)
            &&& !store.owners.contains_key(id)
            &&& store.next_id == 1
            &&& store.access_lifetime == access_lifetime
            &&& store.refresh_lifetime == refresh_lifetime
        }),
{
}

/// Every operation keeps a store well formed.
pub proof fn law_operations_keep_wf(
    store: StoreState,
    subject: String,
    id: TokenId,
    token: RefreshToken,
    now: u64,
)
    requires
        store.wf(),
    ensures
        store.has_ids() ==> store.issue(subject).wf(),
        store.revoke(id).wf(),
        store.revoke_all(subject@).wf(),
        store.has_ids() || !store.rotates(token, now) ==> store.refresh(token, now).wf(),
{
}

/// A revoked token stays revoked, whatever is done to the store.
pub proof fn law_revocation_is_permanent(
    store: StoreState,
    subject: String,
    id: TokenId,
    other: TokenId,
    token: RefreshToken,
    now: u64,
)
    requires
        store.revoked.contains(id),
    ensures
        store.issue(subject).revoked.contains(id),
        store.revoke(other).revoked.contains(id),
        store.revoke_all(subject@).revoked.contains(id),
        store.refresh(token, now).revoked.contains(id),
{
}

/// Revoking all tokens of a subject revokes each of its active tokens, and leaves the
/// tokens of every other subject as they were.
pub proof fn law_revoke_all_is_per_subject(store: StoreState, subject: Seq<char>, id: TokenId)
    requires
        store.owners.contains_key(id),
    ensures
        ({
            let after = store.revoke_all(subject);
            &&& store.owners[id]@ == subject ==> {
                &&& !after.active_access.contains(id)
                &&& !after.active_refresh.contains(id)
                &&& store.active_access.contains(id) || store.active_refresh.contains(id)
                    ==> after.revoked.contains(id)
            }
            &&& store.owners[id]@ != subject ==> {
                &&& after.active_access.contains(id) == store.active_access.contains(id)
                &&& after.active_refresh.contains(id) == store.active_refresh.contains(id)
                &&& after.revoked.contains(id) == store.revoked.contains(id)
            }
        }),
{
}

/// An access token that is revoked, unknown or expired is rejected, and the error
/// says which, in that order.
pub proof fn law_stale_token_rejected(
    store: StoreState,
    token: AccessToken,
    now: u64,
    res: Result<AccessToken, AuthError>,
)
    requires
        store.verifies(token, now, res),
        store.revoked.contains(token.id) || !store.active_access.contains(token.id)
            || token.expires_at <= now,
    ensures
        res is Err,
        store.revoked.contains(token.id) ==> res->Err_0 is TokenRevoked,
        !store.revoked.contains(token.id) && !store.active_access.contains(token.id)
            ==> res->Err_0 is TokenInvalid,
        !store.revoked.contains(token.id) && store.active_access.contains(token.id)
            ==> res->Err_0 is TokenExpired,
{
}

/// A freshly issued access token verifies until it expires.  (An id that was
/// revoked before it was ever issued stays revoked.)
pub proof fn law_issued_token_verifies(
    store: StoreState,
    subject: String,
    issued: u64,
    now: u64,
    res: Result<AccessToken, AuthError>,
)
    requires
        !store.revoked.contains(store.next_id),
        now < store.next_pair(subject, issued).access.expires_at,
        store.issue(subject).verifies(store.next_pair(subject, issued).access, now, res),
    ensures
        res == Ok::<AccessToken, AuthError>(store.next_pair(subject, issued).access),
{
}

/// Ids grow from one pair to the next, so no two tokens share one.
pub proof fn law_ids_are_monotonic(
    store: StoreState,
    first: String,
    second: String,
    now: u64,
    later: u64,
)
    requires
        store.has_ids(),
        store.issue(first).has_ids(),
    ensures
        store.next_pair(first, now).access.id < store.next_pair(first, now).refresh.id,
        store.next_pair(first, now).refresh.id < store.issue(first).next_pair(
            second,
            later,
        ).access.id,
{
}

/// Refreshing rotates: the refresh token that was used and the access token issued
/// with it are revoked, every other token is left as it was, and the new pair is
/// active under new ids, the refresh token naming the one that it replaced.
pub proof fn law_refresh_rotates(store: StoreState, token: RefreshToken, now: u64)
    requires
        store.wf(),
        store.has_ids(),
        store.rotates(token, now),
    ensures
        ({
            let after = store.refresh(token, now);
            let pair = store.rotated_pair(token, now);
            let partner = store.partners[token.id];
            &&& after.revoked == store.revoked.insert(token.id).insert(partner)
            &&& after.active_access == store.active_access.remove(partner).insert(pair.access.id)
            &&& after.active_refresh == store.active_refresh.remove(token.id).insert(
                pair.refresh.id,
            )
            &&& !store.owners.contains_key(pair.access.id)
            &&& !store.owners.contains_key(pair.refresh.id)
            &&& pair.refresh.previous_id == Some(token.id)
        }),
{
    let after = store.refresh(token, now);
    let pair = store.rotated_pair(token, now);
    let partner = store.partners[token.id];
    assert(store.partners.contains_key(token.id));
    assert(store.owners.contains_key(token.id));
    assert(after.active_access =~= store.active_access.remove(partner).insert(pair.access.id));
    assert(after.active_refresh =~= store.active_refresh.remove(token.id).insert(pair.refresh.id));
}

/// A rotated refresh token that comes back is recognised at any time, and then every
/// token of its subject that was active is revoked.
pub proof fn law_replay_revokes_subject(
    store: StoreState,
    token: RefreshToken,
    now: u64,
    later: u64,
    res: Result<TokenPair, AuthError>,
)
    requires
        store.rotates(token, now),
        store.refresh(token, now).refreshes(token, later, res),
    ensures
        res == Err::<TokenPair, AuthError>(AuthError::TokenAlreadyUsed),
        store.refresh(token, now).refresh(token, later) == store.refresh(token, now).revoke_all(
            token.subject@,
        ),
{
}

/// A refresh token that was revoked without being rotated is answered as revoked, at
/// any time.
pub proof fn law_revoked_refresh_is_rejected(
    store: StoreState,
    token: RefreshToken,
    now: u64,
    res: Result<TokenPair, AuthError>,
)
    requires
        store.revoked.contains(token.id),
        !store.rotated.contains(token.id),
        store.refreshes(token, now, res),
    ensures
        res == Err::<TokenPair, AuthError>(AuthError::TokenRevoked),
        store.refresh(token, now) == store,
{
}

/// A refresh that is rejected, for any reason but a replay, changes nothing.
pub proof fn law_rejected_refresh_changes_nothing(
    store: StoreState,
    token: RefreshToken,
    now: u64,
    res: Result<TokenPair, AuthError>,
)
    requires
        store.refreshes(token, now, res),
        res is Err,
        res != Err::<TokenPair, AuthError>(AuthError::TokenAlreadyUsed),
    ensures
        store.refresh(token, now) == store,
{
}

/// A pair is issued to its subject under the next two ids, at the moment of issue; each
/// token expires when its lifetime has passed, or at the last moment that there is.
pub proof fn law_issued_pair(store: StoreState, subject: String, now: u64)
    requires
        store.has_ids(),
    ensures
        ({
            let pair = store.next_pair(subject, now);
            &&& pair.access.id == store.next_id
            &&& pair.refresh.id == store.next_id + 1
            &&& pair.access.subject == subject
            &&& pair.refresh.subject == subject
            &&& pair.access.issued_at == now
            &&& pair.refresh.issued_at == now
            &&& now + store.access_lifetime <= u64::MAX ==> pair.access.expires_at == now
                + store.access_lifetime
            &&& now + store.access_lifetime > u64::MAX ==> pair.access.expires_at == u64::MAX
            &&& now + store.refresh_lifetime <= u64::MAX ==> pair.refresh.expires_at == now
                + store.refresh_lifetime
            &&& now + store.refresh_lifetime > u64::MAX ==> pair.refresh.expires_at == u64::MAX
            &&& pair.access.balance_stroops is None
            &&& pair.refresh.previous_id is None
        }),
{
}

/// A pair that comes out of a refresh is a fresh pair of the same subject: both tokens
/// are issued at the moment of the refresh, each expires when its own lifetime has
/// passed, and the refresh token names the one that was traded in.
pub proof fn law_refreshed_pair(store: StoreState, token: RefreshToken, now: u64, pair: TokenPair)
    requires
        store.has_ids(),
        store.refreshes(token, now, Ok(pair)),
    ensures
        pair.access.id == store.next_id,
        pair.refresh.id == store.next_id + 1,
        pair.access.subject == token.subject,
        pair.refresh.subject == token.subject,
        pair.access.issued_at == now,
        pair.refresh.issued_at == now,
        now + store.access_lifetime <= u64::MAX ==> pair.access.expires_at == now
            + store.access_lifetime,
        now + store.access_lifetime > u64::MAX ==> pair.access.expires_at == u64::MAX,
        now + store.refresh_lifetime <= u64::MAX ==> pair.refresh.expires_at == now
            + store.refresh_lifetime,
        now + store.refresh_lifetime > u64::MAX ==> pair.refresh.expires_at == u64::MAX,
        pair.access.balance_stroops is None,
        pair.refresh.previous_id == Some(token.id),
{
}

/// An access token verifies exactly while it is active, not revoked and not expired, and
/// is then handed back as it was presented.
pub proof fn law_verification(
    store: StoreState,
    token: AccessToken,
    now: u64,
    res: Result<AccessToken, AuthError>,
    subject: Result<String, AuthError>,
)
    requires
        store.verifies(token, now, res),
        store.verifies_subject(token, now, subject),
    ensures
        res is Ok <==> store.active_access.contains(token.id) && !store.revoked.contains(token.id)
            && now < token.expires_at,
        res matches Ok(verified) ==> verified == token,
        subject is Ok <==> res is Ok,
        subject matches Ok(name) ==> name == token.subject,
        store.revoked.contains(token.id) ==> subject == Err::<String, AuthError>(
            AuthError::TokenRevoked,
        ),
        store.active_access.contains(token.id) && !store.revoked.contains(token.id)
            && token.expires_at <= now ==> subject == Err::<String, AuthError>(
            AuthError::TokenExpired,
        ),
{
}

/// A refresh succeeds exactly for a refresh token that is active, neither revoked nor
/// rotated, and not expired.
pub proof fn law_refresh_answer(
    store: StoreState,
    token: RefreshToken,
    now: u64,
    res: Result<TokenPair, AuthError>,
)
    requires
        store.refreshes(token, now, res),
    ensures
        res is Ok <==> store.active_refresh.contains(token.id) && !store.revoked.contains(token.id)
            && !store.rotated.contains(token.id) && now < token.expires_at,
        store.rotates(token, now) <==> res is Ok,
        store.rotated.contains(token.id) ==> res == Err::<TokenPair, AuthError>(
            AuthError::TokenAlreadyUsed,
        ),
        !store.rotated.contains(token.id) && store.revoked.contains(token.id) ==> res == Err::<
            TokenPair,
            AuthError,
        >(AuthError::TokenRevoked),
        !store.rotated.contains(token.id) && !store.revoked.contains(token.id)
            && !store.active_refresh.contains(token.id) ==> res->Err_0 is TokenInvalid,
        !store.rotated.contains(token.id) && !store.revoked.contains(token.id)
            && store.active_refresh.contains(token.id) && token.expires_at <= now ==> res == Err::<
            TokenPair,
            AuthError,
        >(AuthError::TokenExpired),
{
}

/// Issuing makes the two new ids active, gives them to the subject and to each other,
/// and leaves all else as it was.
pub proof fn law_issue_effect(store: StoreState, subject: String, id: TokenId)
    requires
        store.has_ids(),
    ensures
        ({
            let after = store.issue(subject);
            let access = store.next_id;
            let refresh = (store.next_id + 1) as u64;
            &&& after.active_access.contains(id) <==> id == access || store.active_access.contains(
                id,
            )
            &&& after.active_refresh.contains(id) <==> id == refresh
                || store.active_refresh.contains(id)
            &&& after.revoked.contains(id) <==> store.revoked.contains(id)
            &&& after.rotated.contains(id) <==> store.rotated.contains(id)
            &&& after.owners.contains_key(access) && after.owners[access] == subject
            &&& after.owners.contains_key(refresh) && after.owners[refresh] == subject
            &&& after.partners.contains_key(refresh) && after.partners[refresh] == access
            &&& id != access && id != refresh ==> {
                &&& after.owners.contains_key(id) == store.owners.contains_key(id)
                &&& after.owners[id] == store.owners[id]
            }
            &&& id != refresh ==> {
                &&& after.partners.contains_key(id) == store.partners.contains_key(id)
                &&& after.partners[id] == store.partners[id]
            }
            &&& after.next_id == store.next_id + 2
            &&& after.access_lifetime == store.access_lifetime
            &&& after.refresh_lifetime == store.refresh_lifetime
        }),
{
}

/// Whether two stores agree on all but which tokens are active, revoked and rotated.
pub open spec fn same_records(before: StoreState, after: StoreState) -> bool {
    &&& after.owners == before.owners
    &&& after.partners == before.partners
    &&& after.next_id == before.next_id
    &&& after.access_lifetime == before.access_lifetime
    &&& after.refresh_lifetime == before.refresh_lifetime
}

/// Revoking one token concerns that token alone.
pub proof fn law_revoke_effect(store: StoreState, revoked: TokenId, id: TokenId)
    ensures
        ({
            let after = store.revoke(revoked);
            &&& after.revoked.contains(id) <==> id == revoked || store.revoked.contains(id)
            &&& after.active_access.contains(id) <==> id != revoked && store.active_access.contains(
                id,
            )
            &&& after.active_refresh.contains(id) <==> id != revoked
                && store.active_refresh.contains(id)
            &&& after.rotated == store.rotated
            &&& same_records(store, after)
        }),
{
}

/// Revoking all tokens of a subject revokes exactly the active ones that went to it.
pub proof fn law_revoke_all_effect(store: StoreState, subject: Seq<char>, id: TokenId)
    ensures
        ({
            let after = store.revoke_all(subject);
            let owned = store.owners.contains_key(id) && store.owners[id]@ == subject;
            &&& after.revoked.contains(id) <==> store.revoked.contains(id) || (owned && (
            store.active_access.contains(id) || store.active_refresh.contains(id)))
            &&& after.active_access.contains(id) <==> store.active_access.contains(id) && !owned
            &&& after.active_refresh.contains(id) <==> store.active_refresh.contains(id) && !owned
            &&& after.rotated == store.rotated
            &&& same_records(store, after)
        }),
{
}

/// What a refresh does to each token: one that succeeds revokes the token traded in and
/// the access token issued with it, marks the first as rotated and issues a pair; a
/// replay revokes the active tokens of the subject; anything else changes nothing.
pub proof fn law_refresh_effect(store: StoreState, token: RefreshToken, now: u64, id: TokenId)
    requires
        store.wf(),
        store.rotates(token, now) ==> store.has_ids(),
    ensures
        ({
            let after = store.refresh(token, now);
            let traded = store.active_refresh.contains(token.id) && !store.revoked.contains(
                token.id,
            ) && !store.rotated.contains(token.id) && now < token.expires_at;
            let replayed = store.rotated.contains(token.id);
            let spent = id == token.id || id == store.partners[token.id];
            &&& traded ==> {
                &&& after.revoked.contains(id) <==> store.revoked.contains(id) || spent
                &&& after.rotated.contains(id) <==> store.rotated.contains(id) || id == token.id
                &&& after.active_access.contains(id) <==> id == store.next_id || (
                store.active_access.contains(id) && !spent)
                &&& after.active_refresh.contains(id) <==> id == store.next_id + 1 || (
                store.active_refresh.contains(id) && !spent)
                &&& after.next_id == store.next_id + 2
                &&& after.owners.contains_key(store.next_id) && after.owners[store.next_id]
                    == token.subject
                &&& after.owners.contains_key((store.next_id + 1) as u64) && after.owners[(
                store.next_id + 1) as u64] == token.subject
                &&& after.partners.contains_key((store.next_id + 1) as u64) && after.partners[(
                store.next_id + 1) as u64] == store.next_id
                &&& id < store.next_id ==> {
                    &&& after.owners.contains_key(id) == store.owners.contains_key(id)
                    &&& after.owners[id] == store.owners[id]
                    &&& after.partners.contains_key(id) == store.partners.contains_key(id)
                    &&& after.partners[id] == store.partners[id]
                }
                &&& after.access_lifetime == store.access_lifetime
                &&& after.refresh_lifetime == store.refresh_lifetime
            }
            &&& replayed ==> after == store.revoke_all(token.subject@)
            &&& !traded && !replayed ==> after == store
        }),
{
    if store.active_refresh.contains(token.id) {
        assert(store.partners.contains_key(token.id));
        assert(store.owners.contains_key(token.id));
        assert(store.owners.contains_key(store.partners[token.id]));
    }
}

} // verus!
