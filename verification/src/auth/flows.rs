//! Sign-in, logout, verification and session refresh.
//!
//! Every login opens a session of its own with its own pair of tokens.  A request
//! that fails issues no token and opens no session.

use std::collections::HashMap;

use vstd::hash_map::StringHashMap;
use vstd::prelude::*;

use crate::amount::{Amount, AmountError};
use crate::auth::errors::AuthError;
use crate::auth::tokens::{AccessToken, RefreshToken, StoreState, TokenId, TokenPair, TokenStore};
use crate::clock::now_secs;
use crate::pagination::cursor::Cursor;
use crate::pagination::errors::PaginationError;
use crate::pagination::listing::{
    ids_where, listed, page_of_listing, PaginatedCollection, Positioned,
};
use crate::pagination::page::Page;

verus! {

broadcast use vstd::std_specs::hash::group_hash_axioms;

/// Failed logins after which an account is locked.
pub const MAX_LOGIN_ATTEMPTS: u32 = 5;

/// How long an account stays locked, in seconds.
pub const LOCKOUT_SECS: u64 = 300;

/// A user session.
#[derive(Debug, PartialEq)]
pub struct Session {
    pub id: u64,
    pub subject: String,
    pub created_at: u64,
    pub last_activity_at: u64,
    /// The token pair governing this session.
    pub tokens: TokenPair,
    /// Whether the session has ended.
    pub superseded: bool,
}

impl Clone for Session {
    fn clone(&self) -> (copy: Self)
        ensures
            copy == *self,
    {
        Session {
            id: self.id,
            subject: self.subject.clone(),
            created_at: self.created_at,
            last_activity_at: self.last_activity_at,
            tokens: self.tokens.clone(),
            superseded: self.superseded,
        }
    }
}

impl Positioned for Session {
    open spec fn key(self) -> (u64, u64) {
        (self.created_at, self.id)
    }

    fn listing_key(&self) -> (key: (u64, u64)) {
        (self.created_at, self.id)
    }
}

impl Positioned for TokenPair {
    open spec fn key(self) -> (u64, u64) {
        (self.access.issued_at, self.access.id)
    }

    fn listing_key(&self) -> (key: (u64, u64)) {
        (self.access.issued_at, self.access.id)
    }
}

/// What a successful login returns.
#[derive(Debug, PartialEq)]
pub struct LoginResult {
    pub session: Session,
    pub tokens: TokenPair,
    /// Balance snapshot; `None` if the balance is not available.
    pub balance: Option<Amount>,
}

impl Clone for LoginResult {
    fn clone(&self) -> (copy: Self)
        ensures
            copy == *self,
    {
        LoginResult {
            session: self.session.clone(),
            tokens: self.tokens.clone(),
            balance: self.balance,
        }
    }
}

/// Token verifier over a store, which it does not change.
pub struct Verifier<'a> {
    store: &'a TokenStore,
}

impl<'a> Verifier<'a> {
    /// The contents of the store that this verifier reads.
    pub closed spec fn state(self) -> StoreState {
        self.store@
    }

    /// A verifier over `store`.
    pub fn new(store: &'a TokenStore) -> (verifier: Self)
        ensures
            verifier.state() == store@,
    {
        Verifier { store }
    }

    /// Verifies an access token by the system clock.
    pub fn verify(&self, token: &AccessToken) -> (res: Result<AccessToken, AuthError>)
        ensures
            exists|now: u64| #[trigger] self.state().verifies(*token, now, res),
    {
        let res = self.store.verify_access(token);
        proof {
            let now = choose|now: u64| self.store@.verifies(*token, now, res);
            assert(self.state().verifies(*token, now, res));
        }
        res
    }
}

/// Failed logins of one subject, and until when it is locked.
pub type Attempts = (u32, Option<u64>);

/// What an authentication service holds.
#[verifier::ext_equal]
pub struct AuthState {
    pub store: StoreState,
    pub sessions: Map<u64, Session>,
    pub next_session_id: u64,
    pub attempts: Map<Seq<char>, Attempts>,
}

/// Why a balance that a login brings along is rejected, if it is.
pub open spec fn balance_error(balance_stroops: Option<u64>) -> Option<AmountError> {
    match balance_stroops {
        Some(stroops) => crate::amount::amount_error(stroops as int),
        None => None,
    }
}

/// The balance in the result of a login.
pub open spec fn balance_snapshot(balance_stroops: Option<u64>, balance: Option<Amount>) -> bool {
    match balance_stroops {
        Some(stroops) => balance matches Some(amount) && amount@ == stroops,
        None => balance is None,
    }
}

impl AuthState {
    /// A service that nobody has logged in to.
    pub open spec fn empty(access_lifetime: u64, refresh_lifetime: u64) -> Self {
        AuthState {
            store: StoreState::empty(access_lifetime, refresh_lifetime),
            sessions: Map::empty(),
            next_session_id: 1,
            attempts: Map::empty(),
        }
    }

    /// What holds of every service: only tokens that were issued are revoked; sessions
    /// are filed under their own ids, all of which were handed out; each holds a pair
    /// that was issued to its subject, and no two hold the same one; the tokens of a
    /// session that has ended are revoked.
    pub open spec fn wf(self) -> bool {
        &&& self.store.wf()
        &&& forall|id: TokenId| #[trigger]
            self.store.revoked.contains(id) ==> self.store.owners.contains_key(id)
        &&& 1 <= self.next_session_id
        &&& forall|id: u64| #[trigger]
            self.sessions.contains_key(id) ==> self.sessions[id].id == id && 1 <= id
                < self.next_session_id && self.governs(self.sessions[id])
        &&& forall|a: u64, b: u64|
            #![trigger self.sessions.contains_key(a), self.sessions.contains_key(b)]
            self.sessions.contains_key(a) && self.sessions.contains_key(b) && a != b
                ==> self.sessions[a].tokens.access.id != self.sessions[b].tokens.access.id
                && self.sessions[a].tokens.refresh.id != self.sessions[b].tokens.refresh.id
    }

    /// Whether the tokens of `session` are a pair that was issued to its subject, and
    /// are revoked if it has ended.
    pub open spec fn governs(self, session: Session) -> bool {
        let access = session.tokens.access;
        let refresh = session.tokens.refresh;
        &&& access.subject@ == session.subject@
        &&& refresh.subject@ == session.subject@
        &&& self.store.partners.contains_key(refresh.id)
        &&& self.store.partners[refresh.id] == access.id
        &&& self.store.owners[refresh.id]@ == session.subject@
        &&& session.superseded ==> self.store.revoked.contains(access.id)
            && self.store.revoked.contains(refresh.id)
    }

    /// Whether there are ids left for one more login.
    pub open spec fn has_ids(self) -> bool {
        self.store.has_ids() && self.next_session_id < u64::MAX
    }

    /// For how long `subject` is kept out at `now`, if it is.
    pub open spec fn locked_for(self, subject: Seq<char>, now: u64) -> Option<u64> {
        if !self.attempts.contains_key(subject) {
            None
        } else {
            match self.attempts[subject].1 {
                Some(until) => if now < until {
                    Some((until - now) as u64)
                } else {
                    None
                },
                None => if self.attempts[subject].0 >= MAX_LOGIN_ATTEMPTS {
                    Some(LOCKOUT_SECS)
                } else {
                    None
                },
            }
        }
    }

    /// Failed logins that count against `subject` once it is not locked: none after
    /// a lockout has run out.
    pub open spec fn failures(self, subject: Seq<char>) -> u32 {
        if self.attempts.contains_key(subject) && self.attempts[subject].1 is None {
            self.attempts[subject].0
        } else {
            0
        }
    }

    /// Whether a login passes every check.
    pub open spec fn admits(
        self,
        subject: Seq<char>,
        password: Seq<char>,
        balance_stroops: Option<u64>,
        now: u64,
    ) -> bool {
        &&& balance_error(balance_stroops) is None
        &&& self.locked_for(subject, now) is None
        &&& password.len() > 0
    }

    /// The session that the next login of `subject` at `now` opens.
    pub open spec fn next_session(self, subject: String, now: u64) -> Session {
        Session {
            id: self.next_session_id,
            subject,
            created_at: now,
            last_activity_at: now,
            tokens: self.store.next_pair(subject, now),
            superseded: false,
        }
    }

    /// The service with `subject`'s record of failed logins replaced.
    pub open spec fn with_attempts(self, subject: Seq<char>, attempts: Attempts) -> Self {
        AuthState { attempts: self.attempts.insert(subject, attempts), ..self }
    }

    /// The service after a login.
    pub open spec fn login(
        self,
        subject: String,
        password: Seq<char>,
        balance_stroops: Option<u64>,
        now: u64,
    ) -> Self {
        if balance_error(balance_stroops) is Some {
            self
        } else if self.locked_for(subject@, now) is Some {
            if self.attempts[subject@].1 is Some {
                self
            } else {
                self.with_attempts(
                    subject@,
                    (
                        self.attempts[subject@].0,
                        Some(crate::auth::tokens::expiry(now, LOCKOUT_SECS)),
                    ),
                )
            }
        } else if password.len() == 0 {
            self.with_attempts(subject@, ((self.failures(subject@) + 1) as u32, None))
        } else {
            AuthState {
                store: self.store.issue(subject),
                sessions: self.sessions.insert(
                    self.next_session_id,
                    self.next_session(subject, now),
                ),
                next_session_id: (self.next_session_id + 1) as u64,
                ..self
            }.with_attempts(subject@, (0, None))
        }
    }

    /// What a login gives.
    pub open spec fn logs_in(
        self,
        subject: String,
        password: Seq<char>,
        balance_stroops: Option<u64>,
        now: u64,
        res: Result<LoginResult, AuthError>,
    ) -> bool {
        if let Some(e) = balance_error(balance_stroops) {
            res matches Err(AuthError::AmountValidationFailed(msg)) && msg@ == e.message()
        } else if let Some(secs) = self.locked_for(subject@, now) {
            res == Err::<LoginResult, AuthError>(
                AuthError::AccountLocked { retry_after_secs: secs },
            )
        } else if password.len() == 0 {
            res == Err::<LoginResult, AuthError>(AuthError::InvalidCredentials)
        } else {
            &&& res matches Ok(login)
            &&& login.session == self.next_session(subject, now)
            &&& login.tokens == self.store.next_pair(subject, now)
            &&& balance_snapshot(balance_stroops, login.balance)
        }
    }

    /// The sessions of `subject`, open and ended.
    pub open spec fn sessions_of(self, subject: Seq<char>) -> Set<u64> {
        self.sessions.dom().filter(|id: u64| self.sessions[id].subject@ == subject)
    }

    /// Whether `items` are the sessions of `subject`, newest first.
    pub open spec fn lists_sessions(self, subject: Seq<char>, items: Seq<Session>) -> bool {
        crate::pagination::listing::is_listing(
            self.sessions_of(subject),
            |id: u64| self.sessions[id],
            items,
        )
    }

    /// Whether `items` are the token pairs of the open sessions of `subject`, one for
    /// each session, newest first.
    pub open spec fn lists_tokens(self, subject: Seq<char>, items: Seq<TokenPair>) -> bool {
        crate::pagination::listing::is_listing(
            self.open_sessions(subject),
            |id: u64| self.sessions[id].tokens,
            items,
        )
    }

    /// The sessions of `subject` that have not ended.
    pub open spec fn open_sessions(self, subject: Seq<char>) -> Set<u64> {
        self.sessions.dom().filter(
            |id: u64| self.sessions[id].subject@ == subject && !self.sessions[id].superseded,
        )
    }

    /// The tokens that govern the sessions `ids`.
    pub open spec fn session_tokens(self, ids: Set<u64>) -> Set<TokenId> {
        Set::new(
            |token: TokenId|
                exists|id: u64| #[trigger]
                    ids.contains(id) && (self.sessions[id].tokens.access.id == token
                        || self.sessions[id].tokens.refresh.id == token),
        )
    }

    /// The service after ending the sessions `ids`: their tokens are revoked.
    pub open spec fn end_sessions(self, ids: Set<u64>) -> Self {
        let tokens = self.session_tokens(ids);
        AuthState {
            store: StoreState {
                active_access: self.store.active_access.difference(tokens),
                active_refresh: self.store.active_refresh.difference(tokens),
                revoked: self.store.revoked.union(tokens),
                ..self.store
            },
            sessions: Map::new(
                |id: u64| self.sessions.contains_key(id),
                |id: u64|
                    if ids.contains(id) {
                        Session { superseded: true, ..self.sessions[id] }
                    } else {
                        self.sessions[id]
                    },
            ),
            ..self
        }
    }

    /// The service after logging out one session, if there is such a session.
    pub open spec fn logout(self, id: u64) -> Self {
        if self.sessions.contains_key(id) {
            self.end_sessions(set![id])
        } else {
            self
        }
    }

    /// The service after logging `subject` out everywhere: its open sessions end,
    /// and the store revokes all its tokens.
    pub open spec fn logout_all(self, subject: Seq<char>) -> Self {
        let ended = self.end_sessions(self.open_sessions(subject));
        AuthState { store: ended.store.revoke_all(subject), ..ended }
    }

    /// The service after the sessions `ids` were given the pair `tokens` at `now`.
    pub open spec fn renew_sessions(self, ids: Set<u64>, tokens: TokenPair, now: u64) -> Self {
        AuthState {
            sessions: Map::new(
                |id: u64| self.sessions.contains_key(id),
                |id: u64|
                    if ids.contains(id) {
                        Session { tokens, last_activity_at: now, ..self.sessions[id] }
                    } else {
                        self.sessions[id]
                    },
            ),
            ..self
        }
    }

    /// The open sessions of the token's subject that hold `token`: one, or none.
    pub open spec fn holders(self, token: RefreshToken) -> Set<u64> {
        self.open_sessions(token.subject@).filter(
            |id: u64| self.sessions[id].tokens.refresh.id == token.id,
        )
    }

    /// The service after refreshing with `token` at `now`.  A pair that comes of it
    /// goes to the session that held `token`.
    pub open spec fn refresh_session(self, token: RefreshToken, now: u64) -> Self {
        let refreshed = AuthState { store: self.store.refresh(token, now), ..self };
        if self.store.rotates(token, now) {
            refreshed.renew_sessions(
                self.holders(token),
                self.store.rotated_pair(token, now),
                now,
            )
        } else {
            refreshed
        }
    }
}

/// Ending one session more.
proof fn lemma_end_one_more(state: AuthState, ids: Set<u64>, id: u64)
    requires
        state.sessions.contains_key(id),
    ensures
        state.end_sessions(ids).logout(id) == state.end_sessions(ids.insert(id)),
{
    let ended = state.end_sessions(ids);
    let tokens = state.session_tokens(ids);
    let more = state.session_tokens(ids.insert(id));
    assert(more == tokens.union(ended.session_tokens(set![id]))) by {
        assert forall|token: TokenId| more.contains(token) implies tokens.union(
            ended.session_tokens(set![id]),
        ).contains(token) by {
            let k = choose|k: u64| #[trigger]
                ids.insert(id).contains(k) && (state.sessions[k].tokens.access.id == token
                    || state.sessions[k].tokens.refresh.id == token);
            if ids.contains(k) {
                assert(tokens.contains(token));
            } else {
                assert(set![id].contains(k));
            }
        }
        assert forall|token: TokenId|
            tokens.union(ended.session_tokens(set![id])).contains(token) implies more.contains(
            token,
        ) by {
            if tokens.contains(token) {
                let k = choose|k: u64| #[trigger]
                    ids.contains(k) && (state.sessions[k].tokens.access.id == token
                        || state.sessions[k].tokens.refresh.id == token);
                assert(ids.insert(id).contains(k));
            } else {
                assert(ids.insert(id).contains(id));
            }
        }
    }
    assert(ended.logout(id).store =~= state.end_sessions(ids.insert(id)).store);
    assert(ended.logout(id).sessions =~= state.end_sessions(ids.insert(id)).sessions);
}

/// Ending no session changes nothing.
proof fn lemma_end_none(state: AuthState)
    ensures
        state.end_sessions(Set::empty()) == state,
{
    let ended = state.end_sessions(Set::empty());
    assert(state.session_tokens(Set::empty()) =~= Set::<TokenId>::empty());
    assert(ended.store =~= state.store);
    assert(ended.sessions =~= state.sessions);
}

/// In-memory authentication service.
pub struct AuthService {
    store: TokenStore,
    sessions: HashMap<u64, Session>,
    next_session_id: u64,
    attempts: StringHashMap<Attempts>,
}

impl View for AuthService {
    type V = AuthState;

    closed spec fn view(&self) -> AuthState {
        AuthState {
            store: self.store@,
            sessions: self.sessions@,
            next_session_id: self.next_session_id,
            attempts: self.attempts@,
        }
    }
}

impl AuthService {
    /// A service with the default token lifetimes.
    pub fn new() -> (service: Self)
        ensures
            service@ == AuthState::empty(
                crate::auth::tokens::DEFAULT_ACCESS_TOKEN_LIFETIME,
                crate::auth::tokens::DEFAULT_REFRESH_TOKEN_LIFETIME,
            ),
            service@.wf(),
    {
        AuthService {
            store: TokenStore::new(),
            sessions: HashMap::new(),
            next_session_id: 1,
            attempts: StringHashMap::new(),
        }
    }

    /// A service whose tokens live for the given numbers of seconds.
    pub fn with_lifetimes(access: u64, refresh: u64) -> (service: Self)
        ensures
            service@ == AuthState::empty(access, refresh),
            service@.wf(),
    {
        AuthService {
            store: TokenStore::with_lifetimes(access, refresh),
            sessions: HashMap::new(),
            next_session_id: 1,
            attempts: StringHashMap::new(),
        }
    }

    /// Logs `subject` in, by the system clock.
    pub fn login(
        &mut self,
        subject: String,
        password: &str,
        balance_stroops: Option<u64>,
    ) -> (res: Result<LoginResult, AuthError>)
        requires
            forall|now: u64| #[trigger]
                old(self)@.admits(subject@, password@, balance_stroops, now)
                    ==> old(self)@.has_ids(),
        ensures
            exists|now: u64|
                {
                    &&& #[trigger] old(self)@.logs_in(
                        subject,
                        password@,
                        balance_stroops,
                        now,
                        res,
                    )
                    &&& final(self)@ == old(self)@.login(subject, password@, balance_stroops, now)
                },
            old(self)@.wf() ==> final(self)@.wf(),
    {
        self.login_at(subject, password, balance_stroops, now_secs())
    }

    /// Logs `subject` in at `now`: the balance is checked first, then the lockout,
    /// then the credentials.
    pub fn login_at(
        &mut self,
        subject: String,
        password: &str,
        balance_stroops: Option<u64>,
        now: u64,
    ) -> (res: Result<LoginResult, AuthError>)
        requires
            old(self)@.admits(subject@, password@, balance_stroops, now) ==> old(self)@.has_ids(),
        ensures
            old(self)@.logs_in(subject, password@, balance_stroops, now, res),
            final(self)@ == old(self)@.login(subject, password@, balance_stroops, now),
            old(self)@.wf() ==> final(self)@.wf(),
    {
        let balance = match balance_stroops {
            Some(stroops) => match Amount::new(stroops) {
                Ok(amount) => Some(amount),
                Err(e) => return Err(AuthError::AmountValidationFailed(e.to_string())),
            },
            None => None,
        };
        if let Some((count, locked_until)) = self.attempts.get(subject.as_str()) {
            if let Some(until) = locked_until {
                if now < *until {
                    return Err(AuthError::AccountLocked { retry_after_secs: *until - now });
                }
                self.attempts.insert(subject.clone(), (0, None));
            } else if *count >= MAX_LOGIN_ATTEMPTS {
                let count = *count;
                self.attempts.insert(
                    subject.clone(),
                    (count, Some(now.saturating_add(LOCKOUT_SECS))),
                );
                return Err(AuthError::AccountLocked { retry_after_secs: LOCKOUT_SECS });
            }
        }
        if password.is_empty() {
            self.record_failure(subject.as_str());
            return Err(AuthError::InvalidCredentials);
        }
        self.attempts.insert(subject.clone(), (0, None));
        let tokens = self.store.issue_pair_at(subject.clone(), now);
        let session_id = self.next_session_id;
        self.next_session_id = session_id + 1;
        let session = Session {
            id: session_id,
            subject,
            created_at: now,
            last_activity_at: now,
            tokens: tokens.clone(),
            superseded: false,
        };
        self.sessions.insert(session_id, session.clone());
        Ok(LoginResult { session, tokens, balance })
    }

    /// Counts one more failed login against `subject`.
    fn record_failure(&mut self, subject: &str)
        ensures
            final(self)@ == old(self)@.with_attempts(
                subject@,
                if old(self)@.attempts.contains_key(subject@) {
                    (
                        (if old(self)@.attempts[subject@].0 == u32::MAX {
                            u32::MAX
                        } else {
                            (old(self)@.attempts[subject@].0 + 1) as u32
                        }),
                        old(self)@.attempts[subject@].1,
                    )
                } else {
                    (1, None)
                },
            ),
    {
        let (count, locked_until) = match self.attempts.get(subject) {
            Some((count, locked_until)) => (*count, *locked_until),
            None => (0, None),
        };
        self.attempts.insert(subject.to_owned(), (count.saturating_add(1), locked_until));
    }

    /// The ids of the sessions of `subject` that have not ended.
    fn open_session_ids(&self, subject: &str) -> (ids: Vec<u64>)
        ensures
            ids@.no_duplicates(),
            ids@.to_set() == self@.open_sessions(subject@),
            ids@.len() == self@.open_sessions(subject@).len(),
    {
        let owner = subject.to_owned();
        let ghost kept = |session: Session| session.subject@ == subject@ && !session.superseded;
        let keep = |session: &Session| -> (keep: bool)
            ensures
                keep == (session.subject@ == subject@ && !session.superseded),
            { session.subject == owner && !session.superseded };
        let ids = ids_where(&self.sessions, keep, Ghost(kept));
        proof {
            assert(self.sessions@.dom().filter(|id: u64| kept(self.sessions@[id]))
                == self@.open_sessions(subject@));
        }
        ids
    }

    /// The open sessions that hold a refresh token.
    fn holder_ids(&self, token: &RefreshToken) -> (ids: Vec<u64>)
        ensures
            ids@.no_duplicates(),
            ids@.to_set() == self@.holders(*token),
    {
        let ghost kept = |session: Session|
            session.subject@ == token.subject@ && !session.superseded && session.tokens.refresh.id
                == token.id;
        let keep = |session: &Session| -> (keep: bool)
            ensures
                keep == (session.subject@ == token.subject@ && !session.superseded
                    && session.tokens.refresh.id == token.id),
            {
                session.subject == token.subject && !session.superseded
                    && session.tokens.refresh.id == token.id
            };
        let ids = ids_where(&self.sessions, keep, Ghost(kept));
        proof {
            assert(self.sessions@.dom().filter(|id: u64| kept(self.sessions@[id]))
                == self@.holders(*token));
        }
        ids
    }

    /// The sessions of a subject, newest first, page by page.
    pub fn list_sessions(
        &self,
        subject: &str,
        cursor: Option<&Cursor>,
        page_size: usize,
    ) -> (res: Result<Page<Session>, PaginationError>)
        ensures
            exists|items: Seq<Session>| #[trigger]
                self@.lists_sessions(subject@, items) && crate::pagination::page::page_by_key(
                    items,
                    subject@,
                    crate::pagination::cursor::cursor_view(cursor),
                    page_size,
                    |session: Session| session.key(),
                    res,
                ),
    {
        let owner = subject.to_owned();
        let ghost kept = |session: Session| session.subject@ == subject@;
        let keep = |session: &Session| -> (keep: bool)
            ensures
                keep == (session.subject@ == subject@),
            { session.subject == owner };
        let ids = ids_where(&self.sessions, keep, Ghost(kept));
        proof {
            assert(self.sessions@.dom().filter(|id: u64| kept(self.sessions@[id]))
                == self@.sessions_of(subject@));
            assert forall|i: int| 0 <= i < ids@.len() implies self.sessions@.contains_key(
                #[trigger] ids@[i],
            ) by {
                assert(ids@.to_set().contains(ids@[i]));
            }
        }
        let ghost whole = |session: Session| session;
        let copy = |session: &Session| -> (item: Session)
            ensures
                item == *session,
            { session.clone() };
        let items = listed(&self.sessions, &ids, copy, Ghost(whole));
        proof {
            assert((|id: u64| whole(self.sessions@[id])) =~= (|id: u64| self@.sessions[id]));
            assert(self@.lists_sessions(subject@, items@));
        }
        page_of_listing(&items, subject, cursor, page_size)
    }

    /// The token pairs of the open sessions of a subject, newest first, page by page.
    pub fn list_tokens(&self, subject: &str, cursor: Option<&Cursor>, page_size: usize) -> (res:
        Result<Page<TokenPair>, PaginationError>)
        ensures
            exists|items: Seq<TokenPair>| #[trigger]
                self@.lists_tokens(subject@, items) && crate::pagination::page::page_by_key(
                    items,
                    subject@,
                    crate::pagination::cursor::cursor_view(cursor),
                    page_size,
                    |pair: TokenPair| pair.key(),
                    res,
                ),
    {
        let ids = self.open_session_ids(subject);
        proof {
            assert forall|i: int| 0 <= i < ids@.len() implies self.sessions@.contains_key(
                #[trigger] ids@[i],
            ) by {
                assert(ids@.to_set().contains(ids@[i]));
            }
        }
        let ghost tokens = |session: Session| session.tokens;
        let copy = |session: &Session| -> (item: TokenPair)
            ensures
                item == session.tokens,
            { session.tokens.clone() };
        let items = listed(&self.sessions, &ids, copy, Ghost(tokens));
        proof {
            assert((|id: u64| tokens(self.sessions@[id])) =~= (|id: u64|
                self@.sessions[id].tokens));
            assert(self@.lists_tokens(subject@, items@));
        }
        page_of_listing(&items, subject, cursor, page_size)
    }

    /// Logs out one session: revokes its two tokens and marks it as ended.
    pub fn logout(&mut self, session_id: u64) -> (res: Result<(), AuthError>)
        ensures
            final(self)@ == old(self)@.logout(session_id),
            old(self)@.sessions.contains_key(session_id) ==> res == Ok::<(), AuthError>(()),
            !old(self)@.sessions.contains_key(session_id) ==> res == Err::<(), AuthError>(
                AuthError::SessionNotFound,
            ),
            old(self)@.wf() ==> final(self)@.wf(),
    {
        let mut session = match self.sessions.remove(&session_id) {
            Some(session) => session,
            None => {
                proof {
                    assert(self.sessions@ =~= old(self).sessions@);
                }
                return Err(AuthError::SessionNotFound);
            },
        };
        self.store.revoke(session.tokens.access.id);
        self.store.revoke(session.tokens.refresh.id);
        session.superseded = true;
        self.sessions.insert(session_id, session);
        proof {
            let before = old(self)@;
            let tokens = before.session_tokens(set![session_id]);
            assert(set![session_id].contains(session_id));
            assert(tokens =~= set![session.tokens.access.id, session.tokens.refresh.id]);
            assert(self@.store =~= before.logout(session_id).store);
            assert(self@.sessions =~= before.logout(session_id).sessions);
        }
        Ok(())
    }

    /// Logs `subject` out everywhere, and says how many sessions that ended.
    pub fn logout_all(&mut self, subject: &str) -> (res: Result<u32, AuthError>)
        ensures
            final(self)@ == old(self)@.logout_all(subject@),
            res == Ok::<u32, AuthError>(old(self)@.open_sessions(subject@).len() as u32),
            old(self)@.wf() ==> final(self)@.wf(),
    {
        let ids = self.open_session_ids(subject);
        let count = #[verifier::truncate]
        (ids.len() as u32);
        let mut i: usize = 0;
        proof {
            lemma_end_none(old(self)@);
            assert(ids@.take(0).to_set() =~= Set::<u64>::empty());
        }
        while i < ids.len()
            invariant
                i <= ids@.len(),
                ids@.to_set() == old(self)@.open_sessions(subject@),
                self@ == old(self)@.end_sessions(ids@.take(i as int).to_set()),
                old(self)@.wf() ==> self@.wf(),
            decreases ids@.len() - i,
        {
            let id = ids[i];
            proof {
                assert(ids@.to_set().contains(id));
                lemma_end_one_more(old(self)@, ids@.take(i as int).to_set(), id);
                assert(ids@.take(i + 1) == ids@.take(i as int).push(id));
                ids@.take(i as int).lemma_push_to_set_commute(id);
            }
            let _ = self.logout(id);
            i = i + 1;
        }
        proof {
            assert(ids@.take(ids@.len() as int) == ids@);
        }
        self.store.revoke_all_for_subject(subject);
        Ok(count)
    }

    /// Verifies an access token by the system clock; returns its subject.
    pub fn verify_token(&self, token: &AccessToken) -> (res: Result<String, AuthError>)
        ensures
            exists|now: u64| #[trigger] self@.store.verifies_subject(*token, now, res),
    {
        self.verify_token_at(token, now_secs())
    }

    /// Verifies an access token at `now`; returns its subject.
    pub fn verify_token_at(&self, token: &AccessToken, now: u64) -> (res: Result<
        String,
        AuthError,
    >)
        ensures
            self@.store.verifies_subject(*token, now, res),
    {
        match self.store.verify_access_at(token, now) {
            Ok(verified) => Ok(verified.subject),
            Err(e) => Err(e),
        }
    }

    /// Trades a refresh token for a new pair, by the system clock, and hands the pair
    /// to the session that held the token.
    pub fn refresh_session(&mut self, refresh_token: &RefreshToken) -> (res: Result<
        TokenPair,
        AuthError,
    >)
        requires
            forall|now: u64| #[trigger]
                old(self)@.store.rotates(*refresh_token, now) ==> old(self)@.store.has_ids(),
        ensures
            exists|now: u64|
                {
                    &&& #[trigger] old(self)@.store.refreshes(*refresh_token, now, res)
                    &&& final(self)@ == old(self)@.refresh_session(*refresh_token, now)
                },
            old(self)@.wf() ==> final(self)@.wf(),
    {
        self.refresh_session_at(refresh_token, now_secs())
    }

    /// Trades a refresh token for a new pair at `now`, and hands the pair to the
    /// session that held the token.
    pub fn refresh_session_at(&mut self, refresh_token: &RefreshToken, now: u64) -> (res: Result<
        TokenPair,
        AuthError,
    >)
        requires
            old(self)@.store.rotates(*refresh_token, now) ==> old(self)@.store.has_ids(),
        ensures
            old(self)@.store.refreshes(*refresh_token, now, res),
            final(self)@ == old(self)@.refresh_session(*refresh_token, now),
            old(self)@.wf() ==> final(self)@.wf(),
    {
        let ids = self.holder_ids(refresh_token);
        let new_pair = match self.store.refresh_at(refresh_token, now) {
            Ok(new_pair) => new_pair,
            Err(e) => return Err(e),
        };
        let ghost refreshed = self@;
        let mut i: usize = 0;
        proof {
            assert(ids@.take(0).to_set() =~= Set::<u64>::empty());
            assert(self@.sessions =~= refreshed.renew_sessions(
                Set::empty(),
                new_pair,
                now,
            ).sessions);
        }
        while i < ids.len()
            invariant
                i <= ids@.len(),
                ids@.no_duplicates(),
                refreshed.sessions == old(self)@.sessions,
                ids@.to_set() == old(self)@.holders(*refresh_token),
                self@ == refreshed.renew_sessions(
                    ids@.take(i as int).to_set(),
                    new_pair,
                    now,
                ),
            decreases ids@.len() - i,
        {
            let id = ids[i];
            let ghost renewed = self@.sessions;
            proof {
                assert(ids@.to_set().contains(id));
                assert(ids@.take(i + 1) == ids@.take(i as int).push(id));
                ids@.take(i as int).lemma_push_to_set_commute(id);
            }
            if let Some(mut session) = self.sessions.remove(&id) {
                session.tokens = new_pair.clone();
                session.last_activity_at = now;
                self.sessions.insert(id, session);
            }
            i = i + 1;
            proof {
                assert(self@.sessions =~= refreshed.renew_sessions(
                    ids@.take(i as int).to_set(),
                    new_pair,
                    now,
                ).sessions);
            }
        }
        proof {
            assert(ids@.take(ids@.len() as int) == ids@);
        }
        Ok(new_pair)
    }

    /// The token store.
    pub fn store(&self) -> (store: &TokenStore)
        ensures
            store@ == self@.store,
    {
        &self.store
    }

    /// The session `id`, if there is one.
    pub fn session(&self, id: u64) -> (session: Option<&Session>)
        ensures
            match session {
                Some(session) => self@.sessions.contains_key(id) && *session == self@.sessions[id],
                None => !self@.sessions.contains_key(id),
            },
    {
        self.sessions.get(&id)
    }

    /// Number of sessions, ended ones included.
    pub fn session_count(&self) -> (count: usize)
        ensures
            count == self@.sessions.len(),
    {
        self.sessions.len()
    }
}

impl Default for AuthService {
    fn default() -> (service: Self)
        ensures
            service@ == AuthState::empty(
                crate::auth::tokens::DEFAULT_ACCESS_TOKEN_LIFETIME,
                crate::auth::tokens::DEFAULT_REFRESH_TOKEN_LIFETIME,
            ),
            service@.wf(),
    {
        Self::new()
    }
}

impl PaginatedCollection for AuthService {
    type Item = Session;

    open spec fn valid(&self) -> bool {
        self@.wf()
    }

    open spec fn key_of(item: Session) -> (u64, u64) {
        (item.created_at, item.id)
    }

    open spec fn owner_of(item: Session) -> Seq<char> {
        item.subject@
    }

    open spec fn lists(&self, subject: Seq<char>, items: Seq<Session>) -> bool {
        self@.lists_sessions(subject, items)
    }

    proof fn law_lists_in_order(&self, subject: Seq<char>, items: Seq<Session>) {
        law_session_listing(self@, subject, items);
        assert(items.map_values(|item: Session| Self::key_of(item))
            == crate::pagination::listing::keys_of(items));
    }

    fn sort_key(item: &Session) -> (key: (u64, u64)) {
        (item.created_at, item.id)
    }

    fn subject(item: &Session) -> (owner: &str) {
        item.subject.as_str()
    }

    fn query(&self, subject: &str, cursor: Option<&Cursor>, page_size: usize) -> (res: Result<
        Page<Session>,
        PaginationError,
    >) {
        let res = self.list_sessions(subject, cursor, page_size);
        proof {
            let key = |session: Session| session.key();
            let items = choose|items: Seq<Session>| #[trigger]
                self@.lists_sessions(subject@, items) && crate::pagination::page::page_by_key(
                    items,
                    subject@,
                    crate::pagination::cursor::cursor_view(cursor),
                    page_size,
                    key,
                    res,
                );
            assert(self.lists(subject@, items));
            assert((|item: Session| Self::key_of(item)) =~= key);
        }
        res
    }
}

/// The sessions of a subject have one order: all of them belong to the subject, every
/// key is less than those before it, and no other order will do.
pub proof fn law_session_listing(state: AuthState, subject: Seq<char>, items: Seq<Session>)
    requires
        state.wf(),
        state.lists_sessions(subject, items),
    ensures
        forall|i: int| 0 <= i < items.len() ==> (#[trigger] items[i]).subject@ == subject,
        crate::pagination::page::descending(crate::pagination::listing::keys_of(items)),
        forall|other: Seq<Session>| #[trigger]
            state.lists_sessions(subject, other) ==> other == items,
{
    let ids = state.sessions_of(subject);
    let item_of = |id: u64| state.sessions[id];
    assert(crate::pagination::listing::keys_differ(ids, item_of));
    crate::pagination::listing::law_listing_is_descending(ids, item_of, items);
    let order = choose|order: Seq<u64>| #[trigger]
        crate::pagination::listing::arranges(order, ids) && items == order.map_values(item_of);
    assert forall|i: int| 0 <= i < items.len() implies (#[trigger] items[i]).subject@
        == subject by {
        assert(order.to_set().contains(order[i]));
        assert(items[i] == item_of(order[i]));
    }
    assert forall|other: Seq<Session>| #[trigger]
        state.lists_sessions(subject, other) implies other == items by {
        crate::pagination::listing::law_listing_is_unique(ids, item_of, other, items);
    }
}

/// The token pairs of a subject's open sessions have one order: all of them belong to
/// the subject, every key is less than those before it, and no other order will do.
pub proof fn law_token_listing(state: AuthState, subject: Seq<char>, items: Seq<TokenPair>)
    requires
        state.wf(),
        state.lists_tokens(subject, items),
    ensures
        forall|i: int| 0 <= i < items.len() ==> (#[trigger] items[i]).access.subject@ == subject,
        crate::pagination::page::descending(crate::pagination::listing::keys_of(items)),
        forall|other: Seq<TokenPair>| #[trigger]
            state.lists_tokens(subject, other) ==> other == items,
{
    let ids = state.open_sessions(subject);
    let item_of = |id: u64| state.sessions[id].tokens;
    assert(crate::pagination::listing::keys_differ(ids, item_of)) by {
        assert forall|a: u64, b: u64|
            ids.contains(a) && ids.contains(b) && a != b implies (#[trigger] item_of(a)).key() != (
        #[trigger] item_of(b)).key() by {
            lemma_tokens_differ(state, a, b);
        }
    }
    crate::pagination::listing::law_listing_is_descending(ids, item_of, items);
    let order = choose|order: Seq<u64>| #[trigger]
        crate::pagination::listing::arranges(order, ids) && items == order.map_values(item_of);
    assert forall|i: int| 0 <= i < items.len() implies (#[trigger] items[i]).access.subject@
        == subject by {
        assert(order.to_set().contains(order[i]));
        assert(items[i] == item_of(order[i]));
        assert(state.governs(state.sessions[order[i]]));
    }
    assert forall|other: Seq<TokenPair>| #[trigger]
        state.lists_tokens(subject, other) implies other == items by {
        crate::pagination::listing::law_listing_is_unique(ids, item_of, other, items);
    }
}

/// A login that fails issues no token and opens no session; one that fails over
/// its balance changes nothing at all.
pub proof fn law_failed_login_leaves_no_partial_state(
    state: AuthState,
    subject: String,
    password: Seq<char>,
    balance_stroops: Option<u64>,
    now: u64,
    res: Result<LoginResult, AuthError>,
)
    requires
        state.logs_in(subject, password, balance_stroops, now, res),
        res is Err,
    ensures
        ({
            let after = state.login(subject, password, balance_stroops, now);
            &&& after.store == state.store
            &&& after.sessions == state.sessions
            &&& after.next_session_id == state.next_session_id
            &&& res->Err_0 is AmountValidationFailed ==> after == state
        }),
{
}

/// A login concerns the failed-login record of its own subject alone.
pub proof fn law_lockout_is_per_subject(
    state: AuthState,
    subject: String,
    password: Seq<char>,
    balance_stroops: Option<u64>,
    now: u64,
    other: Seq<char>,
    later: u64,
)
    requires
        other != subject@,
    ensures
        state.login(subject, password, balance_stroops, now).locked_for(other, later)
            == state.locked_for(other, later),
        state.login(subject, password, balance_stroops, now).failures(other)
            == state.failures(other),
{
}

/// A login that succeeds wipes out the failures before it.
pub proof fn law_success_resets_failures(
    state: AuthState,
    subject: String,
    password: Seq<char>,
    balance_stroops: Option<u64>,
    now: u64,
    later: u64,
)
    requires
        state.admits(subject@, password, balance_stroops, now),
    ensures
        state.login(subject, password, balance_stroops, now).failures(subject@) == 0,
        state.login(subject, password, balance_stroops, now).locked_for(subject@, later) is None,
{
}

/// The service after `subject` presented an empty password at each of `times`.
pub open spec fn after_failures(state: AuthState, subject: String, times: Seq<u64>) -> AuthState
    decreases times.len(),
{
    if times.len() == 0 {
        state
    } else {
        after_failures(state, subject, times.drop_last()).login(
            subject,
            Seq::empty(),
            None,
            times.last(),
        )
    }
}

/// Up to [`MAX_LOGIN_ATTEMPTS`] failed logins are counted one by one.
proof fn lemma_failures_count(state: AuthState, subject: String, times: Seq<u64>)
    requires
        state.failures(subject@) == 0,
        times.len() > 0 ==> state.locked_for(subject@, times[0]) is None,
        times.len() <= MAX_LOGIN_ATTEMPTS,
    ensures
        times.len() > 0 ==> after_failures(state, subject, times).attempts.contains_key(subject@),
        times.len() > 0 ==> after_failures(state, subject, times).attempts[subject@] == (
            times.len() as u32,
            None::<u64>,
        ),
        times.len() == 0 ==> after_failures(state, subject, times) == state,
    decreases times.len(),
{
    if times.len() > 0 {
        lemma_failures_count(state, subject, times.drop_last());
    }
}

/// After [`MAX_LOGIN_ATTEMPTS`] failed logins in a row a subject is locked out,
/// whatever password it presents next.
pub proof fn law_lockout_after_max_attempts(
    state: AuthState,
    subject: String,
    times: Seq<u64>,
    password: Seq<char>,
    now: u64,
    res: Result<LoginResult, AuthError>,
)
    requires
        state.failures(subject@) == 0,
        state.locked_for(subject@, times[0]) is None,
        times.len() == MAX_LOGIN_ATTEMPTS,
        after_failures(state, subject, times).logs_in(subject, password, None, now, res),
    ensures
        res == Err::<LoginResult, AuthError>(
            AuthError::AccountLocked { retry_after_secs: LOCKOUT_SECS },
        ),
        after_failures(state, subject, times).login(subject, password, None, now).attempts[subject@]
            == (MAX_LOGIN_ATTEMPTS, Some(crate::auth::tokens::expiry(now, LOCKOUT_SECS))),
{
    lemma_failures_count(state, subject, times);
}

/// A lockout holds until it runs out, and not longer.
pub proof fn law_lockout_runs_out(state: AuthState, subject: Seq<char>, until: u64, now: u64)
    requires
        state.attempts.contains_key(subject),
        state.attempts[subject].1 == Some(until),
    ensures
        now < until ==> state.locked_for(subject, now) == Some((until - now) as u64),
        now >= until ==> state.locked_for(subject, now) is None && state.failures(subject) == 0,
{
}

/// Logins stand side by side: each opens a session with an id and tokens of its
/// own and leaves the sessions before it as they were.
pub proof fn law_logins_are_independent(
    state: AuthState,
    subject: String,
    password: Seq<char>,
    balance_stroops: Option<u64>,
    now: u64,
)
    requires
        state.wf(),
        state.has_ids(),
        state.admits(subject@, password, balance_stroops, now),
    ensures
        ({
            let after = state.login(subject, password, balance_stroops, now);
            let session = state.next_session(subject, now);
            &&& !state.sessions.contains_key(session.id)
            &&& after.sessions == state.sessions.insert(session.id, session)
            &&& !state.store.active_access.contains(session.tokens.access.id)
            &&& !state.store.active_refresh.contains(session.tokens.refresh.id)
            &&& forall|id: TokenId| #[trigger]
                state.store.active_access.contains(id) ==> after.store.active_access.contains(id)
            &&& after.store.revoked == state.store.revoked
        }),
{
}

/// The access token of a login verifies until it expires.
pub proof fn law_login_token_verifies(
    state: AuthState,
    subject: String,
    password: Seq<char>,
    balance_stroops: Option<u64>,
    now: u64,
    later: u64,
    res: Result<String, AuthError>,
)
    requires
        state.wf(),
        state.admits(subject@, password, balance_stroops, now),
        later < state.next_session(subject, now).tokens.access.expires_at,
        state.login(subject, password, balance_stroops, now).store.verifies_subject(
            state.next_session(subject, now).tokens.access,
            later,
            res,
        ),
    ensures
        res == Ok::<String, AuthError>(subject),
{
    assert(!state.store.owners.contains_key(state.store.next_id));
}

/// Logging out a session revokes both its tokens and ends it, together.
pub proof fn law_logout_ends_session(state: AuthState, id: u64)
    requires
        state.sessions.contains_key(id),
    ensures
        ({
            let after = state.logout(id);
            &&& after.store.revoked.contains(state.sessions[id].tokens.access.id)
            &&& after.store.revoked.contains(state.sessions[id].tokens.refresh.id)
            &&& after.sessions[id] == (Session { superseded: true, ..state.sessions[id] })
        }),
{
    assert(set![id].contains(id));
}

/// Logging out a session twice is the same as logging it out once.
pub proof fn law_logout_is_idempotent(state: AuthState, id: u64)
    ensures
        state.logout(id).logout(id) == state.logout(id),
{
    if state.sessions.contains_key(id) {
        let once = state.logout(id);
        assert(once.session_tokens(set![id]) =~= state.session_tokens(set![id]));
        assert(once.logout(id).store =~= once.store);
        assert(once.logout(id).sessions =~= once.sessions);
    }
}

/// Whether `after` has the tokens of `session` active and revoked as `before` has them.
pub open spec fn same_tokens(before: StoreState, after: StoreState, session: Session) -> bool {
    let access = session.tokens.access.id;
    let refresh = session.tokens.refresh.id;
    &&& after.active_access.contains(access) == before.active_access.contains(access)
    &&& after.revoked.contains(access) == before.revoked.contains(access)
    &&& after.active_refresh.contains(refresh) == before.active_refresh.contains(refresh)
    &&& after.revoked.contains(refresh) == before.revoked.contains(refresh)
    &&& after.rotated.contains(refresh) == before.rotated.contains(refresh)
}

/// The tokens of two sessions have four different ids.
proof fn lemma_tokens_differ(state: AuthState, a: u64, b: u64)
    requires
        state.wf(),
        state.sessions.contains_key(a),
        state.sessions.contains_key(b),
        a != b,
    ensures
        state.sessions[a].tokens.access.id != state.sessions[b].tokens.access.id,
        state.sessions[a].tokens.refresh.id != state.sessions[b].tokens.refresh.id,
        state.sessions[a].tokens.access.id != state.sessions[b].tokens.refresh.id,
        state.sessions[a].tokens.refresh.id != state.sessions[b].tokens.access.id,
{
    assert(state.governs(state.sessions[a]));
    assert(state.governs(state.sessions[b]));
}

/// Logging out a session leaves every other session, and its tokens, as they were.
pub proof fn law_logout_leaves_others(state: AuthState, id: u64, other: u64)
    requires
        state.wf(),
        state.sessions.contains_key(id),
        state.sessions.contains_key(other),
        other != id,
    ensures
        state.logout(id).sessions[other] == state.sessions[other],
        same_tokens(state.store, state.logout(id).store, state.sessions[other]),
{
    lemma_tokens_differ(state, id, other);
}

/// Logging a subject out everywhere ends each of its sessions, with its tokens, and
/// leaves it no active token; the sessions and tokens of everyone else stay as they
/// were.
pub proof fn law_logout_all_ends_every_session(state: AuthState, subject: Seq<char>, id: u64)
    requires
        state.wf(),
        state.sessions.contains_key(id),
    ensures
        ({
            let after = state.logout_all(subject);
            let session = state.sessions[id];
            &&& after.open_sessions(subject) == Set::<u64>::empty()
            &&& after.store.active_access.disjoint(after.store.owned(subject))
            &&& after.store.active_refresh.disjoint(after.store.owned(subject))
            &&& session.subject@ == subject ==> {
                &&& after.sessions[id].superseded
                &&& after.store.revoked.contains(session.tokens.access.id)
                &&& after.store.revoked.contains(session.tokens.refresh.id)
            }
            &&& session.subject@ != subject ==> {
                &&& after.sessions[id] == session
                &&& same_tokens(state.store, after.store, session)
            }
        }),
{
    let after = state.logout_all(subject);
    let session = state.sessions[id];
    assert(state.governs(session));
    assert(after.open_sessions(subject) =~= Set::<u64>::empty());
    if session.subject@ == subject && !session.superseded {
        assert(state.open_sessions(subject).contains(id));
    }
    if session.subject@ != subject {
        assert forall|k: u64| state.open_sessions(subject).contains(k) implies k != id
            && state.sessions.contains_key(k) by {}
        let tokens = state.session_tokens(state.open_sessions(subject));
        if tokens.contains(session.tokens.access.id) {
            let k = choose|k: u64| #[trigger]
                state.open_sessions(subject).contains(k) && (state.sessions[k].tokens.access.id
                    == session.tokens.access.id || state.sessions[k].tokens.refresh.id
                    == session.tokens.access.id);
            lemma_tokens_differ(state, k, id);
        }
        if tokens.contains(session.tokens.refresh.id) {
            let k = choose|k: u64| #[trigger]
                state.open_sessions(subject).contains(k) && (state.sessions[k].tokens.access.id
                    == session.tokens.refresh.id || state.sessions[k].tokens.refresh.id
                    == session.tokens.refresh.id);
            lemma_tokens_differ(state, k, id);
        }
    }
}

/// A session is refreshed with the refresh token that it holds, unless the token is
/// revoked or expired: the session then holds the new pair, both old tokens are
/// revoked, and the new access token verifies until it expires.
pub proof fn law_refresh_renews_session(
    state: AuthState,
    id: u64,
    token: RefreshToken,
    now: u64,
    res: Result<TokenPair, AuthError>,
    later: u64,
    verified: Result<String, AuthError>,
)
    requires
        state.wf(),
        state.store.has_ids(),
        state.sessions.contains_key(id),
        state.sessions[id].tokens.refresh == token,
        !state.store.revoked.contains(token.id),
        now < token.expires_at,
        state.store.refreshes(token, now, res),
        later < state.store.rotated_pair(token, now).access.expires_at,
        state.refresh_session(token, now).store.verifies_subject(
            state.store.rotated_pair(token, now).access,
            later,
            verified,
        ),
    ensures
        ({
            let after = state.refresh_session(token, now);
            let pair = state.store.rotated_pair(token, now);
            &&& res == Ok::<TokenPair, AuthError>(pair)
            &&& pair.access.subject == token.subject
            &&& pair.refresh.subject == token.subject
            &&& verified == Ok::<String, AuthError>(token.subject)
            &&& after.sessions[id] == (Session {
                tokens: pair,
                last_activity_at: now,
                ..state.sessions[id]
            })
            &&& after.store.revoked.contains(token.id)
            &&& after.store.revoked.contains(state.sessions[id].tokens.access.id)
            &&& after.sessions.dom() == state.sessions.dom()
        }),
{
    let after = state.refresh_session(token, now);
    let session = state.sessions[id];
    assert(state.governs(session));
    assert(state.store.owners.contains_key(token.id));
    assert(!state.store.active_access.contains(token.id));
    assert(!state.store.rotated.contains(token.id));
    assert(state.store.rotates(token, now));
    assert(state.holders(token).contains(id));
    assert(!state.store.owners.contains_key(state.store.next_id));
    assert(state.store.owners.contains_key(state.store.partners[token.id]));
    assert(after.sessions.dom() =~= state.sessions.dom());
}

/// Refreshing one session leaves every other session, and its tokens, as they were.
pub proof fn law_refresh_leaves_others(state: AuthState, token: RefreshToken, now: u64, other: u64)
    requires
        state.wf(),
        state.store.has_ids(),
        state.store.rotates(token, now),
        state.sessions.contains_key(other),
        state.sessions[other].tokens.refresh.id != token.id,
    ensures
        state.refresh_session(token, now).sessions[other] == state.sessions[other],
        same_tokens(state.store, state.refresh_session(token, now).store, state.sessions[other]),
{
    let session = state.sessions[other];
    assert(state.governs(session));
    assert(state.store.partners.contains_key(token.id));
    assert(state.store.owners.contains_key(session.tokens.refresh.id));
    assert(state.store.owners.contains_key(session.tokens.access.id));
}

/// A refresh that fails leaves every session as it was.
pub proof fn law_failed_refresh_keeps_sessions(
    state: AuthState,
    token: RefreshToken,
    now: u64,
    res: Result<TokenPair, AuthError>,
)
    requires
        state.store.refreshes(token, now, res),
        res is Err,
    ensures
        state.refresh_session(token, now).sessions == state.sessions,
{
}

/// A refresh token that was used comes back in vain, at any time: every active token
/// of its subject is then revoked.
pub proof fn law_refresh_session_replay(
    state: AuthState,
    token: RefreshToken,
    now: u64,
    later: u64,
    res: Result<TokenPair, AuthError>,
)
    requires
        state.store.rotates(token, now),
        state.refresh_session(token, now).store.refreshes(token, later, res),
    ensures
        res == Err::<TokenPair, AuthError>(AuthError::TokenAlreadyUsed),
        ({
            let after = state.refresh_session(token, now);
            &&& after.refresh_session(token, later).store == after.store.revoke_all(token.subject@)
            &&& after.refresh_session(token, later).sessions == after.sessions
        }),
{
}

/// A revoked token stays revoked, whatever is done to the service.
pub proof fn law_service_keeps_revocations(
    state: AuthState,
    revoked: TokenId,
    subject: String,
    password: Seq<char>,
    balance_stroops: Option<u64>,
    session_id: u64,
    token: RefreshToken,
    now: u64,
)
    requires
        state.store.revoked.contains(revoked),
    ensures
        state.login(subject, password, balance_stroops, now).store.revoked.contains(revoked),
        state.logout(session_id).store.revoked.contains(revoked),
        state.logout_all(subject@).store.revoked.contains(revoked),
        state.refresh_session(token, now).store.revoked.contains(revoked),
{
}

/// A login that brings a balance along carries exactly that balance; one that brings
/// none carries none.
pub proof fn law_login_keeps_balance(
    state: AuthState,
    subject: String,
    password: Seq<char>,
    balance_stroops: Option<u64>,
    now: u64,
    login: LoginResult,
)
    requires
        state.logs_in(subject, password, balance_stroops, now, Ok(login)),
    ensures
        login.balance is Some <==> balance_stroops is Some,
        balance_stroops matches Some(stroops) ==> login.balance.unwrap()@ == stroops && 0 < stroops
            <= 0x7fff_ffff_ffff_ffff,
{
}

/// What a login answers: the balance is looked at first, then the lockout, then the
/// password.  A subject is locked out until the moment on record, or, where there is
/// none yet, once it has failed five times.
pub proof fn law_login_answer(
    state: AuthState,
    subject: String,
    password: Seq<char>,
    balance_stroops: Option<u64>,
    now: u64,
    res: Result<LoginResult, AuthError>,
)
    requires
        state.logs_in(subject, password, balance_stroops, now, res),
    ensures
        ({
            let in_range = balance_stroops matches Some(stroops) ==> 0 < stroops
                <= 0x7fff_ffff_ffff_ffff;
            let known = state.attempts.contains_key(subject@);
            let (count, until) = state.attempts[subject@];
            let waiting = known && until is Some && now < until->0;
            let exhausted = known && until is None && count >= 5;
            &&& res is Ok <==> in_range && !waiting && !exhausted && password.len() > 0
            &&& !in_range ==> res->Err_0 is AmountValidationFailed
            &&& in_range && waiting ==> res == Err::<LoginResult, AuthError>(
                AuthError::AccountLocked { retry_after_secs: (until->0 - now) as u64 },
            )
            &&& in_range && exhausted ==> res == Err::<LoginResult, AuthError>(
                AuthError::AccountLocked { retry_after_secs: 300 },
            )
            &&& in_range && !waiting && !exhausted && password.len() == 0 ==> res == Err::<
                LoginResult,
                AuthError,
            >(AuthError::InvalidCredentials)
        }),
{
}

/// What a login that succeeds hands out: an open session of the subject under the next
/// id, begun at the moment of the login, with a pair of tokens that expire when their
/// lifetimes have passed.
pub proof fn law_login_result(
    state: AuthState,
    subject: String,
    password: Seq<char>,
    balance_stroops: Option<u64>,
    now: u64,
    login: LoginResult,
)
    requires
        state.has_ids(),
        state.logs_in(subject, password, balance_stroops, now, Ok(login)),
    ensures
        login.session.id == state.next_session_id,
        login.session.subject == subject,
        login.session.created_at == now,
        login.session.last_activity_at == now,
        !login.session.superseded,
        login.session.tokens == login.tokens,
        login.tokens.access.id == state.store.next_id,
        login.tokens.refresh.id == state.store.next_id + 1,
        login.tokens.access.subject == subject,
        login.tokens.refresh.subject == subject,
        login.tokens.access.issued_at == now,
        login.tokens.refresh.issued_at == now,
        now + state.store.access_lifetime <= u64::MAX ==> login.tokens.access.expires_at == now
            + state.store.access_lifetime,
        now + state.store.access_lifetime > u64::MAX ==> login.tokens.access.expires_at
            == u64::MAX,
        now + state.store.refresh_lifetime <= u64::MAX ==> login.tokens.refresh.expires_at == now
            + state.store.refresh_lifetime,
        now + state.store.refresh_lifetime > u64::MAX ==> login.tokens.refresh.expires_at
            == u64::MAX,
        login.tokens.access.balance_stroops is None,
        login.tokens.refresh.previous_id is None,
{
}

/// What a login does to the service.  One that succeeds files the session that it hands
/// out, issues its tokens and clears the subject's record; a wrong password adds one to
/// the record; the first attempt after five failures starts a lockout of five minutes;
/// all else changes nothing.  The records of other subjects stay as they were.
pub proof fn law_login_effect(
    state: AuthState,
    subject: String,
    password: Seq<char>,
    balance_stroops: Option<u64>,
    now: u64,
    res: Result<LoginResult, AuthError>,
    id: u64,
    other: Seq<char>,
)
    requires
        res is Ok ==> state.has_ids(),
        state.logs_in(subject, password, balance_stroops, now, res),
    ensures
        ({
            let after = state.login(subject, password, balance_stroops, now);
            let known = state.attempts.contains_key(subject@);
            let (count, until) = state.attempts[subject@];
            let failures: int = if known && until is None {
                count as int
            } else {
                0
            };
            &&& other != subject@ ==> {
                &&& after.attempts.contains_key(other) == state.attempts.contains_key(other)
                &&& after.attempts[other] == state.attempts[other]
            }
            &&& res matches Ok(login) ==> {
                &&& after.attempts.contains_key(subject@)
                &&& after.attempts[subject@] == (0u32, None::<u64>)
                &&& after.store == state.store.issue(subject)
                &&& after.next_session_id == state.next_session_id + 1
                &&& after.sessions.contains_key(login.session.id)
                &&& after.sessions[login.session.id] == login.session
                &&& id != login.session.id ==> {
                    &&& after.sessions.contains_key(id) == state.sessions.contains_key(id)
                    &&& after.sessions[id] == state.sessions[id]
                }
            }
            &&& res is Err ==> {
                &&& after.store == state.store
                &&& after.sessions == state.sessions
                &&& after.next_session_id == state.next_session_id
            }
            &&& res matches Err(AuthError::InvalidCredentials) ==> {
                &&& after.attempts.contains_key(subject@)
                &&& after.attempts[subject@].0 == failures + 1
                &&& after.attempts[subject@].1 is None
            }
            &&& res matches Err(AuthError::AccountLocked { .. }) ==> {
                &&& after.attempts.contains_key(subject@)
                &&& after.attempts[subject@].0 == count
                &&& until is Some ==> after.attempts[subject@].1 == until
                &&& until is None && now + 300 <= u64::MAX ==> after.attempts[subject@].1 == Some(
                    (now + 300) as u64,
                )
                &&& until is None && now + 300 > u64::MAX ==> after.attempts[subject@].1 == Some(
                    u64::MAX,
                )
            }
            &&& res matches Err(AuthError::AmountValidationFailed(_)) ==> after.attempts
                == state.attempts
        }),
{
}

/// The open sessions of a subject are those that belong to it and have not ended; among
/// them, those that hold a refresh token are the ones that have its id.
pub proof fn law_open_sessions(state: AuthState, subject: Seq<char>, token: RefreshToken, id: u64)
    ensures
        state.open_sessions(subject).contains(id) <==> state.sessions.contains_key(id)
            && state.sessions[id].subject@ == subject && !state.sessions[id].superseded,
        state.sessions_of(subject).contains(id) <==> state.sessions.contains_key(id)
            && state.sessions[id].subject@ == subject,
        state.holders(token).contains(id) <==> state.sessions.contains_key(id)
            && state.sessions[id].subject@ == token.subject@ && !state.sessions[id].superseded
            && state.sessions[id].tokens.refresh.id == token.id,
{
}

/// What logging out one session does: that session ends, and is otherwise kept as it
/// was; its two tokens are revoked; nothing else changes.
pub proof fn law_logout_effect(state: AuthState, session_id: u64, id: u64, token: TokenId)
    requires
        state.sessions.contains_key(session_id),
    ensures
        ({
            let after = state.logout(session_id);
            let tokens = state.sessions[session_id].tokens;
            let own = token == tokens.access.id || token == tokens.refresh.id;
            &&& after.sessions.contains_key(id) == state.sessions.contains_key(id)
            &&& id == session_id ==> after.sessions[id] == (Session {
                superseded: true,
                ..state.sessions[id]
            })
            &&& id != session_id && state.sessions.contains_key(id) ==> after.sessions[id]
                == state.sessions[id]
            &&& after.store.revoked.contains(token) <==> own || state.store.revoked.contains(token)
            &&& after.store.active_access.contains(token) <==> !own
                && state.store.active_access.contains(token)
            &&& after.store.active_refresh.contains(token) <==> !own
                && state.store.active_refresh.contains(token)
            &&& after.store.rotated == state.store.rotated
            &&& crate::auth::tokens::same_records(state.store, after.store)
            &&& after.attempts == state.attempts
            &&& after.next_session_id == state.next_session_id
        }),
{
    assert(set![session_id].contains(session_id));
}

/// What logging a subject out everywhere does: its sessions end, and are otherwise kept
/// as they were; its active tokens are revoked; nothing else changes.
pub proof fn law_logout_all_effect(state: AuthState, subject: Seq<char>, id: u64, token: TokenId)
    requires
        state.wf(),
    ensures
        ({
            let after = state.logout_all(subject);
            let own = state.store.owners.contains_key(token) && state.store.owners[token]@
                == subject;
            &&& after.sessions.contains_key(id) == state.sessions.contains_key(id)
            &&& state.sessions.contains_key(id) && state.sessions[id].subject@ == subject
                ==> after.sessions[id] == (Session { superseded: true, ..state.sessions[id] })
            &&& state.sessions.contains_key(id) && state.sessions[id].subject@ != subject
                ==> after.sessions[id] == state.sessions[id]
            &&& after.store.revoked.contains(token) <==> own || state.store.revoked.contains(token)
            &&& after.store.active_access.contains(token) <==> !own
                && state.store.active_access.contains(token)
            &&& after.store.active_refresh.contains(token) <==> !own
                && state.store.active_refresh.contains(token)
            &&& after.store.rotated == state.store.rotated
            &&& crate::auth::tokens::same_records(state.store, after.store)
            &&& after.attempts == state.attempts
            &&& after.next_session_id == state.next_session_id
        }),
{
    let tokens = state.session_tokens(state.open_sessions(subject));
    if tokens.contains(token) {
        let k = choose|k: u64| #[trigger]
            state.open_sessions(subject).contains(k) && (state.sessions[k].tokens.access.id == token
                || state.sessions[k].tokens.refresh.id == token);
        assert(state.sessions.contains_key(k));
        assert(state.governs(state.sessions[k]));
        assert(state.store.owners.contains_key(state.sessions[k].tokens.refresh.id));
        assert(state.store.owners.contains_key(state.sessions[k].tokens.access.id));
    }
}

/// What refreshing does to the sessions: the open session of the subject that holds the
/// token gets the pair that is handed out, and is otherwise kept as it was; no other
/// session changes, and none does where the refresh fails.
pub proof fn law_refresh_session_effect(
    state: AuthState,
    token: RefreshToken,
    now: u64,
    res: Result<TokenPair, AuthError>,
    id: u64,
)
    requires
        state.store.refreshes(token, now, res),
    ensures
        ({
            let after = state.refresh_session(token, now);
            let holds = state.sessions[id].subject@ == token.subject@
                && !state.sessions[id].superseded && state.sessions[id].tokens.refresh.id
                == token.id;
            &&& after.sessions.contains_key(id) == state.sessions.contains_key(id)
            &&& res matches Ok(pair) ==> state.sessions.contains_key(id) && holds
                ==> after.sessions[id] == (Session {
                tokens: pair,
                last_activity_at: now,
                ..state.sessions[id]
            })
            &&& state.sessions.contains_key(id) && (res is Err || !holds) ==> after.sessions[id]
                == state.sessions[id]
            &&& after.store == state.store.refresh(token, now)
            &&& after.attempts == state.attempts
            &&& after.next_session_id == state.next_session_id
        }),
{
}

/// A listing of sessions holds every session of the subject and nothing else, the later
/// created first, and of two created at the same moment the one with the greater id.
pub proof fn law_session_listing_is_complete(
    state: AuthState,
    subject: Seq<char>,
    items: Seq<Session>,
)
    requires
        state.wf(),
        state.lists_sessions(subject, items),
    ensures
        forall|id: u64| #[trigger]
            state.sessions.contains_key(id) && state.sessions[id].subject@ == subject
                ==> items.contains(state.sessions[id]),
        forall|i: int|
            0 <= i < items.len() ==> state.sessions.contains_key((#[trigger] items[i]).id)
                && state.sessions[items[i].id] == items[i] && items[i].subject@ == subject,
        forall|i: int, j: int|
            0 <= i < j < items.len() ==> (#[trigger] items[i]).created_at > (
            #[trigger] items[j]).created_at || (items[i].created_at == items[j].created_at
                && items[i].id > items[j].id),
{
    law_session_listing(state, subject, items);
    let ids = state.sessions_of(subject);
    let item_of = |id: u64| state.sessions[id];
    let order = choose|order: Seq<u64>| #[trigger]
        crate::pagination::listing::arranges(order, ids) && items == order.map_values(item_of);
    let keys = crate::pagination::listing::keys_of(items);
    assert forall|i: int| 0 <= i < items.len() implies state.sessions.contains_key(
        (#[trigger] items[i]).id,
    ) && state.sessions[items[i].id] == items[i] by {
        assert(order.to_set().contains(order[i]));
        assert(items[i] == item_of(order[i]));
    }
    assert forall|id: u64| #[trigger]
        state.sessions.contains_key(id) && state.sessions[id].subject@ == subject implies items.contains(
    state.sessions[id]) by {
        assert(ids.contains(id));
        assert(order.to_set().contains(id));
        let k = choose|k: int| 0 <= k < order.len() && order[k] == id;
        assert(items[k] == item_of(id));
    }
    assert forall|i: int, j: int| 0 <= i < j < items.len() implies (
    #[trigger] items[i]).created_at > (#[trigger] items[j]).created_at || (items[i].created_at
        == items[j].created_at && items[i].id > items[j].id) by {
        assert(keys[i] == items[i].key());
        assert(keys[j] == items[j].key());
    }
}

/// Whether an open session of `subject` holds `pair`.
pub open spec fn held_by_open_session(state: AuthState, subject: Seq<char>, pair: TokenPair) -> bool {
    exists|id: u64| #[trigger]
        state.sessions.contains_key(id) && state.sessions[id].subject@ == subject
            && !state.sessions[id].superseded && state.sessions[id].tokens == pair
}

/// A listing of tokens holds the pair of every open session of the subject and nothing
/// else, the later issued first, and of two issued at the same moment the one with the
/// greater id.
pub proof fn law_token_listing_is_complete(
    state: AuthState,
    subject: Seq<char>,
    items: Seq<TokenPair>,
)
    requires
        state.wf(),
        state.lists_tokens(subject, items),
    ensures
        forall|id: u64| #[trigger]
            state.sessions.contains_key(id) && state.sessions[id].subject@ == subject
                && !state.sessions[id].superseded ==> items.contains(state.sessions[id].tokens),
        forall|i: int|
            0 <= i < items.len() ==> held_by_open_session(state, subject, #[trigger] items[i]),
        forall|i: int, j: int|
            0 <= i < j < items.len() ==> (#[trigger] items[i]).access.issued_at > (
            #[trigger] items[j]).access.issued_at || (items[i].access.issued_at
                == items[j].access.issued_at && items[i].access.id > items[j].access.id),
{
    law_token_listing(state, subject, items);
    let ids = state.open_sessions(subject);
    let item_of = |id: u64| state.sessions[id].tokens;
    let order = choose|order: Seq<u64>| #[trigger]
        crate::pagination::listing::arranges(order, ids) && items == order.map_values(item_of);
    let keys = crate::pagination::listing::keys_of(items);
    assert forall|i: int| 0 <= i < items.len() implies held_by_open_session(
        state,
        subject,
        #[trigger] items[i],
    ) by {
        assert(order.to_set().contains(order[i]));
        assert(items[i] == item_of(order[i]));
        assert(state.sessions.contains_key(order[i]));
    }
    assert forall|id: u64| #[trigger]
        state.sessions.contains_key(id) && state.sessions[id].subject@ == subject
            && !state.sessions[id].superseded implies items.contains(state.sessions[id].tokens) by {
        assert(ids.contains(id));
        assert(order.to_set().contains(id));
        let k = choose|k: int| 0 <= k < order.len() && order[k] == id;
        assert(items[k] == item_of(id));
    }
    assert forall|i: int, j: int| 0 <= i < j < items.len() implies (
    #[trigger] items[i]).access.issued_at > (#[trigger] items[j]).access.issued_at || (
    items[i].access.issued_at == items[j].access.issued_at && items[i].access.id
        > items[j].access.id) by {
        assert(keys[i] == items[i].key());
        assert(keys[j] == items[j].key());
    }
}

/// A session is placed by the moment of its creation and its id, a pair by the moment of
/// issue and the id of its access token.
pub proof fn law_listing_keys(session: Session, pair: TokenPair)
    ensures
        session.key() == (session.created_at, session.id),
        pair.key() == (pair.access.issued_at, pair.access.id),
{
}

/// In a new service nobody is logged in and nobody has failed to, ids start at one, and
/// the lifetimes are those asked for.
pub proof fn law_new_auth_service(
    access_lifetime: u64,
    refresh_lifetime: u64,
    id: u64,
    subject: Seq<char>,
)
    ensures
        ({
            let state = AuthState::empty(access_lifetime, refresh_lifetime);
            &&& !state.sessions.contains_key(id)
            &&& !state.attempts.contains_key(subject)
            &&& state.next_session_id == 1
            &&& state.store == StoreState::empty(access_lifetime, refresh_lifetime)
            &&& state.wf()
        }),
{
}

/// Logging out a session that does not exist changes nothing.
pub proof fn law_unknown_logout_changes_nothing(state: AuthState, id: u64)
    requires
        !state.sessions.contains_key(id),
    ensures
        state.logout(id) == state,
{
}

/// What the sessions of a subject are as a collection: placed by creation and id, and
/// owned by their subjects.
pub proof fn law_sessions_as_collection(
    service: AuthService,
    subject: Seq<char>,
    items: Seq<Session>,
    session: Session,
)
    ensures
        AuthService::key_of(session) == (session.created_at, session.id),
        AuthService::owner_of(session) == session.subject@,
        service.lists(subject, items) <==> service@.lists_sessions(subject, items),
        service.valid() <==> service@.wf(),
{
}

} // verus!
