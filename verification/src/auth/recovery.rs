//! Account recovery.
//!
//! Recovery has two phases.  A request hands out a one-time token; asking again
//! while that token is live hands out the same one.  Presenting the token
//! completes the recovery: every active token of the subject is revoked and a fresh
//! pair is issued.

use std::collections::{HashMap, HashSet};

use vstd::prelude::*;

use crate::auth::errors::AuthError;
use crate::auth::tokens::{StoreState, TokenPair, TokenStore};
use crate::clock::now_secs;
use crate::pagination::cursor::Cursor;
use crate::pagination::errors::PaginationError;
use crate::pagination::listing::{
    ids_where, listed, page_of_listing, PaginatedCollection, Positioned,
};
use crate::pagination::page::Page;

verus! {

broadcast use vstd::std_specs::hash::group_hash_axioms;

/// Default lifetime of a recovery token, in seconds: one hour.
pub const DEFAULT_RECOVERY_TOKEN_LIFETIME: u64 = 3600;

/// Status of a recovery request.
#[derive(Debug, Clone, Copy, PartialEq, Eq, Hash, Structural)]
pub enum RecoveryStatus {
    /// Waiting for the user to present the token.
    Pending,
    /// Successfully completed.
    Completed,
    /// Cancelled.
    Cancelled,
}

/// A one-time recovery token.
#[derive(Debug, PartialEq, Eq)]
pub struct RecoveryToken {
    pub id: u64,
    pub subject: String,
    pub expires_at: u64,
    /// The session being recovered.
    pub session_id: u64,
}

impl Clone for RecoveryToken {
    fn clone(&self) -> (copy: Self)
        ensures
            copy == *self,
    {
        RecoveryToken {
            id: self.id,
            subject: self.subject.clone(),
            expires_at: self.expires_at,
            session_id: self.session_id,
        }
    }
}

/// A recovery request.
#[derive(Debug)]
pub struct RecoveryRequest {
    pub id: u64,
    pub subject: String,
    pub session_id: u64,
    pub status: RecoveryStatus,
    pub created_at: u64,
    pub expires_at: u64,
    /// The one-time token of this request.
    pub token: Option<RecoveryToken>,
}

impl Clone for RecoveryRequest {
    fn clone(&self) -> (copy: Self)
        ensures
            copy == *self,
    {
        RecoveryRequest {
            id: self.id,
            subject: self.subject.clone(),
            session_id: self.session_id,
            status: self.status,
            created_at: self.created_at,
            expires_at: self.expires_at,
            token: match &self.token {
                Some(token) => Some(token.clone()),
                None => None,
            },
        }
    }
}

impl Positioned for RecoveryRequest {
    open spec fn key(self) -> (u64, u64) {
        (self.created_at, self.id)
    }

    fn listing_key(&self) -> (key: (u64, u64)) {
        (self.created_at, self.id)
    }
}

/// Result of completing a recovery.
#[derive(Debug, PartialEq)]
pub struct RecoveryResult {
    /// Fresh token pair.
    pub tokens: TokenPair,
    /// Number of other sessions revoked.
    pub other_sessions_revoked: u32,
}

impl Clone for RecoveryResult {
    fn clone(&self) -> (copy: Self)
        ensures
            copy == *self,
    {
        RecoveryResult {
            tokens: self.tokens.clone(),
            other_sessions_revoked: self.other_sessions_revoked,
        }
    }
}

/// What a recovery service holds.
#[verifier::ext_equal]
pub struct RecoveryState {
    pub requests: Map<u64, RecoveryRequest>,
    pub tokens: Map<u64, RecoveryToken>,
    pub active_tokens: Set<u64>,
    pub used_tokens: Set<u64>,
    pub next_id: u64,
    pub token_lifetime_secs: u64,
}

/// Whether `id` is the greatest of `ids`.
pub open spec fn is_latest(ids: Set<u64>, id: u64) -> bool {
    ids.contains(id) && forall|other: u64| #[trigger] ids.contains(other) ==> other <= id
}

/// The number of sessions besides the one recovered, out of `active` sessions.
pub open spec fn other_sessions(active: nat) -> u32 {
    let count = active as u32;
    if count == 0 {
        0
    } else {
        (count - 1) as u32
    }
}

impl RecoveryState {
    /// A service without requests.
    pub open spec fn empty(token_lifetime_secs: u64) -> Self {
        RecoveryState {
            requests: Map::empty(),
            tokens: Map::empty(),
            active_tokens: Set::empty(),
            used_tokens: Set::empty(),
            next_id: 1,
            token_lifetime_secs,
        }
    }

    /// What holds of every service: requests are filed under their own ids, with
    /// their own tokens, and no token is both active and used.
    pub open spec fn wf(self) -> bool {
        &&& 1 <= self.next_id
        &&& forall|id: u64| #[trigger]
            self.requests.contains_key(id) ==> {
                let request = self.requests[id];
                &&& request.id == id
                &&& 1 <= id < self.next_id
                &&& request.token matches Some(token)
                &&& token.subject == request.subject
                &&& token.session_id == request.session_id
                &&& token.expires_at == request.expires_at
                &&& token.id == id + 1
                &&& token.id < self.next_id
            }
        &&& forall|id: u64| #[trigger]
            self.active_tokens.contains(id) ==> 1 <= id < self.next_id
                && !self.used_tokens.contains(id)
        &&& forall|id: u64| #[trigger]
            self.used_tokens.contains(id) ==> 1 <= id < self.next_id
    }

    /// Whether there are ids left for one more request and its token.
    pub open spec fn has_ids(self) -> bool {
        self.next_id + 2 <= u64::MAX
    }

    /// The requests for a session that have the given status.
    pub open spec fn requests_for(self, session_id: u64, status: RecoveryStatus) -> Set<u64> {
        self.requests.dom().filter(
            |id: u64|
                self.requests[id].session_id == session_id && self.requests[id].status == status,
        )
    }

    /// The requests of a subject: all of them, or those with the given status.
    pub open spec fn requests_of(self, subject: Seq<char>, status: Option<RecoveryStatus>) -> Set<
        u64,
    > {
        self.requests.dom().filter(
            |id: u64|
                self.requests[id].subject@ == subject && (status is Some
                    ==> self.requests[id].status == status.unwrap()),
        )
    }

    /// Whether `items` are the requests of a subject, all of them or those with the
    /// given status, newest first.
    pub open spec fn lists_requests(
        self,
        subject: Seq<char>,
        status: Option<RecoveryStatus>,
        items: Seq<RecoveryRequest>,
    ) -> bool {
        crate::pagination::listing::is_listing(
            self.requests_of(subject, status),
            |id: u64| self.requests[id],
            items,
        )
    }

    /// Whether a recovery of the session was completed.
    pub open spec fn completed(self, session_id: u64) -> bool {
        exists|id: u64| #[trigger]
            self.requests_for(session_id, RecoveryStatus::Completed).contains(id)
    }

    /// The latest pending request for a session, if there is one.
    pub open spec fn latest_pending(self, session_id: u64) -> Option<u64> {
        let pending = self.requests_for(session_id, RecoveryStatus::Pending);
        if exists|id: u64| is_latest(pending, id) {
            Some(choose|id: u64| is_latest(pending, id))
        } else {
            None
        }
    }

    /// The token of the latest pending request for a session, unless it expired.
    pub open spec fn live_token(self, session_id: u64, now: u64) -> Option<RecoveryToken> {
        match self.latest_pending(session_id) {
            Some(id) => match self.requests[id].token {
                Some(token) => if token.expires_at > now {
                    Some(token)
                } else {
                    None
                },
                None => None,
            },
            None => None,
        }
    }

    /// Whether a request for the session at `now` makes a new token.
    pub open spec fn creates(self, session_id: u64, now: u64) -> bool {
        !self.completed(session_id) && self.live_token(session_id, now) is None
    }

    /// The token that the next new request makes.
    pub open spec fn next_token(self, subject: String, session_id: u64, now: u64) -> RecoveryToken {
        RecoveryToken {
            id: (self.next_id + 1) as u64,
            subject,
            expires_at: crate::auth::tokens::expiry(now, self.token_lifetime_secs),
            session_id,
        }
    }

    /// The service after a request.
    pub open spec fn request(self, subject: String, session_id: u64, now: u64) -> Self {
        if self.creates(session_id, now) {
            let token = self.next_token(subject, session_id, now);
            RecoveryState {
                requests: self.requests.insert(
                    self.next_id,
                    RecoveryRequest {
                        id: self.next_id,
                        subject,
                        session_id,
                        status: RecoveryStatus::Pending,
                        created_at: now,
                        expires_at: token.expires_at,
                        token: Some(token),
                    },
                ),
                tokens: self.tokens.insert(token.id, token),
                active_tokens: self.active_tokens.insert(token.id),
                next_id: (self.next_id + 2) as u64,
                ..self
            }
        } else {
            self
        }
    }

    /// What a request gives.
    pub open spec fn requests_token(
        self,
        subject: String,
        session_id: u64,
        now: u64,
        res: Result<RecoveryToken, AuthError>,
    ) -> bool {
        if self.completed(session_id) {
            res == Err::<RecoveryToken, AuthError>(AuthError::RecoveryAlreadyCompleted)
        } else if let Some(token) = self.live_token(session_id, now) {
            res == Ok::<RecoveryToken, AuthError>(token)
        } else {
            res == Ok::<RecoveryToken, AuthError>(self.next_token(subject, session_id, now))
        }
    }

    /// The service with the latest pending request for a session, if there is one,
    /// moved to `status`.
    pub open spec fn settle(self, session_id: u64, status: RecoveryStatus) -> Self {
        match self.latest_pending(session_id) {
            Some(id) => RecoveryState {
                requests: self.requests.insert(
                    id,
                    RecoveryRequest { status, ..self.requests[id] },
                ),
                ..self
            },
            None => self,
        }
    }

    /// Whether presenting `token` at `now` completes a recovery.
    pub open spec fn completes(self, token: RecoveryToken, now: u64) -> bool {
        self.active_tokens.contains(token.id) && now < token.expires_at
    }

    /// The service after presenting `token` at `now`.
    pub open spec fn complete(self, token: RecoveryToken, now: u64) -> Self {
        if self.completes(token, now) {
            RecoveryState {
                active_tokens: self.active_tokens.remove(token.id),
                used_tokens: self.used_tokens.insert(token.id),
                ..self
            }.settle(token.session_id, RecoveryStatus::Completed)
        } else {
            self
        }
    }

    /// The token store after presenting `token` at `now`.
    pub open spec fn complete_store(
        self,
        store: StoreState,
        token: RecoveryToken,
        now: u64,
    ) -> StoreState {
        if self.completes(token, now) {
            store.revoke_all(token.subject@).issue(token.subject)
        } else {
            store
        }
    }

    /// What presenting `token` at `now` gives.
    pub open spec fn completes_with(
        self,
        store: StoreState,
        token: RecoveryToken,
        now: u64,
        res: Result<RecoveryResult, AuthError>,
    ) -> bool {
        if !self.active_tokens.contains(token.id) {
            if self.used_tokens.contains(token.id) {
                res == Err::<RecoveryResult, AuthError>(AuthError::TokenAlreadyUsed)
            } else {
                res == Err::<RecoveryResult, AuthError>(AuthError::RecoveryTokenInvalid)
            }
        } else if token.expires_at <= now {
            res == Err::<RecoveryResult, AuthError>(AuthError::TokenExpired)
        } else {
            &&& res matches Ok(result)
            &&& result.tokens == store.next_pair(token.subject, now)
            &&& result.other_sessions_revoked == other_sessions(
                store.active_access.intersect(store.owned(token.subject@)).len(),
            )
        }
    }

    /// The service after cancelling the latest pending request for a session.
    pub open spec fn cancel(self, session_id: u64) -> Self {
        match self.latest_pending(session_id) {
            Some(id) => {
                let settled = self.settle(session_id, RecoveryStatus::Cancelled);
                match self.requests[id].token {
                    Some(token) => RecoveryState {
                        active_tokens: self.active_tokens.remove(token.id),
                        ..settled
                    },
                    None => settled,
                }
            },
            None => self,
        }
    }
}

/// A set has at most one greatest element.
proof fn lemma_latest_unique(ids: Set<u64>, a: u64, b: u64)
    requires
        is_latest(ids, a),
        is_latest(ids, b),
    ensures
        a == b,
{
}

/// In-memory recovery service.
pub struct RecoveryService {
    requests: HashMap<u64, RecoveryRequest>,
    tokens: HashMap<u64, RecoveryToken>,
    active_tokens: HashSet<u64>,
    used_tokens: HashSet<u64>,
    next_id: u64,
    token_lifetime_secs: u64,
}

impl View for RecoveryService {
    type V = RecoveryState;

    closed spec fn view(&self) -> RecoveryState {
        RecoveryState {
            requests: self.requests@,
            tokens: self.tokens@,
            active_tokens: self.active_tokens@,
            used_tokens: self.used_tokens@,
            next_id: self.next_id,
            token_lifetime_secs: self.token_lifetime_secs,
        }
    }
}

impl RecoveryService {
    /// A service whose tokens live for one hour.
    pub fn new() -> (service: Self)
        ensures
            service@ == RecoveryState::empty(DEFAULT_RECOVERY_TOKEN_LIFETIME),
            service@.wf(),
    {
        Self::with_token_lifetime(DEFAULT_RECOVERY_TOKEN_LIFETIME)
    }

    /// A service whose tokens live for `secs` seconds.
    pub fn with_token_lifetime(secs: u64) -> (service: Self)
        ensures
            service@ == RecoveryState::empty(secs),
            service@.wf(),
    {
        RecoveryService {
            requests: HashMap::new(),
            tokens: HashMap::new(),
            active_tokens: HashSet::new(),
            used_tokens: HashSet::new(),
            next_id: 1,
            token_lifetime_secs: secs,
        }
    }

    /// The greatest id among the requests for a session that have the given status.
    fn latest_request(&self, session_id: u64, status: RecoveryStatus) -> (latest: Option<u64>)
        ensures
            match latest {
                Some(id) => is_latest(self@.requests_for(session_id, status), id),
                None => self@.requests_for(session_id, status) == Set::<u64>::empty(),
            },
    {
        let ghost ids = self@.requests_for(session_id, status);
        let mut latest: Option<u64> = None;
        for id in it: self.requests.keys()
            invariant
                ids == self@.requests_for(session_id, status),
                it.seq().unref().to_set() == self.requests@.dom(),
                latest matches Some(found) ==> ids.contains(found),
                forall|k: int|
                    0 <= k < it.index() && ids.contains(#[trigger] it.seq().unref()[k]) ==> (
                    latest matches Some(found) && it.seq().unref()[k] <= found),
                it.index() == it.seq().len() ==> forall|other: u64| #[trigger]
                    ids.contains(other) ==> (latest matches Some(found) && other <= found),
        {
            if let Some(request) = self.requests.get(id) {
                if request.session_id == session_id && request.status == status {
                    match latest {
                        Some(found) => {
                            if found < *id {
                                latest = Some(*id);
                            }
                        },
                        None => {
                            latest = Some(*id);
                        },
                    }
                }
            }
            proof {
                let keys = it.seq().unref();
                let n = it.index();
                assert(keys.to_set().contains(keys[n]));
                assert forall|other: u64|
                    n + 1 == keys.len() && #[trigger] ids.contains(other) implies (
                latest matches Some(found) && other <= found) by {
                    assert(keys.to_set().contains(other));
                    let k = choose|k: int| 0 <= k < keys.len() && keys[k] == other;
                    assert(ids.contains(keys[k]));
                }
            }
        }
        proof {
            if latest is None {
                assert(ids =~= Set::<u64>::empty());
            }
        }
        latest
    }

    /// The latest pending request for a session.
    fn latest_pending_request(&self, session_id: u64) -> (latest: Option<u64>)
        ensures
            latest == self@.latest_pending(session_id),
            latest matches Some(id) ==> self@.requests.contains_key(id),
    {
        let latest = self.latest_request(session_id, RecoveryStatus::Pending);
        proof {
            let pending = self@.requests_for(session_id, RecoveryStatus::Pending);
            if let Some(id) = latest {
                lemma_latest_unique(pending, id, choose|id: u64| is_latest(pending, id));
            }
        }
        latest
    }

    /// Takes the next id.
    fn next_id(&mut self) -> (id: u64)
        requires
            old(self)@.next_id < u64::MAX,
        ensures
            id == old(self)@.next_id,
            final(self)@ == (RecoveryState { next_id: (id + 1) as u64, ..old(self)@ }),
    {
        let id = self.next_id;
        self.next_id = id + 1;
        id
    }

    /// Requests recovery of a session, by the system clock.
    pub fn request_recovery(&mut self, subject: String, session_id: u64) -> (res: Result<
        RecoveryToken,
        AuthError,
    >)
        requires
            forall|now: u64| #[trigger]
                old(self)@.creates(session_id, now) ==> old(self)@.has_ids(),
        ensures
            exists|now: u64|
                {
                    &&& #[trigger] old(self)@.requests_token(subject, session_id, now, res)
                    &&& final(self)@ == old(self)@.request(subject, session_id, now)
                },
            old(self)@.wf() ==> final(self)@.wf(),
    {
        self.request_recovery_at(subject, session_id, now_secs())
    }

    /// Requests recovery of a session at `now`.  While the latest pending request
    /// for the session has a live token, that token is handed out again.
    pub fn request_recovery_at(&mut self, subject: String, session_id: u64, now: u64) -> (res:
        Result<RecoveryToken, AuthError>)
        requires
            old(self)@.creates(session_id, now) ==> old(self)@.has_ids(),
        ensures
            old(self)@.requests_token(subject, session_id, now, res),
            final(self)@ == old(self)@.request(subject, session_id, now),
            old(self)@.wf() ==> final(self)@.wf(),
    {
        if self.latest_request(session_id, RecoveryStatus::Completed).is_some() {
            return Err(AuthError::RecoveryAlreadyCompleted);
        }
        if let Some(id) = self.latest_pending_request(session_id) {
            if let Some(request) = self.requests.get(&id) {
                if let Some(token) = &request.token {
                    if token.expires_at > now {
                        return Ok(token.clone());
                    }
                }
            }
        }
        let request_id = self.next_id();
        let token_id = self.next_id();
        let token = RecoveryToken {
            id: token_id,
            subject: subject.clone(),
            expires_at: now.saturating_add(self.token_lifetime_secs),
            session_id,
        };
        self.tokens.insert(token_id, token.clone());
        self.active_tokens.insert(token_id);
        let request = RecoveryRequest {
            id: request_id,
            subject,
            session_id,
            status: RecoveryStatus::Pending,
            created_at: now,
            expires_at: token.expires_at,
            token: Some(token.clone()),
        };
        self.requests.insert(request_id, request);
        Ok(token)
    }

    /// Moves the latest pending request for a session to `status`; returns the
    /// request's token.
    fn settle(&mut self, session_id: u64, status: RecoveryStatus) -> (settled: Option<
        Option<RecoveryToken>,
    >)
        ensures
            final(self)@ == old(self)@.settle(session_id, status),
            match old(self)@.latest_pending(session_id) {
                Some(id) => settled == Some(old(self)@.requests[id].token),
                None => settled is None,
            },
    {
        match self.latest_pending_request(session_id) {
            Some(id) => match self.requests.remove(&id) {
                Some(mut request) => {
                    request.status = status;
                    let token = match &request.token {
                        Some(token) => Some(token.clone()),
                        None => None,
                    };
                    self.requests.insert(id, request);
                    proof {
                        assert(self.requests@ =~= old(self)@.settle(session_id, status).requests);
                    }
                    Some(token)
                },
                None => None,
            },
            None => None,
        }
    }

    /// Completes a recovery, by the system clock.
    pub fn complete_recovery(
        &mut self,
        recovery_token: &RecoveryToken,
        token_store: &mut TokenStore,
    ) -> (res: Result<RecoveryResult, AuthError>)
        requires
            forall|now: u64| #[trigger]
                old(self)@.completes(*recovery_token, now) ==> old(token_store)@.has_ids(),
        ensures
            exists|now: u64|
                {
                    &&& #[trigger] old(self)@.completes_with(
                        old(token_store)@,
                        *recovery_token,
                        now,
                        res,
                    )
                    &&& final(self)@ == old(self)@.complete(*recovery_token, now)
                    &&& final(token_store)@ == old(self)@.complete_store(
                        old(token_store)@,
                        *recovery_token,
                        now,
                    )
                },
            old(self)@.wf() ==> final(self)@.wf(),
            old(token_store)@.wf() ==> final(token_store)@.wf(),
    {
        self.complete_recovery_at(recovery_token, token_store, now_secs())
    }

    /// Completes a recovery at `now`: consumes the one-time token, revokes every
    /// active token of the subject and issues a fresh pair.  A token that is refused
    /// changes nothing.
    pub fn complete_recovery_at(
        &mut self,
        recovery_token: &RecoveryToken,
        token_store: &mut TokenStore,
        now: u64,
    ) -> (res: Result<RecoveryResult, AuthError>)
        requires
            old(self)@.completes(*recovery_token, now) ==> old(token_store)@.has_ids(),
        ensures
            old(self)@.completes_with(old(token_store)@, *recovery_token, now, res),
            final(self)@ == old(self)@.complete(*recovery_token, now),
            final(token_store)@ == old(self)@.complete_store(
                old(token_store)@,
                *recovery_token,
                now,
            ),
            old(self)@.wf() ==> final(self)@.wf(),
            old(token_store)@.wf() ==> final(token_store)@.wf(),
    {
        if !self.active_tokens.contains(&recovery_token.id) {
            if self.used_tokens.contains(&recovery_token.id) {
                return Err(AuthError::TokenAlreadyUsed);
            }
            return Err(AuthError::RecoveryTokenInvalid);
        }
        if recovery_token.expires_at <= now {
            return Err(AuthError::TokenExpired);
        }
        self.active_tokens.remove(&recovery_token.id);
        self.used_tokens.insert(recovery_token.id);
        let _ = self.settle(recovery_token.session_id, RecoveryStatus::Completed);
        let other_count = #[verifier::truncate]
        (token_store.active_access_count_for(recovery_token.subject.as_str()) as u32);
        token_store.revoke_all_for_subject(recovery_token.subject.as_str());
        let tokens = token_store.issue_pair_at(recovery_token.subject.clone(), now);
        Ok(RecoveryResult { tokens, other_sessions_revoked: other_count.saturating_sub(1) })
    }

    /// Cancels the latest pending recovery request for a session and withdraws its
    /// token.
    pub fn cancel_recovery(&mut self, session_id: u64) -> (res: Result<(), AuthError>)
        ensures
            final(self)@ == old(self)@.cancel(session_id),
            old(self)@.latest_pending(session_id) is Some ==> res == Ok::<(), AuthError>(()),
            old(self)@.latest_pending(session_id) is None ==> res == Err::<(), AuthError>(
                AuthError::RecoveryTokenInvalid,
            ),
            old(self)@.wf() ==> final(self)@.wf(),
    {
        match self.settle(session_id, RecoveryStatus::Cancelled) {
            Some(token) => {
                if let Some(token) = token {
                    self.active_tokens.remove(&token.id);
                }
                Ok(())
            },
            None => Err(AuthError::RecoveryTokenInvalid),
        }
    }

    /// The requests of a subject, all of them or those with the given status.
    fn requests_newest_first(&self, subject: &str, status: Option<RecoveryStatus>) -> (items: Vec<
        RecoveryRequest,
    >)
        ensures
            self@.lists_requests(subject@, status, items@),
    {
        let owner = subject.to_owned();
        let ghost kept = |request: RecoveryRequest|
            request.subject@ == subject@ && (status is Some ==> request.status == status.unwrap());
        let keep = |request: &RecoveryRequest| -> (keep: bool)
            ensures
                keep == (request.subject@ == subject@ && (status is Some ==> request.status
                    == status.unwrap())),
            {
                request.subject == owner && match status {
                    Some(wanted) => request.status == wanted,
                    None => true,
                }
            };
        let ids = ids_where(&self.requests, keep, Ghost(kept));
        proof {
            assert(self.requests@.dom().filter(|id: u64| kept(self.requests@[id]))
                == self@.requests_of(subject@, status));
            assert forall|i: int| 0 <= i < ids@.len() implies self.requests@.contains_key(
                #[trigger] ids@[i],
            ) by {
                assert(ids@.to_set().contains(ids@[i]));
            }
        }
        let ghost whole = |request: RecoveryRequest| request;
        let copy = |request: &RecoveryRequest| -> (item: RecoveryRequest)
            ensures
                item == *request,
            { request.clone() };
        let items = listed(&self.requests, &ids, copy, Ghost(whole));
        proof {
            assert((|id: u64| whole(self.requests@[id])) =~= (|id: u64| self@.requests[id]));
        }
        items
    }

    /// The recovery requests of a subject, newest first, page by page.
    pub fn list_requests(&self, subject: &str, cursor: Option<&Cursor>, page_size: usize) -> (res:
        Result<Page<RecoveryRequest>, PaginationError>)
        ensures
            exists|items: Seq<RecoveryRequest>| #[trigger]
                self@.lists_requests(subject@, None, items) && crate::pagination::page::page_by_key(
                    items,
                    subject@,
                    crate::pagination::cursor::cursor_view(cursor),
                    page_size,
                    |request: RecoveryRequest| request.key(),
                    res,
                ),
    {
        let items = self.requests_newest_first(subject, None);
        page_of_listing(&items, subject, cursor, page_size)
    }

    /// The recovery requests of a subject that have the given status, newest first,
    /// page by page.
    pub fn list_requests_by_status(
        &self,
        subject: &str,
        status: RecoveryStatus,
        cursor: Option<&Cursor>,
        page_size: usize,
    ) -> (res: Result<Page<RecoveryRequest>, PaginationError>)
        ensures
            exists|items: Seq<RecoveryRequest>| #[trigger]
                self@.lists_requests(subject@, Some(status), items)
                    && crate::pagination::page::page_by_key(
                    items,
                    subject@,
                    crate::pagination::cursor::cursor_view(cursor),
                    page_size,
                    |request: RecoveryRequest| request.key(),
                    res,
                ),
    {
        let items = self.requests_newest_first(subject, Some(status));
        page_of_listing(&items, subject, cursor, page_size)
    }
}

impl PaginatedCollection for RecoveryService {
    type Item = RecoveryRequest;

    open spec fn valid(&self) -> bool {
        self@.wf()
    }

    open spec fn key_of(item: RecoveryRequest) -> (u64, u64) {
        (item.created_at, item.id)
    }

    open spec fn owner_of(item: RecoveryRequest) -> Seq<char> {
        item.subject@
    }

    open spec fn lists(&self, subject: Seq<char>, items: Seq<RecoveryRequest>) -> bool {
        self@.lists_requests(subject, None, items)
    }

    proof fn law_lists_in_order(&self, subject: Seq<char>, items: Seq<RecoveryRequest>) {
        law_request_listing(self@, subject, None, items);
        assert(items.map_values(|item: RecoveryRequest| Self::key_of(item))
            == crate::pagination::listing::keys_of(items));
    }

    fn sort_key(item: &RecoveryRequest) -> (key: (u64, u64)) {
        (item.created_at, item.id)
    }

    fn subject(item: &RecoveryRequest) -> (owner: &str) {
        item.subject.as_str()
    }

    fn query(&self, subject: &str, cursor: Option<&Cursor>, page_size: usize) -> (res: Result<
        Page<RecoveryRequest>,
        PaginationError,
    >) {
        let res = self.list_requests(subject, cursor, page_size);
        proof {
            let key = |request: RecoveryRequest| request.key();
            let items = choose|items: Seq<RecoveryRequest>| #[trigger]
                self@.lists_requests(subject@, None, items) && crate::pagination::page::page_by_key(
                    items,
                    subject@,
                    crate::pagination::cursor::cursor_view(cursor),
                    page_size,
                    key,
                    res,
                );
            assert(self.lists(subject@, items));
            assert((|item: RecoveryRequest| Self::key_of(item)) =~= key);
        }
        res
    }
}

/// The requests of a subject have one order: all of them belong to the subject, every
/// key is less than those before it, and no other order will do.
pub proof fn law_request_listing(
    state: RecoveryState,
    subject: Seq<char>,
    status: Option<RecoveryStatus>,
    items: Seq<RecoveryRequest>,
)
    requires
        state.wf(),
        state.lists_requests(subject, status, items),
    ensures
        forall|i: int| 0 <= i < items.len() ==> (#[trigger] items[i]).subject@ == subject,
        status is Some ==> forall|i: int|
            0 <= i < items.len() ==> (#[trigger] items[i]).status == status.unwrap(),
        crate::pagination::page::descending(crate::pagination::listing::keys_of(items)),
        forall|other: Seq<RecoveryRequest>| #[trigger]
            state.lists_requests(subject, status, other) ==> other == items,
{
    let ids = state.requests_of(subject, status);
    let item_of = |id: u64| state.requests[id];
    assert(crate::pagination::listing::keys_differ(ids, item_of));
    crate::pagination::listing::law_listing_is_descending(ids, item_of, items);
    let order = choose|order: Seq<u64>| #[trigger]
        crate::pagination::listing::arranges(order, ids) && items == order.map_values(item_of);
    assert forall|i: int| 0 <= i < items.len() implies (#[trigger] items[i]).subject@ == subject
        && (status is Some ==> items[i].status == status.unwrap()) by {
        assert(order.to_set().contains(order[i]));
        assert(items[i] == item_of(order[i]));
    }
    assert forall|other: Seq<RecoveryRequest>| #[trigger]
        state.lists_requests(subject, status, other) implies other == items by {
        crate::pagination::listing::law_listing_is_unique(ids, item_of, other, items);
    }
}

impl Default for RecoveryService {
    fn default() -> (service: Self)
        ensures
            service@ == RecoveryState::empty(DEFAULT_RECOVERY_TOKEN_LIFETIME),
            service@.wf(),
    {
        Self::new()
    }
}

/// The latest pending request is the one that `latest_pending` names.
proof fn lemma_latest_pending(state: RecoveryState, session_id: u64, id: u64)
    requires
        is_latest(state.requests_for(session_id, RecoveryStatus::Pending), id),
    ensures
        state.latest_pending(session_id) == Some(id),
{
    let pending = state.requests_for(session_id, RecoveryStatus::Pending);
    lemma_latest_unique(pending, id, choose|id: u64| is_latest(pending, id));
}

/// A new request becomes the latest pending one, and completes nothing.
proof fn lemma_request_pending(state: RecoveryState, subject: String, session_id: u64, now: u64)
    requires
        state.wf(),
        state.has_ids(),
        state.creates(session_id, now),
    ensures
        state.request(subject, session_id, now).latest_pending(session_id) == Some(state.next_id),
        !state.request(subject, session_id, now).completed(session_id),
{
    let after = state.request(subject, session_id, now);
    let pending = after.requests_for(session_id, RecoveryStatus::Pending);
    assert(pending.contains(state.next_id));
    assert(is_latest(pending, state.next_id));
    lemma_latest_pending(after, session_id, state.next_id);
    assert forall|id: u64|
        !after.requests_for(session_id, RecoveryStatus::Completed).contains(id) by {
        if after.requests_for(session_id, RecoveryStatus::Completed).contains(id) {
            assert(state.requests_for(session_id, RecoveryStatus::Completed).contains(id));
        }
    }
}

/// Asking again while the token is live gives the same token and changes nothing.
pub proof fn law_request_is_idempotent(
    state: RecoveryState,
    subject: String,
    session_id: u64,
    now: u64,
    again: String,
    later: u64,
    token: RecoveryToken,
    res: Result<RecoveryToken, AuthError>,
)
    requires
        state.wf(),
        state.creates(session_id, now) ==> state.has_ids(),
        state.requests_token(subject, session_id, now, Ok(token)),
        later < token.expires_at,
        state.request(subject, session_id, now).requests_token(again, session_id, later, res),
    ensures
        res == Ok::<RecoveryToken, AuthError>(token),
        state.request(subject, session_id, now).request(again, session_id, later)
            == state.request(subject, session_id, now),
{
    if state.creates(session_id, now) {
        lemma_request_pending(state, subject, session_id, now);
    }
}

/// The token of a new request completes a recovery until it expires.
pub proof fn law_fresh_token_completes(
    state: RecoveryState,
    subject: String,
    session_id: u64,
    now: u64,
    store: StoreState,
    later: u64,
    res: Result<RecoveryResult, AuthError>,
)
    requires
        state.creates(session_id, now),
        later < state.next_token(subject, session_id, now).expires_at,
        state.request(subject, session_id, now).completes_with(
            store,
            state.next_token(subject, session_id, now),
            later,
            res,
        ),
    ensures
        res is Ok,
{
}

/// A recovery token works once: presented again it is refused, at any time.
pub proof fn law_token_is_single_use(
    state: RecoveryState,
    token: RecoveryToken,
    now: u64,
    store: StoreState,
    later: u64,
    res: Result<RecoveryResult, AuthError>,
)
    requires
        state.completes(token, now),
        state.complete(token, now).completes_with(store, token, later, res),
    ensures
        res == Err::<RecoveryResult, AuthError>(AuthError::TokenAlreadyUsed),
        state.complete(token, now).complete_store(store, token, later) == store,
{
}

/// A used token stays used and out of service, whatever is done to the service.
pub proof fn law_used_tokens_stay_used(
    state: RecoveryState,
    used: u64,
    subject: String,
    session_id: u64,
    token: RecoveryToken,
    now: u64,
)
    requires
        state.wf(),
        state.used_tokens.contains(used),
        state.creates(session_id, now) ==> state.has_ids(),
    ensures
        state.request(subject, session_id, now).used_tokens.contains(used),
        !state.request(subject, session_id, now).active_tokens.contains(used),
        state.complete(token, now).used_tokens.contains(used),
        !state.complete(token, now).active_tokens.contains(used),
        state.cancel(session_id).used_tokens.contains(used),
        !state.cancel(session_id).active_tokens.contains(used),
{
}

/// Completing a recovery closes it: later requests for the session are refused.
pub proof fn law_completed_recovery_is_closed(
    state: RecoveryState,
    token: RecoveryToken,
    now: u64,
    subject: String,
    later: u64,
    res: Result<RecoveryToken, AuthError>,
)
    requires
        state.completes(token, now),
        state.latest_pending(token.session_id) is Some,
        state.complete(token, now).requests_token(subject, token.session_id, later, res),
    ensures
        res == Err::<RecoveryToken, AuthError>(AuthError::RecoveryAlreadyCompleted),
        state.complete(token, now).request(subject, token.session_id, later) == state.complete(
            token,
            now,
        ),
{
    let after = state.complete(token, now);
    let withdrawn = RecoveryState {
        active_tokens: state.active_tokens.remove(token.id),
        used_tokens: state.used_tokens.insert(token.id),
        ..state
    };
    assert(withdrawn.requests_for(token.session_id, RecoveryStatus::Pending)
        =~= state.requests_for(token.session_id, RecoveryStatus::Pending));
    let id = withdrawn.latest_pending(token.session_id)->0;
    assert(after.requests_for(token.session_id, RecoveryStatus::Completed).contains(id));
}

/// A completed recovery stays completed, whatever is done to the service.
pub proof fn law_completed_stays_completed(
    state: RecoveryState,
    closed: u64,
    subject: String,
    session_id: u64,
    token: RecoveryToken,
    now: u64,
)
    requires
        state.wf(),
        state.completed(closed),
    ensures
        state.request(subject, session_id, now).completed(closed),
        state.complete(token, now).completed(closed),
        state.cancel(session_id).completed(closed),
{
    let id = choose|id: u64| #[trigger]
        state.requests_for(closed, RecoveryStatus::Completed).contains(id);
    assert(state.request(subject, session_id, now).requests_for(
        closed,
        RecoveryStatus::Completed,
    ).contains(id));
    assert(state.complete(token, now).requests_for(closed, RecoveryStatus::Completed).contains(id));
    assert(state.cancel(session_id).requests_for(closed, RecoveryStatus::Completed).contains(id));
}

/// Cancelling withdraws the token of the request that it cancels: presented later,
/// the token is invalid, unless it was used before.  The request is no longer
/// pending, and other requests stay as they were.
pub proof fn law_cancelled_token_is_invalid(
    state: RecoveryState,
    session_id: u64,
    store: StoreState,
    later: u64,
    res: Result<RecoveryResult, AuthError>,
)
    requires
        state.wf(),
        state.latest_pending(session_id) is Some,
        ({
            let id = state.latest_pending(session_id)->0;
            let token = state.requests[id].token->0;
            &&& !state.used_tokens.contains(token.id)
            &&& state.cancel(session_id).completes_with(store, token, later, res)
        }),
    ensures
        res == Err::<RecoveryResult, AuthError>(AuthError::RecoveryTokenInvalid),
        state.cancel(session_id).requests_for(session_id, RecoveryStatus::Pending)
            == state.requests_for(session_id, RecoveryStatus::Pending).remove(
            state.latest_pending(session_id)->0,
        ),
        forall|id: u64|
            id != state.latest_pending(session_id)->0 ==> #[trigger] state.cancel(
                session_id,
            ).requests[id] == state.requests[id],
{
    assert(state.cancel(session_id).requests_for(session_id, RecoveryStatus::Pending)
        =~= state.requests_for(session_id, RecoveryStatus::Pending).remove(
        state.latest_pending(session_id)->0,
    ));
}

/// A set of ids that is not empty has a greatest element.
proof fn lemma_has_latest(ids: Set<u64>, id: u64)
    requires
        ids.contains(id),
    ensures
        exists|latest: u64| is_latest(ids, latest),
    decreases u64::MAX - id,
{
    if !is_latest(ids, id) {
        let greater = choose|other: u64| #[trigger] ids.contains(other) && other > id;
        lemma_has_latest(ids, greater);
    }
}

/// Cancelling finds nothing to cancel exactly where no request for the session is
/// pending, and then changes nothing.
pub proof fn law_cancel_needs_pending_request(state: RecoveryState, session_id: u64)
    ensures
        state.latest_pending(session_id) is Some <==> exists|id: u64|
            state.requests_for(session_id, RecoveryStatus::Pending).contains(id),
        state.latest_pending(session_id) is None ==> state.cancel(session_id) == state,
{
    let pending = state.requests_for(session_id, RecoveryStatus::Pending);
    if exists|id: u64| pending.contains(id) {
        lemma_has_latest(pending, choose|id: u64| pending.contains(id));
    }
}

/// After the only pending request was cancelled there is nothing left to cancel, and a
/// new request makes a token with a new id.
pub proof fn law_rerequest_after_cancel(
    state: RecoveryState,
    session_id: u64,
    only: u64,
    subject: String,
    now: u64,
    res: Result<RecoveryToken, AuthError>,
)
    requires
        state.wf(),
        !state.completed(session_id),
        state.requests_for(session_id, RecoveryStatus::Pending) == set![only],
        state.cancel(session_id).requests_token(subject, session_id, now, res),
    ensures
        state.cancel(session_id).latest_pending(session_id) is None,
        state.cancel(session_id).creates(session_id, now),
        res == Ok::<RecoveryToken, AuthError>(state.next_token(subject, session_id, now)),
        state.has_ids() ==> forall|id: u64| #[trigger]
            state.requests.contains_key(id) ==> state.requests[id].token->0.id < res->Ok_0.id,
{
    let after = state.cancel(session_id);
    assert(set![only].contains(only));
    assert(is_latest(state.requests_for(session_id, RecoveryStatus::Pending), only));
    lemma_latest_pending(state, session_id, only);
    assert forall|id: u64|
        !after.requests_for(session_id, RecoveryStatus::Completed).contains(id) by {
        if after.requests_for(session_id, RecoveryStatus::Completed).contains(id) {
            assert(state.requests_for(session_id, RecoveryStatus::Completed).contains(id));
        }
    }
    assert forall|id: u64|
        !after.requests_for(session_id, RecoveryStatus::Pending).contains(id) by {
        if after.requests_for(session_id, RecoveryStatus::Pending).contains(id) {
            assert(state.requests_for(session_id, RecoveryStatus::Pending).contains(id));
        }
    }
}

/// A completed recovery revokes every token of the subject that was active, leaves the
/// tokens of others as they were, and issues a fresh pair, which then verifies until
/// it expires.
pub proof fn law_recovery_revokes_subject(
    state: RecoveryState,
    store: StoreState,
    token: RecoveryToken,
    now: u64,
    later: u64,
)
    requires
        store.wf(),
        store.has_ids(),
        state.completes(token, now),
    ensures
        ({
            let after = state.complete_store(store, token, now);
            let pair = store.next_pair(token.subject, now);
            let owned = store.owned(token.subject@);
            &&& after.active_access == store.active_access.difference(owned).insert(pair.access.id)
            &&& after.active_refresh == store.active_refresh.difference(owned).insert(
                pair.refresh.id,
            )
            &&& after.active_access.intersect(after.owned(token.subject@)) == set![pair.access.id]
            &&& forall|id: u64|
                owned.contains(id) && (store.active_access.contains(id)
                    || store.active_refresh.contains(id)) ==> #[trigger] after.revoked.contains(id)
            &&& forall|id: u64|
                !owned.contains(id) ==> (#[trigger] after.revoked.contains(id)
                    <==> store.revoked.contains(id))
            &&& !store.revoked.contains(pair.access.id) && later < pair.access.expires_at
                ==> after.verifies(pair.access, later, Ok(pair.access))
        }),
{
    let after = state.complete_store(store, token, now);
    let pair = store.next_pair(token.subject, now);
    assert forall|id: u64| store.owners.contains_key(id) implies #[trigger] after.owners[id]
        == store.owners[id] by {}
    assert forall|id: u64|
        after.active_access.intersect(after.owned(token.subject@)).contains(id) implies set![
        pair.access.id,
    ].contains(id) by {
        if id != pair.access.id {
            assert(store.active_access.contains(id));
            assert(store.owners.contains_key(id));
            assert(after.owners[id] == store.owners[id]);
        }
    }
    assert(after.active_access.intersect(after.owned(token.subject@)) =~= set![pair.access.id]);
}

/// A token that is refused changes nothing, so that presenting it again gets the same
/// answer.
pub proof fn law_refused_recovery_changes_nothing(
    state: RecoveryState,
    store: StoreState,
    token: RecoveryToken,
    now: u64,
    res: Result<RecoveryResult, AuthError>,
)
    requires
        state.completes_with(store, token, now, res),
        res is Err,
    ensures
        state.complete_store(store, token, now) == store,
        state.complete(token, now) == state,
{
}

/// The latest pending request for a session is pending, is for that session, and no
/// other such request has a greater id; where there is such a request, one is found.
pub proof fn law_latest_pending(state: RecoveryState, session_id: u64, id: u64)
    ensures
        state.latest_pending(session_id) matches Some(latest) ==> {
            &&& state.requests.contains_key(latest)
            &&& state.requests[latest].session_id == session_id
            &&& state.requests[latest].status is Pending
        },
        state.requests.contains_key(id) && state.requests[id].session_id == session_id
            && state.requests[id].status is Pending ==> (state.latest_pending(
            session_id,
        ) matches Some(latest) && id <= latest),
{
    let pending = state.requests_for(session_id, RecoveryStatus::Pending);
    if state.latest_pending(session_id) is Some {
        assert(pending.contains(choose|id: u64| is_latest(pending, id)));
    }
    if state.requests.contains_key(id) && state.requests[id].session_id == session_id
        && state.requests[id].status is Pending {
        assert(pending.contains(id));
        lemma_has_latest(pending, id);
    }
}

/// What a request for recovery answers.  It is refused exactly where a recovery of the
/// session was completed.  Otherwise a token comes: that of the latest pending request,
/// where it has not expired, and else a new one, for the subject and the session, that
/// expires when the lifetime of tokens has passed.
pub proof fn law_request_answer(
    state: RecoveryState,
    subject: String,
    session_id: u64,
    now: u64,
    res: Result<RecoveryToken, AuthError>,
)
    requires
        state.wf(),
        state.creates(session_id, now) ==> state.has_ids(),
        state.requests_token(subject, session_id, now, res),
    ensures
        res is Err <==> exists|id: u64| #[trigger]
            state.requests.contains_key(id) && state.requests[id].session_id == session_id
                && state.requests[id].status is Completed,
        res is Err ==> res == Err::<RecoveryToken, AuthError>(AuthError::RecoveryAlreadyCompleted),
        res matches Ok(token) ==> {
            let latest = state.latest_pending(session_id);
            let live = latest is Some && state.requests[latest->0].expires_at > now;
            &&& live ==> state.requests[latest->0].token == Some(token)
            &&& !live ==> {
                &&& token.id == state.next_id + 1
                &&& token.subject == subject
                &&& token.session_id == session_id
                &&& now + state.token_lifetime_secs <= u64::MAX ==> token.expires_at == now
                    + state.token_lifetime_secs
                &&& now + state.token_lifetime_secs > u64::MAX ==> token.expires_at == u64::MAX
            }
        },
{
    let done = state.requests_for(session_id, RecoveryStatus::Completed);
    if state.completed(session_id) {
        let id = choose|id: u64| #[trigger] done.contains(id);
        assert(state.requests.contains_key(id) && state.requests[id].session_id == session_id
            && state.requests[id].status is Completed);
    }
    if exists|id: u64| #[trigger]
        state.requests.contains_key(id) && state.requests[id].session_id == session_id
            && state.requests[id].status is Completed {
        let id = choose|id: u64| #[trigger]
            state.requests.contains_key(id) && state.requests[id].session_id == session_id
                && state.requests[id].status is Completed;
        assert(done.contains(id));
    }
    if state.latest_pending(session_id) is Some {
        law_latest_pending(state, session_id, 0);
        assert(state.requests.contains_key(state.latest_pending(session_id)->0));
    }
}

/// What a request for recovery does: where a new token comes, it is filed as active,
/// with a pending request of its own; all else stays as it was.
pub proof fn law_request_effect(
    state: RecoveryState,
    subject: String,
    session_id: u64,
    now: u64,
    res: Result<RecoveryToken, AuthError>,
    id: u64,
)
    requires
        state.wf(),
        state.creates(session_id, now) ==> state.has_ids(),
        state.requests_token(subject, session_id, now, res),
    ensures
        ({
            let after = state.request(subject, session_id, now);
            let created = res is Ok && res->Ok_0.id == state.next_id + 1;
            &&& !created ==> after == state
            &&& created ==> {
                let token = res->Ok_0;
                let request = after.requests[state.next_id];
                &&& after.requests.contains_key(state.next_id)
                &&& request.id == state.next_id
                &&& request.subject == subject
                &&& request.session_id == session_id
                &&& request.status is Pending
                &&& request.created_at == now
                &&& request.expires_at == token.expires_at
                &&& request.token == Some(token)
                &&& after.tokens.contains_key(token.id) && after.tokens[token.id] == token
                &&& id != token.id ==> after.tokens.contains_key(id) == state.tokens.contains_key(id)
                    && after.tokens[id] == state.tokens[id]
                &&& id != state.next_id ==> after.requests.contains_key(id)
                    == state.requests.contains_key(id) && after.requests[id] == state.requests[id]
                &&& after.active_tokens.contains(id) <==> id == token.id
                    || state.active_tokens.contains(id)
                &&& after.used_tokens.contains(id) <==> state.used_tokens.contains(id)
                &&& after.next_id == state.next_id + 2
                &&& after.token_lifetime_secs == state.token_lifetime_secs
            }
        }),
{
    if state.latest_pending(session_id) is Some {
        law_latest_pending(state, session_id, 0);
        assert(state.requests.contains_key(state.latest_pending(session_id)->0));
    }
}

/// What presenting a token answers.  It succeeds exactly for a token that is active and
/// has not expired, and then hands out a fresh pair for the token's subject, each token
/// of which expires when its lifetime has passed, and counts the subject's active access
/// tokens but one.
pub proof fn law_completion_answer(
    state: RecoveryState,
    store: StoreState,
    token: RecoveryToken,
    now: u64,
    res: Result<RecoveryResult, AuthError>,
)
    requires
        res is Ok ==> store.has_ids(),
        state.completes_with(store, token, now, res),
    ensures
        res is Ok <==> state.active_tokens.contains(token.id) && now < token.expires_at,
        state.active_tokens.contains(token.id) && token.expires_at <= now ==> res == Err::<
            RecoveryResult,
            AuthError,
        >(AuthError::TokenExpired),
        !state.active_tokens.contains(token.id) && state.used_tokens.contains(token.id) ==> res
            == Err::<RecoveryResult, AuthError>(AuthError::TokenAlreadyUsed),
        !state.active_tokens.contains(token.id) && !state.used_tokens.contains(token.id) ==> res
            == Err::<RecoveryResult, AuthError>(AuthError::RecoveryTokenInvalid),
        res matches Ok(result) ==> {
            let access = result.tokens.access;
            let refresh = result.tokens.refresh;
            let active = store.active_access.filter(
                |id: u64| store.owners.contains_key(id) && store.owners[id]@ == token.subject@,
            ).len();
            &&& access.id == store.next_id
            &&& refresh.id == store.next_id + 1
            &&& access.subject == token.subject
            &&& refresh.subject == token.subject
            &&& access.issued_at == now
            &&& refresh.issued_at == now
            &&& now + store.access_lifetime <= u64::MAX ==> access.expires_at == now
                + store.access_lifetime
            &&& now + store.access_lifetime > u64::MAX ==> access.expires_at == u64::MAX
            &&& now + store.refresh_lifetime <= u64::MAX ==> refresh.expires_at == now
                + store.refresh_lifetime
            &&& now + store.refresh_lifetime > u64::MAX ==> refresh.expires_at == u64::MAX
            &&& refresh.previous_id is None
            &&& active == 0 ==> result.other_sessions_revoked == 0
            &&& 0 < active <= u32::MAX ==> result.other_sessions_revoked == active - 1
        },
{
    assert(store.active_access.filter(
        |id: u64| store.owners.contains_key(id) && store.owners[id]@ == token.subject@,
    ) =~= store.active_access.intersect(store.owned(token.subject@)));
}

/// What completing a recovery does to the service: the token presented is used up, the
/// latest pending request for its session is completed and otherwise kept as it was, and
/// nothing else changes.
pub proof fn law_completion_effect(state: RecoveryState, token: RecoveryToken, now: u64, id: u64)
    requires
        state.active_tokens.contains(token.id),
        now < token.expires_at,
    ensures
        ({
            let after = state.complete(token, now);
            let latest = state.latest_pending(token.session_id);
            &&& after.active_tokens.contains(id) <==> id != token.id
                && state.active_tokens.contains(id)
            &&& after.used_tokens.contains(id) <==> id == token.id || state.used_tokens.contains(id)
            &&& after.requests.contains_key(id) == state.requests.contains_key(id)
            &&& latest == Some(id) ==> after.requests[id] == (RecoveryRequest {
                status: RecoveryStatus::Completed,
                ..state.requests[id]
            })
            &&& latest != Some(id) ==> after.requests[id] == state.requests[id]
            &&& after.tokens == state.tokens
            &&& after.next_id == state.next_id
            &&& after.token_lifetime_secs == state.token_lifetime_secs
        }),
{
    let spent = RecoveryState {
        active_tokens: state.active_tokens.remove(token.id),
        used_tokens: state.used_tokens.insert(token.id),
        ..state
    };
    let pending = state.requests_for(token.session_id, RecoveryStatus::Pending);
    assert(spent.requests_for(token.session_id, RecoveryStatus::Pending) =~= pending);
    if state.latest_pending(token.session_id) is Some {
        law_latest_pending(state, token.session_id, 0);
    }
}

/// What cancelling does to the service: the latest pending request for the session is
/// cancelled and otherwise kept as it was, its token is withdrawn, and nothing else
/// changes.
pub proof fn law_cancel_effect(state: RecoveryState, session_id: u64, id: u64)
    requires
        state.wf(),
        state.latest_pending(session_id) is Some,
    ensures
        ({
            let after = state.cancel(session_id);
            let latest = state.latest_pending(session_id)->0;
            let withdrawn = state.requests[latest].token->0.id;
            &&& after.active_tokens.contains(id) <==> id != withdrawn
                && state.active_tokens.contains(id)
            &&& after.used_tokens == state.used_tokens
            &&& after.requests.contains_key(id) == state.requests.contains_key(id)
            &&& id == latest ==> after.requests[id] == (RecoveryRequest {
                status: RecoveryStatus::Cancelled,
                ..state.requests[id]
            })
            &&& id != latest ==> after.requests[id] == state.requests[id]
            &&& after.tokens == state.tokens
            &&& after.next_id == state.next_id
            &&& after.token_lifetime_secs == state.token_lifetime_secs
        }),
{
    law_latest_pending(state, session_id, 0);
    assert(state.requests.contains_key(state.latest_pending(session_id)->0));
}

/// A token that was handed out stays good until it is used, cancelled or expired:
/// completing a recovery with another token, requesting one, or cancelling one of another
/// session leaves whether it completes a recovery as it was.
pub proof fn law_other_tokens_stay_good(
    state: RecoveryState,
    request: u64,
    token: RecoveryToken,
    subject: String,
    session_id: u64,
    now: u64,
    store: StoreState,
    later: u64,
    before: Result<RecoveryResult, AuthError>,
    completed: Result<RecoveryResult, AuthError>,
    requested: Result<RecoveryResult, AuthError>,
    cancelled: Result<RecoveryResult, AuthError>,
)
    requires
        state.wf(),
        state.creates(session_id, now) ==> state.has_ids(),
        state.requests.contains_key(request),
        state.requests[request].token is Some,
        state.completes_with(store, state.requests[request].token->0, later, before),
        state.complete(token, now).completes_with(
            store,
            state.requests[request].token->0,
            later,
            completed,
        ),
        state.request(subject, session_id, now).completes_with(
            store,
            state.requests[request].token->0,
            later,
            requested,
        ),
        state.cancel(session_id).completes_with(
            store,
            state.requests[request].token->0,
            later,
            cancelled,
        ),
    ensures
        token.id != state.requests[request].token->0.id ==> completed == before || (completed is Ok
            && before is Ok),
        requested == before || (requested is Ok && before is Ok),
        state.requests[request].session_id != session_id ==> cancelled == before || (cancelled is Ok
            && before is Ok),
{
    if state.latest_pending(session_id) is Some {
        let latest = state.latest_pending(session_id)->0;
        law_latest_pending(state, session_id, 0);
        assert(state.requests.contains_key(latest));
    }
}

/// What completing a recovery does to each token of the store: the active tokens of the
/// subject are revoked, two new ids become active, and nothing else changes.
pub proof fn law_completion_store_effect(
    state: RecoveryState,
    store: StoreState,
    token: RecoveryToken,
    now: u64,
    id: u64,
)
    requires
        store.wf(),
        state.completes(token, now) ==> store.has_ids(),
    ensures
        ({
            let after = state.complete_store(store, token, now);
            let good = state.active_tokens.contains(token.id) && now < token.expires_at;
            let own = store.owners.contains_key(id) && store.owners[id]@ == token.subject@;
            &&& !good ==> after == store
            &&& good ==> {
                &&& after.revoked.contains(id) <==> own || store.revoked.contains(id)
                &&& after.rotated.contains(id) <==> store.rotated.contains(id)
                &&& after.active_access.contains(id) <==> id == store.next_id || (!own
                    && store.active_access.contains(id))
                &&& after.active_refresh.contains(id) <==> id == store.next_id + 1 || (!own
                    && store.active_refresh.contains(id))
                &&& after.owners.contains_key(store.next_id) && after.owners[store.next_id]
                    == token.subject
                &&& after.owners.contains_key((store.next_id + 1) as u64) && after.owners[(
                store.next_id + 1) as u64] == token.subject
                &&& after.partners.contains_key((store.next_id + 1) as u64) && after.partners[(
                store.next_id + 1) as u64] == store.next_id
                &&& id < store.next_id ==> {
                    &&& after.owners.contains_key(id) == store.owners.contains_key(id)
                    &&& after.owners[id] == store.owners[id]
                    &&& after.partners.contains_key(id) == store.partners.contains_key(id)
                    &&& after.partners[id] == store.partners[id]
                }
                &&& after.next_id == store.next_id + 2
                &&& after.access_lifetime == store.access_lifetime
                &&& after.refresh_lifetime == store.refresh_lifetime
            }
        }),
{
}

/// A listing of requests holds every request of the subject that has the status asked
/// for and nothing else, the later created first, and of two created at the same moment
/// the one with the greater id.
pub proof fn law_request_listing_is_complete(
    state: RecoveryState,
    subject: Seq<char>,
    status: Option<RecoveryStatus>,
    items: Seq<RecoveryRequest>,
)
    requires
        state.wf(),
        state.lists_requests(subject, status, items),
    ensures
        forall|id: u64| #[trigger]
            state.requests.contains_key(id) && state.requests[id].subject@ == subject && (
            status is None || status == Some(state.requests[id].status)) ==> items.contains(
                state.requests[id],
            ),
        forall|i: int|
            0 <= i < items.len() ==> state.requests.contains_key((#[trigger] items[i]).id)
                && state.requests[items[i].id] == items[i] && items[i].subject@ == subject && (
            status is None || status == Some(items[i].status)),
        forall|i: int, j: int|
            0 <= i < j < items.len() ==> (#[trigger] items[i]).created_at > (
            #[trigger] items[j]).created_at || (items[i].created_at == items[j].created_at
                && items[i].id > items[j].id),
{
    law_request_listing(state, subject, status, items);
    let ids = state.requests_of(subject, status);
    let item_of = |id: u64| state.requests[id];
    let order = choose|order: Seq<u64>| #[trigger]
        crate::pagination::listing::arranges(order, ids) && items == order.map_values(item_of);
    let keys = crate::pagination::listing::keys_of(items);
    assert forall|i: int| 0 <= i < items.len() implies state.requests.contains_key(
        (#[trigger] items[i]).id,
    ) && state.requests[items[i].id] == items[i] by {
        assert(order.to_set().contains(order[i]));
        assert(items[i] == item_of(order[i]));
    }
    assert forall|id: u64| #[trigger]
        state.requests.contains_key(id) && state.requests[id].subject@ == subject && (status is None
            || status == Some(state.requests[id].status)) implies items.contains(
        state.requests[id],
    ) by {
        assert(ids.contains(id));
        assert(order.to_set().contains(id));
        let k = choose|k: int| 0 <= k < order.len() && order[k] == id;
        assert(items[k] == item_of(id));
    }
    assert forall|i: int, j: int| 0 <= i < j < items.len() implies (
    #[trigger] items[i]).created_at > (#[trigger] items[j]).created_at || (items[i].created_at
        == items[j].created_at && items[i].id > items[j].id) by {
        assert(keys[i] == items[i].key());
        assert(keys[j] == items[j].key());
    }
}

/// A request is placed by the moment of its creation and its id.
pub proof fn law_request_key(request: RecoveryRequest)
    ensures
        request.key() == (request.created_at, request.id),
{
}

/// In a new service there is no request and no token, ids start at one, and the lifetime
/// is the one asked for.
pub proof fn law_new_recovery_service(token_lifetime_secs: u64, id: u64)
    ensures
        ({
            let state = RecoveryState::empty(token_lifetime_secs);
            &&& !state.requests.contains_key(id)
            &&& !state.active_tokens.contains(id)
            &&& !state.used_tokens.contains(id)
            &&& state.next_id == 1
            &&& state.token_lifetime_secs == token_lifetime_secs
            &&& state.wf()
        }),
{
}

/// What the requests of a subject are as a collection: placed by creation and id, owned
/// by their subjects, and listed whatever their status.
pub proof fn law_requests_as_collection(
    service: RecoveryService,
    subject: Seq<char>,
    items: Seq<RecoveryRequest>,
    request: RecoveryRequest,
)
    ensures
        RecoveryService::key_of(request) == (request.created_at, request.id),
        RecoveryService::owner_of(request) == request.subject@,
        service.lists(subject, items) <==> service@.lists_requests(subject, None, items),
        service.valid() <==> service@.wf(),
{
}

} // verus!
