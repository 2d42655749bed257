//! Authentication: the OAuth2 authorization-code flow, the session store
//! over the data layer, and the session-extraction step run on every
//! protected request.

use crate::codec::{lemma_fixed_digits_len, lemma_pow10_8, str_eq};
use crate::database::{only_identity_changed, only_sessions_changed, DataLayer};
use crate::error::{ApiError, ApiResult};
use crate::models::sessions::{
    cookie_session_id, enc_session, lookup_pairs, new_session, sp_decode_session, Session,
    SessionDataLayer, SessionView,
};
use crate::models::users::{
    decode_user, enc_user, encode_user, lemma_user_round_trip, user_store_wf, provider_google,
    User, UserDataLayer, UserView,
};
use crate::state::Env;
use vstd::prelude::*;

verus! {

/// Profile returned by the provider's user-info endpoint.
pub struct UserResponse {
    pub sub: String,
    pub email: String,
    pub name: String,
}

impl UserResponse {
    /// Field lengths within what the stored form can carry.
    pub open spec fn wf(self) -> bool {
        &&& self.sub@.len() < 1000000
        &&& self.name@.len() < 1000000
    }
}

/// Query parameters of the provider's callback redirect.
pub struct AuthRequest {
    pub code: String,
    pub state: String,
}

/// Outcome of a failed identity check: the caller is sent to the sign-in
/// entry point, never given an error page.
#[derive(Debug, PartialEq, Eq, Structural)]
pub struct AuthRedirect;

/// Ghost form of an optional borrowed string.
pub open spec fn opt_str_view(s: Option<&str>) -> Option<Seq<char>> {
    match s {
        None => None,
        Some(c) => Some(c@),
    }
}

/// The session store backed by a data layer.  A cookie value is resolved
/// to a storage key by hashing; the store never sees the cookie itself
/// persisted.
#[derive(Clone, Debug)]
pub struct DBSessionStore<T: DataLayer> {
    pub db: T,
}

/// What loading a cookie against a store model yields: the stored, decoded,
/// unexpired session, or nothing when the cookie is tampered, the id is
/// unknown, the payload is corrupt, or the session has expired.
pub open spec fn loaded_session(
    model: Map<Seq<char>, (Seq<char>, Option<int>)>,
    cookie: Seq<char>,
    now: int,
) -> Option<SessionView> {
    match cookie_session_id(cookie) {
        None => None,
        Some(id) => if model.contains_key(id) {
            match sp_decode_session(model[id].0) {
                None => None,
                Some(v) => if v.expiry matches Some(e) && e <= now {
                    None
                } else {
                    Some(v)
                },
            }
        } else {
            None
        },
    }
}

/// What a request cookie resolves to: the user carried by the loaded
/// session's `user` entry, or nothing at any failing step.
pub open spec fn authenticated_user(
    model: Map<Seq<char>, (Seq<char>, Option<int>)>,
    cookie: Option<Seq<char>>,
    now: int,
) -> Option<UserView> {
    match cookie {
        None => None,
        Some(c) => match loaded_session(model, c, now) {
            None => None,
            Some(v) => match lookup_pairs(v.entries, "user"@) {
                None => None,
                Some(enc) => crate::models::users::sp_decode_user(enc),
            },
        },
    }
}

impl<T: DataLayer> DBSessionStore<T> {
    /// Resolves a cookie value against the store at time `now`.  A value
    /// that cannot be resolved — tampered, unknown, corrupt, expired — is
    /// absent, never an error, so that the caller answers with the sign-in
    /// redirect rather than an error page; a corrupt stored payload in
    /// particular is a failed load, surfaced as absence and never a panic.
    /// Only a store failure is an error, and a cookie that does not even
    /// resolve to an id is decided before the store is consulted.
    pub fn load_session(&self, cookie_value: &str, now: i64) -> (r: ApiResult<Option<Session>>)
        ensures
            cookie_session_id(cookie_value@) is None ==> r == Ok::<Option<Session>, ApiError>(
                None,
            ),
            match r {
                Ok(Some(sess)) => loaded_session(self.db.sessions(), cookie_value@, now as int)
                    == Some(sess@) && sess.cookie is None,
                Ok(None) => loaded_session(self.db.sessions(), cookie_value@, now as int) is None,
                Err(_) => true,
            },
    {
        let id = match crate::models::sessions::session_id_of_cookie(cookie_value) {
            Some(id) => id,
            None => {
                return Ok(None);
            },
        };
        let payload = match self.db.get_session(id.as_str()) {
            Err(e) => {
                return Err(e);
            },
            Ok(None) => {
                return Ok(None);
            },
            Ok(Some(p)) => p,
        };
        let sess = match crate::models::sessions::decode_session(payload.as_str()) {
            None => {
                return Ok(None);
            },
            Some(s) => s,
        };
        match sess.expiry() {
            Some(e) if e <= now => Ok(None),
            _ => Ok(Some(sess)),
        }
    }

    /// Persists the session under its id (insert or replace) and hands out
    /// the cookie value the client is to hold.
    pub fn store_session(&mut self, session: Session) -> (r: ApiResult<Option<String>>)
        requires
            session@.wf(),
        ensures
            only_sessions_changed(old(self).db, final(self).db),
            match r {
                Ok(o) => final(self).db.sessions() == old(self).db.sessions().insert(
                    session@.id,
                    (enc_session(session@), session@.expiry),
                ) && o == session.cookie,
                Err(_) => final(self).db.sessions() == old(self).db.sessions(),
            },
    {
        let payload = crate::models::sessions::encode_session(&session);
        match self.db.insert_session(session.id.as_str(), payload.as_str(), session.expiry) {
            Err(e) => Err(e),
            Ok(_) => Ok(session.into_cookie_value()),
        }
    }

    /// Removes the session's record.  Destroying an unknown id changes
    /// nothing and is not an error.
    pub fn destroy_session(&mut self, session: Session) -> (r: ApiResult<()>)
        ensures
            only_sessions_changed(old(self).db, final(self).db),
            match r {
                Ok(_) => final(self).db.sessions() == old(self).db.sessions().remove(session@.id),
                Err(_) => final(self).db.sessions() == old(self).db.sessions(),
            },
    {
        self.db.delete_session(session.id.as_str())
    }

    /// Removes every session.
    pub fn clear_store(&mut self) -> (r: ApiResult<()>)
        ensures
            only_sessions_changed(old(self).db, final(self).db),
            match r {
                Ok(_) => final(self).db.sessions() == Map::<
                    Seq<char>,
                    (Seq<char>, Option<int>),
                >::empty(),
                Err(_) => final(self).db.sessions() == old(self).db.sessions(),
            },
    {
        self.db.delete_all_sessions()
    }
}

/// A stored well-formed session loads back unchanged through its own
/// cookie, as long as it has not expired: round-trip fidelity of the
/// session payload through the store.
pub proof fn lemma_load_after_store(
    model: Map<Seq<char>, (Seq<char>, Option<int>)>,
    s: SessionView,
    cookie: Seq<char>,
    now: int,
)
    requires
        s.wf(),
        cookie_session_id(cookie) == Some(s.id),
        match s.expiry {
            Some(e) => now < e,
            None => true,
        },
    ensures
        loaded_session(model.insert(s.id, (enc_session(s), s.expiry)), cookie, now) == Some(s),
{
    crate::models::sessions::lemma_session_round_trip(s);
}

/// Destroying a session twice leaves exactly the state of destroying it
/// once: the second destruction of an already-absent id changes nothing.
pub proof fn lemma_destroy_idempotent(
    model: Map<Seq<char>, (Seq<char>, Option<int>)>,
    id: Seq<char>,
)
    ensures
        model.remove(id).remove(id) == model.remove(id),
{
    assert(model.remove(id).remove(id) =~= model.remove(id));
}

/// The session-extraction step run on every protected request.  Failure to
/// authenticate is a redirect, never an error; a tampered cookie behaves
/// exactly like an absent one; only a store failure is an error.
pub fn extract_user<T: DataLayer>(store: &DBSessionStore<T>, cookie: Option<&str>, now: i64) -> (r:
    ApiResult<Result<User, AuthRedirect>>)
    ensures
        match r {
            Ok(Ok(u)) => authenticated_user(store.db.sessions(), opt_str_view(cookie), now as int)
                == Some(u@),
            Ok(Err(_)) => authenticated_user(store.db.sessions(), opt_str_view(cookie), now as int)
                is None,
            Err(_) => true,
        },
        cookie is None ==> r == Ok::<Result<User, AuthRedirect>, ApiError>(Err(AuthRedirect)),
        (cookie matches Some(c) && cookie_session_id(c@) is None) ==> r == Ok::<
            Result<User, AuthRedirect>,
            ApiError,
        >(Err(AuthRedirect)),
{
    let c = match cookie {
        None => {
            return Ok(Err(AuthRedirect));
        },
        Some(c) => c,
    };
    if crate::models::sessions::session_id_of_cookie(c).is_none() {
        return Ok(Err(AuthRedirect));
    }
    let sess = match store.load_session(c, now) {
        Err(e) => {
            return Err(e);
        },
        Ok(None) => {
            return Ok(Err(AuthRedirect));
        },
        Ok(Some(s)) => s,
    };
    let enc = match sess.get("user") {
        None => {
            return Ok(Err(AuthRedirect));
        },
        Some(enc) => enc,
    };
    match decode_user(enc.as_str()) {
        None => Ok(Err(AuthRedirect)),
        Some(u) => Ok(Ok(u)),
    }
}

/// Ends the session named by the cookie and sends the caller home.  An
/// absent, unresolvable or unknown cookie still goes home with nothing
/// touched — not being signed in is an expected condition, never an error.
/// Only a store failure is an error.
pub fn logout<T: DataLayer>(store: &mut DBSessionStore<T>, cookie: Option<&str>, now: i64) -> (r:
    ApiResult<String>)
    ensures
        cookie is None ==> r is Ok && final(store).db.sessions() == old(store).db.sessions(),
        (cookie matches Some(c) && cookie_session_id(c@) is None) ==> r is Ok
            && final(store).db.sessions() == old(store).db.sessions(),
        match r {
            Ok(target) => {
                &&& target@ == "/"@
                &&& match cookie {
                    None => final(store).db.sessions() == old(store).db.sessions(),
                    Some(c) => match loaded_session(old(store).db.sessions(), c@, now as int) {
                        Some(v) => final(store).db.sessions()
                            == old(store).db.sessions().remove(v.id),
                        None => final(store).db.sessions() == old(store).db.sessions(),
                    },
                }
            },
            Err(_) => true,
        },
{
    let c = match cookie {
        None => {
            return Ok("/".to_owned());
        },
        Some(c) => c,
    };
    let sess = match store.load_session(c, now) {
        Err(e) => {
            return Err(e);
        },
        Ok(None) => {
            return Ok("/".to_owned());
        },
        Ok(Some(s)) => s,
    };
    match store.destroy_session(sess) {
        Err(e) => Err(e),
        Ok(_) => Ok("/".to_owned()),
    }
}

/// What a completed login hands back: the reconciled user, the cookie
/// value for the client, and the full `Set-Cookie` header value.
pub struct LoginOutcome {
    pub user: User,
    pub cookie_value: String,
    pub set_cookie: String,
}

/// The session a completed login stores: empty but for the `user` entry,
/// with no expiry, under the fresh session id.
pub open spec fn login_session_view(sid: Seq<char>, u: UserView) -> SessionView {
    SessionView { id: sid, expiry: None, entries: seq![("user"@, enc_user(u))] }
}

/// The tail of the callback handler, after the provider has been spoken
/// to: reconcile the profile to a local user, create a session holding
/// that user, store it, and shape the cookie header.  A failed login
/// leaves the session table exactly as it was: no session is partially
/// created.
#[verifier::spinoff_prover]
#[verifier::rlimit(100)]
pub fn complete_login<T: DataLayer>(store: &mut DBSessionStore<T>, profile: &UserResponse) -> (r:
    ApiResult<LoginOutcome>)
    requires
        user_store_wf(old(store).db.users(), old(store).db.accounts()),
        profile.wf(),
    ensures
        user_store_wf(final(store).db.users(), final(store).db.accounts()),
        match r {
            Ok(out) => {
                let key = (provider_google(), profile.sub@);
                &&& out.user@.wf()
                &&& if old(store).db.accounts().contains_key(key) {
                    &&& final(store).db.users() == old(store).db.users()
                    &&& final(store).db.accounts() == old(store).db.accounts()
                    &&& out.user@ == old(store).db.users()[old(store).db.accounts()[key]]
                } else {
                    &&& !old(store).db.users().contains_key(out.user@.id)
                    &&& out.user@.name == profile.name@
                    &&& final(store).db.users() == old(store).db.users().insert(
                        out.user@.id,
                        out.user@,
                    )
                    &&& final(store).db.accounts() == old(store).db.accounts().insert(
                        key,
                        out.user@.id,
                    )
                }
                &&& forall|n: int|
                    authenticated_user(final(store).db.sessions(), Some(out.cookie_value@), n)
                        == Some(out.user@)
                &&& cookie_session_id(out.cookie_value@) is Some
                &&& cookie_session_id(out.cookie_value@) matches Some(sid)
                    ==> final(store).db.sessions() == old(store).db.sessions().insert(
                    sid,
                    (enc_session(login_session_view(sid, out.user@)), None),
                )
                &&& out.set_cookie@ == "SESSION="@ + out.cookie_value@ + "; SameSite=Lax; Path=/"@
            },
            Err(_) => final(store).db.sessions() == old(store).db.sessions(),
        },
{
    let user = match self_upsert(store, profile) {
        Err(e) => {
            return Err(e);
        },
        Ok(u) => u,
    };
    proof {
        assert(user@.wf()) by {
            let key = (provider_google(), profile.sub@);
            if old(store).db.accounts().contains_key(key) {
                assert(store.db.users().contains_key(store.db.accounts()[key]));
            } else {
                assert(store.db.users() == old(store).db.users().insert(user@.id, user@));
                assert(store.db.users().contains_key(user@.id));
            }
        }
    }
    let mut session = match new_session() {
        None => {
            return Err(ApiError::new("no session identity available"));
        },
        Some(s) => s,
    };
    let enc = encode_user(&user);
    proof {
        reveal_strlit("user");
        assert("user"@.len() == 4);
        lemma_pow10_8();
        lemma_enc_user_len(user@);
    }
    session.insert("user", enc.as_str());
    proof {
        assert(session@.entries =~= seq![("user"@, enc_user(user@))]);
    }
    let ghost stored = session@;
    let cookie_value = match store.store_session(session) {
        Err(e) => {
            return Err(e);
        },
        Ok(None) => {
            return Err(ApiError::new("session cookie already taken"));
        },
        Ok(Some(c)) => c,
    };
    let mut set_cookie = "SESSION=".to_owned();
    set_cookie.append(cookie_value.as_str());
    set_cookie.append("; SameSite=Lax; Path=/");
    proof {
        lemma_user_round_trip(user@);
        crate::models::sessions::lemma_session_round_trip(stored);
        assert(cookie_session_id(cookie_value@) == Some(stored.id));
        assert(stored =~= login_session_view(stored.id, user@));
        assert forall|n: int|
            authenticated_user(store.db.sessions(), Some(cookie_value@), n) == Some(user@) by {
            assert(store.db.sessions().contains_key(stored.id));
            assert(store.db.sessions()[stored.id].0 == enc_session(stored));
            assert(lookup_pairs(stored.entries, "user"@) == Some(enc_user(user@)));
        }
    }
    Ok(LoginOutcome { user, cookie_value, set_cookie })
}

/// Reconciliation through the store's data layer.
fn self_upsert<T: DataLayer>(store: &mut DBSessionStore<T>, profile: &UserResponse) -> (r:
    ApiResult<User>)
    requires
        user_store_wf(old(store).db.users(), old(store).db.accounts()),
        profile.wf(),
    ensures
        user_store_wf(final(store).db.users(), final(store).db.accounts()),
        only_identity_changed(old(store).db, final(store).db),
        match r {
            Ok(u) => {
                let key = (provider_google(), profile.sub@);
                if old(store).db.accounts().contains_key(key) {
                    &&& final(store).db.users() == old(store).db.users()
                    &&& final(store).db.accounts() == old(store).db.accounts()
                    &&& u@ == old(store).db.users()[old(store).db.accounts()[key]]
                } else {
                    &&& !old(store).db.users().contains_key(u@.id)
                    &&& u@.name == profile.name@
                    &&& u@.updated_at is None
                    &&& final(store).db.users() == old(store).db.users().insert(u@.id, u@)
                    &&& final(store).db.accounts() == old(store).db.accounts().insert(key, u@.id)
                }
            },
            Err(_) => final(store).db.users() == old(store).db.users() && final(store).db.accounts()
                == old(store).db.accounts(),
        },
{
    store.db.upsert_user(profile)
}

/// Whether a string parses as an absolute URL.  This is a fixed function
/// of the string alone; its definition lives outside this crate.
pub uninterp spec fn parses_as_url(s: Seq<char>) -> bool;

/// Relies on `oauth2::AuthUrl::new`, which validates its argument with
/// `url::Url::parse` and nothing else (as do `TokenUrl::new` and
/// `RedirectUrl::new`, all three generated from the same definition).
#[verifier::external_body]
fn url_parses(s: &str) -> (r: bool)
    ensures
        r <==> parses_as_url(s@),
{
    oauth2::AuthUrl::new(s.to_owned()).is_ok()
}

/// The OAuth2 client configuration the flow logic reads: endpoints and
/// credentials as plain values.  The caller that actually speaks to the
/// provider rebuilds its own client value from these fields.
#[derive(Clone, Debug)]
pub struct OauthClient {
    pub client_id: String,
    pub client_secret: String,
    pub auth_url: String,
    pub token_url: String,
    pub redirect_url: String,
}

impl OauthClient {
    /// Every endpoint is a well-formed URL.
    pub open spec fn wf(self) -> bool {
        &&& parses_as_url(self.auth_url@)
        &&& parses_as_url(self.token_url@)
        &&& parses_as_url(self.redirect_url@)
    }
}

/// Builds the client configuration, validating every endpoint URL; a
/// malformed URL is a startup failure.
pub fn oauth_client(env: &Env) -> (r: ApiResult<OauthClient>)
    ensures
        match r {
            Ok(c) => {
                &&& c.wf()
                &&& c.client_id@ == env.client_id@
                &&& c.client_secret@ == env.client_secret@
                &&& c.auth_url@ == env.auth_url@
                &&& c.token_url@ == env.token_url@
                &&& c.redirect_url@ == env.redirect_url@
            },
            Err(_) => !(parses_as_url(env.auth_url@) && parses_as_url(env.token_url@)
                && parses_as_url(env.redirect_url@)),
        },
        r is Ok <==> parses_as_url(env.auth_url@) && parses_as_url(env.token_url@)
            && parses_as_url(env.redirect_url@),
{
    if !url_parses(env.auth_url.as_str()) {
        return Err(ApiError::new("malformed authorization server URL"));
    }
    if !url_parses(env.token_url.as_str()) {
        return Err(ApiError::new("malformed token endpoint URL"));
    }
    if !url_parses(env.redirect_url.as_str()) {
        return Err(ApiError::new("malformed redirection URL"));
    }
    Ok(OauthClient {
        client_id: env.client_id.clone(),
        client_secret: env.client_secret.clone(),
        auth_url: env.auth_url.clone(),
        token_url: env.token_url.clone(),
        redirect_url: env.redirect_url.clone(),
    })
}

/// Relies on `oauth2::Client::authorize_url` with `CsrfToken::new_random`
/// (plus the `BasicClient` constructors that assemble the client from the
/// given fields): returns the provider authorization URL carrying the two
/// scopes, and the fresh anti-CSRF state, which is the base64 form of 16
/// random bytes and so never empty.  `None` only when an endpoint fails
/// `url::Url::parse`.
#[verifier::external_body]
fn authorize_url_random(client_id: &str, auth_url: &str, redirect_url: &str, scope_a: &str, scope_b: &str) -> (r: Option<(String, String)>)
    ensures
        r is Some == (parses_as_url(auth_url@) && parses_as_url(redirect_url@)),
        r matches Some(p) ==> p.1@.len() > 0,
{
    let auth = oauth2::AuthUrl::new(auth_url.to_owned()).ok()?;
    let redirect = oauth2::RedirectUrl::new(redirect_url.to_owned()).ok()?;
    let client = oauth2::basic::BasicClient::new(
        oauth2::ClientId::new(client_id.to_owned()),
        None,
        auth,
        None,
    ).set_redirect_uri(redirect);
    let (url, csrf) = client
        .authorize_url(oauth2::CsrfToken::new_random)
        .add_scope(oauth2::Scope::new(scope_a.to_owned()))
        .add_scope(oauth2::Scope::new(scope_b.to_owned()))
        .url();
    Some((url.to_string(), csrf.secret().to_owned()))
}

/// Begins the flow: the URL the browser is sent to, and the anti-CSRF
/// state bound to this attempt, to be checked at the callback.
pub fn google_auth(client: &OauthClient) -> (r: (String, String))
    requires
        client.wf(),
    ensures
        r.1@.len() > 0,
{
    match authorize_url_random(
        client.client_id.as_str(),
        client.auth_url.as_str(),
        client.redirect_url.as_str(),
        "profile",
        "email",
    ) {
        Some(p) => p,
        None => (String::new(), String::new()),
    }
}

/// Why a login attempt ended without a session.
#[derive(Debug, Clone, Copy, PartialEq, Eq, Structural)]
pub enum FlowFailure {
    StateMismatch,
    ExchangeFailed,
    ReconcileFailed,
}

/// One login attempt, step by step; every step can fall to `Failed`, and
/// no step is retried.
pub enum LoginFlow {
    Start,
    AwaitingCallback { csrf: String },
    Exchanging { code: String },
    Reconciling { access_token: String },
    SessionEstablished { cookie_value: String },
    Failed { reason: FlowFailure },
}

/// Starts an attempt: the browser goes to the returned URL, and the state
/// waits for the provider's callback.
pub fn begin_login(client: &OauthClient) -> (r: (LoginFlow, String))
    requires
        client.wf(),
    ensures
        r.0 matches LoginFlow::AwaitingCallback { csrf } && csrf@.len() > 0,
{
    let (url, csrf) = google_auth(client);
    (LoginFlow::AwaitingCallback { csrf }, url)
}

/// The provider's callback.  The `state` it carries must equal the state
/// issued at authorize time; anything else is rejected and no code is
/// accepted.  A callback in any other step is likewise rejected.
pub fn on_callback(flow: LoginFlow, query: &AuthRequest) -> (r: LoginFlow)
    ensures
        match flow {
            LoginFlow::AwaitingCallback { csrf } => if query.state@ == csrf@ {
                r matches LoginFlow::Exchanging { code } && code@ == query.code@
            } else {
                r == (LoginFlow::Failed { reason: FlowFailure::StateMismatch })
            },
            _ => r == (LoginFlow::Failed { reason: FlowFailure::StateMismatch }),
        },
{
    match flow {
        LoginFlow::AwaitingCallback { csrf } => {
            if str_eq(csrf.as_str(), query.state.as_str()) {
                LoginFlow::Exchanging { code: query.code.clone() }
            } else {
                LoginFlow::Failed { reason: FlowFailure::StateMismatch }
            }
        },
        _ => LoginFlow::Failed { reason: FlowFailure::StateMismatch },
    }
}

/// The token exchange came back: a token moves the attempt to
/// reconciliation, a failure ends it.
pub fn on_token(flow: LoginFlow, outcome: ApiResult<String>) -> (r: LoginFlow)
    ensures
        match flow {
            LoginFlow::Exchanging { .. } => match outcome {
                Ok(token) => r matches LoginFlow::Reconciling { access_token }
                    && access_token@ == token@,
                Err(_) => r == (LoginFlow::Failed { reason: FlowFailure::ExchangeFailed }),
            },
            _ => r == (LoginFlow::Failed { reason: FlowFailure::ExchangeFailed }),
        },
{
    match flow {
        LoginFlow::Exchanging { .. } => match outcome {
            Ok(token) => LoginFlow::Reconciling { access_token: token },
            Err(_) => LoginFlow::Failed { reason: FlowFailure::ExchangeFailed },
        },
        _ => LoginFlow::Failed { reason: FlowFailure::ExchangeFailed },
    }
}

/// Reconciliation and session creation came back: a cookie value ends the
/// attempt established, a failure ends it with nothing created.
pub fn on_reconciled(flow: LoginFlow, outcome: ApiResult<String>) -> (r: LoginFlow)
    ensures
        match flow {
            LoginFlow::Reconciling { .. } => match outcome {
                Ok(cookie) => r matches LoginFlow::SessionEstablished { cookie_value }
                    && cookie_value@ == cookie@,
                Err(_) => r == (LoginFlow::Failed { reason: FlowFailure::ReconcileFailed }),
            },
            _ => r == (LoginFlow::Failed { reason: FlowFailure::ReconcileFailed }),
        },
{
    match flow {
        LoginFlow::Reconciling { .. } => match outcome {
            Ok(cookie) => LoginFlow::SessionEstablished { cookie_value: cookie },
            Err(_) => LoginFlow::Failed { reason: FlowFailure::ReconcileFailed },
        },
        _ => LoginFlow::Failed { reason: FlowFailure::ReconcileFailed },
    }
}

/// The body of the example authenticated-only route.
pub fn protected(user: &User) -> (r: String)
    ensures
        r@ == "Welcome to the protected area :)\nHere's your info:\n"@ + user.id@,
{
    let mut s = "Welcome to the protected area :)\nHere's your info:\n".to_owned();
    s.append(user.id.as_str());
    s
}

/// Length of a stored user record, bounded by its field bounds.
pub proof fn lemma_enc_user_len(v: UserView)
    requires
        v.wf(),
    ensures
        enc_user(v).len() < 3000000,
{
    lemma_fixed_digits_len(v.id.len(), 8);
    lemma_fixed_digits_len(v.name.len(), 8);
    lemma_fixed_digits_len(crate::codec::iabs(v.created_at), 19);
    match v.updated_at {
        None => {},
        Some(x) => {
            lemma_fixed_digits_len(crate::codec::iabs(x), 19);
        },
    }
}

} // verus!
