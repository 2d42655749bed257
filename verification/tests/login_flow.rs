use routines::auth::{
    complete_login, extract_user, logout, on_callback, on_reconciled, on_token, protected,
    AuthRedirect, AuthRequest, DBSessionStore, FlowFailure, LoginFlow, UserResponse,
};
use routines::database::MemoryDatabase;
use routines::models::users::UserDataLayer;

fn fresh_store() -> DBSessionStore<MemoryDatabase> {
    DBSessionStore { db: MemoryDatabase::new() }
}

fn ada() -> UserResponse {
    UserResponse {
        sub: "g-1".to_owned(),
        email: "ada@example.com".to_owned(),
        name: "Ada".to_owned(),
    }
}

#[test]
fn no_cookie_redirects() {
    let store = fresh_store();
    let r = extract_user(&store, None, 0).expect("no store failure");
    assert_eq!(r, Err(AuthRedirect));
}

#[test]
fn tampered_cookie_behaves_like_absent() {
    let store = fresh_store();
    let absent = extract_user(&store, None, 0).expect("no store failure");
    let tampered = extract_user(&store, Some("!!! tampered !!!"), 0).expect("no store failure");
    assert_eq!(absent, Err(AuthRedirect));
    assert_eq!(tampered, absent);
}

#[test]
fn unknown_cookie_behaves_like_absent() {
    // A well-formed cookie value that names no stored session: the session
    // of another store, never stored here.
    let store = fresh_store();
    let stray = routines::models::sessions::new_session()
        .expect("identity")
        .into_cookie_value()
        .expect("cookie");
    let r = extract_user(&store, Some(stray.as_str()), 0).expect("no store failure");
    assert_eq!(r, Err(AuthRedirect));
}

#[test]
fn callback_state_mismatch_rejected() {
    let flow = LoginFlow::AwaitingCallback { csrf: "xyz".to_owned() };
    let query = AuthRequest { code: "abc123".to_owned(), state: "evil".to_owned() };
    let next = on_callback(flow, &query);
    assert!(matches!(next, LoginFlow::Failed { reason: FlowFailure::StateMismatch }));
}

#[test]
fn callback_state_match_proceeds() {
    let flow = LoginFlow::AwaitingCallback { csrf: "xyz".to_owned() };
    let query = AuthRequest { code: "abc123".to_owned(), state: "xyz".to_owned() };
    match on_callback(flow, &query) {
        LoginFlow::Exchanging { code } => assert_eq!(code, "abc123"),
        _ => panic!("expected the exchange step"),
    }
}

#[test]
fn callback_out_of_step_rejected() {
    let query = AuthRequest { code: "abc123".to_owned(), state: "xyz".to_owned() };
    let next = on_callback(LoginFlow::Start, &query);
    assert!(matches!(next, LoginFlow::Failed { reason: FlowFailure::StateMismatch }));
}

#[test]
fn full_login_scenario() {
    // authorize was answered with code=abc123&state=xyz, the issued state
    // being xyz; the exchange succeeds and the profile names subject g-1.
    let flow = LoginFlow::AwaitingCallback { csrf: "xyz".to_owned() };
    let query = AuthRequest { code: "abc123".to_owned(), state: "xyz".to_owned() };
    let flow = on_callback(flow, &query);
    assert!(matches!(flow, LoginFlow::Exchanging { .. }));
    let flow = on_token(flow, Ok("access-token-1".to_owned()));
    assert!(matches!(flow, LoginFlow::Reconciling { .. }));

    let mut store = fresh_store();
    let out = complete_login(&mut store, &ada()).expect("login completes");
    assert_eq!(out.user.name, "Ada");
    let mut expected = String::new();
    expected.push_str("SESSION=");
    expected.push_str(out.cookie_value.as_str());
    expected.push_str("; SameSite=Lax; Path=/");
    assert_eq!(out.set_cookie, expected);

    let flow = on_reconciled(flow, Ok(out.cookie_value.clone()));
    assert!(matches!(flow, LoginFlow::SessionEstablished { .. }));

    let r = extract_user(&store, Some(out.cookie_value.as_str()), 0).expect("no store failure");
    let user = r.expect("authenticated");
    assert_eq!(user.id, out.user.id);
    assert_eq!(user.name, "Ada");
}

#[test]
fn reconcile_failure_ends_attempt() {
    let flow = LoginFlow::Reconciling { access_token: "t".to_owned() };
    let next = on_reconciled(flow, Err(routines::error::ApiError::new("store down")));
    assert!(matches!(next, LoginFlow::Failed { reason: FlowFailure::ReconcileFailed }));
}

#[test]
fn exchange_failure_ends_attempt() {
    let flow = LoginFlow::Exchanging { code: "abc123".to_owned() };
    let next = on_token(flow, Err(routines::error::ApiError::new("provider down")));
    assert!(matches!(next, LoginFlow::Failed { reason: FlowFailure::ExchangeFailed }));
}

#[test]
fn second_login_returns_existing_user() {
    let mut store = fresh_store();
    let first = complete_login(&mut store, &ada()).expect("first login");
    let renamed = UserResponse {
        sub: "g-1".to_owned(),
        email: "ada@example.com".to_owned(),
        name: "Ada Lovelace".to_owned(),
    };
    let second = complete_login(&mut store, &renamed).expect("second login");
    assert_eq!(first.user.id, second.user.id);
    // The stored record is returned unchanged, not refreshed on login.
    assert_eq!(second.user.name, "Ada");
    let stored = store
        .db
        .get_user(first.user.id.as_str())
        .expect("lookup")
        .expect("user exists");
    assert_eq!(stored.name, "Ada");
}

#[test]
fn distinct_subjects_make_distinct_users() {
    let mut store = fresh_store();
    let a = complete_login(&mut store, &ada()).expect("login a");
    let b = complete_login(
        &mut store,
        &UserResponse {
            sub: "g-2".to_owned(),
            email: "grace@example.com".to_owned(),
            name: "Grace".to_owned(),
        },
    )
    .expect("login b");
    assert_ne!(a.user.id, b.user.id);
}

#[test]
fn logout_destroys_and_redirects() {
    let mut store = fresh_store();
    let out = complete_login(&mut store, &ada()).expect("login");
    let cookie = out.cookie_value;
    let target = logout(&mut store, Some(cookie.as_str()), 0).expect("logout");
    assert_eq!(target, "/");
    let r = extract_user(&store, Some(cookie.as_str()), 0).expect("no store failure");
    assert_eq!(r, Err(AuthRedirect));
    // The same call repeated: still home, still no error.
    let target = logout(&mut store, Some(cookie.as_str()), 0).expect("logout again");
    assert_eq!(target, "/");
}

#[test]
fn logout_without_cookie_still_goes_home() {
    // Not being signed in is an expected condition: recovered as the home
    // redirect, never an error.
    let mut store = fresh_store();
    assert_eq!(logout(&mut store, None, 0).expect("no error"), "/");
}

#[test]
fn logout_with_tampered_cookie_goes_home() {
    let mut store = fresh_store();
    let out = complete_login(&mut store, &ada()).expect("login");
    let target = logout(&mut store, Some("!!! tampered !!!"), 0).expect("no error");
    assert_eq!(target, "/");
    // The unrelated session it could not name is untouched.
    let r = extract_user(&store, Some(out.cookie_value.as_str()), 0).expect("no store failure");
    assert!(r.is_ok());
}

#[test]
fn protected_greets_with_user_id() {
    let user = routines::models::users::User {
        id: "user-1".to_owned(),
        name: "Ada".to_owned(),
        created_at: 0,
        updated_at: None,
    };
    let body = protected(&user);
    assert_eq!(
        body,
        "Welcome to the protected area :)\nHere's your info:\nuser-1"
    );
}
