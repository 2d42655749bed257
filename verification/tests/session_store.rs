use routines::auth::DBSessionStore;
use routines::database::MemoryDatabase;
use routines::models::sessions::{decode_session, encode_session, new_session, Session, SessionDataLayer};
use routines::models::users::{decode_user, encode_user, User};

fn fresh_store() -> DBSessionStore<MemoryDatabase> {
    DBSessionStore { db: MemoryDatabase::new() }
}

#[test]
fn store_then_load_returns_session() {
    let mut store = fresh_store();
    let mut session = new_session().expect("session identity");
    session.insert("user", "alice-blob");
    session.insert("theme", "dark");
    let id = session.id().to_owned();
    let expiry = session.expiry();
    let cookie = store
        .store_session(session)
        .expect("store")
        .expect("cookie value");
    let loaded = store
        .load_session(cookie.as_str(), 0)
        .expect("load")
        .expect("session present");
    assert_eq!(loaded.id(), id.as_str());
    assert_eq!(loaded.expiry(), expiry);
    assert_eq!(loaded.get("user").as_deref(), Some("alice-blob"));
    assert_eq!(loaded.get("theme").as_deref(), Some("dark"));
    assert_eq!(loaded.get("missing"), None);
}

#[test]
fn insert_replaces_existing_entry() {
    let mut store = fresh_store();
    let mut session = new_session().expect("session identity");
    session.insert("user", "first");
    session.insert("user", "second");
    let cookie = store.store_session(session).expect("store").expect("cookie");
    let loaded = store.load_session(cookie.as_str(), 0).expect("load").expect("present");
    assert_eq!(loaded.get("user").as_deref(), Some("second"));
}

#[test]
fn destroy_twice_no_error() {
    let mut store = fresh_store();
    let session = new_session().expect("session identity");
    let id = session.id().to_owned();
    let cookie = store.store_session(session).expect("store").expect("cookie");
    let loaded = store.load_session(cookie.as_str(), 0).expect("load").expect("present");
    assert!(store.destroy_session(loaded).is_ok());
    assert!(store.load_session(cookie.as_str(), 0).expect("load").is_none());
    let again = Session { id, cookie: None, expiry: None, entries: Vec::new() };
    assert!(store.destroy_session(again).is_ok());
}

#[test]
fn tampered_cookie_loads_nothing() {
    let store = fresh_store();
    let r = store.load_session("@@@ not base64 @@@", 0).expect("load");
    assert!(r.is_none());
}

#[test]
fn corrupt_payload_loads_nothing() {
    let mut store = fresh_store();
    let session = new_session().expect("session identity");
    let id = session.id().to_owned();
    let cookie = session.into_cookie_value().expect("cookie");
    store
        .db
        .insert_session(id.as_str(), "garbage payload", None)
        .expect("insert");
    let r = store.load_session(cookie.as_str(), 0).expect("load");
    assert!(r.is_none());
}

#[test]
fn expired_session_is_absent() {
    let mut store = fresh_store();
    let mut session = new_session().expect("session identity");
    session.expiry = Some(100);
    let cookie = store.store_session(session).expect("store").expect("cookie");
    assert!(store.load_session(cookie.as_str(), 50).expect("load").is_some());
    assert!(store.load_session(cookie.as_str(), 100).expect("load").is_none());
    assert!(store.load_session(cookie.as_str(), 150).expect("load").is_none());
}

#[test]
fn clear_store_removes_all() {
    let mut store = fresh_store();
    let s1 = new_session().expect("identity");
    let s2 = new_session().expect("identity");
    let c1 = store.store_session(s1).expect("store").expect("cookie");
    let c2 = store.store_session(s2).expect("store").expect("cookie");
    store.clear_store().expect("clear");
    assert!(store.load_session(c1.as_str(), 0).expect("load").is_none());
    assert!(store.load_session(c2.as_str(), 0).expect("load").is_none());
}

#[test]
fn session_codec_round_trip() {
    let session = Session {
        id: "some-session-id".to_owned(),
        cookie: None,
        expiry: Some(-12345),
        entries: vec![
            ("user".to_owned(), "payload with: colons and 123".to_owned()),
            ("α".to_owned(), "unicode ↦ value".to_owned()),
        ],
    };
    let text = encode_session(&session);
    let back = decode_session(text.as_str()).expect("decodes");
    assert_eq!(back.id, session.id);
    assert_eq!(back.expiry, session.expiry);
    assert_eq!(back.entries, session.entries);
    assert!(back.cookie.is_none());
}

#[test]
fn session_codec_rejects_trailing_garbage() {
    let session = Session {
        id: "id".to_owned(),
        cookie: None,
        expiry: None,
        entries: vec![("k".to_owned(), "v".to_owned())],
    };
    let mut text = encode_session(&session);
    text.push('x');
    assert!(decode_session(text.as_str()).is_none());
    assert!(decode_session("garbage").is_none());
    assert!(decode_session("").is_none());
}

#[test]
fn user_codec_round_trip() {
    let user = User {
        id: "7b1deb4d-3b7d-4bad-9bdd-2b0d7b3dcb6d".to_owned(),
        name: "Ádá β".to_owned(),
        created_at: -62135596800,
        updated_at: Some(1700000000),
    };
    let text = encode_user(&user);
    let back = decode_user(text.as_str()).expect("decodes");
    assert_eq!(back.id, user.id);
    assert_eq!(back.name, user.name);
    assert_eq!(back.created_at, user.created_at);
    assert_eq!(back.updated_at, user.updated_at);
    let mut broken = text.clone();
    broken.truncate(broken.len() - 1);
    assert!(decode_user(broken.as_str()).is_none());
}

#[test]
fn session_identity_is_hashed() {
    let session = new_session().expect("identity");
    let id = session.id().to_owned();
    let cookie = session.into_cookie_value().expect("cookie");
    assert_eq!(id.len(), 44);
    assert_ne!(id, cookie);
}
