use routines::database::MemoryDatabase;
use routines::models::entries::{RoutineEntry, RoutineEntryDataLayer};
use routines::models::invites::{InviteDataLayer, InviteStatus};
use routines::models::routines::RoutineDataLayer;
use routines::models::users::UserDataLayer;
use routines::routes::invite::invite_url;
use routines::routes::root::{
    build_entry_table, entry_table_from, invite_offer, parse_invite, NUM_ENTRIES,
};
use routines::templates::login::LoginInvite;

#[test]
fn toggle_flips_a_mark() {
    let mut db = MemoryDatabase::new();
    assert_eq!(db.toggle_entries(10, "r-1").expect("toggle"), false);
    assert_eq!(db.toggle_entries(10, "r-1").expect("toggle"), true);
    assert_eq!(db.toggle_entries(10, "r-1").expect("toggle"), false);
    // A different day is independent.
    assert_eq!(db.toggle_entries(11, "r-1").expect("toggle"), false);
}

#[test]
fn get_entries_filters_by_routine() {
    let mut db = MemoryDatabase::new();
    db.create_entry(1, "r-1").expect("create");
    db.create_entry(2, "r-1").expect("create");
    db.create_entry(1, "r-2").expect("create");
    db.create_entry(9, "r-3").expect("create");
    let ids = vec!["r-1".to_owned(), "r-2".to_owned()];
    let got = db.get_entries(&ids).expect("entries");
    assert_eq!(got.len(), 3);
    for e in &got {
        assert!(e.routine_id == "r-1" || e.routine_id == "r-2");
    }
    assert!(got.iter().any(|e| e.date == 1 && e.routine_id == "r-1"));
    assert!(got.iter().any(|e| e.date == 2 && e.routine_id == "r-1"));
    assert!(got.iter().any(|e| e.date == 1 && e.routine_id == "r-2"));
}

#[test]
fn routine_lifecycle() {
    let mut db = MemoryDatabase::new();
    let rt = db
        .create_routine("Stretch", "#aabbcc", "user-1")
        .expect("create");
    assert_eq!(rt.title, "Stretch");
    assert_eq!(rt.color, "#aabbcc");
    assert_eq!(rt.user_id, "user-1");
    let found = db.get_routine(rt.id.as_str()).expect("get").expect("present");
    assert_eq!(found.title, "Stretch");
    let other = db
        .create_routine("Read", "#001122", "user-2")
        .expect("create");
    let mine = db.get_routines("user-1").expect("list");
    assert_eq!(mine.len(), 1);
    assert_eq!(mine[0].id, rt.id);
    db.delete_routine(rt.id.as_str()).expect("delete");
    assert!(db.get_routine(rt.id.as_str()).expect("get").is_none());
    assert!(db.get_routine(other.id.as_str()).expect("get").is_some());
}

#[test]
fn user_lifecycle() {
    let mut db = MemoryDatabase::new();
    let profile = routines::auth::UserResponse {
        sub: "g-9".to_owned(),
        email: "x@example.com".to_owned(),
        name: "X".to_owned(),
    };
    let user = db.upsert_user(&profile).expect("upsert");
    let found = db.get_user(user.id.as_str()).expect("get").expect("present");
    assert_eq!(found.name, "X");
    db.delete_user(user.id.as_str()).expect("delete");
    assert!(db.get_user(user.id.as_str()).expect("get").is_none());
}

#[test]
fn entry_table_exact_values() {
    let entries = vec![
        RoutineEntry { date: 96, routine_id: "r-1".to_owned() },
        RoutineEntry { date: 98, routine_id: "r-1".to_owned() },
        RoutineEntry { date: 97, routine_id: "r-2".to_owned() },
    ];
    let table = entry_table_from("r-1", &entries, 5, 100);
    assert_eq!(
        table,
        vec![(95, false), (96, true), (97, false), (98, true), (99, false)]
    );
}

#[test]
fn entry_table_empty_input() {
    let entries: Vec<RoutineEntry> = Vec::new();
    let table = entry_table_from("r-1", &entries, 3, 0);
    assert_eq!(table, vec![(-3, false), (-2, false), (-1, false)]);
}

#[test]
fn build_entry_table_has_grid_length() {
    let entries: Vec<RoutineEntry> = Vec::new();
    let table = build_entry_table("r-1", &entries, NUM_ENTRIES);
    assert_eq!(table.len(), NUM_ENTRIES as usize);
    // Consecutive days.
    for w in table.windows(2) {
        assert_eq!(w[1].0, w[0].0 + 1);
    }
}

#[test]
fn invite_lifecycle_gates_signup() {
    let mut db = MemoryDatabase::new();
    let id = db.create_invite("user-1").expect("create");
    let inv = db.get_invite(id.as_str()).expect("get").expect("present");
    assert_eq!(inv.status, InviteStatus::Sent);
    assert_eq!(inv.sender_id, "user-1");

    match parse_invite(Some(id.clone()), &db) {
        LoginInvite::Invite(offered) => assert_eq!(offered, id),
        _ => panic!("a sent invite must be offered"),
    }

    // The parse accepts other spellings of the same identifier and
    // resolves them to the stored one.
    let shouting = id.to_uppercase();
    match parse_invite(Some(shouting), &db) {
        LoginInvite::Invite(offered) => assert_eq!(offered, id),
        _ => panic!("an equivalent spelling must resolve"),
    }

    db.update_invite(id.as_str(), InviteStatus::Accepted).expect("update");
    assert!(matches!(
        parse_invite(Some(id.clone()), &db),
        LoginInvite::InvalidInvite
    ));

    assert!(matches!(parse_invite(None, &db), LoginInvite::NoInvite));
    assert!(matches!(
        parse_invite(Some("not-an-identifier".to_owned()), &db),
        LoginInvite::NoInvite
    ));
    assert!(matches!(
        parse_invite(Some("7b1deb4d-3b7d-4bad-9bdd-2b0d7b3dcb6d".to_owned()), &db),
        LoginInvite::NoInvite
    ));
}

#[test]
fn invite_offer_fixes_each_answer() {
    assert!(matches!(invite_offer(None), LoginInvite::NoInvite));
    let pending = routines::models::invites::Invite {
        id: "inv-1".to_owned(),
        sender_id: "user-1".to_owned(),
        status: InviteStatus::Sent,
        created_at: 0,
    };
    match invite_offer(Some(pending)) {
        LoginInvite::Invite(i) => assert_eq!(i, "inv-1"),
        _ => panic!("a pending invite must be offered"),
    }
    let spent = routines::models::invites::Invite {
        id: "inv-1".to_owned(),
        sender_id: "user-1".to_owned(),
        status: InviteStatus::Revoked,
        created_at: 0,
    };
    assert!(matches!(invite_offer(Some(spent)), LoginInvite::InvalidInvite));
}

#[test]
fn invite_url_appends_token() {
    let url = invite_url("https://example.com", "tok-1");
    assert_eq!(url, "https://example.com?invite=tok-1");
}

#[test]
fn status_labels_round_trip() {
    assert_eq!(InviteStatus::from_label("sent"), Some(InviteStatus::Sent));
    assert_eq!(InviteStatus::from_label("accepted"), Some(InviteStatus::Accepted));
    assert_eq!(InviteStatus::from_label("revoked"), Some(InviteStatus::Revoked));
    assert_eq!(InviteStatus::from_label("SENT"), None);
    assert_eq!(InviteStatus::from_label(""), None);
    assert_eq!(InviteStatus::Sent.label(), "sent");
    assert_eq!(InviteStatus::Accepted.label(), "accepted");
    assert_eq!(InviteStatus::Revoked.label(), "revoked");
}
