//! The data layer: a capability interface over persistence, and the
//! process-local store that satisfies it.
//!
//! Tables are kept as rows in insertion order; the model of each table is
//! a map (or set) built from the rows, later rows shadowing earlier ones,
//! so an insert is a push and a delete removes every row of the key.

use crate::auth::UserResponse;
use crate::codec::{lemma_pow10_8, opt_i64_view, str_eq};
use crate::error::{ApiError, ApiResult};
use crate::models::entries::{entries_listing_ok, in_str_list, RoutineEntry, RoutineEntryDataLayer};
use crate::models::invites::{Invite, InviteDataLayer, InviteStatus, InviteView};
use crate::models::routines::{Routine, RoutineDataLayer, RoutineView};
use crate::models::sessions::SessionDataLayer;
use crate::models::users::{provider_google, user_store_wf, User, UserDataLayer, UserView};
use vstd::prelude::*;

verus! {

/// The abstract state of a store: one model per table.  Every capability
/// trait refines this, so that each operation can say not only what its
/// own table became but that the others did not move.
pub trait StoreModel: Sized {
    open spec fn users(&self) -> Map<Seq<char>, UserView> {
        Map::empty()
    }

    open spec fn accounts(&self) -> Map<(Seq<char>, Seq<char>), Seq<char>> {
        Map::empty()
    }

    open spec fn sessions(&self) -> Map<Seq<char>, (Seq<char>, Option<int>)> {
        Map::empty()
    }

    open spec fn routines(&self) -> Map<Seq<char>, RoutineView> {
        Map::empty()
    }

    open spec fn entries(&self) -> Set<(int, Seq<char>)> {
        Set::empty()
    }

    open spec fn invites(&self) -> Map<Seq<char>, InviteView> {
        Map::empty()
    }
}

/// Only the session table may differ between `a` and `b`.
pub open spec fn only_sessions_changed<T: StoreModel>(a: T, b: T) -> bool {
    &&& a.users() == b.users()
    &&& a.accounts() == b.accounts()
    &&& a.routines() == b.routines()
    &&& a.entries() == b.entries()
    &&& a.invites() == b.invites()
}

/// Only the user and account tables may differ between `a` and `b`.
pub open spec fn only_identity_changed<T: StoreModel>(a: T, b: T) -> bool {
    &&& a.sessions() == b.sessions()
    &&& a.routines() == b.routines()
    &&& a.entries() == b.entries()
    &&& a.invites() == b.invites()
}

/// Only the routine table may differ between `a` and `b`.
pub open spec fn only_routines_changed<T: StoreModel>(a: T, b: T) -> bool {
    &&& a.users() == b.users()
    &&& a.accounts() == b.accounts()
    &&& a.sessions() == b.sessions()
    &&& a.entries() == b.entries()
    &&& a.invites() == b.invites()
}

/// Only the entry table may differ between `a` and `b`.
pub open spec fn only_entries_changed<T: StoreModel>(a: T, b: T) -> bool {
    &&& a.users() == b.users()
    &&& a.accounts() == b.accounts()
    &&& a.sessions() == b.sessions()
    &&& a.routines() == b.routines()
    &&& a.invites() == b.invites()
}

/// Only the invite table may differ between `a` and `b`.
pub open spec fn only_invites_changed<T: StoreModel>(a: T, b: T) -> bool {
    &&& a.users() == b.users()
    &&& a.accounts() == b.accounts()
    &&& a.sessions() == b.sessions()
    &&& a.routines() == b.routines()
    &&& a.entries() == b.entries()
}

/// The full capability set a store must provide.
pub trait DataLayer: UserDataLayer + RoutineDataLayer + SessionDataLayer + RoutineEntryDataLayer
    + InviteDataLayer {

}

/// Relies on `uuid::Uuid::new_v4` and its display form: a fresh random
/// identifier written in the hyphenated format, 36 characters.
#[verifier::external_body]
pub fn fresh_uuid() -> (r: String)
    ensures
        r@.len() == 36,
{
    uuid::Uuid::new_v4().to_string()
}

/// Relies on `time::OffsetDateTime::now_utc` and `unix_timestamp`: the
/// clock reading at the call, in seconds since the epoch.
#[verifier::external_body]
pub fn now_unix() -> (r: i64) {
    time::OffsetDateTime::now_utc().unix_timestamp()
}

/// One stored session row.
#[verifier::ext_equal]
pub struct SessionRow {
    pub id: String,
    pub payload: String,
    pub expiry: Option<i64>,
}

/// The model of the session table: later rows win.
pub open spec fn sessions_map(s: Seq<SessionRow>) -> Map<Seq<char>, (Seq<char>, Option<int>)>
    decreases s.len(),
{
    if s.len() == 0 {
        Map::empty()
    } else {
        sessions_map(s.drop_last()).insert(
            s.last().id@,
            (s.last().payload@, opt_i64_view(s.last().expiry)),
        )
    }
}

pub proof fn lemma_sessions_map_contains(s: Seq<SessionRow>, k: Seq<char>)
    ensures
        sessions_map(s).contains_key(k) <==> exists|j: int| 0 <= j < s.len() && (#[trigger] s[j]).id@
            == k,
    decreases s.len(),
{
    if s.len() > 0 {
        lemma_sessions_map_contains(s.drop_last(), k);
        if sessions_map(s).contains_key(k) {
            if s.last().id@ == k {
                assert(s[s.len() - 1].id@ == k);
            } else {
                let j = choose|j: int| 0 <= j < s.len() - 1 && (#[trigger] s.drop_last()[j]).id@ == k;
                assert(s[j].id@ == k);
            }
        }
        if exists|j: int| 0 <= j < s.len() && (#[trigger] s[j]).id@ == k {
            let j = choose|j: int| 0 <= j < s.len() && (#[trigger] s[j]).id@ == k;
            if j < s.len() - 1 {
                assert(s.drop_last()[j].id@ == k);
            }
        }
    }
}

pub proof fn lemma_sessions_map_last(s: Seq<SessionRow>, i: int)
    requires
        0 <= i < s.len(),
        forall|j: int| i < j < s.len() ==> (#[trigger] s[j]).id@ != s[i].id@,
    ensures
        sessions_map(s).contains_key(s[i].id@),
        sessions_map(s)[s[i].id@] == (s[i].payload@, opt_i64_view(s[i].expiry)),
    decreases s.len(),
{
    if i == s.len() - 1 {
    } else {
        assert(forall|j: int| i < j < s.len() - 1 ==> (#[trigger] s.drop_last()[j]).id@ != s[i].id@);
        assert(s.drop_last()[i] == s[i]);
        lemma_sessions_map_last(s.drop_last(), i);
        assert(s.last().id@ != s[i].id@);
    }
}

/// The session rows without any row of `id`.
pub open spec fn filter_sessions(s: Seq<SessionRow>, id: Seq<char>) -> Seq<SessionRow>
    decreases s.len(),
{
    if s.len() == 0 {
        s
    } else if s.last().id@ == id {
        filter_sessions(s.drop_last(), id)
    } else {
        filter_sessions(s.drop_last(), id).push(s.last())
    }
}

pub proof fn lemma_filter_sessions_map(s: Seq<SessionRow>, id: Seq<char>)
    ensures
        sessions_map(filter_sessions(s, id)) == sessions_map(s).remove(id),
    decreases s.len(),
{
    if s.len() == 0 {
        assert(sessions_map(s).remove(id) =~= sessions_map(s));
    } else {
        let d = s.drop_last();
        let last = s.last();
        lemma_filter_sessions_map(d, id);
        if last.id@ == id {
            assert(sessions_map(s).remove(id) =~= sessions_map(d).remove(id));
        } else {
            let f = filter_sessions(d, id);
            assert(f.push(last).drop_last() =~= f);
            assert(f.push(last).last() == last);
            assert(sessions_map(f.push(last)) == sessions_map(f).insert(
                last.id@,
                (last.payload@, opt_i64_view(last.expiry)),
            ));
            assert(sessions_map(d).remove(id).insert(
                last.id@,
                (last.payload@, opt_i64_view(last.expiry)),
            ) =~= sessions_map(s).remove(id));
        }
    }
}

/// The process-local store: fast, lost on restart, not shared across
/// processes.
pub struct MemoryDatabase {
    users_tab: Vec<crate::models::users::User>,
    accounts_tab: Vec<AccountLink>,
    sessions_tab: Vec<SessionRow>,
    routines_tab: Vec<crate::models::routines::Routine>,
    entries_tab: Vec<crate::models::entries::RoutineEntry>,
    invites_tab: Vec<crate::models::invites::Invite>,
}

/// One stored account link.
#[verifier::ext_equal]
pub struct AccountLink {
    pub provider: String,
    pub subject: String,
    pub user_id: String,
}

impl MemoryDatabase {
    /// An empty store.
    pub fn new() -> (r: MemoryDatabase)
        ensures
            r.sessions() == Map::<Seq<char>, (Seq<char>, Option<int>)>::empty(),
            r.users() == Map::<Seq<char>, UserView>::empty(),
            r.accounts() == Map::<(Seq<char>, Seq<char>), Seq<char>>::empty(),
            r.routines() == Map::<Seq<char>, RoutineView>::empty(),
            r.entries() == Set::<(int, Seq<char>)>::empty(),
            r.invites() == Map::<Seq<char>, InviteView>::empty(),
            user_store_wf(r.users(), r.accounts()),
    {
        MemoryDatabase {
            users_tab: Vec::new(),
            accounts_tab: Vec::new(),
            sessions_tab: Vec::new(),
            routines_tab: Vec::new(),
            entries_tab: Vec::new(),
            invites_tab: Vec::new(),
        }
    }
}

impl StoreModel for MemoryDatabase {
    closed spec fn users(&self) -> Map<Seq<char>, UserView> {
        users_map(self.users_tab@)
    }

    closed spec fn accounts(&self) -> Map<(Seq<char>, Seq<char>), Seq<char>> {
        accounts_map(self.accounts_tab@)
    }

    closed spec fn sessions(&self) -> Map<Seq<char>, (Seq<char>, Option<int>)> {
        sessions_map(self.sessions_tab@)
    }

    closed spec fn routines(&self) -> Map<Seq<char>, RoutineView> {
        routines_map(self.routines_tab@)
    }

    closed spec fn entries(&self) -> Set<(int, Seq<char>)> {
        entries_set(self.entries_tab@)
    }

    closed spec fn invites(&self) -> Map<Seq<char>, InviteView> {
        invites_map(self.invites_tab@)
    }
}

impl SessionDataLayer for MemoryDatabase {
    fn get_session(&self, id: &str) -> (r: ApiResult<Option<String>>) {
        let ghost rows = self.sessions_tab@;
        let n = self.sessions_tab.len();
        let mut i: usize = n;
        while i > 0
            invariant
                n == rows.len(),
                rows == self.sessions_tab@,
                0 <= i <= n,
                forall|j: int| i <= j < n ==> (#[trigger] rows[j]).id@ != id@,
            decreases i,
        {
            i = i - 1;
            if str_eq(self.sessions_tab[i].id.as_str(), id) {
                proof {
                    lemma_sessions_map_last(rows, i as int);
                }
                return Ok(Some(self.sessions_tab[i].payload.clone()));
            }
        }
        proof {
            lemma_sessions_map_contains(rows, id@);
        }
        Ok(None)
    }

    fn insert_session(&mut self, id: &str, session: &str, expiry: Option<i64>) -> (r: ApiResult<
        (),
    >) {
        let ghost rows = self.sessions_tab@;
        let row = SessionRow { id: id.to_owned(), payload: session.to_owned(), expiry };
        self.sessions_tab.push(row);
        proof {
            assert(self.sessions_tab@.drop_last() =~= rows);
        }
        Ok(())
    }

    fn delete_session(&mut self, id: &str) -> (r: ApiResult<()>) {
        let ghost rows = self.sessions_tab@;
        let mut kept: Vec<SessionRow> = Vec::new();
        let mut i: usize = 0;
        let n = self.sessions_tab.len();
        proof {
            assert(rows.subrange(0, 0) =~= Seq::<SessionRow>::empty());
            assert(kept@ =~= filter_sessions(rows.subrange(0, 0), id@));
        }
        while i < n
            invariant
                n == rows.len(),
                rows == self.sessions_tab@,
                0 <= i <= n,
                kept@ == filter_sessions(rows.subrange(0, i as int), id@),
            decreases n - i,
        {
            let keep = !str_eq(self.sessions_tab[i].id.as_str(), id);
            proof {
                let pre = rows.subrange(0, i as int);
                let cur = rows.subrange(0, i as int + 1);
                assert(cur.drop_last() =~= pre);
                assert(cur.last() == rows[i as int]);
            }
            if keep {
                let row = SessionRow {
                    id: self.sessions_tab[i].id.clone(),
                    payload: self.sessions_tab[i].payload.clone(),
                    expiry: self.sessions_tab[i].expiry,
                };
                proof {
                    assert(row =~= rows[i as int]);
                }
                kept.push(row);
            }
            proof {
                assert(kept@ =~= filter_sessions(rows.subrange(0, i as int + 1), id@));
            }
            i = i + 1;
        }
        proof {
            assert(rows.subrange(0, n as int) =~= rows);
            lemma_filter_sessions_map(rows, id@);
        }
        self.sessions_tab = kept;
        Ok(())
    }

    fn delete_all_sessions(&mut self) -> (r: ApiResult<()>) {
        self.sessions_tab = Vec::new();
        proof {
            assert(sessions_map(self.sessions_tab@) =~= Map::<
                Seq<char>,
                (Seq<char>, Option<int>),
            >::empty());
        }
        Ok(())
    }
}

/// The model of the user table: later rows win.
pub open spec fn users_map(s: Seq<User>) -> Map<Seq<char>, UserView>
    decreases s.len(),
{
    if s.len() == 0 {
        Map::empty()
    } else {
        users_map(s.drop_last()).insert(s.last()@.id, s.last()@)
    }
}

pub proof fn lemma_users_map_contains(s: Seq<User>, k: Seq<char>)
    ensures
        users_map(s).contains_key(k) <==> exists|j: int| 0 <= j < s.len() && (#[trigger] s[j])@.id
            == k,
    decreases s.len(),
{
    if s.len() > 0 {
        lemma_users_map_contains(s.drop_last(), k);
        if users_map(s).contains_key(k) {
            if s.last()@.id == k {
                assert(s[s.len() - 1]@.id == k);
            } else {
                let j = choose|j: int| 0 <= j < s.len() - 1 && (#[trigger] s.drop_last()[j])@.id == k;
                assert(s[j]@.id == k);
            }
        }
        if exists|j: int| 0 <= j < s.len() && (#[trigger] s[j])@.id == k {
            let j = choose|j: int| 0 <= j < s.len() && (#[trigger] s[j])@.id == k;
            if j < s.len() - 1 {
                assert(s.drop_last()[j]@.id == k);
            }
        }
    }
}

pub proof fn lemma_users_map_last(s: Seq<User>, i: int)
    requires
        0 <= i < s.len(),
        forall|j: int| i < j < s.len() ==> (#[trigger] s[j])@.id != s[i]@.id,
    ensures
        users_map(s).contains_key(s[i]@.id),
        users_map(s)[s[i]@.id] == s[i]@,
    decreases s.len(),
{
    if i == s.len() - 1 {
    } else {
        assert(forall|j: int| i < j < s.len() - 1 ==> (#[trigger] s.drop_last()[j])@.id != s[i]@.id);
        assert(s.drop_last()[i] == s[i]);
        lemma_users_map_last(s.drop_last(), i);
        assert(s.last()@.id != s[i]@.id);
    }
}

/// The user rows without any row of `id`.
pub open spec fn filter_users(s: Seq<User>, id: Seq<char>) -> Seq<User>
    decreases s.len(),
{
    if s.len() == 0 {
        s
    } else if s.last()@.id == id {
        filter_users(s.drop_last(), id)
    } else {
        filter_users(s.drop_last(), id).push(s.last())
    }
}

pub proof fn lemma_filter_users_map(s: Seq<User>, id: Seq<char>)
    ensures
        users_map(filter_users(s, id)) == users_map(s).remove(id),
    decreases s.len(),
{
    if s.len() == 0 {
        assert(users_map(s).remove(id) =~= users_map(s));
    } else {
        let d = s.drop_last();
        let last = s.last();
        lemma_filter_users_map(d, id);
        if last@.id == id {
            assert(users_map(s).remove(id) =~= users_map(d).remove(id));
        } else {
            let f = filter_users(d, id);
            assert(f.push(last).drop_last() =~= f);
            assert(f.push(last).last() == last);
            assert(users_map(d).remove(id).insert(last@.id, last@) =~= users_map(s).remove(id));
        }
    }
}

/// The model of the account-link table: later rows win.
pub open spec fn accounts_map(s: Seq<AccountLink>) -> Map<(Seq<char>, Seq<char>), Seq<char>>
    decreases s.len(),
{
    if s.len() == 0 {
        Map::empty()
    } else {
        accounts_map(s.drop_last()).insert(
            (s.last().provider@, s.last().subject@),
            s.last().user_id@,
        )
    }
}

pub proof fn lemma_accounts_map_contains(s: Seq<AccountLink>, k: (Seq<char>, Seq<char>))
    ensures
        accounts_map(s).contains_key(k) <==> exists|j: int| 0 <= j < s.len() && ((#[trigger] s[j]).provider@, s[j].subject@) == k,
    decreases s.len(),
{
    if s.len() > 0 {
        lemma_accounts_map_contains(s.drop_last(), k);
        if accounts_map(s).contains_key(k) {
            if (s.last().provider@, s.last().subject@) == k {
                assert(((s[s.len() - 1]).provider@, s[s.len() - 1].subject@) == k);
            } else {
                let j = choose|j: int| 0 <= j < s.len() - 1 && ((#[trigger] s.drop_last()[j]).provider@, s.drop_last()[j].subject@) == k;
                assert((s[j].provider@, s[j].subject@) == k);
            }
        }
        if exists|j: int| 0 <= j < s.len() && ((#[trigger] s[j]).provider@, s[j].subject@) == k {
            let j = choose|j: int| 0 <= j < s.len() && ((#[trigger] s[j]).provider@, s[j].subject@)
                == k;
            if j < s.len() - 1 {
                assert((s.drop_last()[j].provider@, s.drop_last()[j].subject@) == k);
            }
        }
    }
}

pub proof fn lemma_accounts_map_last(s: Seq<AccountLink>, i: int)
    requires
        0 <= i < s.len(),
        forall|j: int| i < j < s.len() ==> ((#[trigger] s[j]).provider@, s[j].subject@) != (
            s[i].provider@,
            s[i].subject@,
        ),
    ensures
        accounts_map(s).contains_key((s[i].provider@, s[i].subject@)),
        accounts_map(s)[(s[i].provider@, s[i].subject@)] == s[i].user_id@,
    decreases s.len(),
{
    if i == s.len() - 1 {
    } else {
        assert(forall|j: int| i < j < s.len() - 1 ==> ((#[trigger] s.drop_last()[j]).provider@,
            s.drop_last()[j].subject@) != (s[i].provider@, s[i].subject@));
        assert(s.drop_last()[i] == s[i]);
        lemma_accounts_map_last(s.drop_last(), i);
        assert((s.last().provider@, s.last().subject@) != (s[i].provider@, s[i].subject@));
    }
}

impl UserDataLayer for MemoryDatabase {
    fn get_user(&self, id: &str) -> (r: ApiResult<Option<User>>) {
        let ghost rows = self.users_tab@;
        let n = self.users_tab.len();
        let mut i: usize = n;
        while i > 0
            invariant
                n == rows.len(),
                rows == self.users_tab@,
                0 <= i <= n,
                forall|j: int| i <= j < n ==> (#[trigger] rows[j])@.id != id@,
            decreases i,
        {
            i = i - 1;
            if str_eq(self.users_tab[i].id.as_str(), id) {
                proof {
                    lemma_users_map_last(rows, i as int);
                }
                let u = User {
                    id: self.users_tab[i].id.clone(),
                    name: self.users_tab[i].name.clone(),
                    created_at: self.users_tab[i].created_at,
                    updated_at: self.users_tab[i].updated_at,
                };
                return Ok(Some(u));
            }
        }
        proof {
            lemma_users_map_contains(rows, id@);
        }
        Ok(None)
    }

    fn upsert_user(&mut self, response: &UserResponse) -> (r: ApiResult<User>) {
        proof {
            reveal_strlit("google");
        }
        let ghost links = self.accounts_tab@;
        let ghost key = (provider_google(), response.sub@);
        let n = self.accounts_tab.len();
        let mut i: usize = n;
        while i > 0
            invariant
                n == links.len(),
                links == self.accounts_tab@,
                *self == *old(self),
                user_store_wf(old(self).users(), old(self).accounts()),
                response.wf(),
                key == (provider_google(), response.sub@),
                0 <= i <= n,
                forall|j: int| i <= j < n ==> ((#[trigger] links[j]).provider@, links[j].subject@)
                    != key,
            decreases i,
        {
            i = i - 1;
            if str_eq(self.accounts_tab[i].provider.as_str(), "google") && str_eq(
                self.accounts_tab[i].subject.as_str(),
                response.sub.as_str(),
            ) {
                proof {
                    lemma_accounts_map_last(links, i as int);
                }
                let linked = self.accounts_tab[i].user_id.clone();
                return self.find_linked_user(linked.as_str());
            }
        }
        proof {
            lemma_accounts_map_contains(links, key);
        }
        // First login of this identity: one user row, one link row.
        let id = fresh_uuid();
        let ghost urows = self.users_tab@;
        let n2 = self.users_tab.len();
        let mut a: usize = n2;
        while a > 0
            invariant
                n2 == urows.len(),
                urows == self.users_tab@,
                *self == *old(self),
                user_store_wf(old(self).users(), old(self).accounts()),
                response.wf(),
                0 <= a <= n2,
                forall|j: int| a <= j < n2 ==> (#[trigger] urows[j])@.id != id@,
            decreases a,
        {
            a = a - 1;
            if str_eq(self.users_tab[a].id.as_str(), id.as_str()) {
                return Err(ApiError::new("user id collision"));
            }
        }
        proof {
            lemma_users_map_contains(urows, id@);
            lemma_pow10_8();
        }
        let now = now_unix();
        let user = User {
            id: id.clone(),
            name: response.name.clone(),
            created_at: now,
            updated_at: None,
        };
        let ret = User {
            id: user.id.clone(),
            name: user.name.clone(),
            created_at: now,
            updated_at: None,
        };
        let link = AccountLink {
            provider: "google".to_owned(),
            subject: response.sub.clone(),
            user_id: id,
        };
        self.users_tab.push(user);
        self.accounts_tab.push(link);
        proof {
            assert(self.users_tab@.drop_last() =~= urows);
            assert(self.accounts_tab@.drop_last() =~= links);
            assert(users_map(self.users_tab@) == users_map(urows).insert(ret@.id, ret@));
            assert(accounts_map(self.accounts_tab@) == accounts_map(links).insert(key, ret@.id));
            lemma_user_store_wf_insert(users_map(urows), accounts_map(links), key, ret@);
        }
        Ok(ret)
    }

    fn delete_user(&mut self, id: &str) -> (r: ApiResult<()>) {
        let ghost rows = self.users_tab@;
        let mut kept: Vec<User> = Vec::new();
        let mut i: usize = 0;
        let n = self.users_tab.len();
        proof {
            assert(rows.subrange(0, 0) =~= Seq::<User>::empty());
            assert(kept@ =~= filter_users(rows.subrange(0, 0), id@));
        }
        while i < n
            invariant
                n == rows.len(),
                rows == self.users_tab@,
                *self == *old(self),
                0 <= i <= n,
                kept@ == filter_users(rows.subrange(0, i as int), id@),
            decreases n - i,
        {
            let keep = !str_eq(self.users_tab[i].id.as_str(), id);
            proof {
                let pre = rows.subrange(0, i as int);
                let cur = rows.subrange(0, i as int + 1);
                assert(cur.drop_last() =~= pre);
                assert(cur.last() == rows[i as int]);
            }
            if keep {
                let row = User {
                    id: self.users_tab[i].id.clone(),
                    name: self.users_tab[i].name.clone(),
                    created_at: self.users_tab[i].created_at,
                    updated_at: self.users_tab[i].updated_at,
                };
                proof {
                    assert(row =~= rows[i as int]);
                }
                kept.push(row);
            }
            proof {
                assert(kept@ =~= filter_users(rows.subrange(0, i as int + 1), id@));
            }
            i = i + 1;
        }
        proof {
            assert(rows.subrange(0, n as int) =~= rows);
            lemma_filter_users_map(rows, id@);
        }
        self.users_tab = kept;
        Ok(())
    }
}

impl MemoryDatabase {
    /// The user an existing link points at; the store invariant guarantees
    /// the row exists.
    fn find_linked_user(&self, linked: &str) -> (r: ApiResult<User>)
        requires
            user_store_wf(self.users(), self.accounts()),
            self.users().contains_key(linked@),
        ensures
            r matches Ok(u) && u@ == self.users()[linked@],
    {
        let ghost rows = self.users_tab@;
        let n = self.users_tab.len();
        let mut i: usize = n;
        while i > 0
            invariant
                n == rows.len(),
                rows == self.users_tab@,
                self.users().contains_key(linked@),
                0 <= i <= n,
                forall|j: int| i <= j < n ==> (#[trigger] rows[j])@.id != linked@,
            decreases i,
        {
            i = i - 1;
            if str_eq(self.users_tab[i].id.as_str(), linked) {
                proof {
                    lemma_users_map_last(rows, i as int);
                }
                let u = User {
                    id: self.users_tab[i].id.clone(),
                    name: self.users_tab[i].name.clone(),
                    created_at: self.users_tab[i].created_at,
                    updated_at: self.users_tab[i].updated_at,
                };
                return Ok(u);
            }
        }
        proof {
            lemma_users_map_contains(rows, linked@);
        }
        Err(ApiError::new("account link without user"))
    }
}

/// A fresh user and its link preserve the store invariant.
proof fn lemma_user_store_wf_insert(
    users: Map<Seq<char>, UserView>,
    accounts: Map<(Seq<char>, Seq<char>), Seq<char>>,
    key: (Seq<char>, Seq<char>),
    u: UserView,
)
    requires
        user_store_wf(users, accounts),
        u.wf(),
    ensures
        user_store_wf(users.insert(u.id, u), accounts.insert(key, u.id)),
{
}

/// Scans a string list for `k`.
fn contains_str(v: &Vec<String>, k: &str) -> (r: bool)
    ensures
        r <==> in_str_list(v@, k@),
{
    let mut i: usize = 0;
    let n = v.len();
    while i < n
        invariant
            n == v@.len(),
            0 <= i <= n,
            forall|j: int| 0 <= j < i ==> (#[trigger] v@[j])@ != k@,
        decreases n - i,
    {
        if str_eq(v[i].as_str(), k) {
            assert(v@[i as int]@ == k@);
            return true;
        }
        i = i + 1;
    }
    false
}

/// The model of the routine table: later rows win.
pub open spec fn routines_map(s: Seq<Routine>) -> Map<Seq<char>, RoutineView>
    decreases s.len(),
{
    if s.len() == 0 {
        Map::empty()
    } else {
        routines_map(s.drop_last()).insert(s.last()@.id, s.last()@)
    }
}

pub proof fn lemma_routines_map_contains(s: Seq<Routine>, k: Seq<char>)
    ensures
        routines_map(s).contains_key(k) <==> exists|j: int| 0 <= j < s.len() && (#[trigger] s[j])@.id
            == k,
    decreases s.len(),
{
    if s.len() > 0 {
        lemma_routines_map_contains(s.drop_last(), k);
        if routines_map(s).contains_key(k) {
            if s.last()@.id == k {
                assert(s[s.len() - 1]@.id == k);
            } else {
                let j = choose|j: int| 0 <= j < s.len() - 1 && (#[trigger] s.drop_last()[j])@.id == k;
                assert(s[j]@.id == k);
            }
        }
        if exists|j: int| 0 <= j < s.len() && (#[trigger] s[j])@.id == k {
            let j = choose|j: int| 0 <= j < s.len() && (#[trigger] s[j])@.id == k;
            if j < s.len() - 1 {
                assert(s.drop_last()[j]@.id == k);
            }
        }
    }
}

pub proof fn lemma_routines_map_last(s: Seq<Routine>, i: int)
    requires
        0 <= i < s.len(),
        forall|j: int| i < j < s.len() ==> (#[trigger] s[j])@.id != s[i]@.id,
    ensures
        routines_map(s).contains_key(s[i]@.id),
        routines_map(s)[s[i]@.id] == s[i]@,
    decreases s.len(),
{
    if i == s.len() - 1 {
    } else {
        assert(forall|j: int| i < j < s.len() - 1 ==> (#[trigger] s.drop_last()[j])@.id != s[i]@.id);
        assert(s.drop_last()[i] == s[i]);
        lemma_routines_map_last(s.drop_last(), i);
        assert(s.last()@.id != s[i]@.id);
    }
}

/// The routine rows without any row of `id`.
pub open spec fn filter_routines(s: Seq<Routine>, id: Seq<char>) -> Seq<Routine>
    decreases s.len(),
{
    if s.len() == 0 {
        s
    } else if s.last()@.id == id {
        filter_routines(s.drop_last(), id)
    } else {
        filter_routines(s.drop_last(), id).push(s.last())
    }
}

pub proof fn lemma_filter_routines_map(s: Seq<Routine>, id: Seq<char>)
    ensures
        routines_map(filter_routines(s, id)) == routines_map(s).remove(id),
    decreases s.len(),
{
    if s.len() == 0 {
        assert(routines_map(s).remove(id) =~= routines_map(s));
    } else {
        let d = s.drop_last();
        let last = s.last();
        lemma_filter_routines_map(d, id);
        if last@.id == id {
            assert(routines_map(s).remove(id) =~= routines_map(d).remove(id));
        } else {
            let f = filter_routines(d, id);
            assert(f.push(last).drop_last() =~= f);
            assert(f.push(last).last() == last);
            assert(routines_map(d).remove(id).insert(last@.id, last@) =~= routines_map(s).remove(
                id,
            ));
        }
    }
}

fn clone_routine(r: &Routine) -> (c: Routine)
    ensures
        c == *r,
{
    let c = Routine {
        id: r.id.clone(),
        title: r.title.clone(),
        color: r.color.clone(),
        user_id: r.user_id.clone(),
        created_at: r.created_at,
        updated_at: r.updated_at,
    };
    proof {
        assert(c =~= *r);
    }
    c
}

impl RoutineDataLayer for MemoryDatabase {
    fn get_routine(&self, id: &str) -> (r: ApiResult<Option<Routine>>) {
        let ghost rows = self.routines_tab@;
        let n = self.routines_tab.len();
        let mut i: usize = n;
        while i > 0
            invariant
                n == rows.len(),
                rows == self.routines_tab@,
                0 <= i <= n,
                forall|j: int| i <= j < n ==> (#[trigger] rows[j])@.id != id@,
            decreases i,
        {
            i = i - 1;
            if str_eq(self.routines_tab[i].id.as_str(), id) {
                proof {
                    lemma_routines_map_last(rows, i as int);
                }
                return Ok(Some(clone_routine(&self.routines_tab[i])));
            }
        }
        proof {
            lemma_routines_map_contains(rows, id@);
        }
        Ok(None)
    }

    fn get_routines(&self, user_id: &str) -> (r: ApiResult<Vec<Routine>>) {
        let ghost rows = self.routines_tab@;
        let ghost rmap = routines_map(rows);
        let n = self.routines_tab.len();
        let mut acc: Vec<Routine> = Vec::new();
        let mut seen: Vec<String> = Vec::new();
        let mut i: usize = n;
        while i > 0
            invariant
                n == rows.len(),
                rows == self.routines_tab@,
                rmap == routines_map(rows),
                0 <= i <= n,
                forall|k: Seq<char>| #[trigger] in_str_list(seen@, k) <==> exists|j: int|
                    i <= j < n && (#[trigger] rows[j])@.id == k,
                forall|a: int| 0 <= a < acc@.len() ==> rmap.contains_key((#[trigger] acc@[a])@.id)
                    && acc@[a]@ == rmap[acc@[a]@.id] && acc@[a]@.user_id == user_id@,
                forall|a: int| 0 <= a < acc@.len() ==> in_str_list(seen@, (#[trigger] acc@[a])@.id),
                forall|a: int, b: int| 0 <= a < b < acc@.len() ==> (#[trigger] acc@[a])@.id != (
                #[trigger] acc@[b])@.id,
                forall|k: Seq<char>|
                    rmap.contains_key(k) && rmap[k].user_id == user_id@ && (exists|j: int|
                        i <= j < n && (#[trigger] rows[j])@.id == k) ==> exists|a: int|
                        0 <= a < acc@.len() && (#[trigger] acc@[a])@.id == k,
            decreases i,
        {
            i = i - 1;
            let ghost old_seen = seen@;
            let ghost old_acc = acc@;
            let ghost rid = rows[i as int]@.id;
            let id_seen = contains_str(&seen, self.routines_tab[i].id.as_str());
            if !id_seen {
                proof {
                    assert(forall|j: int| i + 1 <= j < n ==> (#[trigger] rows[j])@.id != rid) by {
                        assert(forall|j: int| i + 1 <= j < n ==> in_str_list(
                            old_seen,
                            (#[trigger] rows[j])@.id,
                        ));
                    }
                    lemma_routines_map_last(rows, i as int);
                }
                seen.push(self.routines_tab[i].id.clone());
                proof {
                    assert forall|k: Seq<char>| #[trigger] in_str_list(seen@, k) implies (
                    in_str_list(old_seen, k) || k == rid) by {
                        let j = choose|j: int| 0 <= j < seen@.len() && (#[trigger] seen@[j])@ == k;
                        if j < old_seen.len() {
                            assert(old_seen[j]@ == k);
                        }
                    }
                    assert forall|k: Seq<char>| (in_str_list(old_seen, k) || k == rid) implies
                    #[trigger] in_str_list(seen@, k) by {
                        if in_str_list(old_seen, k) {
                            let j = choose|j: int| 0 <= j < old_seen.len() && (#[trigger] old_seen[j])@
                                == k;
                            assert(seen@[j]@ == k);
                        } else {
                            assert(seen@[seen@.len() - 1]@ == k);
                        }
                    }
                }
                if str_eq(self.routines_tab[i].user_id.as_str(), user_id) {
                    acc.push(clone_routine(&self.routines_tab[i]));
                    proof {
                        assert(acc@[acc@.len() - 1] == rows[i as int]);
                        assert(forall|a: int| 0 <= a < old_acc.len() ==> acc@[a] == old_acc[a]);
                    }
                } else {
                    proof {
                        assert(rmap[rid].user_id != user_id@);
                    }
                }
            } else {
                proof {
                    assert(exists|j: int| i + 1 <= j < n && (#[trigger] rows[j])@.id == rid);
                }
            }
            proof {
                assert forall|k: Seq<char>|
                    rmap.contains_key(k) && rmap[k].user_id == user_id@ && (exists|j: int|
                        i <= j < n && (#[trigger] rows[j])@.id == k) implies exists|a: int|
                        0 <= a < acc@.len() && (#[trigger] acc@[a])@.id == k by {
                    let j = choose|j: int| i <= j < n && (#[trigger] rows[j])@.id == k;
                    if j > i {
                        let a = choose|a: int| 0 <= a < old_acc.len() && (#[trigger] old_acc[a])@.id
                            == k;
                        assert(acc@[a]@.id == k);
                    } else {
                        if in_str_list(old_seen, rid) {
                            let j2 = choose|j2: int| i + 1 <= j2 < n && (#[trigger] rows[j2])@.id
                                == rid;
                            let a = choose|a: int| 0 <= a < old_acc.len() && (#[trigger] old_acc[a])@.id
                                == k;
                            assert(acc@[a]@.id == k);
                        } else {
                            assert(rmap[rid] == rows[i as int]@);
                            assert(acc@[acc@.len() - 1]@.id == k);
                        }
                    }
                }
            }
        }
        proof {
            assert forall|k: Seq<char>|
                #[trigger] rmap.contains_key(k) && rmap[k].user_id == user_id@ implies exists|a: int|
                0 <= a < acc@.len() && (#[trigger] acc@[a])@.id == k by {
                lemma_routines_map_contains(rows, k);
            }
        }
        Ok(acc)
    }

    fn create_routine(&mut self, title: &str, color: &str, user_id: &str) -> (r: ApiResult<
        Routine,
    >) {
        let id = fresh_uuid();
        let ghost rows = self.routines_tab@;
        let n = self.routines_tab.len();
        let mut i: usize = n;
        while i > 0
            invariant
                n == rows.len(),
                rows == self.routines_tab@,
                *self == *old(self),
                0 <= i <= n,
                forall|j: int| i <= j < n ==> (#[trigger] rows[j])@.id != id@,
            decreases i,
        {
            i = i - 1;
            if str_eq(self.routines_tab[i].id.as_str(), id.as_str()) {
                return Err(ApiError::new("routine id collision"));
            }
        }
        proof {
            lemma_routines_map_contains(rows, id@);
        }
        let now = now_unix();
        let rt = Routine {
            id,
            title: title.to_owned(),
            color: color.to_owned(),
            user_id: user_id.to_owned(),
            created_at: now,
            updated_at: None,
        };
        let ret = clone_routine(&rt);
        self.routines_tab.push(rt);
        proof {
            assert(self.routines_tab@.drop_last() =~= rows);
        }
        Ok(ret)
    }

    fn delete_routine(&mut self, id: &str) -> (r: ApiResult<()>) {
        let ghost rows = self.routines_tab@;
        let mut kept: Vec<Routine> = Vec::new();
        let mut i: usize = 0;
        let n = self.routines_tab.len();
        proof {
            assert(rows.subrange(0, 0) =~= Seq::<Routine>::empty());
            assert(kept@ =~= filter_routines(rows.subrange(0, 0), id@));
        }
        while i < n
            invariant
                n == rows.len(),
                rows == self.routines_tab@,
                *self == *old(self),
                0 <= i <= n,
                kept@ == filter_routines(rows.subrange(0, i as int), id@),
            decreases n - i,
        {
            let keep = !str_eq(self.routines_tab[i].id.as_str(), id);
            proof {
                let pre = rows.subrange(0, i as int);
                let cur = rows.subrange(0, i as int + 1);
                assert(cur.drop_last() =~= pre);
                assert(cur.last() == rows[i as int]);
            }
            if keep {
                kept.push(clone_routine(&self.routines_tab[i]));
            }
            proof {
                assert(kept@ =~= filter_routines(rows.subrange(0, i as int + 1), id@));
            }
            i = i + 1;
        }
        proof {
            assert(rows.subrange(0, n as int) =~= rows);
            lemma_filter_routines_map(rows, id@);
        }
        self.routines_tab = kept;
        Ok(())
    }
}

/// The model of the invite table: later rows win.
pub open spec fn invites_map(s: Seq<Invite>) -> Map<Seq<char>, InviteView>
    decreases s.len(),
{
    if s.len() == 0 {
        Map::empty()
    } else {
        invites_map(s.drop_last()).insert(s.last()@.id, s.last()@)
    }
}

pub proof fn lemma_invites_map_contains(s: Seq<Invite>, k: Seq<char>)
    ensures
        invites_map(s).contains_key(k) <==> exists|j: int| 0 <= j < s.len() && (#[trigger] s[j])@.id
            == k,
    decreases s.len(),
{
    if s.len() > 0 {
        lemma_invites_map_contains(s.drop_last(), k);
        if invites_map(s).contains_key(k) {
            if s.last()@.id == k {
                assert(s[s.len() - 1]@.id == k);
            } else {
                let j = choose|j: int| 0 <= j < s.len() - 1 && (#[trigger] s.drop_last()[j])@.id == k;
                assert(s[j]@.id == k);
            }
        }
        if exists|j: int| 0 <= j < s.len() && (#[trigger] s[j])@.id == k {
            let j = choose|j: int| 0 <= j < s.len() && (#[trigger] s[j])@.id == k;
            if j < s.len() - 1 {
                assert(s.drop_last()[j]@.id == k);
            }
        }
    }
}

pub proof fn lemma_invites_map_last(s: Seq<Invite>, i: int)
    requires
        0 <= i < s.len(),
        forall|j: int| i < j < s.len() ==> (#[trigger] s[j])@.id != s[i]@.id,
    ensures
        invites_map(s).contains_key(s[i]@.id),
        invites_map(s)[s[i]@.id] == s[i]@,
    decreases s.len(),
{
    if i == s.len() - 1 {
    } else {
        assert(forall|j: int| i < j < s.len() - 1 ==> (#[trigger] s.drop_last()[j])@.id != s[i]@.id);
        assert(s.drop_last()[i] == s[i]);
        lemma_invites_map_last(s.drop_last(), i);
        assert(s.last()@.id != s[i]@.id);
    }
}

/// The invite rows with every row of `id` set to `status`.
pub open spec fn update_invites(s: Seq<Invite>, id: Seq<char>, status: InviteStatus) -> Seq<Invite>
    decreases s.len(),
{
    if s.len() == 0 {
        s
    } else if s.last()@.id == id {
        update_invites(s.drop_last(), id, status).push(
            Invite {
                status,
                ..s.last()
            },
        )
    } else {
        update_invites(s.drop_last(), id, status).push(s.last())
    }
}

pub proof fn lemma_update_invites_map(s: Seq<Invite>, id: Seq<char>, status: InviteStatus)
    ensures
        invites_map(update_invites(s, id, status)) == (if invites_map(s).contains_key(id) {
            invites_map(s).insert(
                id,
                InviteView {
                    status,
                    ..invites_map(s)[id]
                },
            )
        } else {
            invites_map(s)
        }),
    decreases s.len(),
{
    if s.len() == 0 {
    } else {
        let d = s.drop_last();
        let last = s.last();
        lemma_update_invites_map(d, id, status);
        if last@.id == id {
            let upd = Invite { status, ..last };
            let u = update_invites(d, id, status).push(upd);
            assert(u.drop_last() =~= update_invites(d, id, status));
            assert(u.last() == upd);
            assert(upd@ == InviteView { status, ..last@ });
            if invites_map(d).contains_key(id) {
                assert(invites_map(u) =~= invites_map(s).insert(id, upd@));
            } else {
                assert(invites_map(u) =~= invites_map(s).insert(id, upd@));
            }
        } else {
            let u = update_invites(d, id, status).push(last);
            assert(u.drop_last() =~= update_invites(d, id, status));
            assert(u.last() == last);
            if invites_map(d).contains_key(id) {
                assert(invites_map(s)[id] == invites_map(d)[id]);
                assert(invites_map(u) =~= invites_map(s).insert(
                    id,
                    InviteView {
                        status,
                        ..invites_map(s)[id]
                    },
                ));
            } else {
                assert(invites_map(u) =~= invites_map(s));
            }
        }
    }
}

fn clone_invite(v: &Invite) -> (c: Invite)
    ensures
        c == *v,
{
    let c = Invite {
        id: v.id.clone(),
        sender_id: v.sender_id.clone(),
        status: v.status,
        created_at: v.created_at,
    };
    proof {
        assert(c =~= *v);
    }
    c
}

impl InviteDataLayer for MemoryDatabase {
    fn get_invite(&self, id: &str) -> (r: ApiResult<Option<Invite>>) {
        let ghost rows = self.invites_tab@;
        let n = self.invites_tab.len();
        let mut i: usize = n;
        while i > 0
            invariant
                n == rows.len(),
                rows == self.invites_tab@,
                0 <= i <= n,
                forall|j: int| i <= j < n ==> (#[trigger] rows[j])@.id != id@,
            decreases i,
        {
            i = i - 1;
            if str_eq(self.invites_tab[i].id.as_str(), id) {
                proof {
                    lemma_invites_map_last(rows, i as int);
                }
                return Ok(Some(clone_invite(&self.invites_tab[i])));
            }
        }
        proof {
            lemma_invites_map_contains(rows, id@);
        }
        Ok(None)
    }

    fn create_invite(&mut self, sender: &str) -> (r: ApiResult<String>) {
        let id = fresh_uuid();
        let ghost rows = self.invites_tab@;
        let n = self.invites_tab.len();
        let mut i: usize = n;
        while i > 0
            invariant
                n == rows.len(),
                rows == self.invites_tab@,
                *self == *old(self),
                0 <= i <= n,
                forall|j: int| i <= j < n ==> (#[trigger] rows[j])@.id != id@,
            decreases i,
        {
            i = i - 1;
            if str_eq(self.invites_tab[i].id.as_str(), id.as_str()) {
                return Err(ApiError::new("invite id collision"));
            }
        }
        proof {
            lemma_invites_map_contains(rows, id@);
        }
        let now = now_unix();
        let inv = Invite {
            id: id.clone(),
            sender_id: sender.to_owned(),
            status: InviteStatus::Sent,
            created_at: now,
        };
        self.invites_tab.push(inv);
        proof {
            assert(self.invites_tab@.drop_last() =~= rows);
        }
        Ok(id)
    }

    fn update_invite(&mut self, id: &str, status: InviteStatus) -> (r: ApiResult<()>) {
        let ghost rows = self.invites_tab@;
        let mut next: Vec<Invite> = Vec::new();
        let mut i: usize = 0;
        let n = self.invites_tab.len();
        proof {
            assert(rows.subrange(0, 0) =~= Seq::<Invite>::empty());
            assert(next@ =~= update_invites(rows.subrange(0, 0), id@, status));
        }
        while i < n
            invariant
                n == rows.len(),
                rows == self.invites_tab@,
                *self == *old(self),
                0 <= i <= n,
                next@ == update_invites(rows.subrange(0, i as int), id@, status),
            decreases n - i,
        {
            proof {
                let pre = rows.subrange(0, i as int);
                let cur = rows.subrange(0, i as int + 1);
                assert(cur.drop_last() =~= pre);
                assert(cur.last() == rows[i as int]);
            }
            let mut row = clone_invite(&self.invites_tab[i]);
            if str_eq(self.invites_tab[i].id.as_str(), id) {
                row = Invite { status, ..row };
                proof {
                    assert(row =~= Invite { status, ..rows[i as int] });
                }
            }
            next.push(row);
            proof {
                assert(next@ =~= update_invites(rows.subrange(0, i as int + 1), id@, status));
            }
            i = i + 1;
        }
        proof {
            assert(rows.subrange(0, n as int) =~= rows);
            lemma_update_invites_map(rows, id@, status);
        }
        self.invites_tab = next;
        Ok(())
    }
}

/// The model of the entry table: the set of stored marks.
pub open spec fn entries_set(s: Seq<RoutineEntry>) -> Set<(int, Seq<char>)>
    decreases s.len(),
{
    if s.len() == 0 {
        Set::empty()
    } else {
        entries_set(s.drop_last()).insert(s.last()@)
    }
}

pub proof fn lemma_entries_set_contains(s: Seq<RoutineEntry>, e: (int, Seq<char>))
    ensures
        entries_set(s).contains(e) <==> exists|j: int| 0 <= j < s.len() && (#[trigger] s[j])@ == e,
    decreases s.len(),
{
    if s.len() > 0 {
        lemma_entries_set_contains(s.drop_last(), e);
        if entries_set(s).contains(e) {
            if s.last()@ == e {
                assert(s[s.len() - 1]@ == e);
            } else {
                let j = choose|j: int| 0 <= j < s.len() - 1 && (#[trigger] s.drop_last()[j])@ == e;
                assert(s[j]@ == e);
            }
        }
        if exists|j: int| 0 <= j < s.len() && (#[trigger] s[j])@ == e {
            let j = choose|j: int| 0 <= j < s.len() && (#[trigger] s[j])@ == e;
            if j < s.len() - 1 {
                assert(s.drop_last()[j]@ == e);
            }
        }
    }
}

/// The entry rows without any row of the mark.
pub open spec fn filter_entries(s: Seq<RoutineEntry>, e: (int, Seq<char>)) -> Seq<RoutineEntry>
    decreases s.len(),
{
    if s.len() == 0 {
        s
    } else if s.last()@ == e {
        filter_entries(s.drop_last(), e)
    } else {
        filter_entries(s.drop_last(), e).push(s.last())
    }
}

pub proof fn lemma_filter_entries_set(s: Seq<RoutineEntry>, e: (int, Seq<char>))
    ensures
        entries_set(filter_entries(s, e)) == entries_set(s).remove(e),
    decreases s.len(),
{
    if s.len() == 0 {
        assert(entries_set(s).remove(e) =~= entries_set(s));
    } else {
        let d = s.drop_last();
        let last = s.last();
        lemma_filter_entries_set(d, e);
        if last@ == e {
            assert(entries_set(s).remove(e) =~= entries_set(d).remove(e));
        } else {
            let f = filter_entries(d, e);
            assert(f.push(last).drop_last() =~= f);
            assert(f.push(last).last() == last);
            assert(entries_set(d).remove(e).insert(last@) =~= entries_set(s).remove(e));
        }
    }
}

impl MemoryDatabase {
    /// Every stored mark of a listed routine, once each.
    #[verifier::spinoff_prover]
    #[verifier::rlimit(50)]
    fn collect_entries(&self, routine_ids: &Vec<String>) -> (v: Vec<RoutineEntry>)
        ensures
            entries_listing_ok(self.entries(), routine_ids@, v@),
    {
        let ghost rows = self.entries_tab@;
        let ghost eset = entries_set(rows);
        let n = self.entries_tab.len();
        let mut acc: Vec<RoutineEntry> = Vec::new();
        let mut i: usize = 0;
        while i < n
            invariant
                n == rows.len(),
                rows == self.entries_tab@,
                eset == entries_set(rows),
                0 <= i <= n,
                forall|a: int| 0 <= a < acc@.len() ==> eset.contains((#[trigger] acc@[a])@)
                    && in_str_list(routine_ids@, acc@[a]@.1),
                forall|a: int, b: int| 0 <= a < b < acc@.len() ==> (#[trigger] acc@[a])@ != (
                #[trigger] acc@[b])@,
                forall|e: (int, Seq<char>)|
                    (exists|j: int| 0 <= j < i && (#[trigger] rows[j])@ == e) && in_str_list(
                        routine_ids@,
                        e.1,
                    ) ==> exists|a: int| 0 <= a < acc@.len() && (#[trigger] acc@[a])@ == e,
            decreases n - i,
        {
            let ghost old_acc = acc@;
            let listed = contains_str(routine_ids, self.entries_tab[i].routine_id.as_str());
            if listed {
                let already = entry_in_list(&acc, self.entries_tab[i].date, self.entries_tab[i].routine_id.as_str());
                if !already {
                    let row = RoutineEntry {
                        date: self.entries_tab[i].date,
                        routine_id: self.entries_tab[i].routine_id.clone(),
                    };
                    proof {
                        assert(row =~= rows[i as int]);
                        lemma_entries_set_contains(rows, rows[i as int]@);
                    }
                    acc.push(row);
                    proof {
                        assert(forall|a: int| 0 <= a < old_acc.len() ==> acc@[a] == old_acc[a]);
                        let j0 = choose|j: int| 0 <= j < routine_ids@.len() && (#[trigger] routine_ids@[j])@ == rows[i as int]@.1;
                        assert(acc@[acc@.len() - 1]@ == rows[i as int]@);
                    }
                }
            }
            proof {
                assert forall|e: (int, Seq<char>)|
                    (exists|j: int| 0 <= j < i + 1 && (#[trigger] rows[j])@ == e) && in_str_list(
                        routine_ids@,
                        e.1,
                    ) implies exists|a: int| 0 <= a < acc@.len() && (#[trigger] acc@[a])@ == e by {
                    let j = choose|j: int| 0 <= j < i + 1 && (#[trigger] rows[j])@ == e;
                    if j < i {
                        let a = choose|a: int| 0 <= a < old_acc.len() && (#[trigger] old_acc[a])@
                            == e;
                        assert(acc@[a]@ == e);
                    } else {
                        assert(e == rows[i as int]@);
                    }
                }
            }
            i = i + 1;
        }
        proof {
            assert forall|e: (int, Seq<char>)|
                #[trigger] eset.contains(e) && (exists|j: int|
                    0 <= j < routine_ids@.len() && (#[trigger] routine_ids@[j])@ == e.1) implies
                exists|a: int| 0 <= a < acc@.len() && (#[trigger] acc@[a])@ == e by {
                lemma_entries_set_contains(rows, e);
                assert(in_str_list(routine_ids@, e.1));
                assert((exists|j: int| 0 <= j < n && (#[trigger] rows[j])@ == e) && in_str_list(
                    routine_ids@,
                    e.1,
                ));
            }
            assert forall|d: int, rid: Seq<char>| #[trigger] self.entries().contains((d, rid))
                && in_str_list(routine_ids@, rid) implies exists|i2: int|
                0 <= i2 < acc@.len() && (#[trigger] acc@[i2])@ == (d, rid) by {
                let e = (d, rid);
                lemma_entries_set_contains(rows, e);
                assert((exists|j: int| 0 <= j < n && (#[trigger] rows[j])@ == e) && in_str_list(
                    routine_ids@,
                    e.1,
                ));
            }
        }
        acc
    }
}

impl RoutineEntryDataLayer for MemoryDatabase {
    fn get_entries(&self, routine_ids: &Vec<String>) -> (r: ApiResult<Vec<RoutineEntry>>) {
        Ok(self.collect_entries(routine_ids))
    }

    fn toggle_entries(&mut self, date: i64, routine_id: &str) -> (r: ApiResult<bool>) {
        let present = entry_in_list(&self.entries_tab, date, routine_id);
        proof {
            lemma_entries_set_contains(self.entries_tab@, (date as int, routine_id@));
        }
        if present {
            match self.delete_entry(date, routine_id) {
                Ok(_) => Ok(true),
                Err(e) => Err(e),
            }
        } else {
            match self.create_entry(date, routine_id) {
                Ok(_) => Ok(false),
                Err(e) => Err(e),
            }
        }
    }

    fn create_entry(&mut self, date: i64, routine_id: &str) -> (r: ApiResult<()>) {
        let ghost rows = self.entries_tab@;
        let row = RoutineEntry { date, routine_id: routine_id.to_owned() };
        self.entries_tab.push(row);
        proof {
            assert(self.entries_tab@.drop_last() =~= rows);
        }
        Ok(())
    }

    fn delete_entry(&mut self, date: i64, routine_id: &str) -> (r: ApiResult<()>) {
        let ghost rows = self.entries_tab@;
        let ghost e = (date as int, routine_id@);
        let mut kept: Vec<RoutineEntry> = Vec::new();
        let mut i: usize = 0;
        let n = self.entries_tab.len();
        proof {
            assert(rows.subrange(0, 0) =~= Seq::<RoutineEntry>::empty());
            assert(kept@ =~= filter_entries(rows.subrange(0, 0), e));
        }
        while i < n
            invariant
                n == rows.len(),
                rows == self.entries_tab@,
                *self == *old(self),
                e == (date as int, routine_id@),
                0 <= i <= n,
                kept@ == filter_entries(rows.subrange(0, i as int), e),
            decreases n - i,
        {
            let keep = !(self.entries_tab[i].date == date && str_eq(
                self.entries_tab[i].routine_id.as_str(),
                routine_id,
            ));
            proof {
                let pre = rows.subrange(0, i as int);
                let cur = rows.subrange(0, i as int + 1);
                assert(cur.drop_last() =~= pre);
                assert(cur.last() == rows[i as int]);
            }
            if keep {
                let row = RoutineEntry {
                    date: self.entries_tab[i].date,
                    routine_id: self.entries_tab[i].routine_id.clone(),
                };
                proof {
                    assert(row =~= rows[i as int]);
                }
                kept.push(row);
            }
            proof {
                assert(kept@ =~= filter_entries(rows.subrange(0, i as int + 1), e));
            }
            i = i + 1;
        }
        proof {
            assert(rows.subrange(0, n as int) =~= rows);
            lemma_filter_entries_set(rows, e);
        }
        self.entries_tab = kept;
        Ok(())
    }
}

/// Scans entry rows for the mark `(date, routine_id)`.
fn entry_in_list(v: &Vec<RoutineEntry>, date: i64, routine_id: &str) -> (r: bool)
    ensures
        r <==> exists|j: int| 0 <= j < v@.len() && (#[trigger] v@[j])@ == (date as int, routine_id@),
{
    let mut i: usize = 0;
    let n = v.len();
    while i < n
        invariant
            n == v@.len(),
            0 <= i <= n,
            forall|j: int| 0 <= j < i ==> (#[trigger] v@[j])@ != (date as int, routine_id@),
        decreases n - i,
    {
        if v[i].date == date && str_eq(v[i].routine_id.as_str(), routine_id) {
            assert(v@[i as int]@ == (date as int, routine_id@));
            return true;
        }
        i = i + 1;
    }
    false
}

impl DataLayer for MemoryDatabase {

}

} // verus!
