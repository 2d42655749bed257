//! The root route's decisions: whether an invite parameter earns a
//! sign-up offer, and the day-by-day completion grid of a routine.

use crate::database::DataLayer;
use crate::models::entries::RoutineEntry;
use crate::models::invites::{Invite, InviteDataLayer, InviteStatus};
use crate::templates::login::LoginInvite;
use vstd::prelude::*;

verus! {

/// Days shown in a routine's grid.
pub const NUM_ENTRIES: i64 = 60;

/// Query parameters of the root route.
pub struct QueryParams {
    pub invite: Option<String>,
}

/// The canonical hyphenated form of an identifier, or nothing when the
/// string is not one.  This is a fixed function of the string alone; its
/// definition lives outside this crate.
pub uninterp spec fn canonical_uuid(s: Seq<char>) -> Option<Seq<char>>;

/// Relies on `uuid::Uuid::parse_str` and the hyphenated display form: the
/// parse accepts exactly the identifier formats the crate recognizes, and
/// the result is a function of the string alone.
#[verifier::external_body]
fn parse_uuid(s: &str) -> (r: Option<String>)
    ensures
        match r {
            Some(c) => canonical_uuid(s@) == Some(c@),
            None => canonical_uuid(s@) is None,
        },
{
    match uuid::Uuid::parse_str(s) {
        Ok(u) => Some(u.to_string()),
        Err(_) => None,
    }
}

/// The offer a fetched invite row earns: a row still in the `Sent` state
/// earns the sign-up offer under its own id, any other row is named spent,
/// and no row offers nothing.  This fixes the decision for every value the
/// store can answer with.
pub fn invite_offer(fetched: Option<Invite>) -> (r: LoginInvite)
    ensures
        match fetched {
            None => r matches LoginInvite::NoInvite,
            Some(inv) => if inv.status == InviteStatus::Sent {
                r matches LoginInvite::Invite(i) && i@ == inv@.id
            } else {
                r matches LoginInvite::InvalidInvite
            },
        },
{
    match fetched {
        None => LoginInvite::NoInvite,
        Some(inv) => {
            if inv.status == InviteStatus::Sent {
                LoginInvite::Invite(inv.id)
            } else {
                LoginInvite::InvalidInvite
            }
        },
    }
}

/// Resolves the optional invite parameter of an anonymous visit: only a
/// parseable identifier naming a stored invite still in the `Sent` state
/// earns a sign-up offer; a spent invite is named as such; anything else
/// offers nothing.  A store failure is also answered with no offer, as an
/// anonymous page can recover from nothing else — which is why the
/// positive direction is fixed by `invite_offer`, on the store's answer.
pub fn parse_invite<T: DataLayer>(invite: Option<String>, db: &T) -> (r: LoginInvite)
    ensures
        invite is None ==> r matches LoginInvite::NoInvite,
        (invite matches Some(s) && canonical_uuid(s@) is None) ==> r matches LoginInvite::NoInvite,
        match r {
            LoginInvite::Invite(i) => {
                &&& invite matches Some(s) && canonical_uuid(s@) == Some(i@)
                &&& db.invites().contains_key(i@)
                &&& db.invites()[i@].status == InviteStatus::Sent
            },
            LoginInvite::InvalidInvite => invite matches Some(s) && (exists|u: Seq<char>|
                canonical_uuid(s@) == Some(u) && #[trigger] db.invites().contains_key(u)
                    && db.invites()[u].status != InviteStatus::Sent),
            LoginInvite::NoInvite => true,
        },
{
    let s = match invite {
        None => {
            return LoginInvite::NoInvite;
        },
        Some(s) => s,
    };
    let id = match parse_uuid(s.as_str()) {
        None => {
            return LoginInvite::NoInvite;
        },
        Some(id) => id,
    };
    match db.get_invite(id.as_str()) {
        Err(_) => LoginInvite::NoInvite,
        Ok(fetched) => invite_offer(fetched),
    }
}

/// What the completion grid of a routine must be: one flag per day for the
/// `size` days ending yesterday, each flag saying whether a stored entry
/// marks that routine on that day.
pub open spec fn entry_table_ok(
    entries: Seq<RoutineEntry>,
    routine: Seq<char>,
    size: int,
    today: int,
    r: Seq<(i64, bool)>,
) -> bool {
    &&& r.len() == size
    &&& forall|i: int| 0 <= i < size ==> (#[trigger] r[i]).0 == today - size + i
    &&& forall|i: int| 0 <= i < size ==> ((#[trigger] r[i]).1 <==> exists|j: int|
        0 <= j < entries.len() && (#[trigger] entries[j])@ == (today - size + i, routine))
}

/// The grid for the `size` days before `today`.
pub fn entry_table_from(routine: &str, entries: &Vec<RoutineEntry>, size: i64, today: i64) -> (r:
    Vec<(i64, bool)>)
    requires
        0 <= size <= 100000,
        -4000000000 <= today <= 4000000000,
    ensures
        entry_table_ok(entries@, routine@, size as int, today as int, r@),
{
    let mut out: Vec<(i64, bool)> = Vec::new();
    let mut i: i64 = 0;
    while i < size
        invariant
            0 <= size <= 100000,
            -4000000000 <= today <= 4000000000,
            0 <= i <= size,
            out@.len() == i,
            forall|k: int| 0 <= k < i ==> (#[trigger] out@[k]).0 == today - size + k,
            forall|k: int| 0 <= k < i ==> ((#[trigger] out@[k]).1 <==> exists|j: int|
                0 <= j < entries@.len() && (#[trigger] entries@[j])@ == (
                    today - size + k,
                    routine@,
                )),
        decreases size - i,
    {
        let date = today - size + i;
        let marked = grid_mark(entries, date, routine);
        out.push((date, marked));
        i = i + 1;
    }
    out
}

/// Whether an entry marks `routine` on `date`.
fn grid_mark(entries: &Vec<RoutineEntry>, date: i64, routine: &str) -> (r: bool)
    ensures
        r <==> exists|j: int| 0 <= j < entries@.len() && (#[trigger] entries@[j])@ == (
            date as int,
            routine@,
        ),
{
    let mut j: usize = 0;
    let n = entries.len();
    while j < n
        invariant
            n == entries@.len(),
            0 <= j <= n,
            forall|k: int| 0 <= k < j ==> (#[trigger] entries@[k])@ != (date as int, routine@),
        decreases n - j,
    {
        if entries[j].date == date && crate::codec::str_eq(entries[j].routine_id.as_str(), routine)
        {
            assert(entries@[j as int]@ == (date as int, routine@));
            return true;
        }
        j = j + 1;
    }
    false
}

/// The grid ending at the clock's current day.
pub fn build_entry_table(routine: &str, entries: &Vec<RoutineEntry>, size: i64) -> (r: Vec<
    (i64, bool),
>)
    requires
        0 <= size <= 100000,
    ensures
        exists|today: int| entry_table_ok(entries@, routine@, size as int, today, r@),
{
    let today = today_julian();
    let r = entry_table_from(routine, entries, size, today as i64);
    proof {
        assert(entry_table_ok(entries@, routine@, size as int, today as int, r@));
    }
    r
}

/// Relies on `time::OffsetDateTime::now_utc` and `Date::to_julian_day`:
/// the clock's current date as a Julian day number.
#[verifier::external_body]
fn today_julian() -> (r: i32) {
    time::OffsetDateTime::now_utc().date().to_julian_day()
}

} // verus!
