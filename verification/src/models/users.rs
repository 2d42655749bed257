//! Users and the identity-reconciliation capability.
//!
//! A user is created on the first login of a third-party identity; the
//! account link ties `(provider, subject)` to the local user id, and at
//! most one local user exists per link key.

use crate::auth::UserResponse;
use crate::codec::{
    enc_i64, enc_opt_i64, enc_str, iabs, lemma_fixed_digits_len, lemma_pow10_8,
    lemma_sp_parse_i64_encode,
    lemma_sp_parse_opt_i64_encode, lemma_sp_parse_str_encode, opt_i64_view, parse_i64_field,
    parse_opt_i64_field, parse_str_field, push_i64_field, push_opt_i64_field,
    push_str_field, sp_parse_i64, sp_parse_opt_i64, sp_parse_str,
};
use crate::error::ApiResult;
use vstd::prelude::*;

verus! {

/// Ghost form of a user record.
pub struct UserView {
    pub id: Seq<char>,
    pub name: Seq<char>,
    pub created_at: int,
    pub updated_at: Option<int>,
}

impl UserView {
    pub open spec fn wf(self) -> bool {
        &&& self.id.len() < 1000000
        &&& self.name.len() < 1000000
        &&& i64::MIN <= self.created_at <= i64::MAX
        &&& match self.updated_at {
            Some(x) => i64::MIN <= x <= i64::MAX,
            None => true,
        }
    }
}

/// A local user record.
#[derive(Debug, PartialEq)]
#[verifier::ext_equal]
pub struct User {
    pub id: String,
    pub name: String,
    pub created_at: i64,
    pub updated_at: Option<i64>,
}

impl View for User {
    type V = UserView;

    open spec fn view(&self) -> UserView {
        UserView {
            id: self.id@,
            name: self.name@,
            created_at: self.created_at as int,
            updated_at: opt_i64_view(self.updated_at),
        }
    }
}

/// The stored text form of a user, used for the session's `user` entry.
pub open spec fn enc_user(v: UserView) -> Seq<char> {
    enc_str(v.id) + enc_str(v.name) + enc_i64(v.created_at) + enc_opt_i64(v.updated_at)
}

/// Reading a stored user back, requiring full consumption.
pub open spec fn sp_decode_user(s: Seq<char>) -> Option<UserView> {
    match sp_parse_str(s, 0) {
        Some((id, p1)) => match sp_parse_str(s, p1) {
            Some((name, p2)) => match sp_parse_i64(s, p2) {
                Some((created_at, p3)) => match sp_parse_opt_i64(s, p3) {
                    Some((updated_at, p4)) => if p4 == s.len() {
                        Some(UserView { id, name, created_at, updated_at })
                    } else {
                        None
                    },
                    None => None,
                },
                None => None,
            },
            None => None,
        },
        None => None,
    }
}

/// Serializes a user record.
pub fn encode_user(u: &User) -> (r: String)
    requires
        u@.wf(),
    ensures
        r@ == enc_user(u@),
{
    proof {
        lemma_pow10_8();
    }
    let mut out = String::new();
    push_str_field(&mut out, u.id.as_str());
    push_str_field(&mut out, u.name.as_str());
    push_i64_field(&mut out, u.created_at);
    push_opt_i64_field(&mut out, u.updated_at);
    proof {
        assert(out@ =~= enc_user(u@));
    }
    out
}

/// Deserializes a user record; anything corrupt yields `None`.
pub fn decode_user(s: &str) -> (r: Option<User>)
    ensures
        match r {
            Some(u) => sp_decode_user(s@) == Some(u@),
            None => sp_decode_user(s@) is None,
        },
{
    let slen = s.unicode_len();
    let (id, p1) = match parse_str_field(s, slen, 0) {
        Some(x) => x,
        None => {
            return None;
        },
    };
    let (name, p2) = match parse_str_field(s, slen, p1) {
        Some(x) => x,
        None => {
            return None;
        },
    };
    let (created_at, p3) = match parse_i64_field(s, slen, p2) {
        Some(x) => x,
        None => {
            return None;
        },
    };
    let (updated_at, p4) = match parse_opt_i64_field(s, slen, p3) {
        Some(x) => x,
        None => {
            return None;
        },
    };
    if p4 != slen {
        return None;
    }
    Some(User { id, name, created_at, updated_at })
}

/// Writing a well-formed user and reading it back is lossless.
pub proof fn lemma_user_round_trip(v: UserView)
    requires
        v.wf(),
    ensures
        sp_decode_user(enc_user(v)) == Some(v),
{
    lemma_pow10_8();
    let s = enc_user(v);
    let e1 = enc_str(v.id);
    let e2 = enc_str(v.name);
    let e3 = enc_i64(v.created_at);
    let e4 = enc_opt_i64(v.updated_at);
    lemma_fixed_digits_len(v.id.len(), 8);
    lemma_fixed_digits_len(v.name.len(), 8);
    lemma_fixed_digits_len(iabs(v.created_at), 19);
    let p1 = e1.len() as int;
    let p2 = p1 + e2.len();
    let p3 = p2 + e3.len();
    let p4 = p3 + e4.len();
    assert(s =~= e1 + e2 + e3 + e4);
    assert(s.len() == p4);
    assert(s.subrange(0, p1) =~= e1);
    lemma_sp_parse_str_encode(s, 0, v.id);
    assert(s.subrange(p1, p2) =~= e2) by {
        assert(forall|i: int| 0 <= i < e2.len() ==> s[p1 + i] == #[trigger] e2[i]);
    }
    lemma_sp_parse_str_encode(s, p1, v.name);
    assert(s.subrange(p2, p3) =~= e3) by {
        assert(forall|i: int| 0 <= i < e3.len() ==> s[p2 + i] == #[trigger] e3[i]);
    }
    lemma_sp_parse_i64_encode(s, p2, v.created_at as i64);
    assert(s.subrange(p3, p4) =~= e4) by {
        assert(forall|i: int| 0 <= i < e4.len() ==> s[p3 + i] == #[trigger] e4[i]);
    }
    match v.updated_at {
        None => {
            lemma_sp_parse_opt_i64_encode(s, p3, None);
        },
        Some(x) => {
            lemma_sp_parse_opt_i64_encode(s, p3, Some(x as i64));
        },
    }
}

/// The provider name under which third-party subjects are linked.
pub open spec fn provider_google() -> Seq<char> {
    "google"@
}

/// Well-formedness of the user store: records are keyed by their own id,
/// every record is well formed, and every account link points at an
/// existing user.
pub open spec fn user_store_wf(
    users: Map<Seq<char>, UserView>,
    accounts: Map<(Seq<char>, Seq<char>), Seq<char>>,
) -> bool {
    &&& forall|k: Seq<char>| #[trigger] users.contains_key(k) ==> users[k].id == k && users[k].wf()
    &&& forall|l: (Seq<char>, Seq<char>)| #[trigger] accounts.contains_key(l) ==> users.contains_key(
        accounts[l],
    )
}

/// After the first login of an identity creates its user row and link
/// row, the link key is present and bound to that one user, so every
/// later reconciliation of the same `(provider, subject)` — the store
/// serializes them — takes the found branch of `upsert_user`, returns the
/// linked user, and changes nothing: exactly one user row and exactly one
/// link row exist for the identity, however many logins are attempted.
pub proof fn lemma_reconcile_converges(
    users: Map<Seq<char>, UserView>,
    accounts: Map<(Seq<char>, Seq<char>), Seq<char>>,
    key: (Seq<char>, Seq<char>),
    u: UserView,
)
    ensures
        accounts.insert(key, u.id).contains_key(key),
        accounts.insert(key, u.id)[key] == u.id,
        users.insert(u.id, u).contains_key(u.id),
        users.insert(u.id, u)[u.id] == u,
        forall|k2: (Seq<char>, Seq<char>)| k2 != key ==> accounts.insert(key, u.id).contains_key(
            k2,
        ) == #[trigger] accounts.contains_key(k2),
{
}

/// Identity capability: lookup, reconciliation, and removal of users.
pub trait UserDataLayer: crate::database::StoreModel {
    fn get_user(&self, id: &str) -> (r: ApiResult<Option<User>>)
        ensures
            match r {
                Ok(Some(u)) => self.users().contains_key(id@) && u@ == self.users()[id@],
                Ok(None) => !self.users().contains_key(id@),
                Err(_) => true,
            },
    ;

    /// Reconciliation: an existing link returns its user with nothing
    /// changed; an unknown link creates exactly one user row and exactly
    /// one link row, atomically.
    fn upsert_user(&mut self, response: &UserResponse) -> (r: ApiResult<User>)
        requires
            user_store_wf(old(self).users(), old(self).accounts()),
            response.wf(),
        ensures
            user_store_wf(final(self).users(), final(self).accounts()),
            crate::database::only_identity_changed(*old(self), *final(self)),
            match r {
                Ok(u) => {
                    let key = (provider_google(), response.sub@);
                    if old(self).accounts().contains_key(key) {
                        &&& final(self).users() == old(self).users()
                        &&& final(self).accounts() == old(self).accounts()
                        &&& u@ == old(self).users()[old(self).accounts()[key]]
                    } else {
                        &&& !old(self).users().contains_key(u@.id)
                        &&& u@.name == response.name@
                        &&& u@.updated_at is None
                        &&& final(self).users() == old(self).users().insert(u@.id, u@)
                        &&& final(self).accounts() == old(self).accounts().insert(key, u@.id)
                    }
                },
                Err(_) => final(self).users() == old(self).users() && final(self).accounts()
                    == old(self).accounts(),
            },
    ;

    /// Removes the user record alone; account links are left in place, so
    /// a link to the removed user stays until its identity is recreated.
    fn delete_user(&mut self, id: &str) -> (r: ApiResult<()>)
        ensures
            crate::database::only_identity_changed(*old(self), *final(self)),
            match r {
                Ok(_) => final(self).users() == old(self).users().remove(id@)
                    && final(self).accounts() == old(self).accounts(),
                Err(_) => final(self).users() == old(self).users() && final(self).accounts()
                    == old(self).accounts(),
            },
    ;
}

} // verus!
