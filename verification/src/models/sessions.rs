//! Sessions: the server-held record of an authenticated browser context,
//! and the storage capability it is persisted through.
//!
//! The cookie held by the client is only a capability reference: an opaque
//! value from which the storage key is derived by a cryptographic hash.
//! The payload itself never leaves the store.

use crate::codec::{
    enc_opt_i64, enc_pairs, enc_str, fixed_digits, lemma_fixed_digits_len, lemma_pow10_19,
    lemma_pow10_8, lemma_sp_parse_digits_encode, lemma_sp_parse_opt_i64_encode,
    lemma_sp_parse_pairs_encode, lemma_sp_parse_str_encode, opt_i64_view, pairs_view,
    parse_fixed_digits, parse_opt_i64_field, parse_pairs, parse_str_field, pow10,
    push_fixed_digits, push_opt_i64_field, push_pairs, push_str_field, sp_parse_digits,
    sp_parse_opt_i64, sp_parse_pairs, sp_parse_str, str_eq, wf_pairs,
};
use crate::error::ApiResult;
use vstd::prelude::*;

verus! {

/// The session id derived from a cookie value, or nothing when the cookie
/// value is not in the recognized format.  This is a fixed function of the
/// cookie value alone; its definition lives outside this crate.
pub uninterp spec fn cookie_session_id(cookie: Seq<char>) -> Option<Seq<char>>;

/// Relies on `async_session::Session::id_from_cookie_value`: the id is the
/// base64 form of a BLAKE3 digest of the base64-decoded cookie value, a
/// function of the cookie value alone; a cookie that does not decode as
/// base64 yields no id.
#[verifier::external_body]
pub fn session_id_of_cookie(cookie: &str) -> (r: Option<String>)
    ensures
        match r {
            Some(id) => cookie_session_id(cookie@) == Some(id@),
            None => cookie_session_id(cookie@) is None,
        },
{
    match async_session::Session::id_from_cookie_value(cookie) {
        Ok(id) => Some(id),
        Err(_) => None,
    }
}

/// Relies on `async_session::Session::new`: it draws a fresh random cookie
/// value — always present on a fresh session — and computes the matching
/// id from it with `id_from_cookie_value`, so the returned pair
/// `(id, cookie)` satisfies the hashing relation; the id is the base64
/// form of a 32-byte digest, 44 characters.
#[verifier::external_body]
pub fn fresh_session_identity() -> (r: Option<(String, String)>)
    ensures
        r is Some,
        match r {
            Some(p) => cookie_session_id(p.1@) == Some(p.0@) && p.0@.len() == 44,
            None => true,
        },
{
    let session = async_session::Session::new();
    let id = session.id().to_owned();
    match session.into_cookie_value() {
        Some(cookie) => Some((id, cookie)),
        None => None,
    }
}

/// Ghost form of a session: identifier, optional expiry (seconds since the
/// epoch), and named entries in insertion order.
#[verifier::ext_equal]
pub struct SessionView {
    pub id: Seq<char>,
    pub expiry: Option<int>,
    pub entries: Seq<(Seq<char>, Seq<char>)>,
}

impl SessionView {
    /// Every string short enough for its length prefix, and the expiry
    /// within machine range.
    pub open spec fn wf(self) -> bool {
        &&& self.id.len() < pow10(8)
        &&& self.entries.len() < pow10(8)
        &&& wf_pairs(self.entries)
        &&& match self.expiry {
            Some(x) => i64::MIN <= x <= i64::MAX,
            None => true,
        }
    }
}

/// A session.  The cookie value is carried only until it is handed to the
/// client; it is never persisted and is not part of the session's value.
pub struct Session {
    pub id: String,
    pub cookie: Option<String>,
    pub expiry: Option<i64>,
    pub entries: Vec<(String, String)>,
}

impl View for Session {
    type V = SessionView;

    open spec fn view(&self) -> SessionView {
        SessionView {
            id: self.id@,
            expiry: opt_i64_view(self.expiry),
            entries: pairs_view(self.entries@),
        }
    }
}

impl Session {
    /// The carried cookie value, if any, hashes back to this session's id.
    pub open spec fn cookie_ok(self) -> bool {
        match self.cookie {
            Some(c) => cookie_session_id(c@) == Some(self@.id),
            None => true,
        }
    }

    pub fn id(&self) -> (r: &str)
        ensures
            r@ == self@.id,
    {
        self.id.as_str()
    }

    pub fn expiry(&self) -> (r: Option<i64>)
        ensures
            opt_i64_view(r) == self@.expiry,
    {
        self.expiry
    }

    /// Hands out the cookie value, which can be given out only once.
    pub fn into_cookie_value(self) -> (r: Option<String>)
        ensures
            match r {
                Some(c) => self.cookie == Some(c),
                None => self.cookie is None,
            },
    {
        self.cookie
    }

    /// Stores `value` under `key`, replacing an existing entry of that key.
    pub fn insert(&mut self, key: &str, value: &str)
        requires
            old(self)@.wf(),
            key@.len() < pow10(8),
            value@.len() < pow10(8),
            old(self)@.entries.len() + 1 < pow10(8),
        ensures
            final(self)@.id == old(self)@.id,
            final(self)@.expiry == old(self)@.expiry,
            final(self).cookie == old(self).cookie,
            final(self)@.entries == upsert_pairs(old(self)@.entries, key@, value@),
            final(self)@.wf(),
    {
        let ghost ps = pairs_view(self.entries@);
        let n = self.entries.len();
        let mut i: usize = 0;
        while i < n
            invariant
                *self == *old(self),
                n == self.entries.len(),
                0 <= i <= n,
                ps == pairs_view(self.entries@),
                old(self)@.wf(),
                key@.len() < pow10(8),
                value@.len() < pow10(8),
                old(self)@.entries.len() + 1 < pow10(8),
                forall|j: int| 0 <= j < i ==> (#[trigger] ps[j]).0 != key@,
            decreases n - i,
        {
            if str_eq(self.entries[i].0.as_str(), key) {
                proof {
                    assert(ps[i as int].0 == key@);
                    lemma_upsert_found(ps, key@, value@, i as int);
                }
                self.entries.remove(i);
                self.entries.insert(i, (key.to_owned(), value.to_owned()));
                proof {
                    assert(pairs_view(self.entries@) =~= ps.update(i as int, (key@, value@)));
                    lemma_upsert_preserves_wf(old(self)@.entries, key@, value@);
                }
                return;
            }
            i = i + 1;
        }
        proof {
            lemma_upsert_absent(ps, key@, value@);
        }
        self.entries.push((key.to_owned(), value.to_owned()));
        proof {
            assert(pairs_view(self.entries@) =~= ps.push((key@, value@)));
            lemma_upsert_preserves_wf(old(self)@.entries, key@, value@);
        }
    }

    /// Looks up the first entry stored under `key`.
    pub fn get(&self, key: &str) -> (r: Option<String>)
        ensures
            match r {
                Some(v) => lookup_pairs(self@.entries, key@) == Some(v@),
                None => lookup_pairs(self@.entries, key@) is None,
            },
    {
        let ghost ps = pairs_view(self.entries@);
        let n = self.entries.len();
        let mut i: usize = 0;
        proof {
            assert(ps.skip(0) =~= ps);
        }
        while i < n
            invariant
                n == self.entries.len(),
                0 <= i <= n,
                ps == pairs_view(self.entries@),
                lookup_pairs(ps, key@) == lookup_pairs(ps.skip(i as int), key@),
            decreases n - i,
        {
            proof {
                assert(ps.skip(i as int)[0] == ps[i as int]);
            }
            if str_eq(self.entries[i].0.as_str(), key) {
                return Some(self.entries[i].1.clone());
            }
            proof {
                assert(ps.skip(i as int).drop_first() =~= ps.skip(i as int + 1));
            }
            i = i + 1;
        }
        proof {
            assert(ps.skip(n as int) =~= Seq::<(Seq<char>, Seq<char>)>::empty());
        }
        None
    }
}

/// A fresh, empty session with a random identity.
pub fn new_session() -> (r: Option<Session>)
    ensures
        r is Some,
        match r {
            Some(s) => {
                &&& s@.wf()
                &&& s.cookie_ok()
                &&& s.cookie is Some
                &&& s@.entries.len() == 0
                &&& s@.expiry is None
            },
            None => true,
        },
{
    proof {
        lemma_pow10_8();
    }
    match fresh_session_identity() {
        Some((id, cookie)) => {
            let s = Session { id, cookie: Some(cookie), expiry: None, entries: Vec::new() };
            proof {
                assert(s@.entries =~= Seq::<(Seq<char>, Seq<char>)>::empty());
            }
            Some(s)
        },
        None => None,
    }
}

/// Replace the first entry of `k`, or append one.
pub open spec fn upsert_pairs(
    ps: Seq<(Seq<char>, Seq<char>)>,
    k: Seq<char>,
    v: Seq<char>,
) -> Seq<(Seq<char>, Seq<char>)>
    decreases ps.len(),
{
    if ps.len() == 0 {
        seq![(k, v)]
    } else if ps[0].0 == k {
        seq![(k, v)] + ps.drop_first()
    } else {
        seq![ps[0]] + upsert_pairs(ps.drop_first(), k, v)
    }
}

/// First value stored under `k`.
pub open spec fn lookup_pairs(ps: Seq<(Seq<char>, Seq<char>)>, k: Seq<char>) -> Option<Seq<char>>
    decreases ps.len(),
{
    if ps.len() == 0 {
        None
    } else if ps[0].0 == k {
        Some(ps[0].1)
    } else {
        lookup_pairs(ps.drop_first(), k)
    }
}

pub proof fn lemma_upsert_found(ps: Seq<(Seq<char>, Seq<char>)>, k: Seq<char>, v: Seq<char>, i: int)
    requires
        0 <= i < ps.len(),
        ps[i].0 == k,
        forall|j: int| 0 <= j < i ==> (#[trigger] ps[j]).0 != k,
    ensures
        upsert_pairs(ps, k, v) == ps.update(i, (k, v)),
    decreases i,
{
    if i == 0 {
        assert(seq![(k, v)] + ps.drop_first() =~= ps.update(0, (k, v)));
    } else {
        let rest = ps.drop_first();
        assert(forall|j: int| 0 <= j < i - 1 ==> (#[trigger] rest[j]).0 != k);
        lemma_upsert_found(rest, k, v, i - 1);
        assert(seq![ps[0]] + rest.update(i - 1, (k, v)) =~= ps.update(i, (k, v)));
    }
}

pub proof fn lemma_upsert_absent(ps: Seq<(Seq<char>, Seq<char>)>, k: Seq<char>, v: Seq<char>)
    requires
        forall|j: int| 0 <= j < ps.len() ==> (#[trigger] ps[j]).0 != k,
    ensures
        upsert_pairs(ps, k, v) == ps.push((k, v)),
    decreases ps.len(),
{
    if ps.len() == 0 {
        assert(seq![(k, v)] =~= ps.push((k, v)));
    } else {
        let rest = ps.drop_first();
        assert(forall|j: int| 0 <= j < rest.len() ==> (#[trigger] rest[j]).0 != k);
        lemma_upsert_absent(rest, k, v);
        assert(seq![ps[0]] + rest.push((k, v)) =~= ps.push((k, v)));
    }
}

pub proof fn lemma_upsert_preserves_wf(ps: Seq<(Seq<char>, Seq<char>)>, k: Seq<char>, v: Seq<char>)
    requires
        wf_pairs(ps),
        k.len() < pow10(8),
        v.len() < pow10(8),
        ps.len() + 1 < pow10(8),
    ensures
        wf_pairs(upsert_pairs(ps, k, v)),
        upsert_pairs(ps, k, v).len() <= ps.len() + 1,
    decreases ps.len(),
{
    if ps.len() == 0 {
    } else if ps[0].0 == k {
        let r = seq![(k, v)] + ps.drop_first();
        assert(forall|j: int| 0 <= j < r.len() ==> (#[trigger] r[j]).0.len() < pow10(8) && r[j].1.len()
            < pow10(8)) by {
            assert(forall|j: int| 1 <= j < r.len() ==> r[j] == ps[j]);
        }
    } else {
        let rest = ps.drop_first();
        assert(wf_pairs(rest)) by {
            assert(forall|j: int| 0 <= j < rest.len() ==> #[trigger] rest[j] == ps[j + 1]);
        }
        lemma_upsert_preserves_wf(rest, k, v);
        let ur = upsert_pairs(rest, k, v);
        let r = seq![ps[0]] + ur;
        assert(forall|j: int| 0 <= j < r.len() ==> (#[trigger] r[j]).0.len() < pow10(8) && r[j].1.len()
            < pow10(8)) by {
            assert(forall|j: int| 1 <= j < r.len() ==> r[j] == ur[j - 1]);
        }
    }
}

/// The stored text form of a session.
pub open spec fn enc_session(v: SessionView) -> Seq<char> {
    enc_str(v.id) + enc_opt_i64(v.expiry) + fixed_digits(v.entries.len(), 8) + enc_pairs(v.entries)
}

/// Reading a stored text form back, requiring full consumption.
pub open spec fn sp_decode_session(s: Seq<char>) -> Option<SessionView> {
    match sp_parse_str(s, 0) {
        Some((id, p1)) => match sp_parse_opt_i64(s, p1) {
            Some((expiry, p2)) => match sp_parse_digits(s, p2, 8) {
                Some((k, p3)) => match sp_parse_pairs(s, p3, k) {
                    Some((entries, p4)) => if p4 == s.len() {
                        Some(SessionView { id, expiry, entries })
                    } else {
                        None
                    },
                    None => None,
                },
                None => None,
            },
            None => None,
        },
        None => None,
    }
}

/// Serializes a session payload; the cookie value is deliberately absent.
pub fn encode_session(s: &Session) -> (r: String)
    requires
        s@.wf(),
    ensures
        r@ == enc_session(s@),
{
    let mut out = String::new();
    push_str_field(&mut out, s.id.as_str());
    push_opt_i64_field(&mut out, s.expiry);
    proof {
        lemma_pow10_8();
        lemma_pow10_19();
    }
    push_fixed_digits(&mut out, s.entries.len() as u64, 8);
    push_pairs(&mut out, &s.entries);
    proof {
        assert(out@ =~= enc_session(s@));
    }
    out
}

/// Deserializes a session payload; anything corrupt yields `None`.
pub fn decode_session(s: &str) -> (r: Option<Session>)
    ensures
        match r {
            Some(sess) => sp_decode_session(s@) == Some(sess@) && sess.cookie is None,
            None => sp_decode_session(s@) is None,
        },
{
    let slen = s.unicode_len();
    let (id, p1) = match parse_str_field(s, slen, 0) {
        Some(x) => x,
        None => {
            return None;
        },
    };
    let (expiry, p2) = match parse_opt_i64_field(s, slen, p1) {
        Some(x) => x,
        None => {
            return None;
        },
    };
    let (k, p3) = match parse_fixed_digits(s, slen, p2, 8) {
        Some(x) => x,
        None => {
            return None;
        },
    };
    let (entries, p4) = match parse_pairs(s, slen, p3, k) {
        Some(x) => x,
        None => {
            return None;
        },
    };
    if p4 != slen {
        return None;
    }
    Some(Session { id, cookie: None, expiry, entries })
}

/// Storage capability for sessions: any store satisfying these contracts
/// behaves, from the caller's point of view, like a map from session ids to
/// stored payloads with optional expiry metadata.
pub trait SessionDataLayer: crate::database::StoreModel {
    fn get_session(&self, id: &str) -> (r: ApiResult<Option<String>>)
        ensures
            match r {
                Ok(Some(payload)) => self.sessions().contains_key(id@) && self.sessions()[id@].0
                    == payload@,
                Ok(None) => !self.sessions().contains_key(id@),
                Err(_) => true,
            },
    ;

    fn insert_session(&mut self, id: &str, session: &str, expiry: Option<i64>) -> (r: ApiResult<()>)
        ensures
            crate::database::only_sessions_changed(*old(self), *final(self)),
            match r {
                Ok(_) => final(self).sessions() == old(self).sessions().insert(
                    id@,
                    (session@, opt_i64_view(expiry)),
                ),
                Err(_) => final(self).sessions() == old(self).sessions(),
            },
    ;

    fn delete_session(&mut self, id: &str) -> (r: ApiResult<()>)
        ensures
            crate::database::only_sessions_changed(*old(self), *final(self)),
            match r {
                Ok(_) => final(self).sessions() == old(self).sessions().remove(id@),
                Err(_) => final(self).sessions() == old(self).sessions(),
            },
    ;

    fn delete_all_sessions(&mut self) -> (r: ApiResult<()>)
        ensures
            crate::database::only_sessions_changed(*old(self), *final(self)),
            match r {
                Ok(_) => final(self).sessions() == Map::<Seq<char>, (Seq<char>, Option<int>)>::empty(),
                Err(_) => final(self).sessions() == old(self).sessions(),
            },
    ;
}

/// Storing then reading back a well-formed session payload is lossless; the
/// decoder returns exactly the session that was encoded.
pub proof fn lemma_session_round_trip(v: SessionView)
    requires
        v.wf(),
    ensures
        sp_decode_session(enc_session(v)) == Some(v),
{
    let s = enc_session(v);
    let e1 = enc_str(v.id);
    let e2 = enc_opt_i64(v.expiry);
    let e3 = fixed_digits(v.entries.len(), 8);
    let e4 = enc_pairs(v.entries);
    lemma_fixed_digits_len(v.id.len(), 8);
    lemma_fixed_digits_len(v.entries.len(), 8);
    let p1 = e1.len() as int;
    let p2 = p1 + e2.len();
    let p3 = p2 + 8;
    let p4 = p3 + e4.len();
    assert(s =~= e1 + e2 + e3 + e4);
    assert(s.len() == p4);
    assert(s.subrange(0, p1) =~= e1);
    lemma_sp_parse_str_encode(s, 0, v.id);
    assert(s.subrange(p1, p2) =~= e2) by {
        assert(forall|i: int| 0 <= i < e2.len() ==> s[p1 + i] == #[trigger] e2[i]);
    }
    lemma_sp_parse_opt_expiry(s, p1, v);
    assert(s.subrange(p2, p3) =~= e3) by {
        assert(forall|i: int| 0 <= i < 8 ==> s[p2 + i] == #[trigger] e3[i]);
    }
    lemma_sp_parse_digits_encode(s, p2, v.entries.len(), 8);
    assert(s.subrange(p3, p4) =~= e4) by {
        assert(forall|i: int| 0 <= i < e4.len() ==> s[p3 + i] == #[trigger] e4[i]);
    }
    lemma_sp_parse_pairs_encode(s, p3, v.entries);
}

/// Helper: the expiry field parses back, whichever arm was written.
proof fn lemma_sp_parse_opt_expiry(s: Seq<char>, pos: int, v: SessionView)
    requires
        0 <= pos,
        v.wf(),
        pos + enc_opt_i64(v.expiry).len() <= s.len(),
        s.subrange(pos, pos + enc_opt_i64(v.expiry).len()) == enc_opt_i64(v.expiry),
    ensures
        sp_parse_opt_i64(s, pos) == Some((v.expiry, pos + enc_opt_i64(v.expiry).len())),
{
    match v.expiry {
        None => {
            lemma_sp_parse_opt_i64_encode(s, pos, None);
        },
        Some(x) => {
            lemma_sp_parse_opt_i64_encode(s, pos, Some(x as i64));
        },
    }
}

} // verus!
