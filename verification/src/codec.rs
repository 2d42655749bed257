//! Transport-safe text form of the session payload.
//!
//! Sessions are persisted as plain strings.  The encoding is fixed-width
//! length-prefixed: every string field is preceded by its character count
//! written as eight decimal digits, and numeric fields are written with a
//! fixed digit count, so decoding is unambiguous.  A corrupt or truncated
//! payload decodes to `None`, never to a wrong value and never to a panic.

use vstd::prelude::*;

verus! {

pub open spec fn pow10(w: nat) -> nat
    decreases w,
{
    if w == 0 {
        1
    } else {
        10 * pow10((w - 1) as nat)
    }
}

pub open spec fn digit_char(d: int) -> char {
    ((48 + d) as u8) as char
}

pub open spec fn is_digit_char(c: char) -> bool {
    48 <= c as int <= 57
}

pub open spec fn digit_val(c: char) -> int {
    c as int - 48
}

/// The decimal digits of `n % pow10(w)`, most significant first.
pub open spec fn fixed_digits(n: nat, w: nat) -> Seq<char>
    decreases w,
{
    if w == 0 {
        Seq::empty()
    } else {
        fixed_digits(n / 10, (w - 1) as nat).push(digit_char(n as int % 10))
    }
}

/// Value of a digit string, most significant digit first.
pub open spec fn digits_val(s: Seq<char>) -> int
    decreases s.len(),
{
    if s.len() == 0 {
        0
    } else {
        10 * digits_val(s.drop_last()) + digit_val(s.last())
    }
}

pub open spec fn all_digits(s: Seq<char>) -> bool {
    forall|i: int| 0 <= i < s.len() ==> is_digit_char(#[trigger] s[i])
}

pub proof fn lemma_pow10_pos(w: nat)
    ensures
        pow10(w) >= 1,
    decreases w,
{
    if w > 0 {
        lemma_pow10_pos((w - 1) as nat);
    }
}

pub proof fn lemma_fixed_digits_len(n: nat, w: nat)
    ensures
        fixed_digits(n, w).len() == w,
    decreases w,
{
    if w > 0 {
        lemma_fixed_digits_len(n / 10, (w - 1) as nat);
    }
}

pub proof fn lemma_fixed_digits_all_digits(n: nat, w: nat)
    ensures
        all_digits(fixed_digits(n, w)),
    decreases w,
{
    if w > 0 {
        lemma_fixed_digits_all_digits(n / 10, (w - 1) as nat);
        let s = fixed_digits(n, w);
        let p = fixed_digits(n / 10, (w - 1) as nat);
        lemma_fixed_digits_len(n / 10, (w - 1) as nat);
        assert forall|i: int| 0 <= i < s.len() implies is_digit_char(#[trigger] s[i]) by {
            if i < p.len() {
                assert(s[i] == p[i]);
            } else {
                assert(s[i] == digit_char(n as int % 10));
            }
        }
    }
}

pub proof fn lemma_digits_val_bound(s: Seq<char>)
    requires
        all_digits(s),
    ensures
        0 <= digits_val(s) < pow10(s.len()),
    decreases s.len(),
{
    if s.len() == 0 {
    } else {
        let p = s.drop_last();
        assert(all_digits(p)) by {
            assert(forall|i: int| 0 <= i < p.len() ==> p[i] == s[i]);
        }
        lemma_digits_val_bound(p);
        assert(is_digit_char(s.last())) by {
            assert(s[s.len() - 1] == s.last());
        }
        assert(pow10(s.len()) == 10 * pow10(p.len()));
    }
}

/// Encoding then evaluating the digits gives the value back, provided the
/// value fits in the chosen width.
pub proof fn lemma_digits_val_fixed(n: nat, w: nat)
    requires
        n < pow10(w),
    ensures
        digits_val(fixed_digits(n, w)) == n,
    decreases w,
{
    if w == 0 {
        assert(fixed_digits(n, w).len() == 0);
    } else {
        let p = fixed_digits(n / 10, (w - 1) as nat);
        let s = fixed_digits(n, w);
        lemma_fixed_digits_len(n / 10, (w - 1) as nat);
        assert(n / 10 < pow10((w - 1) as nat)) by {
            lemma_pow10_pos((w - 1) as nat);
            assert(pow10(w) == 10 * pow10((w - 1) as nat));
        }
        lemma_digits_val_fixed(n / 10, (w - 1) as nat);
        assert(s.drop_last() =~= p);
        assert(s.last() == digit_char(n as int % 10));
        assert(digit_val(digit_char(n as int % 10)) == n as int % 10);
        assert(digits_val(s) == 10 * (n as int / 10) + n as int % 10);
    }
}

/// Reading `w` digit characters at `pos`, most significant first.
pub open spec fn sp_parse_digits(s: Seq<char>, pos: int, w: int) -> Option<(int, int)> {
    if 0 <= pos && 0 <= w && pos + w <= s.len() && all_digits(s.subrange(pos, pos + w)) {
        Some((digits_val(s.subrange(pos, pos + w)), pos + w))
    } else {
        None
    }
}

/// Parsing a freshly written digit field recovers the value written.
pub proof fn lemma_sp_parse_digits_encode(s: Seq<char>, pos: int, n: nat, w: nat)
    requires
        0 <= pos,
        pos + w <= s.len(),
        n < pow10(w),
        s.subrange(pos, pos + w) == fixed_digits(n, w),
    ensures
        sp_parse_digits(s, pos, w as int) == Some((n as int, pos + w)),
{
    lemma_fixed_digits_all_digits(n, w);
    lemma_fixed_digits_len(n, w);
    lemma_digits_val_fixed(n, w);
}

/// Relies on `String::push`: appends one character.
#[verifier::external_body]
fn push_char(out: &mut String, c: char)
    ensures
        final(out)@ == old(out)@.push(c),
{
    out.push(c);
}

/// Appends the `w`-digit decimal form of `n`.
pub fn push_fixed_digits(out: &mut String, n: u64, w: usize)
    requires
        (n as nat) < pow10(w as nat),
        w <= 19,
    ensures
        final(out)@ == old(out)@ + fixed_digits(n as nat, w as nat),
    decreases w,
{
    if w == 0 {
        assert(final(out)@ =~= old(out)@ + fixed_digits(n as nat, 0));
    } else {
        proof {
            lemma_pow10_pos((w - 1) as nat);
            assert(pow10(w as nat) == 10 * pow10((w - 1) as nat));
        }
        push_fixed_digits(out, n / 10, w - 1);
        let d = n % 10;
        let c = ((48 + d as u8) as u8) as char;
        assert(c == digit_char(n as int % 10));
        push_char(out, c);
        assert(final(out)@ =~= old(out)@ + fixed_digits(n as nat, w as nat));
    }
}

/// Reads exactly `w` digits at `pos`; fails on anything that is not a digit
/// or does not fit in the input.
pub fn parse_fixed_digits(s: &str, slen: usize, pos: usize, w: usize) -> (r: Option<(u64, usize)>)
    requires
        slen == s@.len(),
        w <= 19,
    ensures
        match r {
            Some((n, p)) => sp_parse_digits(s@, pos as int, w as int) == Some((n as int, p as int))
                && p == pos + w,
            None => sp_parse_digits(s@, pos as int, w as int) is None,
        },
{
    if w > slen || pos > slen - w {
        return None;
    }
    let ghost whole = s@.subrange(pos as int, pos as int + w as int);
    let mut i: usize = 0;
    let mut val: u64 = 0;
    proof {
        assert(whole.subrange(0, 0) =~= Seq::<char>::empty());
    }
    while i < w
        invariant
            slen == s@.len(),
            w <= 19,
            pos + w <= slen,
            0 <= i <= w,
            whole == s@.subrange(pos as int, pos as int + w as int),
            all_digits(whole.subrange(0, i as int)),
            val as int == digits_val(whole.subrange(0, i as int)),
            (val as nat) < pow10(i as nat),
        decreases w - i,
    {
        let c = s.get_char(pos + i);
        let cv = c as u32;
        if cv < 48 || cv > 57 {
            proof {
                assert(whole[i as int] == c);
                assert(!is_digit_char(c));
                assert(!all_digits(whole));
            }
            return None;
        }
        let d = (cv - 48) as u64;
        proof {
            lemma_pow10_pos(i as nat);
            lemma_pow10_19();
            lemma_pow10_increases(i as nat, 19);
            assert(pow10((i + 1) as nat) == 10 * pow10(i as nat));
            lemma_pow10_increases((i + 1) as nat, 19);
        }
        let new_val = val * 10 + d;
        proof {
            let prev = whole.subrange(0, i as int);
            let cur = whole.subrange(0, i as int + 1);
            assert(cur.drop_last() =~= prev);
            assert(cur.last() == whole[i as int]);
            assert(is_digit_char(c));
            assert(all_digits(cur)) by {
                assert(forall|j: int| 0 <= j < cur.len() ==> cur[j] == whole[j]);
            }
            assert(digits_val(cur) == 10 * digits_val(prev) + digit_val(c));
        }
        val = new_val;
        i = i + 1;
    }
    proof {
        assert(whole.subrange(0, w as int) =~= whole);
    }
    Some((val, pos + w))
}

pub proof fn lemma_pow10_8()
    ensures
        pow10(8) == 100000000,
{
    reveal_with_fuel(pow10, 9);
}

pub proof fn lemma_pow10_19()
    ensures
        pow10(19) == 10000000000000000000,
{
    reveal_with_fuel(pow10, 20);
}

pub proof fn lemma_pow10_increases(a: nat, b: nat)
    requires
        a <= b,
    ensures
        pow10(a) <= pow10(b),
    decreases b,
{
    if a < b {
        lemma_pow10_increases(a, (b - 1) as nat);
        lemma_pow10_pos((b - 1) as nat);
        assert(pow10(b) == 10 * pow10((b - 1) as nat));
    }
}

/// A string field: its character count as eight digits, then its characters.
pub open spec fn enc_str(t: Seq<char>) -> Seq<char> {
    fixed_digits(t.len(), 8) + t
}

pub open spec fn sp_parse_str(s: Seq<char>, pos: int) -> Option<(Seq<char>, int)> {
    match sp_parse_digits(s, pos, 8) {
        Some((n, p)) => if p + n <= s.len() {
            Some((s.subrange(p, p + n), p + n))
        } else {
            None
        },
        None => None,
    }
}

/// Parsing a freshly written string field recovers the string written.
pub proof fn lemma_sp_parse_str_encode(s: Seq<char>, pos: int, t: Seq<char>)
    requires
        0 <= pos,
        t.len() < pow10(8),
        pos + 8 + t.len() <= s.len(),
        s.subrange(pos, pos + 8 + t.len()) == enc_str(t),
    ensures
        sp_parse_str(s, pos) == Some((t, pos + 8 + t.len())),
{
    let e = enc_str(t);
    lemma_fixed_digits_len(t.len(), 8);
    assert(s.subrange(pos, pos + 8) =~= fixed_digits(t.len(), 8)) by {
        assert(forall|i: int| 0 <= i < 8 ==> s.subrange(pos, pos + 8 + t.len())[i] == #[trigger] s.subrange(pos, pos + 8)[i]);
    }
    lemma_sp_parse_digits_encode(s, pos, t.len(), 8);
    assert(s.subrange(pos + 8, pos + 8 + t.len()) =~= t) by {
        assert(forall|i: int| 0 <= i < t.len() ==> s.subrange(pos, pos + 8 + t.len())[8 + i] == #[trigger] s.subrange(pos + 8, pos + 8 + t.len())[i]);
        assert(forall|i: int| 0 <= i < t.len() ==> e[8 + i] == t[i]);
    }
}

/// Appends a string field.
pub fn push_str_field(out: &mut String, t: &str)
    requires
        t@.len() < pow10(8),
    ensures
        final(out)@ == old(out)@ + enc_str(t@),
{
    let n = t.unicode_len();
    push_fixed_digits(out, n as u64, 8);
    out.append(t);
    assert(final(out)@ =~= old(out)@ + enc_str(t@));
}

/// Reads a string field at `pos`.
pub fn parse_str_field(s: &str, slen: usize, pos: usize) -> (r: Option<(String, usize)>)
    requires
        slen == s@.len(),
    ensures
        match r {
            Some((t, p)) => sp_parse_str(s@, pos as int) == Some((t@, p as int)),
            None => sp_parse_str(s@, pos as int) is None,
        },
{
    match parse_fixed_digits(s, slen, pos, 8) {
        None => None,
        Some((n, p)) => {
            proof {
                lemma_digits_val_bound(s@.subrange(pos as int, pos as int + 8));
                lemma_pow10_8();
            }
            if n > (slen - p) as u64 {
                return None;
            }
            let end = p + n as usize;
            let t = s.substring_char(p, end).to_owned();
            Some((t, end))
        },
    }
}

/// A signed 64-bit field: a sign character, then nineteen digits.
pub open spec fn iabs(v: int) -> nat {
    if v >= 0 {
        v as nat
    } else {
        (-v) as nat
    }
}

pub open spec fn enc_i64(v: int) -> Seq<char> {
    (if v >= 0 {
        seq!['+']
    } else {
        seq!['-']
    }) + fixed_digits(iabs(v), 19)
}

pub open spec fn sp_parse_i64(s: Seq<char>, pos: int) -> Option<(int, int)> {
    if 0 <= pos < s.len() && (s[pos] == '+' || s[pos] == '-') {
        match sp_parse_digits(s, pos + 1, 19) {
            Some((v, p)) => {
                let sv = if s[pos] == '-' {
                    -v
                } else {
                    v
                };
                if i64::MIN <= sv <= i64::MAX {
                    Some((sv, p))
                } else {
                    None
                }
            },
            None => None,
        }
    } else {
        None
    }
}

/// Parsing a freshly written signed field recovers the value written.
pub proof fn lemma_sp_parse_i64_encode(s: Seq<char>, pos: int, v: i64)
    requires
        0 <= pos,
        pos + 20 <= s.len(),
        s.subrange(pos, pos + 20) == enc_i64(v as int),
    ensures
        sp_parse_i64(s, pos) == Some((v as int, pos + 20)),
{
    let e = enc_i64(v as int);
    lemma_fixed_digits_len(iabs(v as int), 19);
    lemma_pow10_19();
    assert(s[pos] == e[0]) by {
        assert(s.subrange(pos, pos + 20)[0] == s[pos]);
    }
    assert(s.subrange(pos + 1, pos + 20) =~= fixed_digits(iabs(v as int), 19)) by {
        assert(forall|i: int| 0 <= i < 19 ==> s.subrange(pos, pos + 20)[1 + i] == #[trigger] s.subrange(pos + 1, pos + 20)[i]);
    }
    lemma_sp_parse_digits_encode(s, pos + 1, iabs(v as int), 19);
}

/// Appends a signed 64-bit field.
pub fn push_i64_field(out: &mut String, v: i64)
    ensures
        final(out)@ == old(out)@ + enc_i64(v as int),
{
    proof {
        lemma_pow10_19();
    }
    if v >= 0 {
        push_char(out, '+');
        push_fixed_digits(out, v as u64, 19);
    } else {
        push_char(out, '-');
        let m = if v == i64::MIN {
            9223372036854775808u64
        } else {
            (-v) as u64
        };
        push_fixed_digits(out, m, 19);
    }
    assert(final(out)@ =~= old(out)@ + enc_i64(v as int));
}

/// Reads a signed 64-bit field at `pos`.
pub fn parse_i64_field(s: &str, slen: usize, pos: usize) -> (r: Option<(i64, usize)>)
    requires
        slen == s@.len(),
    ensures
        match r {
            Some((v, p)) => sp_parse_i64(s@, pos as int) == Some((v as int, p as int)),
            None => sp_parse_i64(s@, pos as int) is None,
        },
{
    if pos >= slen {
        return None;
    }
    let c = s.get_char(pos);
    if c != '+' && c != '-' {
        return None;
    }
    match parse_fixed_digits(s, slen, pos + 1, 19) {
        None => None,
        Some((m, p)) => {
            if c == '-' {
                if m > 9223372036854775808u64 {
                    None
                } else if m == 9223372036854775808u64 {
                    Some((i64::MIN, p))
                } else {
                    Some((-(m as i64), p))
                }
            } else {
                if m > i64::MAX as u64 {
                    None
                } else {
                    Some((m as i64, p))
                }
            }
        },
    }
}

/// An optional signed field: `N` for absent, or `S` followed by the value.
pub open spec fn enc_opt_i64(v: Option<int>) -> Seq<char> {
    match v {
        None => seq!['N'],
        Some(x) => seq!['S'] + enc_i64(x),
    }
}

pub open spec fn sp_parse_opt_i64(s: Seq<char>, pos: int) -> Option<(Option<int>, int)> {
    if 0 <= pos < s.len() && s[pos] == 'N' {
        Some((None, pos + 1))
    } else if 0 <= pos < s.len() && s[pos] == 'S' {
        match sp_parse_i64(s, pos + 1) {
            Some((v, p)) => Some((Some(v), p)),
            None => None,
        }
    } else {
        None
    }
}

/// Parsing a freshly written optional field recovers the value written.
pub proof fn lemma_sp_parse_opt_i64_encode(s: Seq<char>, pos: int, v: Option<i64>)
    requires
        0 <= pos,
        pos + enc_opt_i64(opt_i64_view(v)).len() <= s.len(),
        s.subrange(pos, pos + enc_opt_i64(opt_i64_view(v)).len()) == enc_opt_i64(opt_i64_view(v)),
    ensures
        sp_parse_opt_i64(s, pos) == Some(
            (opt_i64_view(v), pos + enc_opt_i64(opt_i64_view(v)).len()),
        ),
{
    let e = enc_opt_i64(opt_i64_view(v));
    match v {
        None => {
            assert(s[pos] == 'N') by {
                assert(s.subrange(pos, pos + 1)[0] == s[pos]);
            }
        },
        Some(x) => {
            lemma_fixed_digits_len(iabs(x as int), 19);
            assert(s[pos] == 'S') by {
                assert(s.subrange(pos, pos + e.len() as int)[0] == s[pos]);
            }
            assert(s.subrange(pos + 1, pos + 21) =~= enc_i64(x as int)) by {
                assert(forall|i: int| 0 <= i < 20 ==> s.subrange(pos, pos + e.len() as int)[1 + i]
                    == #[trigger] s.subrange(pos + 1, pos + 21)[i]);
            }
            lemma_sp_parse_i64_encode(s, pos + 1, x);
        },
    }
}

/// Ghost form of an optional machine integer.
pub open spec fn opt_i64_view(v: Option<i64>) -> Option<int> {
    match v {
        None => None,
        Some(x) => Some(x as int),
    }
}

/// Appends an optional signed field.
pub fn push_opt_i64_field(out: &mut String, v: Option<i64>)
    ensures
        final(out)@ == old(out)@ + enc_opt_i64(opt_i64_view(v)),
{
    match v {
        None => {
            push_char(out, 'N');
            assert(final(out)@ =~= old(out)@ + enc_opt_i64(opt_i64_view(v)));
        },
        Some(x) => {
            push_char(out, 'S');
            push_i64_field(out, x);
            assert(final(out)@ =~= old(out)@ + enc_opt_i64(opt_i64_view(v)));
        },
    }
}

/// Reads an optional signed field at `pos`.
pub fn parse_opt_i64_field(s: &str, slen: usize, pos: usize) -> (r: Option<(Option<i64>, usize)>)
    requires
        slen == s@.len(),
    ensures
        match r {
            Some((v, p)) => sp_parse_opt_i64(s@, pos as int) == Some((opt_i64_view(v), p as int)),
            None => sp_parse_opt_i64(s@, pos as int) is None,
        },
{
    if pos >= slen {
        return None;
    }
    let c = s.get_char(pos);
    if c == 'N' {
        Some((None, pos + 1))
    } else if c == 'S' {
        match parse_i64_field(s, slen, pos + 1) {
            Some((v, p)) => Some((Some(v), p)),
            None => None,
        }
    } else {
        None
    }
}

/// Compares two string slices by their characters.
pub fn str_eq(a: &str, b: &str) -> (r: bool)
    ensures
        r <==> a@ == b@,
{
    let sa = a.to_owned();
    let sb = b.to_owned();
    sa == sb
}

/// A list of string pairs: each pair is two string fields; the count is
/// written separately by the caller.
pub open spec fn enc_pair(p: (Seq<char>, Seq<char>)) -> Seq<char> {
    enc_str(p.0) + enc_str(p.1)
}

pub open spec fn enc_pairs(ps: Seq<(Seq<char>, Seq<char>)>) -> Seq<char>
    decreases ps.len(),
{
    if ps.len() == 0 {
        Seq::empty()
    } else {
        enc_pair(ps[0]) + enc_pairs(ps.drop_first())
    }
}

/// Every component short enough for its length prefix.
pub open spec fn wf_pairs(ps: Seq<(Seq<char>, Seq<char>)>) -> bool {
    forall|i: int| 0 <= i < ps.len() ==> (#[trigger] ps[i]).0.len() < pow10(8) && ps[i].1.len() < pow10(8)
}

pub open spec fn sp_parse_pairs(s: Seq<char>, pos: int, k: int) -> Option<
    (Seq<(Seq<char>, Seq<char>)>, int),
>
    decreases k,
{
    if k <= 0 {
        Some((Seq::empty(), pos))
    } else {
        match sp_parse_str(s, pos) {
            Some((a, p1)) => match sp_parse_str(s, p1) {
                Some((b, p2)) => match sp_parse_pairs(s, p2, k - 1) {
                    Some((rest, p3)) => Some((seq![(a, b)] + rest, p3)),
                    None => None,
                },
                None => None,
            },
            None => None,
        }
    }
}

pub proof fn lemma_enc_pairs_push(ps: Seq<(Seq<char>, Seq<char>)>, p: (Seq<char>, Seq<char>))
    ensures
        enc_pairs(ps.push(p)) == enc_pairs(ps) + enc_pair(p),
    decreases ps.len(),
{
    if ps.len() == 0 {
        assert(ps.push(p)[0] == p);
        assert(ps.push(p).drop_first() =~= ps);
        assert(enc_pairs(ps) == Seq::<char>::empty());
        assert(enc_pairs(ps.push(p)) =~= enc_pairs(ps) + enc_pair(p));
    } else {
        assert(ps.push(p).drop_first() =~= ps.drop_first().push(p));
        lemma_enc_pairs_push(ps.drop_first(), p);
        assert(ps.push(p)[0] == ps[0]);
        assert(enc_pairs(ps.push(p)) == enc_pair(ps[0]) + (enc_pairs(ps.drop_first()) + enc_pair(p)));
        assert(enc_pair(ps[0]) + (enc_pairs(ps.drop_first()) + enc_pair(p)) =~= (enc_pair(ps[0])
            + enc_pairs(ps.drop_first())) + enc_pair(p));
    }
}

/// Parsing a freshly written pair list recovers the pairs written.
pub proof fn lemma_sp_parse_pairs_encode(s: Seq<char>, pos: int, ps: Seq<(Seq<char>, Seq<char>)>)
    requires
        0 <= pos,
        wf_pairs(ps),
        pos + enc_pairs(ps).len() <= s.len(),
        s.subrange(pos, pos + enc_pairs(ps).len()) == enc_pairs(ps),
    ensures
        sp_parse_pairs(s, pos, ps.len() as int) == Some((ps, pos + enc_pairs(ps).len())),
    decreases ps.len(),
{
    if ps.len() == 0 {
    } else {
        let a = ps[0].0;
        let b = ps[0].1;
        let rest = ps.drop_first();
        let e = enc_pairs(ps);
        let ea = enc_str(a);
        let eb = enc_str(b);
        let er = enc_pairs(rest);
        lemma_fixed_digits_len(a.len(), 8);
        lemma_fixed_digits_len(b.len(), 8);
        assert(e =~= ea + eb + er);
        let p1 = pos + 8 + a.len();
        let p2 = p1 + 8 + b.len();
        assert(s.subrange(pos, p1) =~= ea) by {
            assert(forall|i: int| 0 <= i < ea.len() ==> s.subrange(pos, pos + e.len() as int)[i]
                == #[trigger] s.subrange(pos, p1)[i]);
        }
        lemma_sp_parse_str_encode(s, pos, a);
        assert(s.subrange(p1, p2) =~= eb) by {
            assert(forall|i: int| 0 <= i < eb.len() ==> s.subrange(pos, pos + e.len() as int)[ea.len() + i]
                == #[trigger] s.subrange(p1, p2)[i]);
        }
        lemma_sp_parse_str_encode(s, p1, b);
        assert(s.subrange(p2, p2 + er.len()) =~= er) by {
            assert(forall|i: int| 0 <= i < er.len() ==> s.subrange(pos, pos + e.len() as int)[ea.len() + eb.len() + i]
                == #[trigger] s.subrange(p2, p2 + er.len() as int)[i]);
        }
        assert(wf_pairs(rest)) by {
            assert(forall|i: int| 0 <= i < rest.len() ==> #[trigger] rest[i] == ps[i + 1]);
        }
        lemma_sp_parse_pairs_encode(s, p2, rest);
        assert(seq![(a, b)] + rest =~= ps);
    }
}

/// View of executable pair storage.
pub open spec fn pairs_view(v: Seq<(String, String)>) -> Seq<(Seq<char>, Seq<char>)> {
    v.map_values(|p: (String, String)| (p.0@, p.1@))
}

/// Appends every pair of `data` as two string fields.
pub fn push_pairs(out: &mut String, data: &Vec<(String, String)>)
    requires
        wf_pairs(pairs_view(data@)),
    ensures
        final(out)@ == old(out)@ + enc_pairs(pairs_view(data@)),
{
    let ghost ps = pairs_view(data@);
    let mut i: usize = 0;
    proof {
        assert(pairs_view(data@.subrange(0, 0)) =~= Seq::<(Seq<char>, Seq<char>)>::empty());
    }
    while i < data.len()
        invariant
            0 <= i <= data.len(),
            ps == pairs_view(data@),
            wf_pairs(ps),
            out@ == old(out)@ + enc_pairs(pairs_view(data@.subrange(0, i as int))),
        decreases data.len() - i,
    {
        let k = data[i].0.as_str();
        let v = data[i].1.as_str();
        proof {
            assert(ps[i as int] == (data@[i as int].0@, data@[i as int].1@));
        }
        push_str_field(out, k);
        push_str_field(out, v);
        proof {
            let prev = pairs_view(data@.subrange(0, i as int));
            let cur = pairs_view(data@.subrange(0, i as int + 1));
            assert(cur =~= prev.push((data@[i as int].0@, data@[i as int].1@)));
            lemma_enc_pairs_push(prev, (data@[i as int].0@, data@[i as int].1@));
            assert(out@ =~= old(out)@ + enc_pairs(cur));
        }
        i = i + 1;
    }
    proof {
        assert(data@.subrange(0, data@.len() as int) =~= data@);
    }
}

/// A successful parse of the first `j` pairs extends to any larger count by
/// continuing from where it stopped.
pub proof fn lemma_sp_parse_pairs_split(
    s: Seq<char>,
    pos: int,
    j: int,
    k: int,
    ps1: Seq<(Seq<char>, Seq<char>)>,
    mid: int,
)
    requires
        0 <= j <= k,
        sp_parse_pairs(s, pos, j) == Some((ps1, mid)),
    ensures
        sp_parse_pairs(s, pos, k) == (match sp_parse_pairs(s, mid, k - j) {
            Some((ps2, e)) => Some((ps1 + ps2, e)),
            None => None::<(Seq<(Seq<char>, Seq<char>)>, int)>,
        }),
    decreases j,
{
    if j == 0 {
        assert(ps1 =~= Seq::<(Seq<char>, Seq<char>)>::empty());
        match sp_parse_pairs(s, mid, k) {
            Some((ps2, e)) => {
                assert(ps1 + ps2 =~= ps2);
            },
            None => {},
        }
    } else {
        let (a, p1) = sp_parse_str(s, pos).unwrap();
        let (b, p2) = sp_parse_str(s, p1).unwrap();
        let (rest, p3) = sp_parse_pairs(s, p2, j - 1).unwrap();
        assert(ps1 == seq![(a, b)] + rest && mid == p3);
        lemma_sp_parse_pairs_split(s, p2, j - 1, k - 1, rest, p3);
        match sp_parse_pairs(s, mid, k - j) {
            Some((ps2, e)) => {
                assert(sp_parse_pairs(s, p2, k - 1) == Some((rest + ps2, e)));
                assert(sp_parse_pairs(s, pos, k) == Some((seq![(a, b)] + (rest + ps2), e)));
                assert(seq![(a, b)] + (rest + ps2) =~= (seq![(a, b)] + rest) + ps2);
            },
            None => {},
        }
    }
}

/// Reads `k` pairs at `pos`.
pub fn parse_pairs(s: &str, slen: usize, pos: usize, k: u64) -> (r: Option<
    (Vec<(String, String)>, usize),
>)
    requires
        slen == s@.len(),
    ensures
        match r {
            Some((v, p)) => sp_parse_pairs(s@, pos as int, k as int) == Some(
                (pairs_view(v@), p as int),
            ),
            None => sp_parse_pairs(s@, pos as int, k as int) is None,
        },
{
    let ghost start = pos as int;
    let mut cur: usize = pos;
    let mut j: u64 = 0;
    let mut acc: Vec<(String, String)> = Vec::new();
    proof {
        assert(pairs_view(acc@) =~= Seq::<(Seq<char>, Seq<char>)>::empty());
    }
    while j < k
        invariant
            slen == s@.len(),
            0 <= j <= k,
            start == pos as int,
            sp_parse_pairs(s@, start, j as int) == Some((pairs_view(acc@), cur as int)),
        decreases k - j,
    {
        let (a, p1) = match parse_str_field(s, slen, cur) {
            Some(x) => x,
            None => {
                proof {
                    assert(sp_parse_pairs(s@, cur as int, k as int - j as int) is None);
                    lemma_sp_parse_pairs_split(
                        s@,
                        start,
                        j as int,
                        k as int,
                        pairs_view(acc@),
                        cur as int,
                    );
                }
                return None;
            },
        };
        let (b, p2) = match parse_str_field(s, slen, p1) {
            Some(x) => x,
            None => {
                proof {
                    assert(sp_parse_pairs(s@, cur as int, k as int - j as int) is None);
                    lemma_sp_parse_pairs_split(
                        s@,
                        start,
                        j as int,
                        k as int,
                        pairs_view(acc@),
                        cur as int,
                    );
                }
                return None;
            },
        };
        proof {
            assert(sp_parse_pairs(s@, p2 as int, 0) == Some(
                (Seq::<(Seq<char>, Seq<char>)>::empty(), p2 as int),
            ));
            assert(seq![(a@, b@)] + Seq::<(Seq<char>, Seq<char>)>::empty() =~= seq![(a@, b@)]);
            assert(sp_parse_pairs(s@, cur as int, 1) == Some((seq![(a@, b@)], p2 as int)));
            lemma_sp_parse_pairs_split(
                s@,
                start,
                j as int,
                j as int + 1,
                pairs_view(acc@),
                cur as int,
            );
            assert(pairs_view(acc@) + seq![(a@, b@)] =~= pairs_view(acc@.push((a, b))));
        }
        acc.push((a, b));
        cur = p2;
        j = j + 1;
    }
    proof {
        assert(sp_parse_pairs(s@, pos as int, k as int) == Some((pairs_view(acc@), cur as int)));
    }
    Some((acc, cur))
}

} // verus!
