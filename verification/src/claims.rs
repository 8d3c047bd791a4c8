//! The claim set carried by a token, its canonical payload text, and the
//! strict parser for that text.
//!
//! A payload is one JSON object with the fields `sub`, `iss`, `iat`, `exp`,
//! `id`, `user_id` and one discriminator field: `_a` for an access token,
//! `_r` for a refresh token. This library writes and reads exactly this
//! canonical shape: fixed field order, no spaces, no escapes inside quoted
//! fields. The parser accepts a string if and only if it is the canonical
//! text of some claim set, so a parsed value pins the whole input down.

use vstd::prelude::*;

use crate::text;
use crate::text::{all_digits, dec_int, dec_nat, digit_val, is_digit, plain, val_of};

verus! {

/// The mathematical value of one claim set.
#[verifier::ext_equal]
pub ghost struct ClaimsV {
    pub sub: Seq<char>,
    pub iss: Seq<char>,
    pub iat: int,
    pub exp: int,
    pub id: Seq<char>,
    pub user_id: Seq<char>,
    pub flag: bool,
}

/// A claim set that a token can carry: quoted fields are plain and the
/// timestamps fit a signed 64-bit integer.
pub open spec fn claims_wf(c: ClaimsV) -> bool {
    &&& plain(c.sub)
    &&& plain(c.iss)
    &&& plain(c.id)
    &&& plain(c.user_id)
    &&& i64::MIN <= c.iat <= i64::MAX
    &&& i64::MIN <= c.exp <= i64::MAX
}

/// The canonical payload text of a claim set.
pub open spec fn json_of(c: ClaimsV, access: bool) -> Seq<char> {
    ("{\"sub\":\"")@ + c.sub + ("\",\"iss\":\"")@ + c.iss + ("\",\"iat\":")@ + dec_int(c.iat)
        + (",\"exp\":")@ + dec_int(c.exp) + (",\"id\":\"")@ + c.id + ("\",\"user_id\":\"")@
        + c.user_id + (if access {
        ("\",\"_a\":")@
    } else {
        ("\",\"_r\":")@
    }) + (if c.flag {
        ("true}")@
    } else {
        ("false}")@
    })
}

/// One claim set, as executable data.
pub struct Claims {
    pub sub: String,
    pub iss: String,
    pub iat: i64,
    pub exp: i64,
    pub id: String,
    pub user_id: String,
    pub flag: bool,
}

impl View for Claims {
    type V = ClaimsV;

    open spec fn view(&self) -> ClaimsV {
        ClaimsV {
            sub: self.sub@,
            iss: self.iss@,
            iat: self.iat as int,
            exp: self.exp as int,
            id: self.id@,
            user_id: self.user_id@,
            flag: self.flag,
        }
    }
}

impl Claims {
    pub open spec fn wf(&self) -> bool {
        claims_wf(self@)
    }
}

/// Writes the canonical payload text of `c`.
pub fn claims_text(c: &Claims, access: bool) -> (r: String)
    ensures
        r@ == json_of(c@, access),
{
    let mut s = String::new();
    s.append("{\"sub\":\"");
    s.append(c.sub.as_str());
    s.append("\",\"iss\":\"");
    s.append(c.iss.as_str());
    s.append("\",\"iat\":");
    let iat = text::int_to_dec(c.iat);
    s.append(iat.as_str());
    s.append(",\"exp\":");
    let exp = text::int_to_dec(c.exp);
    s.append(exp.as_str());
    s.append(",\"id\":\"");
    s.append(c.id.as_str());
    s.append("\",\"user_id\":\"");
    s.append(c.user_id.as_str());
    if access {
        s.append("\",\"_a\":");
    } else {
        s.append("\",\"_r\":");
    }
    if c.flag {
        s.append("true}");
    } else {
        s.append("false}");
    }
    proof {
        assert(s@ =~= json_of(c@, access));
    }
    s
}

/// Matches the literal `lit` at position `pos` of `s` and returns the
/// position just past it.
pub fn expect_lit(s: &str, pos: usize, lit: &str) -> (r: Option<usize>)
    requires
        pos <= s@.len(),
    ensures
        r matches Some(p) ==> pos + lit@.len() <= s@.len() && p == pos + lit@.len()
            && s@.subrange(pos as int, p as int) == lit@,
        pos + lit@.len() <= s@.len() && s@.subrange(
            pos as int,
            pos + lit@.len(),
        ) == lit@ ==> r is Some,
{
    let n = lit.unicode_len();
    let len = s.unicode_len();
    if len - pos < n {
        return None;
    }
    let mut i: usize = 0;
    while i < n
        invariant
            len == s@.len(),
            pos + n <= len,
            n == lit@.len(),
            i <= n,
            forall|j: int| 0 <= j < i ==> s@[pos + j] == lit@[j],
        decreases n - i,
    {
        if s.get_char(pos + i) != lit.get_char(i) {
            proof {
                assert(s@.subrange(pos as int, pos + lit@.len())[i as int] == s@[pos + i]);
            }
            return None;
        }
        i += 1;
    }
    proof {
        assert(s@.subrange(pos as int, pos + lit@.len()) =~= lit@);
    }
    Some(pos + n)
}

/// A plain field closed by a quote stands at `pos` of `s`.
pub open spec fn field_at(s: Seq<char>, pos: int) -> bool {
    exists|q: int| pos <= q < s.len() && s[q] == '"' && plain(s.subrange(pos, q))
}

/// Scans a plain quoted field at `pos`: collects characters up to the next
/// `'"'` and returns the field together with the position of that quote.
/// Fails at the end of the string and on an escape character.
pub fn scan_plain(s: &str, pos: usize) -> (r: Option<(String, usize)>)
    requires
        pos <= s@.len(),
    ensures
        r matches Some(t) ==> pos <= t.1 < s@.len() && t.0@ == s@.subrange(
            pos as int,
            t.1 as int,
        ) && s@[t.1 as int] == '"' && plain(t.0@),
        field_at(s@, pos as int) ==> r is Some,
{
    let len = s.unicode_len();
    let mut f = String::new();
    let mut i: usize = pos;
    loop
        invariant
            pos <= i <= len,
            len == s@.len(),
            f@ == s@.subrange(pos as int, i as int),
            plain(f@),
            forall|j: int| pos <= j < i ==> s@[j] != '"',
        decreases len - i,
    {
        if i == len {
            proof {
                if field_at(s@, pos as int) {
                    let q = choose|q: int|
                        pos <= q < s@.len() && s@[q] == '"' && plain(s@.subrange(pos as int, q));
                    assert(s@[q] != '"');
                }
            }
            return None;
        }
        let c = s.get_char(i);
        if c == '"' {
            return Some((f, i));
        }
        if c == '\\' {
            proof {
                if field_at(s@, pos as int) {
                    let q = choose|q: int|
                        pos <= q < s@.len() && s@[q] == '"' && plain(s@.subrange(pos as int, q));
                    if q < i {
                        assert(s@[q] != '"');
                    } else {
                        assert(q > i);
                        assert(s@.subrange(pos as int, q)[i - pos] == s@[i as int]);
                        assert(!text::plain_char('\\'));
                    }
                }
            }
            return None;
        }
        push_char_sub(&mut f, s, pos, i, c);
        i += 1;
    }
}

/// Appends the scanned character, keeping the field equal to the consumed
/// range.
fn push_char_sub(f: &mut String, s: &str, pos: usize, i: usize, c: char)
    requires
        pos <= i < s@.len(),
        old(f)@ == s@.subrange(pos as int, i as int),
        s@[i as int] == c,
    ensures
        final(f)@ == s@.subrange(pos as int, i + 1),
{
    text::push_char(f, c);
    proof {
        assert(s@.subrange(pos as int, i + 1) =~= s@.subrange(pos as int, i as int).push(c));
    }
}

/// A maximal canonical decimal numeral stands at `pos` of `s`.
pub open spec fn numeral_at(s: Seq<char>, pos: int) -> bool {
    exists|v: i64, q: int|
        pos < q <= s.len() && s.subrange(pos, q) == dec_int(v as int) && (q == s.len()
            || !is_digit(s[q]))
}

/// Scans a decimal integer at `pos`: an optional minus sign and a canonical
/// digit run, read greedily up to the first non-digit. Returns the value and
/// the position just past the run.
pub fn scan_int(s: &str, pos: usize) -> (r: Option<(i64, usize)>)
    requires
        pos <= s@.len(),
    ensures
        r matches Some(t) ==> pos < t.1 <= s@.len() && s@.subrange(pos as int, t.1 as int)
            == dec_int(t.0 as int) && (t.1 == s@.len() || !is_digit(s@[t.1 as int])),
        numeral_at(s@, pos as int) ==> r is Some,
{
    let len = s.unicode_len();
    let ghost hyp = numeral_at(s@, pos as int);
    let ghost (hv, hq): (i64, int) = if hyp {
        choose|v: i64, q: int|
            pos < q <= s@.len() && s@.subrange(pos as int, q) == dec_int(v as int) && (q == s@.len()
                || !is_digit(s@[q]))
    } else {
        (0i64, 0int)
    };
    proof {
        if hyp {
            text::lemma_dec_int_shape(hv as int);
        }
    }
    if pos == len {
        return None;
    }
    let neg = s.get_char(pos) == '-';
    let start = if neg {
        pos + 1
    } else {
        pos
    };
    // Where the claimed numeral's digits would start and end.
    let ghost hs: int = if hv < 0 {
        pos + 1
    } else {
        pos as int
    };
    proof {
        if hyp {
            assert(s@[pos as int] == dec_int(hv as int)[0]);
            if hv < 0 {
                assert(s@[pos as int] == '-');
            } else {
                assert(is_digit(s@[pos as int]));
                assert(!is_digit('-'));
            }
            assert(hs == start);
            assert(all_digits_between(s@, hs, hq)) by {
                assert forall|j: int| hs <= j < hq implies is_digit(s@[j]) by {
                    assert(s@[j] == s@.subrange(pos as int, hq)[j - pos]);
                    if hv < 0 {
                        assert(dec_int(hv as int)[j - pos] == dec_nat((-hv) as nat)[j - pos - 1]);
                        text::lemma_dec_nat_shape((-hv) as nat);
                    } else {
                        assert(is_digit(dec_int(hv as int)[j - pos]));
                    }
                }
            }
        }
    }
    let mut i: usize = start;
    let mut acc: u64 = 0;
    loop
        invariant
            pos <= start <= i <= len,
            len == s@.len(),
            start <= pos + 1,
            neg ==> pos < len && s@[pos as int] == '-' && start == pos + 1,
            !neg ==> start == pos,
            acc == val_of(s@.subrange(start as int, i as int)),
            all_digits_between(s@, start as int, i as int),
            hyp == numeral_at(s@, pos as int),
            hyp ==> pos < hq <= s@.len() && s@.subrange(pos as int, hq) == dec_int(hv as int) && (hq
                == s@.len() || !is_digit(s@[hq])) && all_digits_between(s@, hs, hq) && hs == start
                && (hv < 0 ==> s@[pos as int] == '-') && (hv >= 0 ==> !(s@[pos as int] == '-')),
        ensures
            pos <= start <= i <= len,
            acc == val_of(s@.subrange(start as int, i as int)),
            all_digits_between(s@, start as int, i as int),
            i == len || !is_digit(s@[i as int]),
        decreases len - i,
    {
        if i == len {
            break ;
        }
        let c = s.get_char(i);
        let cu = c as u32;
        if cu < 48 || cu > 57 {
            proof {
                assert(!is_digit(s@[i as int]));
            }
            break ;
        }
        let d: u64 = (cu - 48) as u64;
        proof {
            assert(is_digit(c));
            assert(digit_val(c) == d);
            if hyp {
                lemma_inside_run(s@, pos as int, start as int, i as int, hq, hv as int);
                // i < hq: one more digit still fits under the claimed value
                assert(s@.subrange(start as int, i + 1) == s@.subrange(hs, hq).take(
                    i + 1 - start,
                )) by {
                    assert(s@.subrange(start as int, i + 1) =~= s@.subrange(hs, hq).take(
                        i + 1 - start,
                    ));
                }
                assert(all_digits(s@.subrange(hs, hq))) by {
                    assert(forall|j: int|
                        0 <= j < hq - hs ==> #[trigger] s@.subrange(hs, hq)[j] == s@[hs + j]);
                }
                text::lemma_val_of_take_le(s@.subrange(hs, hq), i + 1 - start);
                lemma_run_value(s@, pos as int, hs, hq, hv as int);
                assert(val_of(s@.subrange(start as int, i + 1)) <= abs_of(hv as int));
            }
            assert(s@.subrange(start as int, i + 1).drop_last() =~= s@.subrange(
                start as int,
                i as int,
            ));
            assert(s@.subrange(start as int, i + 1).last() == c);
            assert(val_of(s@.subrange(start as int, i + 1)) == acc * 10 + d);
        }
        let m = match acc.checked_mul(10) {
            Some(x) => x.checked_add(d),
            None => None,
        };
        match m {
            Some(x) => {
                acc = x;
            },
            None => {
                proof {
                    assert(acc * 10 + d > u64::MAX);
                    if hyp {
                        assert(abs_of(hv as int) <= 9223372036854775808);
                        assert(val_of(s@.subrange(start as int, i + 1)) == acc * 10 + d);
                        assert(val_of(s@.subrange(start as int, i + 1)) <= abs_of(hv as int));
                        assert(acc * 10 + d <= 9223372036854775808);
                        assert(false);
                    }
                    assert(!hyp);
                }
                return None;
            },
        }
        proof {
            assert(all_digits_between(s@, start as int, i + 1)) by {
                assert(forall|j: int|
                    start <= j < i + 1 ==> j == i || (start <= j < i && is_digit(#[trigger] s@[j])));
            }
        }
        i += 1;
    }
    // The run is over: `i` is the first non-digit position.
    proof {
        if hyp {
            assert(i == len || !is_digit(s@[i as int]));
            lemma_digits_sub(s@, start as int, i as int);
            lemma_digits_sub(s@, hs, hq);
            text::lemma_digit_run_pin(s@, start as int, i as int, hq);
            assert(hq == i);
            lemma_run_value(s@, pos as int, hs, hq, hv as int);
            assert(acc == abs_of(hv as int));
        }
    }
    if i == start {
        // no digits at all
        proof {
            if hyp {
                text::lemma_dec_int_shape(hv as int);
                assert(hq > hs);
            }
        }
        return None;
    }
    let first_digit = s.get_char(start);
    if first_digit == '0' && i - start > 1 {
        proof {
            if hyp {
                lemma_leading_zero(s@, pos as int, hs, hq, hv as int);
            }
        }
        return None;
    }
    proof {
        lemma_digits_sub(s@, start as int, i as int);
        assert(s@.subrange(start as int, i as int)[0] == s@[start as int]);
        text::lemma_canonical_digits(s@.subrange(start as int, i as int));
    }
    if neg {
        if acc == 0 {
            proof {
                if hyp {
                    assert(hv < 0) by {
                        if hv >= 0 {
                            assert(is_digit(dec_int(hv as int)[0]));
                            assert(s@[pos as int] == dec_int(hv as int)[0]);
                            assert(!is_digit('-'));
                        }
                    }
                    assert(abs_of(hv as int) >= 1);
                }
            }
            return None;
        }
        if acc > 9223372036854775808u64 {
            return None;
        }
        let v: i64 = if acc == 9223372036854775808u64 {
            i64::MIN
        } else {
            -(acc as i64)
        };
        proof {
            assert(-(v as int) == acc);
            assert(s@.subrange(pos as int, i as int) =~= seq!['-'] + s@.subrange(
                start as int,
                i as int,
            ));
            assert(dec_int(v as int) == seq!['-'] + dec_nat((-(v as int)) as nat));
            assert(dec_nat(acc as nat) == s@.subrange(start as int, i as int));
        }
        Some((v, i))
    } else {
        if acc > 9223372036854775807u64 {
            proof {
                if hyp {
                    assert(hv >= 0) by {
                        if hv < 0 {
                            assert(s@[pos as int] == '-');
                        }
                    }
                    assert(abs_of(hv as int) <= 9223372036854775807);
                }
            }
            return None;
        }
        let v: i64 = acc as i64;
        proof {
            assert(dec_int(v as int) == dec_nat(acc as nat));
            assert(dec_nat(acc as nat) == s@.subrange(start as int, i as int));
            assert(s@.subrange(pos as int, i as int) =~= s@.subrange(start as int, i as int));
        }
        Some((v, i))
    }
}

/// The digits of `s` between `a` and `b` (half open), as a predicate on the
/// positions themselves.
pub open spec fn all_digits_between(s: Seq<char>, a: int, b: int) -> bool {
    forall|j: int| a <= j < b ==> is_digit(#[trigger] s[j])
}

/// The absolute value.
pub open spec fn abs_of(v: int) -> int {
    if v < 0 {
        -v
    } else {
        v
    }
}

proof fn lemma_digits_sub(s: Seq<char>, a: int, b: int)
    requires
        0 <= a <= b <= s.len(),
        all_digits_between(s, a, b),
    ensures
        all_digits(s.subrange(a, b)),
{
    assert(forall|j: int| 0 <= j < b - a ==> #[trigger] s.subrange(a, b)[j] == s[a + j]);
}

/// While scanning digits, the claimed numeral's digit region reaches past
/// the current position.
proof fn lemma_inside_run(s: Seq<char>, pos: int, start: int, i: int, hq: int, hv: int)
    requires
        0 <= pos <= start <= i < s.len(),
        is_digit(s[i]),
        start <= hq <= s.len(),
        all_digits_between(s, start, hq),
        hq == s.len() || !is_digit(s[hq]),
        all_digits_between(s, start, i),
    ensures
        i < hq,
{
    if hq <= i {
        assert(is_digit(s[hq]));
    }
}

/// The claimed numeral's digit region reads back as its absolute value.
proof fn lemma_run_value(s: Seq<char>, pos: int, hs: int, hq: int, hv: int)
    requires
        0 <= pos <= hs <= hq <= s.len(),
        s.subrange(pos, hq) == dec_int(hv),
        hs == if hv < 0 {
            pos + 1
        } else {
            pos
        },
    ensures
        s.subrange(hs, hq) == dec_nat(abs_of(hv) as nat),
        val_of(s.subrange(hs, hq)) == abs_of(hv),
        abs_of(hv) >= 0,
{
    text::lemma_dec_int_shape(hv);
    if hv < 0 {
        assert(s.subrange(hs, hq) =~= dec_nat((-hv) as nat)) by {
            assert(forall|j: int|
                0 <= j < hq - hs ==> #[trigger] s.subrange(hs, hq)[j] == s.subrange(pos, hq)[j
                    + 1]);
        }
    } else {
        assert(s.subrange(hs, hq) =~= dec_nat(hv as nat));
    }
    text::lemma_val_of_dec_nat(abs_of(hv) as nat);
}

/// Some claim set's canonical payload text is exactly `s`.
pub open spec fn wf_payload(s: Seq<char>, access: bool) -> bool {
    exists|cv: ClaimsV| claims_wf(cv) && s == #[trigger] json_of(cv, access)
}

/// Cuts the canonical payload text of `c` back into its pieces, by their
/// cumulative offsets.
#[verifier::rlimit(100)]
proof fn lemma_json_decompose(c: ClaimsV, access: bool)
    ensures
        ({
            let j = json_of(c, access);
            let l1 = ("{\"sub\":\"")@;
            let l2 = ("\",\"iss\":\"")@;
            let l3 = ("\",\"iat\":")@;
            let l4 = (",\"exp\":")@;
            let l5 = (",\"id\":\"")@;
            let l6 = ("\",\"user_id\":\"")@;
            let l7 = if access {
                ("\",\"_a\":")@
            } else {
                ("\",\"_r\":")@
            };
            let l8 = if c.flag {
                ("true}")@
            } else {
                ("false}")@
            };
            let o1 = l1.len() as int;
            let o2 = o1 + c.sub.len();
            let o3 = o2 + l2.len();
            let o4 = o3 + c.iss.len();
            let o5 = o4 + l3.len();
            let o6 = o5 + dec_int(c.iat).len();
            let o7 = o6 + l4.len();
            let o8 = o7 + dec_int(c.exp).len();
            let o9 = o8 + l5.len();
            let o10 = o9 + c.id.len();
            let o11 = o10 + l6.len();
            let o12 = o11 + c.user_id.len();
            let o13 = o12 + l7.len();
            let o14 = o13 + l8.len();
            &&& j.len() == o14
            &&& j.subrange(0, o1) == l1
            &&& j.subrange(o1, o2) == c.sub
            &&& j.subrange(o2, o3) == l2
            &&& j.subrange(o3, o4) == c.iss
            &&& j.subrange(o4, o5) == l3
            &&& j.subrange(o5, o6) == dec_int(c.iat)
            &&& j.subrange(o6, o7) == l4
            &&& j.subrange(o7, o8) == dec_int(c.exp)
            &&& j.subrange(o8, o9) == l5
            &&& j.subrange(o9, o10) == c.id
            &&& j.subrange(o10, o11) == l6
            &&& j.subrange(o11, o12) == c.user_id
            &&& j.subrange(o12, o13) == l7
            &&& j.subrange(o13, o14) == l8
        }),
{
    let j = json_of(c, access);
    let l1 = ("{\"sub\":\"")@;
    let l2 = ("\",\"iss\":\"")@;
    let l3 = ("\",\"iat\":")@;
    let l4 = (",\"exp\":")@;
    let l5 = (",\"id\":\"")@;
    let l6 = ("\",\"user_id\":\"")@;
    let l7 = if access {
        ("\",\"_a\":")@
    } else {
        ("\",\"_r\":")@
    };
    let l8 = if c.flag {
        ("true}")@
    } else {
        ("false}")@
    };
    let o1 = l1.len() as int;
    let o2 = o1 + c.sub.len();
    let o3 = o2 + l2.len();
    let o4 = o3 + c.iss.len();
    let o5 = o4 + l3.len();
    let o6 = o5 + dec_int(c.iat).len();
    let o7 = o6 + l4.len();
    let o8 = o7 + dec_int(c.exp).len();
    let o9 = o8 + l5.len();
    let o10 = o9 + c.id.len();
    let o11 = o10 + l6.len();
    let o12 = o11 + c.user_id.len();
    let o13 = o12 + l7.len();
    let o14 = o13 + l8.len();
    assert(j.len() == o14);
    assert(j.subrange(0, o1) =~= l1);
    assert(j.subrange(o1, o2) =~= c.sub);
    assert(j.subrange(o2, o3) =~= l2);
    assert(j.subrange(o3, o4) =~= c.iss);
    assert(j.subrange(o4, o5) =~= l3);
    assert(j.subrange(o5, o6) =~= dec_int(c.iat));
    assert(j.subrange(o6, o7) =~= l4);
    assert(j.subrange(o7, o8) =~= dec_int(c.exp));
    assert(j.subrange(o8, o9) =~= l5);
    assert(j.subrange(o9, o10) =~= c.id);
    assert(j.subrange(o10, o11) =~= l6);
    assert(j.subrange(o11, o12) =~= c.user_id);
    assert(j.subrange(o12, o13) =~= l7);
    assert(j.subrange(o13, o14) =~= l8);
}

/// Two plain quote-closed fields that start at the same place end at the
/// same quote.
proof fn lemma_field_pin(s: Seq<char>, pos: int, f: Seq<char>, p: int, fs: Seq<char>, e: int)
    requires
        0 <= pos <= p < s.len(),
        f == s.subrange(pos, p),
        s[p] == '"',
        plain(f),
        pos <= e < s.len(),
        fs == s.subrange(pos, e),
        s[e] == '"',
        plain(fs),
    ensures
        p == e,
        f == fs,
{
    if p < e {
        assert(fs[p - pos] == s[p]);
    } else if e < p {
        assert(f[e - pos] == s[e]);
    }
}

/// Two maximal canonical numerals that start at the same place are the same
/// numeral.
proof fn lemma_int_pin(s: Seq<char>, pos: int, v: int, p: int, w: int, e: int)
    requires
        0 <= pos < p <= s.len(),
        s.subrange(pos, p) == dec_int(v),
        p == s.len() || !is_digit(s[p]),
        pos < e <= s.len(),
        s.subrange(pos, e) == dec_int(w),
        e == s.len() || !is_digit(s[e]),
        i64::MIN <= v <= i64::MAX,
        i64::MIN <= w <= i64::MAX,
    ensures
        p == e,
        v == w,
{
    text::lemma_dec_int_shape(v);
    text::lemma_dec_int_shape(w);
    assert(s[pos] == s.subrange(pos, p)[0]);
    assert(s[pos] == s.subrange(pos, e)[0]);
    if v < 0 && w >= 0 {
        assert(s[pos] == '-');
        assert(is_digit(dec_int(w)[0]));
        assert(!is_digit('-'));
    }
    if v >= 0 && w < 0 {
        assert(s[pos] == '-');
        assert(is_digit(dec_int(v)[0]));
        assert(!is_digit('-'));
    }
    let sg: int = if v < 0 {
        1
    } else {
        0
    };
    if v < 0 {
        text::lemma_dec_nat_shape((-v) as nat);
        text::lemma_dec_nat_shape((-w) as nat);
        assert(p - pos >= 2);
        assert(e - pos >= 2);
    }
    let ds = pos + sg;
    assert(all_digits_between(s, ds, p)) by {
        assert forall|i: int| ds <= i < p implies is_digit(s[i]) by {
            assert(s[i] == s.subrange(pos, p)[i - pos]);
            assert(is_digit(dec_int(v)[i - pos]));
        }
    }
    assert(all_digits_between(s, ds, e)) by {
        assert forall|i: int| ds <= i < e implies is_digit(s[i]) by {
            assert(s[i] == s.subrange(pos, e)[i - pos]);
            assert(is_digit(dec_int(w)[i - pos]));
        }
    }
    lemma_digits_sub(s, ds, p);
    lemma_digits_sub(s, ds, e);
    text::lemma_digit_run_pin(s, ds, p, e);
    text::lemma_dec_int_injective(v, w);
}

/// No two claim sets write the same canonical payload text.
#[verifier::rlimit(100)]
pub proof fn lemma_json_injective(c1: ClaimsV, c2: ClaimsV, access: bool)
    requires
        claims_wf(c1),
        claims_wf(c2),
        json_of(c1, access) == json_of(c2, access),
    ensures
        c1 == c2,
{
    let j = json_of(c1, access);
    lemma_json_decompose(c1, access);
    lemma_json_decompose(c2, access);
    let l1 = ("{\"sub\":\"")@;
    let l2 = ("\",\"iss\":\"")@;
    let l3 = ("\",\"iat\":")@;
    let l4 = (",\"exp\":")@;
    let l5 = (",\"id\":\"")@;
    let l6 = ("\",\"user_id\":\"")@;
    let l7 = if access {
        ("\",\"_a\":")@
    } else {
        ("\",\"_r\":")@
    };
    reveal_strlit("{\"sub\":\"");
    reveal_strlit("\",\"iss\":\"");
    reveal_strlit("\",\"iat\":");
    reveal_strlit(",\"exp\":");
    reveal_strlit(",\"id\":\"");
    reveal_strlit("\",\"user_id\":\"");
    reveal_strlit("\",\"_a\":");
    reveal_strlit("\",\"_r\":");
    reveal_strlit("true}");
    reveal_strlit("false}");
    let o1 = l1.len() as int;
    // sub fields and their closing quotes coincide
    let a2 = o1 + c1.sub.len();
    let b2 = o1 + c2.sub.len();
    assert(j[a2] == l2[0]) by {
        assert(j.subrange(a2, a2 + l2.len()) == l2);
        assert(j.subrange(a2, a2 + l2.len())[0] == j[a2]);
    }
    assert(j[b2] == l2[0]) by {
        assert(json_of(c2, access).subrange(b2, b2 + l2.len()) == l2);
        assert(json_of(c2, access).subrange(b2, b2 + l2.len())[0] == j[b2]);
    }
    assert(l2[0] == '"');
    lemma_field_pin(j, o1, c1.sub, a2, c2.sub, b2);
    let o2 = a2;
    let o3 = o2 + l2.len();
    let a4 = o3 + c1.iss.len();
    let b4 = o3 + c2.iss.len();
    assert(j[a4] == '"') by {
        assert(j.subrange(a4, a4 + l3.len()) == l3);
        assert(j.subrange(a4, a4 + l3.len())[0] == j[a4]);
    }
    assert(j[b4] == '"') by {
        assert(json_of(c2, access).subrange(b4, b4 + l3.len()) == l3);
        assert(json_of(c2, access).subrange(b4, b4 + l3.len())[0] == j[b4]);
    }
    lemma_field_pin(j, o3, c1.iss, a4, c2.iss, b4);
    let o4 = a4;
    let o5 = o4 + l3.len();
    let a6 = o5 + dec_int(c1.iat).len();
    let b6 = o5 + dec_int(c2.iat).len();
    assert(!is_digit(j[a6])) by {
        assert(j.subrange(a6, a6 + l4.len()) == l4);
        assert(j.subrange(a6, a6 + l4.len())[0] == j[a6]);
        assert(l4[0] == ',');
    }
    assert(!is_digit(j[b6])) by {
        assert(json_of(c2, access).subrange(b6, b6 + l4.len()) == l4);
        assert(json_of(c2, access).subrange(b6, b6 + l4.len())[0] == j[b6]);
        assert(l4[0] == ',');
    }
    text::lemma_dec_int_shape(c1.iat);
    text::lemma_dec_int_shape(c2.iat);
    lemma_int_pin(j, o5, c1.iat, a6, c2.iat, b6);
    let o6 = a6;
    let o7 = o6 + l4.len();
    let a8 = o7 + dec_int(c1.exp).len();
    let b8 = o7 + dec_int(c2.exp).len();
    assert(!is_digit(j[a8])) by {
        assert(j.subrange(a8, a8 + l5.len()) == l5);
        assert(j.subrange(a8, a8 + l5.len())[0] == j[a8]);
        assert(l5[0] == ',');
    }
    assert(!is_digit(j[b8])) by {
        assert(json_of(c2, access).subrange(b8, b8 + l5.len()) == l5);
        assert(json_of(c2, access).subrange(b8, b8 + l5.len())[0] == j[b8]);
        assert(l5[0] == ',');
    }
    lemma_int_pin(j, o7, c1.exp, a8, c2.exp, b8);
    let o8 = a8;
    let o9 = o8 + l5.len();
    let a10 = o9 + c1.id.len();
    let b10 = o9 + c2.id.len();
    assert(j[a10] == '"') by {
        assert(j.subrange(a10, a10 + l6.len()) == l6);
        assert(j.subrange(a10, a10 + l6.len())[0] == j[a10]);
    }
    assert(j[b10] == '"') by {
        assert(json_of(c2, access).subrange(b10, b10 + l6.len()) == l6);
        assert(json_of(c2, access).subrange(b10, b10 + l6.len())[0] == j[b10]);
    }
    lemma_field_pin(j, o9, c1.id, a10, c2.id, b10);
    let o10 = a10;
    let o11 = o10 + l6.len();
    let a12 = o11 + c1.user_id.len();
    let b12 = o11 + c2.user_id.len();
    assert(j[a12] == '"') by {
        assert(j.subrange(a12, a12 + l7.len()) == l7);
        assert(j.subrange(a12, a12 + l7.len())[0] == j[a12]);
    }
    assert(j[b12] == '"') by {
        assert(json_of(c2, access).subrange(b12, b12 + l7.len()) == l7);
        assert(json_of(c2, access).subrange(b12, b12 + l7.len())[0] == j[b12]);
    }
    lemma_field_pin(j, o11, c1.user_id, a12, c2.user_id, b12);
    let o12 = a12;
    let o13 = o12 + l7.len();
    // the flag: the first character after the discriminator differs
    if c1.flag != c2.flag {
        let t = ("true}")@;
        let f = ("false}")@;
        if c1.flag {
            assert(j[o13] == 't') by {
                assert(j.subrange(o13, o13 + t.len()) == t);
                assert(j.subrange(o13, o13 + t.len())[0] == j[o13]);
            }
            assert(j[o13] == 'f') by {
                assert(json_of(c2, access).subrange(o13, o13 + f.len()) == f);
                assert(json_of(c2, access).subrange(o13, o13 + f.len())[0] == j[o13]);
            }
        } else {
            assert(j[o13] == 'f') by {
                assert(j.subrange(o13, o13 + f.len()) == f);
                assert(j.subrange(o13, o13 + f.len())[0] == j[o13]);
            }
            assert(j[o13] == 't') by {
                assert(json_of(c2, access).subrange(o13, o13 + t.len()) == t);
                assert(json_of(c2, access).subrange(o13, o13 + t.len())[0] == j[o13]);
            }
        }
    }
    assert(c1 =~= c2);
}

/// A canonical numeral of more than one digit never starts with `'0'`.
proof fn lemma_leading_zero(s: Seq<char>, pos: int, hs: int, hq: int, hv: int)
    requires
        0 <= pos <= hs < hq <= s.len(),
        s.subrange(pos, hq) == dec_int(hv),
        hs == if hv < 0 {
            pos + 1
        } else {
            pos
        },
        hq - hs > 1,
    ensures
        s[hs] != '0',
{
    lemma_run_value(s, pos, hs, hq, hv);
    text::lemma_dec_nat_shape(abs_of(hv) as nat);
    assert(s[hs] == s.subrange(hs, hq)[0]);
    if abs_of(hv) == 0 {
        assert(dec_nat(0).len() == 1);
    }
}

/// Parses the canonical payload text. Accepts a string exactly when it is
/// `json_of` some well-formed claim set; the parsed claims re-emit to the
/// input itself.
#[verifier::rlimit(100)]
pub fn parse_claims(s: &str, access: bool) -> (r: Option<Claims>)
    ensures
        r matches Some(c) ==> s@ == json_of(c@, access) && claims_wf(c@),
        wf_payload(s@, access) ==> r is Some,
{
    let ghost hyp = wf_payload(s@, access);
    let ghost hcv: ClaimsV = if hyp {
        choose|cv: ClaimsV| claims_wf(cv) && s@ == #[trigger] json_of(cv, access)
    } else {
        arbitrary()
    };
    proof {
        if hyp {
            lemma_json_decompose(hcv, access);
        }
        reveal_strlit("{\"sub\":\"");
        reveal_strlit("\",\"iss\":\"");
        reveal_strlit("\",\"iat\":");
        reveal_strlit(",\"exp\":");
        reveal_strlit(",\"id\":\"");
        reveal_strlit("\",\"user_id\":\"");
        reveal_strlit("\",\"_a\":");
        reveal_strlit("\",\"_r\":");
        reveal_strlit("true}");
        reveal_strlit("false}");
    }
    let ghost o1 = ("{\"sub\":\"")@.len() as int;
    let ghost o2 = o1 + hcv.sub.len();
    let ghost o3 = o2 + ("\",\"iss\":\"")@.len();
    let ghost o4 = o3 + hcv.iss.len();
    let ghost o5 = o4 + ("\",\"iat\":")@.len();
    let ghost o6 = o5 + dec_int(hcv.iat).len();
    let ghost o7 = o6 + (",\"exp\":")@.len();
    let ghost o8 = o7 + dec_int(hcv.exp).len();
    let ghost o9 = o8 + (",\"id\":\"")@.len();
    let ghost o10 = o9 + hcv.id.len();
    let ghost o11 = o10 + ("\",\"user_id\":\"")@.len();
    let ghost o12 = o11 + hcv.user_id.len();
    let ghost o13 = o12 + (if access { ("\",\"_a\":")@ } else { ("\",\"_r\":")@ }).len();
    let ghost o14 = o13 + (if hcv.flag { ("true}")@ } else { ("false}")@ }).len();
    let len = s.unicode_len();

    let p1 = match expect_lit(s, 0, "{\"sub\":\"") {
        Some(p) => p,
        None => {
            proof {
                if hyp {
                    assert(false);
                }
            }
            return None;
        },
    };
    proof {
        if hyp {
            assert(p1 == o1);
        }
    }
    let (sub, p2) = match scan_plain(s, p1) {
        Some(t) => t,
        None => {
            proof {
                if hyp {
                    assert(s@[o2] == '"') by {
                        assert(s@.subrange(o2, o3)[0] == s@[o2]);
                    }
                    assert(field_at(s@, p1 as int)) by {
                        assert(s@.subrange(p1 as int, o2) == hcv.sub);
                        assert(plain(s@.subrange(p1 as int, o2)));
                    }
                    assert(false);
                }
            }
            return None;
        },
    };
    proof {
        if hyp {
            assert(s@[o2] == '"') by {
                assert(s@.subrange(o2, o3)[0] == s@[o2]);
            }
            lemma_field_pin(s@, p1 as int, sub@, p2 as int, hcv.sub, o2);
            assert(p2 == o2 && sub@ == hcv.sub);
        }
    }
    let p3 = match expect_lit(s, p2, "\",\"iss\":\"") {
        Some(p) => p,
        None => {
            proof {
                if hyp {
                    assert(false);
                }
            }
            return None;
        },
    };
    proof {
        if hyp {
            assert(p3 == o3);
        }
    }
    let (iss, p4) = match scan_plain(s, p3) {
        Some(t) => t,
        None => {
            proof {
                if hyp {
                    assert(s@[o4] == '"') by {
                        assert(s@.subrange(o4, o5)[0] == s@[o4]);
                    }
                    assert(field_at(s@, p3 as int)) by {
                        assert(s@.subrange(p3 as int, o4) == hcv.iss);
                        assert(plain(s@.subrange(p3 as int, o4)));
                    }
                    assert(false);
                }
            }
            return None;
        },
    };
    proof {
        if hyp {
            assert(s@[o4] == '"') by {
                assert(s@.subrange(o4, o5)[0] == s@[o4]);
            }
            lemma_field_pin(s@, p3 as int, iss@, p4 as int, hcv.iss, o4);
            assert(p4 == o4 && iss@ == hcv.iss);
        }
    }
    let p5 = match expect_lit(s, p4, "\",\"iat\":") {
        Some(p) => p,
        None => {
            proof {
                if hyp {
                    assert(false);
                }
            }
            return None;
        },
    };
    proof {
        if hyp {
            assert(p5 == o5);
        }
    }
    let (iat, p6) = match scan_int(s, p5) {
        Some(t) => t,
        None => {
            proof {
                if hyp {
                    assert(!is_digit(s@[o6])) by {
                        assert(s@.subrange(o6, o7)[0] == s@[o6]);
                    }
                    assert(numeral_at(s@, p5 as int)) by {
                        let v: i64 = hcv.iat as i64;
                        assert(s@.subrange(p5 as int, o6) == dec_int(v as int));
                    }
                    assert(false);
                }
            }
            return None;
        },
    };
    proof {
        if hyp {
            assert(!is_digit(s@[o6])) by {
                assert(s@.subrange(o6, o7)[0] == s@[o6]);
            }
            lemma_int_pin(s@, p5 as int, iat as int, p6 as int, hcv.iat, o6);
            assert(p6 == o6 && iat == hcv.iat);
        }
    }
    let p7 = match expect_lit(s, p6, ",\"exp\":") {
        Some(p) => p,
        None => {
            proof {
                if hyp {
                    assert(false);
                }
            }
            return None;
        },
    };
    proof {
        if hyp {
            assert(p7 == o7);
        }
    }
    let (exp, p8) = match scan_int(s, p7) {
        Some(t) => t,
        None => {
            proof {
                if hyp {
                    assert(!is_digit(s@[o8])) by {
                        assert(s@.subrange(o8, o9)[0] == s@[o8]);
                    }
                    assert(numeral_at(s@, p7 as int)) by {
                        let v: i64 = hcv.exp as i64;
                        assert(s@.subrange(p7 as int, o8) == dec_int(v as int));
                    }
                    assert(false);
                }
            }
            return None;
        },
    };
    proof {
        if hyp {
            assert(!is_digit(s@[o8])) by {
                assert(s@.subrange(o8, o9)[0] == s@[o8]);
            }
            lemma_int_pin(s@, p7 as int, exp as int, p8 as int, hcv.exp, o8);
            assert(p8 == o8 && exp == hcv.exp);
        }
    }
    let p9 = match expect_lit(s, p8, ",\"id\":\"") {
        Some(p) => p,
        None => {
            proof {
                if hyp {
                    assert(false);
                }
            }
            return None;
        },
    };
    proof {
        if hyp {
            assert(p9 == o9);
        }
    }
    let (id, p10) = match scan_plain(s, p9) {
        Some(t) => t,
        None => {
            proof {
                if hyp {
                    assert(s@[o10] == '"') by {
                        assert(s@.subrange(o10, o11)[0] == s@[o10]);
                    }
                    assert(field_at(s@, p9 as int)) by {
                        assert(s@.subrange(p9 as int, o10) == hcv.id);
                        assert(plain(s@.subrange(p9 as int, o10)));
                    }
                    assert(false);
                }
            }
            return None;
        },
    };
    proof {
        if hyp {
            assert(s@[o10] == '"') by {
                assert(s@.subrange(o10, o11)[0] == s@[o10]);
            }
            lemma_field_pin(s@, p9 as int, id@, p10 as int, hcv.id, o10);
            assert(p10 == o10 && id@ == hcv.id);
        }
    }
    let p11 = match expect_lit(s, p10, "\",\"user_id\":\"") {
        Some(p) => p,
        None => {
            proof {
                if hyp {
                    assert(false);
                }
            }
            return None;
        },
    };
    proof {
        if hyp {
            assert(p11 == o11);
        }
    }
    let (user_id, p12) = match scan_plain(s, p11) {
        Some(t) => t,
        None => {
            proof {
                if hyp {
                    assert(s@[o12] == '"') by {
                        assert(s@.subrange(o12, o13)[0] == s@[o12]);
                    }
                    assert(field_at(s@, p11 as int)) by {
                        assert(s@.subrange(p11 as int, o12) == hcv.user_id);
                        assert(plain(s@.subrange(p11 as int, o12)));
                    }
                    assert(false);
                }
            }
            return None;
        },
    };
    proof {
        if hyp {
            assert(s@[o12] == '"') by {
                assert(s@.subrange(o12, o13)[0] == s@[o12]);
            }
            lemma_field_pin(s@, p11 as int, user_id@, p12 as int, hcv.user_id, o12);
            assert(p12 == o12 && user_id@ == hcv.user_id);
        }
    }
    let disc: &str = if access {
        "\",\"_a\":"
    } else {
        "\",\"_r\":"
    };
    let p13 = match expect_lit(s, p12, disc) {
        Some(p) => p,
        None => {
            proof {
                if hyp {
                    assert(false);
                }
            }
            return None;
        },
    };
    proof {
        if hyp {
            assert(p13 == o13);
        }
    }
    let (flag, end) = match expect_lit(s, p13, "true}") {
        Some(p) => {
            proof {
                if hyp && !hcv.flag {
                    assert(s@.subrange(p13 as int, p13 + 5) == ("true}")@);
                    assert(s@[o13] == ("false}")@[0]) by {
                        assert(s@.subrange(o13, o14)[0] == s@[o13]);
                    }
                    assert(s@[o13] == ("true}")@[0]) by {
                        assert(s@.subrange(p13 as int, p13 + 5)[0] == s@[p13 as int]);
                    }
                    assert(false);
                }
            }
            (true, p)
        },
        None => {
            match expect_lit(s, p13, "false}") {
                Some(p) => {
                    proof {
                        if hyp && hcv.flag {
                            assert(false);
                        }
                    }
                    (false, p)
                },
                None => {
                    proof {
                        if hyp {
                            assert(false);
                        }
                    }
                    return None;
                },
            }
        },
    };
    proof {
        if hyp {
            assert(flag == hcv.flag);
            assert(end == o14);
        }
    }
    if end != len {
        proof {
            if hyp {
                assert(o14 == s@.len());
                assert(false);
            }
        }
        return None;
    }
    let c = Claims { sub, iss, iat, exp, id, user_id, flag };
    let emitted = claims_text(&c, access);
    if !text::str_eq(s, emitted.as_str()) {
        proof {
            if hyp {
                assert(c@ =~= hcv);
                assert(false);
            }
        }
        return None;
    }
    proof {
        assert(s@ == json_of(c@, access));
    }
    Some(c)
}

} // verus!
