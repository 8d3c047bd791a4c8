//! Characters, decimal numerals and small string helpers that the token
//! payload codec is built on.

use vstd::prelude::*;

verus! {

/// A character that may stand unescaped inside a quoted field of a token
/// payload: anything but the quote itself and the escape character.
pub open spec fn plain_char(c: char) -> bool {
    c != '"' && c != '\\'
}

/// A string whose characters may all stand unescaped inside a quoted field.
pub open spec fn plain(s: Seq<char>) -> bool {
    forall|i: int| 0 <= i < s.len() ==> plain_char(#[trigger] s[i])
}

/// The character for one decimal digit value.
pub open spec fn digit_char(d: int) -> char {
    ((48 + d) as u8) as char
}

/// A string with no `'.'` in it: such strings never blur the segment
/// boundaries of a serialized token.
pub open spec fn dotless(s: Seq<char>) -> bool {
    forall|i: int| 0 <= i < s.len() ==> #[trigger] s[i] != '.'
}

pub open spec fn is_digit(c: char) -> bool {
    48 <= c as int <= 57
}

pub open spec fn digit_val(c: char) -> int {
    c as int - 48
}

/// The decimal numeral of a natural number, most significant digit first.
pub open spec fn dec_nat(n: nat) -> Seq<char>
    decreases n,
{
    if n < 10 {
        seq![digit_char(n as int)]
    } else {
        dec_nat(n / 10).push(digit_char((n % 10) as int))
    }
}

/// The decimal numeral of an integer, with a leading minus sign when negative.
pub open spec fn dec_int(v: int) -> Seq<char> {
    if v < 0 {
        seq!['-'] + dec_nat((-v) as nat)
    } else {
        dec_nat(v as nat)
    }
}

/// The value read back from a sequence of digit characters.
pub open spec fn val_of(s: Seq<char>) -> int
    decreases s.len(),
{
    if s.len() == 0 {
        0
    } else {
        val_of(s.drop_last()) * 10 + digit_val(s.last())
    }
}

pub open spec fn all_digits(s: Seq<char>) -> bool {
    forall|i: int| 0 <= i < s.len() ==> is_digit(#[trigger] s[i])
}

pub proof fn lemma_dec_nat_shape(n: nat)
    ensures
        dec_nat(n).len() >= 1,
        all_digits(dec_nat(n)),
        n >= 1 ==> dec_nat(n)[0] != '0',
        n == 0 ==> dec_nat(n) =~= seq!['0'],
        plain(dec_nat(n)),
    decreases n,
{
    if n < 10 {
        assert(dec_nat(n) =~= seq![digit_char(n as int)]);
        assert(is_digit(digit_char(n as int)));
        assert(forall|d: int| 0 <= d < 10 ==> is_digit(#[trigger] digit_char(d)));
        assert(forall|d: int| 1 <= d < 10 ==> #[trigger] digit_char(d) != '0');
        assert(forall|d: int| 0 <= d < 10 ==> plain_char(#[trigger] digit_char(d)));
    } else {
        lemma_dec_nat_shape(n / 10);
        assert(0 <= n % 10 < 10);
        assert(is_digit(digit_char((n % 10) as int)));
        assert(forall|d: int| 0 <= d < 10 ==> is_digit(#[trigger] digit_char(d)));
        assert(forall|d: int| 0 <= d < 10 ==> plain_char(#[trigger] digit_char(d)));
        let s = dec_nat(n);
        assert(s == dec_nat(n / 10).push(digit_char((n % 10) as int)));
        assert forall|i: int| 0 <= i < s.len() implies is_digit(#[trigger] s[i]) by {
            if i < s.len() - 1 {
                assert(s[i] == dec_nat(n / 10)[i]);
            }
        }
        assert forall|i: int| 0 <= i < s.len() implies plain_char(#[trigger] s[i]) by {
            if i < s.len() - 1 {
                assert(s[i] == dec_nat(n / 10)[i]);
            }
        }
        assert(s[0] == dec_nat(n / 10)[0]);
    }
}

pub proof fn lemma_val_of_dec_nat(n: nat)
    ensures
        val_of(dec_nat(n)) == n,
    decreases n,
{
    if n < 10 {
        let s = dec_nat(n);
        assert(s =~= seq![digit_char(n as int)]);
        assert(s.drop_last() =~= Seq::<char>::empty());
        assert(val_of(Seq::<char>::empty()) == 0);
        assert(forall|d: int| 0 <= d < 10 ==> digit_val(#[trigger] digit_char(d)) == d);
        assert(val_of(s) == val_of(s.drop_last()) * 10 + digit_val(s.last()));
    } else {
        lemma_val_of_dec_nat(n / 10);
        let s = dec_nat(n);
        assert(s.drop_last() =~= dec_nat(n / 10));
        assert(s.last() == digit_char((n % 10) as int));
        assert(forall|d: int| 0 <= d < 10 ==> digit_val(#[trigger] digit_char(d)) == d);
        assert(val_of(s) == val_of(s.drop_last()) * 10 + digit_val(s.last()));
        assert(val_of(s) == n / 10 * 10 + n % 10);
    }
}

pub proof fn lemma_val_of_nonneg(s: Seq<char>)
    requires
        all_digits(s),
    ensures
        val_of(s) >= 0,
    decreases s.len(),
{
    if s.len() > 0 {
        assert(all_digits(s.drop_last())) by {
            assert(forall|i: int| 0 <= i < s.len() - 1 ==> s.drop_last()[i] == #[trigger] s[i]);
        }
        lemma_val_of_nonneg(s.drop_last());
        assert(is_digit(s.last()));
    }
}

/// Reading back only a prefix of a digit string never overshoots the value of
/// the whole string.
pub proof fn lemma_val_of_take_le(s: Seq<char>, i: int)
    requires
        all_digits(s),
        0 <= i <= s.len(),
    ensures
        val_of(s.take(i)) <= val_of(s),
    decreases s.len() - i,
{
    if i < s.len() {
        lemma_val_of_take_le(s, i + 1);
        let t = s.take(i + 1);
        assert(t.drop_last() =~= s.take(i));
        assert(all_digits(s.take(i))) by {
            assert(forall|j: int| 0 <= j < i ==> s.take(i)[j] == #[trigger] s[j]);
        }
        lemma_val_of_nonneg(s.take(i));
        assert(is_digit(t.last()));
        assert(val_of(t) == val_of(s.take(i)) * 10 + digit_val(t.last()));
    } else {
        assert(s.take(i) =~= s);
    }
}

/// Two decimal numerals with the same value are the same string.
pub proof fn lemma_dec_nat_injective(m: nat, n: nat)
    requires
        dec_nat(m) == dec_nat(n),
    ensures
        m == n,
{
    lemma_val_of_dec_nat(m);
    lemma_val_of_dec_nat(n);
}

pub proof fn lemma_divmod_digit(q: int, d: int)
    by (nonlinear_arith)
    requires
        q >= 0,
        0 <= d < 10,
    ensures
        (q * 10 + d) / 10 == q,
        (q * 10 + d) % 10 == d,
{
}

pub proof fn lemma_digit_roundtrip(c: char)
    requires
        is_digit(c),
    ensures
        digit_char(digit_val(c)) == c,
{
    assert(48 + (c as int - 48) == c as int);
}

/// A digit string that does not start with `'0'` reads back as a positive
/// value.
pub proof fn lemma_val_pos(s: Seq<char>)
    requires
        all_digits(s),
        s.len() >= 1,
        s[0] != '0',
    ensures
        val_of(s) >= 1,
{
    lemma_val_of_take_le(s, 1);
    assert(s.take(1).drop_last() =~= Seq::<char>::empty());
    assert(s.take(1).last() == s[0]);
    assert(val_of(Seq::<char>::empty()) == 0);
    assert(val_of(s.take(1)) == digit_val(s[0]));
    assert(is_digit(s[0]));
    assert(digit_val(s[0]) >= 1) by {
        if digit_val(s[0]) == 0 {
            lemma_digit_roundtrip(s[0]);
            assert(digit_char(0) == '0');
        }
    }
}

/// A canonical digit string (no leading zero unless it is exactly "0") is
/// the decimal numeral of the value it reads back as.
pub proof fn lemma_canonical_digits(s: Seq<char>)
    requires
        all_digits(s),
        s.len() >= 1,
        s.len() == 1 || s[0] != '0',
    ensures
        val_of(s) >= 0,
        dec_nat(val_of(s) as nat) == s,
    decreases s.len(),
{
    lemma_val_of_nonneg(s);
    if s.len() == 1 {
        assert(val_of(s) == digit_val(s.last())) by {
            assert(s.drop_last() =~= Seq::<char>::empty());
            assert(val_of(Seq::<char>::empty()) == 0);
        }
        lemma_digit_roundtrip(s[0]);
        assert(dec_nat(val_of(s) as nat) =~= s);
    } else {
        let t = s.drop_last();
        let d = digit_val(s.last());
        assert(all_digits(t)) by {
            assert(forall|i: int| 0 <= i < t.len() ==> t[i] == #[trigger] s[i]);
        }
        assert(t[0] == s[0]);
        lemma_canonical_digits(t);
        lemma_val_pos(t);
        let v = val_of(s);
        assert(v == val_of(t) * 10 + d);
        assert(is_digit(s.last()));
        lemma_divmod_digit(val_of(t), d);
        assert(v / 10 == val_of(t));
        assert(v % 10 == d);
        assert(v >= 10) by {
            assert(val_of(t) >= 1);
            assert(val_of(t) * 10 >= 10) by (nonlinear_arith)
                requires
                    val_of(t) >= 1,
            ;
        }
        lemma_digit_roundtrip(s.last());
        assert(dec_nat(v as nat) == dec_nat((v / 10) as nat).push(digit_char(v % 10)));
        assert(dec_nat(v as nat) =~= s);
    }
}

/// Everything after a possible leading minus sign in a decimal numeral is a
/// digit, the first character tells the sign, and the whole text is plain.
pub proof fn lemma_dec_int_shape(v: int)
    ensures
        dec_int(v).len() >= 1,
        plain(dec_int(v)),
        v >= 0 ==> all_digits(dec_int(v)) && dec_int(v) == dec_nat(v as nat),
        v < 0 ==> dec_int(v) == seq!['-'] + dec_nat((-v) as nat) && dec_int(v)[0] == '-'
            && !is_digit(dec_int(v)[0]),
        forall|i: int| 1 <= i < dec_int(v).len() ==> is_digit(#[trigger] dec_int(v)[i]),
        v >= 1 ==> dec_int(v)[0] != '0',
        v >= 0 ==> val_of(dec_int(v)) == v,
{
    if v < 0 {
        lemma_dec_nat_shape((-v) as nat);
        let s = dec_int(v);
        assert(s[0] == '-');
        assert(!is_digit('-'));
        assert(plain_char('-'));
        assert forall|i: int| 1 <= i < s.len() implies is_digit(#[trigger] s[i]) by {
            assert(s[i] == dec_nat((-v) as nat)[i - 1]);
        }
        assert forall|i: int| 0 <= i < s.len() implies plain_char(#[trigger] s[i]) by {
            if i >= 1 {
                assert(s[i] == dec_nat((-v) as nat)[i - 1]);
            }
        }
    } else {
        lemma_dec_nat_shape(v as nat);
        lemma_val_of_dec_nat(v as nat);
    }
}

/// Two decimal numerals that are the same string stand for the same value.
pub proof fn lemma_dec_int_injective(a: int, b: int)
    requires
        dec_int(a) == dec_int(b),
    ensures
        a == b,
{
    lemma_dec_int_shape(a);
    lemma_dec_int_shape(b);
    if a >= 0 && b >= 0 {
        lemma_val_of_dec_nat(a as nat);
        lemma_val_of_dec_nat(b as nat);
    } else if a < 0 && b < 0 {
        assert(dec_nat((-a) as nat) =~= dec_nat((-b) as nat)) by {
            let s = dec_int(a);
            assert(forall|i: int|
                0 <= i < s.len() - 1 ==> #[trigger] dec_nat((-a) as nat)[i] == s[i + 1]);
            assert(forall|i: int|
                0 <= i < s.len() - 1 ==> #[trigger] dec_nat((-b) as nat)[i] == s[i + 1]);
        }
        lemma_dec_nat_injective((-a) as nat, (-b) as nat);
    } else if a < 0 {
        assert(dec_int(a)[0] == '-');
        assert(is_digit(dec_int(b)[0]));
        assert(!is_digit('-'));
    } else {
        assert(dec_int(b)[0] == '-');
        assert(is_digit(dec_int(a)[0]));
        assert(!is_digit('-'));
    }
}

/// Two maximal digit runs that start at the same place end at the same
/// place.
pub proof fn lemma_digit_run_pin(s: Seq<char>, start: int, i: int, q: int)
    requires
        0 <= start <= i <= s.len(),
        start <= q <= s.len(),
        all_digits(s.subrange(start, i)),
        i == s.len() || !is_digit(s[i]),
        all_digits(s.subrange(start, q)),
        q == s.len() || !is_digit(s[q]),
    ensures
        q == i,
{
    if q < i {
        assert(is_digit(s.subrange(start, i)[q - start]));
        assert(s.subrange(start, i)[q - start] == s[q]);
    } else if q > i {
        assert(is_digit(s.subrange(start, q)[i - start]));
        assert(s.subrange(start, q)[i - start] == s[i]);
    }
}

/// Appends one character. Relies on `String::push` from std.
#[verifier::external_body]
pub fn push_char(s: &mut String, c: char)
    ensures
        final(s)@ == old(s)@.push(c),
{
    s.push(c);
}

/// The decimal numeral of `n`, as executable text.
pub fn nat_to_dec(n: u64) -> (r: String)
    ensures
        r@ == dec_nat(n as nat),
    decreases n,
{
    if n < 10 {
        let mut s = String::new();
        push_char(&mut s, (48u8 + n as u8) as char);
        proof {
            assert(s@ =~= dec_nat(n as nat));
        }
        s
    } else {
        let mut s = nat_to_dec(n / 10);
        push_char(&mut s, (48u8 + (n % 10) as u8) as char);
        proof {
            assert(s@ =~= dec_nat(n as nat));
        }
        s
    }
}

/// The decimal numeral of `v`, minus sign included, as executable text.
pub fn int_to_dec(v: i64) -> (r: String)
    ensures
        r@ == dec_int(v as int),
{
    if v >= 0 {
        nat_to_dec(v as u64)
    } else {
        let m: u64 = if v == i64::MIN {
            9223372036854775808u64
        } else {
            (-v) as u64
        };
        assert(m as int == -(v as int));
        let mut s = String::new();
        push_char(&mut s, '-');
        let digits = nat_to_dec(m);
        s.append(digits.as_str());
        proof {
            assert(s@ =~= dec_int(v as int));
        }
        s
    }
}

/// Whether every character of `s` may stand unescaped in a quoted field.
pub fn str_is_plain(s: &str) -> (r: bool)
    ensures
        r == plain(s@),
{
    let len = s.unicode_len();
    let mut i: usize = 0;
    while i < len
        invariant
            i <= len,
            len == s@.len(),
            forall|j: int| 0 <= j < i ==> plain_char(#[trigger] s@[j]),
        decreases len - i,
    {
        let c = s.get_char(i);
        if c == '"' || c == '\\' {
            return false;
        }
        i += 1;
    }
    true
}

/// Character-for-character equality of two string slices.
pub fn str_eq(a: &str, b: &str) -> (r: bool)
    ensures
        r == (a@ == b@),
{
    let la = a.unicode_len();
    let lb = b.unicode_len();
    if la != lb {
        return false;
    }
    let mut i: usize = 0;
    while i < la
        invariant
            la == a@.len(),
            lb == b@.len(),
            la == lb,
            i <= la,
            forall|j: int| 0 <= j < i ==> a@[j] == b@[j],
        decreases la - i,
    {
        if a.get_char(i) != b.get_char(i) {
            return false;
        }
        i += 1;
    }
    proof {
        assert(a@ =~= b@);
    }
    true
}

} // verus!
