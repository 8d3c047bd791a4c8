//! Cookie reading and `Set-Cookie` writing. Transport glue: the session
//! logic never parses headers itself, it is handed the cookie values.

use vstd::prelude::*;

use crate::text;
use crate::text::dec_int;

verus! {

/// The index of the first `c` in `s`, or the length when there is none.
pub open spec fn find_char(s: Seq<char>, c: char) -> int
    decreases s.len(),
{
    if s.len() == 0 {
        0
    } else if s[0] == c {
        0
    } else {
        1 + find_char(s.drop_first(), c)
    }
}

proof fn lemma_find_char_at(s: Seq<char>, c: char, i: int)
    requires
        0 <= i <= s.len(),
        forall|j: int| 0 <= j < i ==> s[j] != c,
        i == s.len() || s[i] == c,
    ensures
        find_char(s, c) == i,
    decreases i,
{
    if s.len() > 0 && i > 0 {
        assert(s[0] != c);
        assert forall|j: int| 0 <= j < i - 1 implies s.drop_first()[j] != c by {
            assert(s.drop_first()[j] == s[j + 1]);
        }
        if i - 1 < s.drop_first().len() {
            assert(s.drop_first()[i - 1] == s[i]);
        }
        lemma_find_char_at(s.drop_first(), c, i - 1);
    }
}

/// How many spaces `s` starts with.
pub open spec fn lead_spaces(s: Seq<char>) -> int
    decreases s.len(),
{
    if s.len() > 0 && s[0] == ' ' {
        1 + lead_spaces(s.drop_first())
    } else {
        0
    }
}

/// How many spaces `s` ends with.
pub open spec fn trail_spaces(s: Seq<char>) -> int
    decreases s.len(),
{
    if s.len() > 0 && s.last() == ' ' {
        1 + trail_spaces(s.drop_last())
    } else {
        0
    }
}

/// `s` without its leading and trailing spaces.
pub open spec fn trim_sp(s: Seq<char>) -> Seq<char> {
    if lead_spaces(s) == s.len() {
        Seq::<char>::empty()
    } else {
        s.subrange(lead_spaces(s), s.len() - trail_spaces(s))
    }
}

proof fn lemma_lead_spaces_at(s: Seq<char>, i: int)
    requires
        0 <= i <= s.len(),
        forall|j: int| 0 <= j < i ==> s[j] == ' ',
        i == s.len() || s[i] != ' ',
    ensures
        lead_spaces(s) == i,
    decreases i,
{
    if s.len() > 0 && i > 0 {
        assert(s[0] == ' ');
        assert forall|j: int| 0 <= j < i - 1 implies s.drop_first()[j] == ' ' by {
            assert(s.drop_first()[j] == s[j + 1]);
        }
        if i - 1 < s.drop_first().len() {
            assert(s.drop_first()[i - 1] == s[i]);
        }
        lemma_lead_spaces_at(s.drop_first(), i - 1);
    }
}

proof fn lemma_trail_spaces_at(s: Seq<char>, i: int)
    requires
        0 <= i <= s.len(),
        forall|j: int| s.len() - i <= j < s.len() ==> s[j] == ' ',
        i == s.len() || s[s.len() - i - 1] != ' ',
    ensures
        trail_spaces(s) == i,
    decreases i,
{
    if s.len() > 0 && i > 0 {
        assert(s.last() == ' ');
        let t = s.drop_last();
        assert forall|j: int| t.len() - (i - 1) <= j < t.len() implies t[j] == ' ' by {
            assert(t[j] == s[j]);
        }
        if i - 1 < t.len() {
            assert(t[t.len() - (i - 1) - 1] == s[s.len() - i - 1]);
        }
        lemma_trail_spaces_at(t, i - 1);
    }
}

/// One `;`-separated item of a cookie header: the name before the first
/// `=`, trimmed of spaces, and everything after that `=` as the value. An
/// item with no `=` names an empty value.
pub open spec fn entry_of(p: Seq<char>) -> (Seq<char>, Seq<char>) {
    let i = find_char(p, '=');
    if i == p.len() {
        (trim_sp(p), Seq::<char>::empty())
    } else {
        (trim_sp(p.take(i)), p.skip(i + 1))
    }
}

/// The entries of a cookie header, one per `;`-separated item, in order.
pub open spec fn cookie_entries(s: Seq<char>) -> Seq<(Seq<char>, Seq<char>)>
    decreases s.len(),
{
    let i = find_char(s, ';');
    if 0 <= i < s.len() {
        seq![entry_of(s.take(i))] + cookie_entries(s.skip(i + 1))
    } else {
        seq![entry_of(s)]
    }
}

/// The value under `key`, later entries overriding earlier ones.
pub open spec fn cookie_find(s: Seq<(Seq<char>, Seq<char>)>, key: Seq<char>) -> Option<Seq<char>>
    decreases s.len(),
{
    if s.len() == 0 {
        None
    } else if s.last().0 == key {
        Some(s.last().1)
    } else {
        cookie_find(s.drop_last(), key)
    }
}

/// All entries under `key` dropped, order kept.
pub open spec fn cookie_remove(s: Seq<(Seq<char>, Seq<char>)>, key: Seq<char>) -> Seq<
    (Seq<char>, Seq<char>),
>
    decreases s.len(),
{
    if s.len() == 0 {
        s
    } else if s.last().0 == key {
        cookie_remove(s.drop_last(), key)
    } else {
        cookie_remove(s.drop_last(), key).push(s.last())
    }
}

pub proof fn lemma_cookie_remove(s: Seq<(Seq<char>, Seq<char>)>, key: Seq<char>, k2: Seq<char>)
    ensures
        cookie_find(cookie_remove(s, key), key) is None,
        k2 != key ==> cookie_find(cookie_remove(s, key), k2) == cookie_find(s, k2),
    decreases s.len(),
{
    if s.len() > 0 {
        lemma_cookie_remove(s.drop_last(), key, k2);
        if s.last().0 != key {
            let t = cookie_remove(s.drop_last(), key).push(s.last());
            assert(t.drop_last() =~= cookie_remove(s.drop_last(), key));
            assert(t.last() == s.last());
        }
    }
}

/// The first `c` at or after `from`.
fn scan_char(s: &str, from: usize, c: char) -> (r: Option<usize>)
    requires
        from <= s@.len(),
    ensures
        r matches Some(i) ==> from <= i < s@.len() && s@[i as int] == c && (forall|j: int|
            from <= j < i ==> s@[j] != c),
        r is None ==> forall|j: int| from <= j < s@.len() ==> s@[j] != c,
{
    let len = s.unicode_len();
    let mut i: usize = from;
    while i < len
        invariant
            from <= i <= len,
            len == s@.len(),
            forall|j: int| from <= j < i ==> s@[j] != c,
        decreases len - i,
    {
        if s.get_char(i) == c {
            return Some(i);
        }
        i += 1;
    }
    None
}

/// Trims ASCII spaces from both ends.
fn trim_spaces(s: &str) -> (r: String)
    ensures
        r@ == trim_sp(s@),
{
    let len = s.unicode_len();
    let mut start: usize = 0;
    while start < len && s.get_char(start) == ' '
        invariant
            start <= len,
            len == s@.len(),
            forall|j: int| 0 <= j < start ==> s@[j] == ' ',
        decreases len - start,
    {
        start += 1;
    }
    proof {
        lemma_lead_spaces_at(s@, start as int);
    }
    if start == len {
        proof {
            assert(trim_sp(s@) =~= Seq::<char>::empty());
        }
        return String::new();
    }
    let mut end: usize = len;
    while end > start && s.get_char(end - 1) == ' '
        invariant
            start <= end <= len,
            len == s@.len(),
            forall|j: int| end <= j < len ==> s@[j] == ' ',
        decreases end,
    {
        end -= 1;
    }
    proof {
        lemma_trail_spaces_at(s@, len - end);
    }
    let mut out = String::new();
    let mut i: usize = start;
    while i < end
        invariant
            start <= i <= end <= len,
            len == s@.len(),
            out@ == s@.subrange(start as int, i as int),
        decreases end - i,
    {
        text::push_char(&mut out, s.get_char(i));
        proof {
            assert(s@.subrange(start as int, i + 1) =~= s@.subrange(start as int, i as int).push(
                s@[i as int],
            ));
        }
        i += 1;
    }
    proof {
        assert(out@ =~= trim_sp(s@));
    }
    out
}

/// Reads one `;`-separated item into its entry.
fn parse_entry(p: &str) -> (r: (String, String))
    ensures
        (r.0@, r.1@) == entry_of(p@),
{
    let len = p.unicode_len();
    match scan_char(p, 0, '=') {
        Some(e) => {
            proof {
                lemma_find_char_at(p@, '=', e as int);
            }
            let key_raw = p.substring_char(0, e);
            let value = p.substring_char(e + 1, len);
            proof {
                assert(key_raw@ =~= p@.take(e as int));
                assert(value@ =~= p@.skip(e + 1));
            }
            (trim_spaces(key_raw), value.to_owned())
        },
        None => {
            proof {
                lemma_find_char_at(p@, '=', p@.len() as int);
            }
            (trim_spaces(p), String::new())
        },
    }
}

/// The cookies of one request, as key and value pairs in the order they
/// stood in the header.
pub struct Cookie {
    entries: Vec<(String, String)>,
}

impl View for Cookie {
    type V = Seq<(Seq<char>, Seq<char>)>;

    closed spec fn view(&self) -> Seq<(Seq<char>, Seq<char>)> {
        self.entries@.map_values(|p: (String, String)| (p.0@, p.1@))
    }
}

impl Cookie {
    /// Splits a `Cookie` header: one entry per `;`-separated item, each
    /// the item's trimmed name and the text after its first `=`.
    pub fn parse(cookie_str: &str) -> (r: Cookie)
        ensures
            r@ == cookie_entries(cookie_str@),
    {
        let len = cookie_str.unicode_len();
        let mut entries: Vec<(String, String)> = Vec::new();
        let mut pos: usize = 0;
        proof {
            assert(cookie_str@.skip(0) =~= cookie_str@);
            assert(entries@.map_values(|p: (String, String)| (p.0@, p.1@)) =~= Seq::<
                (Seq<char>, Seq<char>),
            >::empty());
        }
        loop
            invariant_except_break
                cookie_entries(cookie_str@) =~= entries@.map_values(
                    |p: (String, String)| (p.0@, p.1@),
                ) + cookie_entries(cookie_str@.skip(pos as int)),
            invariant
                pos <= len,
                len == cookie_str@.len(),
            ensures
                entries@.map_values(|p: (String, String)| (p.0@, p.1@)) == cookie_entries(
                    cookie_str@,
                ),
            decreases len - pos,
        {
            let ghost t = cookie_str@.skip(pos as int);
            match scan_char(cookie_str, pos, ';') {
                Some(q) => {
                    proof {
                        assert forall|j: int| 0 <= j < q - pos implies t[j] != ';' by {
                            assert(t[j] == cookie_str@[pos + j]);
                        }
                        assert(t[q - pos] == cookie_str@[q as int]);
                        lemma_find_char_at(t, ';', q - pos);
                    }
                    let piece = cookie_str.substring_char(pos, q);
                    let entry = parse_entry(piece);
                    let ghost ev = (entry.0@, entry.1@);
                    let ghost before = entries@.map_values(|p: (String, String)| (p.0@, p.1@));
                    entries.push(entry);
                    proof {
                        assert(piece@ =~= t.take(q - pos));
                        assert(entry_of(t.take(q - pos)) == ev);
                        assert(cookie_entries(t) == seq![ev] + cookie_entries(t.skip(q - pos + 1)));
                        assert(t.skip(q - pos + 1) =~= cookie_str@.skip(q + 1));
                        assert(entries@.map_values(|p: (String, String)| (p.0@, p.1@))
                            =~= before.push(ev));
                        assert(before + cookie_entries(t) =~= before.push(ev) + cookie_entries(
                            cookie_str@.skip(q + 1),
                        ));
                        assert(cookie_entries(cookie_str@) =~= entries@.map_values(
                            |p: (String, String)| (p.0@, p.1@),
                        ) + cookie_entries(cookie_str@.skip(q + 1)));
                    }
                    pos = q + 1;
                },
                None => {
                    proof {
                        assert forall|j: int| 0 <= j < t.len() implies t[j] != ';' by {
                            assert(t[j] == cookie_str@[pos + j]);
                        }
                        lemma_find_char_at(t, ';', t.len() as int);
                    }
                    let piece = cookie_str.substring_char(pos, len);
                    let entry = parse_entry(piece);
                    let ghost ev = (entry.0@, entry.1@);
                    let ghost before = entries@.map_values(|p: (String, String)| (p.0@, p.1@));
                    entries.push(entry);
                    proof {
                        assert(piece@ =~= t);
                        assert(entry_of(t) == ev);
                        assert(cookie_entries(t) =~= seq![ev]);
                        assert(entries@.map_values(|p: (String, String)| (p.0@, p.1@))
                            =~= before.push(ev));
                        assert(before + cookie_entries(t) =~= before.push(ev));
                        assert(entries@.map_values(|p: (String, String)| (p.0@, p.1@))
                            =~= cookie_entries(cookie_str@));
                    }
                    break ;
                },
            }
        }
        Cookie { entries }
    }

    /// Reads the value stored under `key`.
    pub fn get(&self, key: &str) -> (r: Option<&str>)
        ensures
            r matches Some(v) ==> cookie_find(self@, key@) == Some(v@),
            r is None ==> cookie_find(self@, key@) is None,
    {
        let n = self.entries.len();
        let mut i: usize = 0;
        let mut found: Option<usize> = None;
        proof {
            assert(self@.take(0) =~= Seq::<(Seq<char>, Seq<char>)>::empty());
        }
        while i < n
            invariant
                i <= n,
                n == self@.len(),
                match found {
                    Some(j) => j < i && cookie_find(self@.take(i as int), key@) == Some(
                        self@[j as int].1,
                    ),
                    None => cookie_find(self@.take(i as int), key@) is None,
                },
            decreases n - i,
        {
            proof {
                assert(self@.take(i + 1).drop_last() =~= self@.take(i as int));
                assert(self@.take(i + 1).last() == self@[i as int]);
            }
            if text::str_eq(self.entries[i].0.as_str(), key) {
                found = Some(i);
            }
            i += 1;
        }
        proof {
            assert(self@.take(n as int) =~= self@);
        }
        match found {
            Some(j) => Some(self.entries[j].1.as_str()),
            None => None,
        }
    }

    /// Takes the value stored under `key` out of the cookie set.
    pub fn take(&mut self, key: &str) -> (r: Option<String>)
        ensures
            r matches Some(v) ==> cookie_find(old(self)@, key@) == Some(v@),
            r is None ==> cookie_find(old(self)@, key@) is None,
            final(self)@ == cookie_remove(old(self)@, key@),
    {
        let n = self.entries.len();
        let mut kept: Vec<(String, String)> = Vec::new();
        let mut taken: Option<String> = None;
        let mut i: usize = 0;
        proof {
            assert(old(self)@.take(0) =~= Seq::<(Seq<char>, Seq<char>)>::empty());
            assert(kept@.map_values(|p: (String, String)| (p.0@, p.1@)) =~= cookie_remove(
                old(self)@.take(0),
                key@,
            ));
        }
        while i < n
            invariant
                i <= n,
                n == self@.len(),
                self@ == old(self)@,
                self@.len() == self.entries@.len(),
                kept@.map_values(|p: (String, String)| (p.0@, p.1@)) == cookie_remove(
                    self@.take(i as int),
                    key@,
                ),
                match taken {
                    Some(v) => cookie_find(self@.take(i as int), key@) == Some(v@),
                    None => cookie_find(self@.take(i as int), key@) is None,
                },
            decreases n - i,
        {
            proof {
                assert(self@.take(i + 1).drop_last() =~= self@.take(i as int));
                assert(self@.take(i + 1).last() == self@[i as int]);
            }
            let (k, v) = (self.entries[i].0.clone(), self.entries[i].1.clone());
            proof {
                assert((k@, v@) == self@[i as int]);
            }
            if text::str_eq(k.as_str(), key) {
                taken = Some(v);
            } else {
                kept.push((k, v));
                proof {
                    assert(kept@.map_values(|p: (String, String)| (p.0@, p.1@)) =~= cookie_remove(
                        self@.take(i + 1),
                        key@,
                    ));
                }
            }
            i += 1;
        }
        proof {
            assert(self@.take(n as int) =~= self@);
        }
        self.entries = kept;
        taken
    }
}

/// How one `Set-Cookie` value is written.
#[derive(Clone)]
pub struct SetCookieOptions {
    pub http_only: bool,
    pub secure: bool,
    /// Seconds.
    pub max_age: Option<i64>,
    pub domain: Option<String>,
}

#[verifier::ext_equal]
pub ghost struct SetCookieOptionsV {
    pub http_only: bool,
    pub secure: bool,
    pub max_age: Option<int>,
    pub domain: Option<Seq<char>>,
}

impl View for SetCookieOptions {
    type V = SetCookieOptionsV;

    open spec fn view(&self) -> SetCookieOptionsV {
        SetCookieOptionsV {
            http_only: self.http_only,
            secure: self.secure,
            max_age: match self.max_age {
                Some(a) => Some(a as int),
                None => None,
            },
            domain: match self.domain {
                Some(d) => Some(d@),
                None => None,
            },
        }
    }
}

impl SetCookieOptions {
    pub fn new() -> (r: SetCookieOptions)
        ensures
            r@ == (SetCookieOptionsV {
                http_only: false,
                secure: false,
                max_age: None::<int>,
                domain: None::<Seq<char>>,
            }),
    {
        SetCookieOptions { http_only: false, secure: false, max_age: None, domain: None }
    }

    pub fn http_only(self, http_only: bool) -> (r: SetCookieOptions)
        ensures
            r@ == (SetCookieOptionsV { http_only, ..self@ }),
    {
        SetCookieOptions { http_only, ..self }
    }

    pub fn secure(self, secure: bool) -> (r: SetCookieOptions)
        ensures
            r@ == (SetCookieOptionsV { secure, ..self@ }),
    {
        SetCookieOptions { secure, ..self }
    }

    pub fn max_age(self, max_age: i64) -> (r: SetCookieOptions)
        ensures
            r@ == (SetCookieOptionsV { max_age: Some(max_age as int), ..self@ }),
    {
        SetCookieOptions { max_age: Some(max_age), ..self }
    }

    pub fn domain(self, domain: String) -> (r: SetCookieOptions)
        ensures
            r@ == (SetCookieOptionsV { domain: Some(domain@), ..self@ }),
    {
        SetCookieOptions { domain: Some(domain), ..self }
    }

    /// A copy that keeps every field, as the contracts can see.
    pub fn copy_options(&self) -> (r: SetCookieOptions)
        ensures
            r@ == self@,
    {
        SetCookieOptions {
            http_only: self.http_only,
            secure: self.secure,
            max_age: self.max_age,
            domain: match &self.domain {
                Some(d) => Some(d.clone()),
                None => None,
            },
        }
    }
}

/// The text of one `Set-Cookie` header value.
pub open spec fn set_cookie_text(key: Seq<char>, value: Seq<char>, o: SetCookieOptionsV) -> Seq<
    char,
> {
    key + ("=")@ + value + (match o.domain {
        Some(d) => ("; Domain=")@ + d,
        None => Seq::<char>::empty(),
    }) + (match o.max_age {
        Some(a) => ("; Max-Age=")@ + dec_int(a),
        None => Seq::<char>::empty(),
    }) + (if o.http_only {
        ("; HttpOnly")@
    } else {
        Seq::<char>::empty()
    }) + (if o.secure {
        ("; Secure")@
    } else {
        Seq::<char>::empty()
    })
}

/// Writes one `Set-Cookie` value.
pub fn fmt(key: &str, value: &str, options: &SetCookieOptions) -> (r: String)
    ensures
        r@ == set_cookie_text(key@, value@, options@),
{
    let mut s = String::new();
    s.append(key);
    s.append("=");
    s.append(value);
    match &options.domain {
        Some(d) => {
            s.append("; Domain=");
            s.append(d.as_str());
        },
        None => {
        },
    }
    match options.max_age {
        Some(a) => {
            s.append("; Max-Age=");
            let n = text::int_to_dec(a);
            s.append(n.as_str());
        },
        None => {
        },
    }
    if options.http_only {
        s.append("; HttpOnly");
    }
    if options.secure {
        s.append("; Secure");
    }
    proof {
        assert(s@ =~= set_cookie_text(key@, value@, options@));
    }
    s
}

/// One header the response will carry: key, value and writing options.
#[verifier::ext_equal]
pub ghost struct SetEntryV {
    pub key: Seq<char>,
    pub value: Seq<char>,
    pub options: SetCookieOptionsV,
}

/// The entry under `key`, later entries overriding earlier ones.
pub open spec fn sc_find(s: Seq<SetEntryV>, key: Seq<char>) -> Option<SetEntryV>
    decreases s.len(),
{
    if s.len() == 0 {
        None
    } else if s.last().key == key {
        Some(s.last())
    } else {
        sc_find(s.drop_last(), key)
    }
}

/// All entries under `key` dropped, order kept.
pub open spec fn sc_remove(s: Seq<SetEntryV>, key: Seq<char>) -> Seq<SetEntryV>
    decreases s.len(),
{
    if s.len() == 0 {
        s
    } else if s.last().key == key {
        sc_remove(s.drop_last(), key)
    } else {
        sc_remove(s.drop_last(), key).push(s.last())
    }
}

pub proof fn lemma_sc_remove(s: Seq<SetEntryV>, key: Seq<char>, k2: Seq<char>)
    ensures
        sc_find(sc_remove(s, key), key) is None,
        k2 != key ==> sc_find(sc_remove(s, key), k2) == sc_find(s, k2),
    decreases s.len(),
{
    if s.len() > 0 {
        lemma_sc_remove(s.drop_last(), key, k2);
        if s.last().key != key {
            let t = sc_remove(s.drop_last(), key).push(s.last());
            assert(t.drop_last() =~= sc_remove(s.drop_last(), key));
            assert(t.last() == s.last());
        }
    }
}

/// The `Set-Cookie` headers a response will carry: one entry per key, with
/// the exact options each value is written with.
pub struct SetCookie {
    entries: Vec<(String, (String, SetCookieOptions))>,
}

impl View for SetCookie {
    type V = Seq<SetEntryV>;

    closed spec fn view(&self) -> Seq<SetEntryV> {
        self.entries@.map_values(
            |p: (String, (String, SetCookieOptions))|
                SetEntryV { key: p.0@, value: p.1.0@, options: p.1.1@ },
        )
    }
}

impl SetCookie {
    pub fn new() -> (r: SetCookie)
        ensures
            r@ =~= Seq::<SetEntryV>::empty(),
    {
        SetCookie { entries: Vec::new() }
    }

    /// Sets `key` to `value` written with `options`, replacing what was
    /// set before.
    pub fn set(self, key: String, value: String, options: SetCookieOptions) -> (r: SetCookie)
        ensures
            sc_find(r@, key@) == Some(
                SetEntryV { key: key@, value: value@, options: options@ },
            ),
            forall|k2: Seq<char>|
                k2 != key@ ==> #[trigger] sc_find(r@, k2) == sc_find(self@, k2),
    {
        let mut kept = self.remove_inner(key.as_str());
        let ghost mid = kept@.map_values(
            |p: (String, (String, SetCookieOptions))|
                SetEntryV { key: p.0@, value: p.1.0@, options: p.1.1@ },
        );
        kept.push((key, (value, options)));
        proof {
            let now = kept@.map_values(
                |p: (String, (String, SetCookieOptions))|
                    SetEntryV { key: p.0@, value: p.1.0@, options: p.1.1@ },
            );
            assert(now.drop_last() =~= mid);
            assert forall|k2: Seq<char>| k2 != key@ implies #[trigger] sc_find(now, k2) == sc_find(
                self@,
                k2,
            ) by {
                lemma_sc_remove(self@, key@, k2);
            }
        }
        SetCookie { entries: kept }
    }

    /// Drops whatever was set under `key`.
    pub fn remove(self, key: String) -> (r: SetCookie)
        ensures
            sc_find(r@, key@) is None,
            forall|k2: Seq<char>|
                k2 != key@ ==> #[trigger] sc_find(r@, k2) == sc_find(self@, k2),
    {
        let kept = self.remove_inner(key.as_str());
        proof {
            lemma_sc_remove(self@, key@, key@);
            assert forall|k2: Seq<char>| k2 != key@ implies #[trigger] sc_find(
                sc_remove(self@, key@),
                k2,
            ) == sc_find(self@, k2) by {
                lemma_sc_remove(self@, key@, k2);
            }
        }
        SetCookie { entries: kept }
    }

    fn remove_inner(self, key: &str) -> (r: Vec<(String, (String, SetCookieOptions))>)
        ensures
            r@.map_values(
                |p: (String, (String, SetCookieOptions))|
                    SetEntryV { key: p.0@, value: p.1.0@, options: p.1.1@ },
            ) == sc_remove(self@, key@),
    {
        let n = self.entries.len();
        let entries = self.entries;
        let ghost sv = self@;
        let mut out: Vec<(String, (String, SetCookieOptions))> = Vec::new();
        proof {
            assert(sv.take(0) =~= Seq::<SetEntryV>::empty());
            assert(out@.map_values(
                |p: (String, (String, SetCookieOptions))|
                    SetEntryV { key: p.0@, value: p.1.0@, options: p.1.1@ },
            ) =~= sc_remove(sv.take(0), key@));
        }
        let mut j: usize = 0;
        while j < n
            invariant
                j <= n,
                n == entries@.len(),
                sv == entries@.map_values(
                    |p: (String, (String, SetCookieOptions))|
                        SetEntryV { key: p.0@, value: p.1.0@, options: p.1.1@ },
                ),
                out@.map_values(
                    |p: (String, (String, SetCookieOptions))|
                        SetEntryV { key: p.0@, value: p.1.0@, options: p.1.1@ },
                ) == sc_remove(sv.take(j as int), key@),
            decreases n - j,
        {
            proof {
                assert(sv.take(j + 1).drop_last() =~= sv.take(j as int));
                assert(sv.take(j + 1).last() == sv[j as int]);
            }
            let hit = text::str_eq(entries[j].0.as_str(), key);
            if !hit {
                let (k, va) = (
                    entries[j].0.clone(),
                    (entries[j].1.0.clone(), entries[j].1.1.copy_options()),
                );
                proof {
                    assert(SetEntryV { key: k@, value: va.0@, options: va.1@ } == sv[j as int]);
                }
                out.push((k, va));
                proof {
                    assert(out@.map_values(
                        |p: (String, (String, SetCookieOptions))|
                            SetEntryV { key: p.0@, value: p.1.0@, options: p.1.1@ },
                    ) =~= sc_remove(sv.take(j + 1), key@));
                }
            }
            j += 1;
        }
        proof {
            assert(sv.take(n as int) =~= sv);
        }
        out
    }

    /// The header values to attach: one line per entry, in order, each
    /// written exactly as `set_cookie_text` says.
    pub fn texts(&self) -> (r: Vec<String>)
        ensures
            r@.len() == self@.len(),
            forall|i: int|
                0 <= i < r@.len() ==> (#[trigger] r@[i])@ == set_cookie_text(
                    self@[i].key,
                    self@[i].value,
                    self@[i].options,
                ),
    {
        let n = self.entries.len();
        let mut out: Vec<String> = Vec::new();
        let mut i: usize = 0;
        while i < n
            invariant
                i <= n,
                n == self@.len(),
                self@.len() == self.entries@.len(),
                out@.len() == i,
                forall|k: int|
                    0 <= k < i ==> (#[trigger] out@[k])@ == set_cookie_text(
                        self@[k].key,
                        self@[k].value,
                        self@[k].options,
                    ),
            decreases n - i,
        {
            let line = fmt(
                self.entries[i].0.as_str(),
                self.entries[i].1.0.as_str(),
                &self.entries[i].1.1,
            );
            proof {
                assert(self@[i as int].key == self.entries@[i as int].0@);
                assert(self@[i as int].value == self.entries@[i as int].1.0@);
                assert(self@[i as int].options == self.entries@[i as int].1.1@);
            }
            out.push(line);
            i += 1;
        }
        out
    }
}

} // verus!
