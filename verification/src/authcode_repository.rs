//! The in-memory authcode store: per-email buckets of pending one-time
//! codes, append-only, capped at five live entries per email, popped
//! destructively.

use vstd::prelude::*;

use crate::authcode::{Authcode, AuthcodeV, MAX_AGE};
use crate::text;

verus! {

/// One pending code and the time it was created.
#[verifier::ext_equal]
pub ghost struct AcEntryV {
    pub authcode: AuthcodeV,
    pub created_at: int,
}

/// One email's pending codes, oldest first.
#[verifier::ext_equal]
pub ghost struct BucketV {
    pub email: Seq<char>,
    pub entries: Seq<AcEntryV>,
}

/// An entry is past its age at time `now`.
pub open spec fn entry_expired(e: AcEntryV, now: int) -> bool {
    now - e.created_at > MAX_AGE
}

/// Inserting into one bucket: under five entries it appends. At five or
/// more it inspects the oldest entry: a live oldest refuses the insert, an
/// expired oldest is evicted to make room.
pub open spec fn bucket_add(es: Seq<AcEntryV>, a: AuthcodeV, now: int) -> (Seq<AcEntryV>, bool) {
    if es.len() < 5 {
        (es.push(AcEntryV { authcode: a, created_at: now }), true)
    } else if !entry_expired(es[0], now) {
        (es, false)
    } else {
        (es.drop_first().push(AcEntryV { authcode: a, created_at: now }), true)
    }
}

/// Popping one bucket: the first entry with the code is removed either
/// way; it is returned only while it is still live.
pub open spec fn bucket_pop(es: Seq<AcEntryV>, code: Seq<char>, now: int) -> (
    Seq<AcEntryV>,
    Option<AuthcodeV>,
)
    decreases es.len(),
{
    if es.len() == 0 {
        (es, None)
    } else if es[0].authcode.code == code {
        if entry_expired(es[0], now) {
            (es.drop_first(), None)
        } else {
            (es.drop_first(), Some(es[0].authcode))
        }
    } else {
        let r = bucket_pop(es.drop_first(), code, now);
        (seq![es[0]] + r.0, r.1)
    }
}

/// Some entry in the bucket carries the code.
pub open spec fn has_code(es: Seq<AcEntryV>, code: Seq<char>) -> bool {
    exists|k: int| 0 <= k < es.len() && (#[trigger] es[k]).authcode.code == code
}

/// Inserting into the store: into the bucket of the code's email, or into
/// a brand-new bucket.
pub open spec fn spec_add(s: Seq<BucketV>, a: AuthcodeV, now: int) -> (Seq<BucketV>, bool)
    decreases s.len(),
{
    if s.len() == 0 {
        (
            seq![
                BucketV {
                    email: a.user_email,
                    entries: seq![AcEntryV { authcode: a, created_at: now }],
                },
            ],
            true,
        )
    } else if s[0].email == a.user_email {
        let r = bucket_add(s[0].entries, a, now);
        (seq![BucketV { email: s[0].email, entries: r.0 }] + s.drop_first(), r.1)
    } else {
        let r = spec_add(s.drop_first(), a, now);
        (seq![s[0]] + r.0, r.1)
    }
}

/// Popping `(email, code)` from the store.
pub open spec fn spec_pop(s: Seq<BucketV>, email: Seq<char>, code: Seq<char>, now: int) -> (
    Seq<BucketV>,
    Option<AuthcodeV>,
)
    decreases s.len(),
{
    if s.len() == 0 {
        (s, None)
    } else if s[0].email == email {
        let r = bucket_pop(s[0].entries, code, now);
        (seq![BucketV { email: s[0].email, entries: r.0 }] + s.drop_first(), r.1)
    } else {
        let r = spec_pop(s.drop_first(), email, code, now);
        (seq![s[0]] + r.0, r.1)
    }
}

/// Popping by code alone: the first bucket, in insertion order, that holds
/// the code gives it up.
pub open spec fn spec_pop_code(s: Seq<BucketV>, code: Seq<char>, now: int) -> (
    Seq<BucketV>,
    Option<AuthcodeV>,
)
    decreases s.len(),
{
    if s.len() == 0 {
        (s, None)
    } else if has_code(s[0].entries, code) {
        let r = bucket_pop(s[0].entries, code, now);
        (seq![BucketV { email: s[0].email, entries: r.0 }] + s.drop_first(), r.1)
    } else {
        let r = spec_pop_code(s.drop_first(), code, now);
        (seq![s[0]] + r.0, r.1)
    }
}

/// At most one bucket per email.
pub open spec fn ac_wf(s: Seq<BucketV>) -> bool {
    forall|i: int, j: int|
        0 <= i < j < s.len() ==> (#[trigger] s[i]).email != (#[trigger] s[j]).email
}

/// The view of an optional popped code.
pub open spec fn ac_opt(o: Option<Authcode>) -> Option<AuthcodeV> {
    match o {
        Some(a) => Some(a@),
        None => None,
    }
}

proof fn lemma_spec_pop_at(s: Seq<BucketV>, i: int, email: Seq<char>, code: Seq<char>, now: int)
    requires
        0 <= i < s.len(),
        s[i].email == email,
        forall|j: int| 0 <= j < i ==> (#[trigger] s[j]).email != email,
    ensures
        spec_pop(s, email, code, now).0 == s.update(
            i,
            BucketV { email: s[i].email, entries: bucket_pop(s[i].entries, code, now).0 },
        ),
        spec_pop(s, email, code, now).1 == bucket_pop(s[i].entries, code, now).1,
    decreases s.len(),
{
    if i == 0 {
        let b = BucketV { email: s[0].email, entries: bucket_pop(s[0].entries, code, now).0 };
        assert(seq![b] + s.drop_first() =~= s.update(0, b));
    } else {
        assert(s[0].email != email);
        assert forall|j: int| 0 <= j < i - 1 implies (#[trigger] s.drop_first()[j]).email
            != email by {
            assert(s.drop_first()[j] == s[j + 1]);
        }
        assert(s.drop_first()[i - 1] == s[i]);
        lemma_spec_pop_at(s.drop_first(), i - 1, email, code, now);
        let b = BucketV { email: s[i].email, entries: bucket_pop(s[i].entries, code, now).0 };
        assert(seq![s[0]] + s.drop_first().update(i - 1, b) =~= s.update(i, b));
    }
}

proof fn lemma_spec_pop_none(s: Seq<BucketV>, email: Seq<char>, code: Seq<char>, now: int)
    requires
        forall|j: int| 0 <= j < s.len() ==> (#[trigger] s[j]).email != email,
    ensures
        spec_pop(s, email, code, now).0 == s,
        spec_pop(s, email, code, now).1 is None,
    decreases s.len(),
{
    if s.len() > 0 {
        assert forall|j: int|
            0 <= j < s.drop_first().len() implies (#[trigger] s.drop_first()[j]).email != email by {
            assert(s.drop_first()[j] == s[j + 1]);
        }
        lemma_spec_pop_none(s.drop_first(), email, code, now);
        assert(seq![s[0]] + s.drop_first() =~= s);
    }
}

proof fn lemma_spec_add_at(s: Seq<BucketV>, i: int, a: AuthcodeV, now: int)
    requires
        0 <= i < s.len(),
        s[i].email == a.user_email,
        forall|j: int| 0 <= j < i ==> (#[trigger] s[j]).email != a.user_email,
    ensures
        spec_add(s, a, now).0 == s.update(
            i,
            BucketV { email: s[i].email, entries: bucket_add(s[i].entries, a, now).0 },
        ),
        spec_add(s, a, now).1 == bucket_add(s[i].entries, a, now).1,
    decreases s.len(),
{
    if i == 0 {
        let b = BucketV { email: s[0].email, entries: bucket_add(s[0].entries, a, now).0 };
        assert(seq![b] + s.drop_first() =~= s.update(0, b));
    } else {
        assert(s[0].email != a.user_email);
        assert forall|j: int| 0 <= j < i - 1 implies (#[trigger] s.drop_first()[j]).email
            != a.user_email by {
            assert(s.drop_first()[j] == s[j + 1]);
        }
        assert(s.drop_first()[i - 1] == s[i]);
        lemma_spec_add_at(s.drop_first(), i - 1, a, now);
        let b = BucketV { email: s[i].email, entries: bucket_add(s[i].entries, a, now).0 };
        assert(seq![s[0]] + s.drop_first().update(i - 1, b) =~= s.update(i, b));
    }
}

proof fn lemma_spec_add_none(s: Seq<BucketV>, a: AuthcodeV, now: int)
    requires
        forall|j: int| 0 <= j < s.len() ==> (#[trigger] s[j]).email != a.user_email,
    ensures
        spec_add(s, a, now).0 == s.push(
            BucketV {
                email: a.user_email,
                entries: seq![AcEntryV { authcode: a, created_at: now }],
            },
        ),
        spec_add(s, a, now).1 == true,
    decreases s.len(),
{
    if s.len() == 0 {
        let b = BucketV {
            email: a.user_email,
            entries: seq![AcEntryV { authcode: a, created_at: now }],
        };
        assert(seq![b] =~= s.push(b));
    } else {
        assert forall|j: int|
            0 <= j < s.drop_first().len() implies (#[trigger] s.drop_first()[j]).email
            != a.user_email by {
            assert(s.drop_first()[j] == s[j + 1]);
        }
        lemma_spec_add_none(s.drop_first(), a, now);
        assert(seq![s[0]] + s.drop_first().push(
            BucketV {
                email: a.user_email,
                entries: seq![AcEntryV { authcode: a, created_at: now }],
            },
        ) =~= s.push(
            BucketV {
                email: a.user_email,
                entries: seq![AcEntryV { authcode: a, created_at: now }],
            },
        ));
    }
}

proof fn lemma_spec_pop_code_at(s: Seq<BucketV>, i: int, code: Seq<char>, now: int)
    requires
        0 <= i < s.len(),
        has_code(s[i].entries, code),
        forall|j: int| 0 <= j < i ==> !has_code((#[trigger] s[j]).entries, code),
    ensures
        spec_pop_code(s, code, now).0 == s.update(
            i,
            BucketV { email: s[i].email, entries: bucket_pop(s[i].entries, code, now).0 },
        ),
        spec_pop_code(s, code, now).1 == bucket_pop(s[i].entries, code, now).1,
    decreases s.len(),
{
    if i == 0 {
        let b = BucketV { email: s[0].email, entries: bucket_pop(s[0].entries, code, now).0 };
        assert(seq![b] + s.drop_first() =~= s.update(0, b));
    } else {
        assert(!has_code(s[0].entries, code));
        assert forall|j: int|
            0 <= j < i - 1 implies !has_code((#[trigger] s.drop_first()[j]).entries, code) by {
            assert(s.drop_first()[j] == s[j + 1]);
        }
        assert(s.drop_first()[i - 1] == s[i]);
        lemma_spec_pop_code_at(s.drop_first(), i - 1, code, now);
        let b = BucketV { email: s[i].email, entries: bucket_pop(s[i].entries, code, now).0 };
        assert(seq![s[0]] + s.drop_first().update(i - 1, b) =~= s.update(i, b));
    }
}

proof fn lemma_spec_pop_code_none(s: Seq<BucketV>, code: Seq<char>, now: int)
    requires
        forall|j: int| 0 <= j < s.len() ==> !has_code((#[trigger] s[j]).entries, code),
    ensures
        spec_pop_code(s, code, now).0 == s,
        spec_pop_code(s, code, now).1 is None,
    decreases s.len(),
{
    if s.len() > 0 {
        assert forall|j: int|
            0 <= j < s.drop_first().len() implies !has_code(
            (#[trigger] s.drop_first()[j]).entries,
            code,
        ) by {
            assert(s.drop_first()[j] == s[j + 1]);
        }
        lemma_spec_pop_code_none(s.drop_first(), code, now);
        assert(seq![s[0]] + s.drop_first() =~= s);
    }
}

pub proof fn lemma_bucket_pop_at(es: Seq<AcEntryV>, k: int, code: Seq<char>, now: int)
    requires
        0 <= k < es.len(),
        es[k].authcode.code == code,
        forall|j: int| 0 <= j < k ==> (#[trigger] es[j]).authcode.code != code,
    ensures
        bucket_pop(es, code, now).0 == es.remove(k),
        bucket_pop(es, code, now).1 == (if entry_expired(es[k], now) {
            Option::<AuthcodeV>::None
        } else {
            Some(es[k].authcode)
        }),
    decreases es.len(),
{
    if k == 0 {
        assert(es.drop_first() =~= es.remove(0));
    } else {
        assert(es[0].authcode.code != code);
        assert forall|j: int| 0 <= j < k - 1 implies (#[trigger] es.drop_first()[j]).authcode.code
            != code by {
            assert(es.drop_first()[j] == es[j + 1]);
        }
        assert(es.drop_first()[k - 1] == es[k]);
        lemma_bucket_pop_at(es.drop_first(), k - 1, code, now);
        assert(seq![es[0]] + es.drop_first().remove(k - 1) =~= es.remove(k));
    }
}

pub proof fn lemma_bucket_pop_none(es: Seq<AcEntryV>, code: Seq<char>, now: int)
    requires
        !has_code(es, code),
    ensures
        bucket_pop(es, code, now).0 == es,
        bucket_pop(es, code, now).1 is None,
    decreases es.len(),
{
    if es.len() > 0 {
        assert(es[0].authcode.code != code);
        assert(!has_code(es.drop_first(), code)) by {
            if has_code(es.drop_first(), code) {
                let k = choose|k: int|
                    0 <= k < es.drop_first().len() && (#[trigger] es.drop_first()[k]).authcode.code
                        == code;
                assert(es[k + 1] == es.drop_first()[k]);
            }
        }
        lemma_bucket_pop_none(es.drop_first(), code, now);
        assert(seq![es[0]] + es.drop_first() =~= es);
    }
}

/// One email's bucket, as stored.
pub struct AcBucket {
    pub email: String,
    pub entries: Vec<(Authcode, i64)>,
}

impl View for AcBucket {
    type V = BucketV;

    open spec fn view(&self) -> BucketV {
        BucketV {
            email: self.email@,
            entries: self.entries@.map_values(
                |p: (Authcode, i64)| AcEntryV { authcode: p.0@, created_at: p.1 as int },
            ),
        }
    }
}

/// The in-memory authcode store.
pub struct InMemoryAuthcodeRepository {
    buckets: Vec<AcBucket>,
}

impl View for InMemoryAuthcodeRepository {
    type V = Seq<BucketV>;

    closed spec fn view(&self) -> Seq<BucketV> {
        self.buckets@.map_values(|b: AcBucket| b@)
    }
}

impl InMemoryAuthcodeRepository {
    pub open spec fn wf(&self) -> bool {
        ac_wf(self@)
    }

    pub fn new() -> (r: InMemoryAuthcodeRepository)
        ensures
            r.wf(),
            r@ =~= Seq::<BucketV>::empty(),
    {
        InMemoryAuthcodeRepository { buckets: Vec::new() }
    }

    /// The index of the bucket for `email`, if one exists.
    fn find_bucket(&self, email: &str) -> (r: Option<usize>)
        ensures
            r matches Some(i) ==> i < self@.len() && self@[i as int].email == email@ && (forall|
                j: int,
            |
                0 <= j < i ==> (#[trigger] self@[j]).email != email@),
            r is None ==> forall|j: int| 0 <= j < self@.len() ==> (#[trigger] self@[j]).email
                != email@,
    {
        let n = self.buckets.len();
        let mut i: usize = 0;
        while i < n
            invariant
                n == self@.len(),
                i <= n,
                forall|j: int| 0 <= j < i ==> (#[trigger] self@[j]).email != email@,
            decreases n - i,
        {
            if text::str_eq(self.buckets[i].email.as_str(), email) {
                return Some(i);
            }
            i += 1;
        }
        None
    }

    /// Removes the first entry bearing `code` from `(email, code)`'s
    /// bucket, and returns the code only if it is still live. A missing or
    /// expired match is absent — and an expired match is gone for good.
    pub fn pop_at(&mut self, user_email: &str, code: &str, now: i64) -> (r: Option<Authcode>)
        requires
            old(self).wf(),
        ensures
            final(self).wf(),
            final(self)@ == spec_pop(old(self)@, user_email@, code@, now as int).0,
            ac_opt(r) == spec_pop(old(self)@, user_email@, code@, now as int).1,
    {
        let ghost s0 = self@;
        match self.find_bucket(user_email) {
            Some(i) => {
                proof {
                    lemma_spec_pop_at(s0, i as int, user_email@, code@, now as int);
                }
                let mut b = self.buckets.remove(i);
                let ghost bv = b@;
                let r = Self::bucket_pop_exec(&mut b, code, now);
                let ghost bv2 = b@;
                self.buckets.insert(i, b);
                proof {
                    assert(self@ =~= s0.update(i as int, bv2));
                    assert(bv2 == BucketV {
                        email: s0[i as int].email,
                        entries: bucket_pop(s0[i as int].entries, code@, now as int).0,
                    });
                    assert forall|a: int, c: int|
                        #![trigger self@[a], self@[c]]
                        0 <= a < c < self@.len() implies self@[a].email != self@[c].email by {
                        if a != i {
                            assert(self@[a] == s0[a]);
                        }
                        if c != i {
                            assert(self@[c] == s0[c]);
                        }
                    }
                }
                r
            },
            None => {
                proof {
                    lemma_spec_pop_none(s0, user_email@, code@, now as int);
                }
                None
            },
        }
    }

    /// Removes the first entry bearing `code` from the first bucket that
    /// holds it, in insertion order, live or not; returns it only live.
    pub fn pop_code_at(&mut self, code: &str, now: i64) -> (r: Option<Authcode>)
        requires
            old(self).wf(),
        ensures
            final(self).wf(),
            final(self)@ == spec_pop_code(old(self)@, code@, now as int).0,
            ac_opt(r) == spec_pop_code(old(self)@, code@, now as int).1,
    {
        let ghost s0 = self@;
        let n = self.buckets.len();
        let mut i: usize = 0;
        while i < n
            invariant
                self@ == s0,
                old(self).wf(),
                n == self@.len(),
                i <= n,
                forall|j: int| 0 <= j < i ==> !has_code((#[trigger] self@[j]).entries, code@),
            ensures
                self@ == s0,
                i <= n,
                n == self@.len(),
                forall|j: int| 0 <= j < i ==> !has_code((#[trigger] self@[j]).entries, code@),
                i < n ==> has_code(self@[i as int].entries, code@),
            decreases n - i,
        {
            if Self::bucket_has_code(&self.buckets[i], code) {
                break ;
            }
            i += 1;
        }
        if i == n {
            proof {
                lemma_spec_pop_code_none(s0, code@, now as int);
            }
            return None;
        }
        proof {
            lemma_spec_pop_code_at(s0, i as int, code@, now as int);
        }
        let mut b = self.buckets.remove(i);
        let r = Self::bucket_pop_exec(&mut b, code, now);
        let ghost bv2 = b@;
        self.buckets.insert(i, b);
        proof {
            assert(self@ =~= s0.update(i as int, bv2));
            assert forall|a: int, c: int|
                #![trigger self@[a], self@[c]]
                0 <= a < c < self@.len() implies self@[a].email != self@[c].email by {
                if a != i {
                    assert(self@[a] == s0[a]);
                }
                if c != i {
                    assert(self@[c] == s0[c]);
                }
            }
        }
        r
    }

    /// Whether any entry of the bucket carries `code`.
    fn bucket_has_code(b: &AcBucket, code: &str) -> (r: bool)
        ensures
            r == has_code(b@.entries, code@),
    {
        let n = b.entries.len();
        let mut k: usize = 0;
        while k < n
            invariant
                n == b@.entries.len(),
                k <= n,
                forall|j: int| 0 <= j < k ==> (#[trigger] b@.entries[j]).authcode.code != code@,
            decreases n - k,
        {
            if text::str_eq(b.entries[k].0.code.as_str(), code) {
                proof {
                    assert(b@.entries[k as int].authcode.code == code@);
                }
                return true;
            }
            k += 1;
        }
        proof {
            if has_code(b@.entries, code@) {
                let j = choose|j: int|
                    0 <= j < b@.entries.len() && (#[trigger] b@.entries[j]).authcode.code == code@;
                assert(b@.entries[j].authcode.code != code@);
            }
        }
        false
    }

    /// Pops `code` from one bucket, as `bucket_pop` says.
    fn bucket_pop_exec(b: &mut AcBucket, code: &str, now: i64) -> (r: Option<Authcode>)
        ensures
            final(b)@.email == old(b)@.email,
            final(b)@.entries == bucket_pop(old(b)@.entries, code@, now as int).0,
            ac_opt(r) == bucket_pop(old(b)@.entries, code@, now as int).1,
    {
        let ghost es0 = b@.entries;
        let n = b.entries.len();
        let mut k: usize = 0;
        while k < n
            invariant
                b@.entries == es0,
                b@.email == old(b)@.email,
                n == es0.len(),
                k <= n,
                forall|j: int| 0 <= j < k ==> (#[trigger] es0[j]).authcode.code != code@,
            ensures
                b@.entries == es0,
                b@.email == old(b)@.email,
                k <= n,
                n == es0.len(),
                forall|j: int| 0 <= j < k ==> (#[trigger] es0[j]).authcode.code != code@,
                k < n ==> es0[k as int].authcode.code == code@,
            decreases n - k,
        {
            if text::str_eq(b.entries[k].0.code.as_str(), code) {
                break ;
            }
            k += 1;
        }
        if k == n {
            proof {
                assert(!has_code(es0, code@)) by {
                    if has_code(es0, code@) {
                        let j = choose|j: int|
                            0 <= j < es0.len() && (#[trigger] es0[j]).authcode.code == code@;
                        assert(es0[j].authcode.code != code@);
                    }
                }
                lemma_bucket_pop_none(es0, code@, now as int);
            }
            return None;
        }
        proof {
            lemma_bucket_pop_at(es0, k as int, code@, now as int);
        }
        let (authcode, created_at) = b.entries.remove(k);
        proof {
            assert(b@.entries =~= es0.remove(k as int));
        }
        let expired = match now.checked_sub(created_at) {
            Some(d) => d > MAX_AGE as i64,
            // the exact difference leaves the machine range: it is far
            // past the age in one direction, far before the entry in the
            // other
            None => now > created_at,
        };
        if expired {
            None
        } else {
            Some(authcode)
        }
    }

    /// Inserts a fresh code, created at `now`, under its email's cap: a
    /// refusal (`false`) means the bucket already holds five live-or-newer
    /// entries and its oldest has not expired yet.
    pub fn add_at(&mut self, authcode: Authcode, now: i64) -> (r: bool)
        requires
            old(self).wf(),
        ensures
            final(self).wf(),
            final(self)@ == spec_add(old(self)@, authcode@, now as int).0,
            r == spec_add(old(self)@, authcode@, now as int).1,
    {
        let ghost s0 = self@;
        let ghost av = authcode@;
        match self.find_bucket(authcode.user_email.as_str()) {
            Some(i) => {
                proof {
                    lemma_spec_add_at(s0, i as int, av, now as int);
                }
                let mut b = self.buckets.remove(i);
                let ghost es0 = b@.entries;
                let mut ok = true;
                if b.entries.len() >= 5 {
                    let expired = match now.checked_sub(b.entries[0].1) {
                        Some(d) => d > MAX_AGE as i64,
                        None => now > b.entries[0].1,
                    };
                    if expired {
                        b.entries.remove(0);
                        b.entries.push((authcode, now));
                        proof {
                            assert(b@.entries =~= es0.drop_first().push(
                                AcEntryV { authcode: av, created_at: now as int },
                            ));
                        }
                    } else {
                        ok = false;
                    }
                } else {
                    b.entries.push((authcode, now));
                    proof {
                        assert(b@.entries =~= es0.push(
                            AcEntryV { authcode: av, created_at: now as int },
                        ));
                    }
                }
                let ghost bv2 = b@;
                self.buckets.insert(i, b);
                proof {
                    assert(self@ =~= s0.update(i as int, bv2));
                    assert(bv2 == BucketV {
                        email: s0[i as int].email,
                        entries: bucket_add(s0[i as int].entries, av, now as int).0,
                    });
                    assert forall|a: int, c: int|
                        #![trigger self@[a], self@[c]]
                        0 <= a < c < self@.len() implies self@[a].email != self@[c].email by {
                        if a != i {
                            assert(self@[a] == s0[a]);
                        }
                        if c != i {
                            assert(self@[c] == s0[c]);
                        }
                    }
                }
                ok
            },
            None => {
                proof {
                    lemma_spec_add_none(s0, av, now as int);
                }
                let mut entries: Vec<(Authcode, i64)> = Vec::new();
                let email = authcode.user_email.clone();
                entries.push((authcode, now));
                let b = AcBucket { email, entries };
                proof {
                    assert(b@.entries =~= seq![AcEntryV { authcode: av, created_at: now as int }]);
                }
                self.buckets.push(b);
                proof {
                    assert(self@ =~= s0.push(
                        BucketV {
                            email: av.user_email,
                            entries: seq![AcEntryV { authcode: av, created_at: now as int }],
                        },
                    ));
                    assert forall|a: int, c: int|
                        #![trigger self@[a], self@[c]]
                        0 <= a < c < self@.len() implies self@[a].email != self@[c].email by {
                        if c < self@.len() - 1 {
                            assert(self@[a] == s0[a] && self@[c] == s0[c]);
                        } else {
                            assert(self@[a] == s0[a]);
                        }
                    }
                }
                true
            },
        }
    }
}

} // verus!
