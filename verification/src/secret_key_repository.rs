//! The in-memory secret-key store: one signing secret per session id, with
//! logical expiry checked at read time.

use vstd::prelude::*;

use crate::secret_key::{SecretKey, SECRET_KEY_EXP};
use crate::text;

verus! {

/// One stored secret: the session id it belongs to, the key text, and when
/// it was stored.
#[verifier::ext_equal]
pub ghost struct SkEntryV {
    pub id: Seq<char>,
    pub key: Seq<char>,
    pub created_at: int,
}

pub struct SkEntry {
    pub id: String,
    pub key: String,
    pub created_at: i64,
}

impl View for SkEntry {
    type V = SkEntryV;

    open spec fn view(&self) -> SkEntryV {
        SkEntryV { id: self.id@, key: self.key@, created_at: self.created_at as int }
    }
}

/// The stored entry for a session id, if any.
pub open spec fn sk_get(s: Seq<SkEntryV>, id: Seq<char>) -> Option<SkEntryV>
    decreases s.len(),
{
    if s.len() == 0 {
        None
    } else if s[0].id == id {
        Some(s[0])
    } else {
        sk_get(s.drop_first(), id)
    }
}

/// What a reader sees at time `now`: the key, unless the entry is past its
/// logical age or absent.
pub open spec fn sk_lookup(s: Seq<SkEntryV>, id: Seq<char>, now: int) -> Option<Seq<char>> {
    match sk_get(s, id) {
        Some(e) => if now - e.created_at <= SECRET_KEY_EXP {
            Some(e.key)
        } else {
            None
        },
        None => None,
    }
}

/// At most one entry per session id.
pub open spec fn sk_wf(s: Seq<SkEntryV>) -> bool {
    forall|i: int, j: int| 0 <= i < j < s.len() ==> (#[trigger] s[i]).id != (#[trigger] s[j]).id
}

proof fn lemma_sk_wf_drop(s: Seq<SkEntryV>)
    requires
        sk_wf(s),
        s.len() > 0,
    ensures
        sk_wf(s.drop_first()),
{
    assert forall|i: int, j: int|
        #![trigger s.drop_first()[i], s.drop_first()[j]]
        0 <= i < j < s.drop_first().len() implies s.drop_first()[i].id != s.drop_first()[j].id by {
        assert(s.drop_first()[i] == s[i + 1]);
        assert(s.drop_first()[j] == s[j + 1]);
    }
}

proof fn lemma_sk_get_none(s: Seq<SkEntryV>, id: Seq<char>)
    requires
        sk_get(s, id) is None,
    ensures
        forall|i: int| 0 <= i < s.len() ==> (#[trigger] s[i]).id != id,
    decreases s.len(),
{
    if s.len() > 0 {
        lemma_sk_get_none(s.drop_first(), id);
        assert forall|i: int| 0 <= i < s.len() implies (#[trigger] s[i]).id != id by {
            if i > 0 {
                assert(s.drop_first()[i - 1] == s[i]);
            }
        }
    }
}

proof fn lemma_sk_get_push(s: Seq<SkEntryV>, e: SkEntryV, id2: Seq<char>)
    requires
        sk_get(s, e.id) is None,
    ensures
        sk_get(s.push(e), e.id) == Some(e),
        id2 != e.id ==> sk_get(s.push(e), id2) == sk_get(s, id2),
    decreases s.len(),
{
    if s.len() == 0 {
        assert(s.push(e)[0] == e);
        assert(s.push(e).drop_first() =~= Seq::<SkEntryV>::empty());
    } else {
        assert(s.push(e)[0] == s[0]);
        assert(s.push(e).drop_first() =~= s.drop_first().push(e));
        lemma_sk_get_push(s.drop_first(), e, id2);
    }
}

proof fn lemma_sk_get_update(s: Seq<SkEntryV>, i: int, e: SkEntryV, id2: Seq<char>)
    requires
        sk_wf(s),
        0 <= i < s.len(),
        s[i].id == e.id,
    ensures
        sk_get(s.update(i, e), e.id) == Some(e),
        id2 != e.id ==> sk_get(s.update(i, e), id2) == sk_get(s, id2),
        sk_wf(s.update(i, e)),
    decreases s.len(),
{
    let t = s.update(i, e);
    assert forall|a: int, b: int| #![trigger t[a], t[b]] 0 <= a < b < t.len() implies t[a].id
        != t[b].id by {
        if a != i && b != i {
            assert(t[a] == s[a] && t[b] == s[b]);
        } else if a == i {
            assert(t[a].id == s[i].id && t[b] == s[b]);
        } else {
            assert(t[b].id == s[i].id && t[a] == s[a]);
        }
    }
    if i == 0 {
        assert(t[0] == e);
        assert(t.drop_first() =~= s.drop_first());
        if id2 != e.id {
            assert(s[0].id == e.id);
        }
    } else {
        assert(t[0] == s[0]);
        assert(s[0].id != s[i].id);
        assert(t.drop_first() =~= s.drop_first().update(i - 1, e));
        lemma_sk_wf_drop(s);
        assert(s.drop_first()[i - 1] == s[i]);
        lemma_sk_get_update(s.drop_first(), i - 1, e, id2);
    }
}

proof fn lemma_sk_get_remove(s: Seq<SkEntryV>, i: int, id2: Seq<char>)
    requires
        sk_wf(s),
        0 <= i < s.len(),
    ensures
        sk_get(s.remove(i), s[i].id) is None,
        id2 != s[i].id ==> sk_get(s.remove(i), id2) == sk_get(s, id2),
        sk_wf(s.remove(i)),
    decreases s.len(),
{
    let t = s.remove(i);
    assert forall|a: int, b: int| #![trigger t[a], t[b]] 0 <= a < b < t.len() implies t[a].id
        != t[b].id by {
        let a2: int = if a < i {
            a
        } else {
            a + 1
        };
        let b2: int = if b < i {
            b
        } else {
            b + 1
        };
        assert(t[a] == s[a2] && t[b] == s[b2]);
    }
    if i == 0 {
        assert(t =~= s.drop_first());
        lemma_sk_wf_drop(s);
        if sk_get(t, s[0].id) is Some {
            lemma_sk_get_some(t, s[0].id);
            let k = choose|k: int| 0 <= k < t.len() && t[k].id == s[0].id;
            assert(s[k + 1] == t[k]);
        }
    } else {
        assert(t[0] == s[0]);
        assert(t.drop_first() =~= s.drop_first().remove(i - 1));
        lemma_sk_wf_drop(s);
        assert(s.drop_first()[i - 1] == s[i]);
        lemma_sk_get_remove(s.drop_first(), i - 1, id2);
        assert(s[0].id != s[i].id);
    }
}

proof fn lemma_sk_get_some(s: Seq<SkEntryV>, id: Seq<char>)
    requires
        sk_get(s, id) is Some,
    ensures
        ({
            let e = sk_get(s, id)->Some_0;
            e.id == id && exists|k: int| 0 <= k < s.len() && s[k] == e
        }),
    decreases s.len(),
{
    if s.len() > 0 {
        if s[0].id == id {
            assert(s[0] == s[0]);
        } else {
            lemma_sk_get_some(s.drop_first(), id);
            let e = sk_get(s, id)->Some_0;
            let k = choose|k: int| 0 <= k < s.drop_first().len() && s.drop_first()[k] == e;
            assert(s[k + 1] == e);
        }
    }
}

/// The in-memory secret-key store. Entries are read through `sk_lookup`:
/// a key older than `SECRET_KEY_EXP` is reported absent even while it is
/// still physically present.
pub struct InMemorySecretKeyRepository {
    entries: Vec<SkEntry>,
}

impl View for InMemorySecretKeyRepository {
    type V = Seq<SkEntryV>;

    closed spec fn view(&self) -> Seq<SkEntryV> {
        self.entries@.map_values(|e: SkEntry| e@)
    }
}

impl InMemorySecretKeyRepository {
    pub open spec fn wf(&self) -> bool {
        sk_wf(self@)
    }

    pub fn new() -> (r: InMemorySecretKeyRepository)
        ensures
            r.wf(),
            r@ =~= Seq::<SkEntryV>::empty(),
    {
        InMemorySecretKeyRepository { entries: Vec::new() }
    }

    /// The index of the entry for `token_id`, if one is stored.
    fn find(&self, token_id: &str) -> (r: Option<usize>)
        ensures
            r matches Some(i) ==> i < self@.len() && self@[i as int].id == token_id@ && sk_get(
                self@,
                token_id@,
            ) == Some(self@[i as int]),
            r is None ==> sk_get(self@, token_id@) is None,
    {
        let n = self.entries.len();
        let mut i: usize = 0;
        proof {
            assert(self@.skip(0) =~= self@);
        }
        while i < n
            invariant
                n == self@.len(),
                i <= n,
                sk_get(self@, token_id@) == sk_get(self@.skip(i as int), token_id@),
            decreases n - i,
        {
            proof {
                assert(self@.skip(i as int)[0] == self@[i as int]);
            }
            if text::str_eq(self.entries[i].id.as_str(), token_id) {
                return Some(i);
            }
            proof {
                assert(self@.skip(i as int).drop_first() =~= self@.skip(i + 1));
            }
            i += 1;
        }
        proof {
            assert(self@.skip(n as int) =~= Seq::<SkEntryV>::empty());
        }
        None
    }

    /// Reads the key for `token_id` as of time `now`. Absent if never
    /// stored, or if the entry is older than `SECRET_KEY_EXP`.
    pub fn get_at(&self, token_id: &str, now: i64) -> (r: Option<SecretKey>)
        ensures
            r matches Some(k) ==> sk_lookup(self@, token_id@, now as int) == Some(k@),
            r is None ==> sk_lookup(self@, token_id@, now as int) is None,
    {
        match self.find(token_id) {
            Some(i) => {
                let e = &self.entries[i];
                let expired = match now.checked_sub(e.created_at) {
                    Some(d) => d > SECRET_KEY_EXP,
                    // the exact difference leaves the machine range: it is
                    // far past the age in one direction, far before the
                    // entry in the other
                    None => now > e.created_at,
                };
                if expired {
                    None
                } else {
                    Some(SecretKey(e.key.clone()))
                }
            },
            None => None,
        }
    }

    /// Stores (or replaces) the key for `token_id`, created at `now`.
    /// The `true` mirrors the backing store's success report.
    pub fn add_at(&mut self, token_id: &str, secret_key: &str, now: i64) -> (r: bool)
        requires
            old(self).wf(),
        ensures
            final(self).wf(),
            r == true,
            sk_get(final(self)@, token_id@) == Some(
                SkEntryV { id: token_id@, key: secret_key@, created_at: now as int },
            ),
            forall|id2: Seq<char>|
                id2 != token_id@ ==> #[trigger] sk_get(final(self)@, id2) == sk_get(
                    old(self)@,
                    id2,
                ),
    {
        let e = SkEntry {
            id: token_id.to_owned(),
            key: secret_key.to_owned(),
            created_at: now,
        };
        let ghost ev = e@;
        match self.find(token_id) {
            Some(i) => {
                let ghost s = self@;
                self.entries[i] = e;
                proof {
                    assert(self@ =~= s.update(i as int, ev));
                    lemma_sk_get_update(s, i as int, ev, token_id@);
                    assert forall|id2: Seq<char>|
                        id2 != token_id@ implies #[trigger] sk_get(self@, id2) == sk_get(s, id2) by {
                        lemma_sk_get_update(s, i as int, ev, id2);
                    }
                }
            },
            None => {
                let ghost s = self@;
                self.entries.push(e);
                proof {
                    assert(self@ =~= s.push(ev));
                    lemma_sk_get_push(s, ev, token_id@);
                    assert forall|id2: Seq<char>|
                        id2 != token_id@ implies #[trigger] sk_get(self@, id2) == sk_get(s, id2) by {
                        lemma_sk_get_push(s, ev, id2);
                    }
                    lemma_sk_get_none(s, token_id@);
                    assert forall|a: int, b: int|
                        #![trigger self@[a], self@[b]]
                        0 <= a < b < self@.len() implies self@[a].id != self@[b].id by {
                        if b < self@.len() - 1 {
                            assert(self@[a] == s[a] && self@[b] == s[b]);
                        } else {
                            assert(self@[b] == ev);
                            assert(self@[a] == s[a]);
                        }
                    }
                }
            },
        }
        true
    }

    /// Forgets the key for `token_id`. Removing an absent key is not an
    /// error; the `true` mirrors the backing store's success report.
    pub fn remove(&mut self, token_id: &str) -> (r: bool)
        requires
            old(self).wf(),
        ensures
            final(self).wf(),
            r == true,
            sk_get(final(self)@, token_id@) is None,
            forall|id2: Seq<char>|
                id2 != token_id@ ==> #[trigger] sk_get(final(self)@, id2) == sk_get(
                    old(self)@,
                    id2,
                ),
    {
        match self.find(token_id) {
            Some(i) => {
                let ghost s = self@;
                self.entries.remove(i);
                proof {
                    assert(self@ =~= s.remove(i as int));
                    lemma_sk_get_remove(s, i as int, token_id@);
                    assert forall|id2: Seq<char>|
                        id2 != token_id@ implies #[trigger] sk_get(self@, id2) == sk_get(s, id2) by {
                        lemma_sk_get_remove(s, i as int, id2);
                    }
                }
            },
            None => {
            },
        }
        true
    }
}

} // verus!
