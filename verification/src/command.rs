//! The outbound commands the use cases lean on: the user-identity lookup
//! and the one-time-code generator.
//!
//! The lookup here is a table of users handed in by the caller: the
//! process edge fetches whatever identities a request may need and passes
//! them down, so the decisions made on them are verified for every answer
//! the identity service could give.

use vstd::prelude::*;

use crate::crypto;
use crate::text;
use crate::user::{UserInfo, UserInfoV};

verus! {

/// The first user matching `key` by id or by email.
pub open spec fn user_find(s: Seq<UserInfoV>, key: Seq<char>) -> Option<UserInfoV>
    decreases s.len(),
{
    if s.len() == 0 {
        None
    } else if s[0].id == key || s[0].email == key {
        Some(s[0])
    } else {
        user_find(s.drop_first(), key)
    }
}

/// A found user is one of the known users.
pub proof fn lemma_user_find_some(s: Seq<UserInfoV>, key: Seq<char>)
    requires
        user_find(s, key) is Some,
    ensures
        exists|i: int| 0 <= i < s.len() && #[trigger] s[i] == user_find(s, key)->Some_0,
    decreases s.len(),
{
    if s.len() > 0 {
        if s[0].id == key || s[0].email == key {
            assert(s[0] == user_find(s, key)->Some_0);
        } else {
            lemma_user_find_some(s.drop_first(), key);
            let i = choose|i: int|
                0 <= i < s.drop_first().len() && #[trigger] s.drop_first()[i] == user_find(
                    s.drop_first(),
                    key,
                )->Some_0;
            assert(s[i + 1] == s.drop_first()[i]);
        }
    }
}

/// The user-identity lookup, over the identities it was given.
pub struct GetUserInfo {
    users: Vec<UserInfo>,
}

impl View for GetUserInfo {
    type V = Seq<UserInfoV>;

    closed spec fn view(&self) -> Seq<UserInfoV> {
        self.users@.map_values(|u: UserInfo| u@)
    }
}

impl GetUserInfo {
    pub fn new() -> (r: GetUserInfo)
        ensures
            r@ =~= Seq::<UserInfoV>::empty(),
    {
        GetUserInfo { users: Vec::new() }
    }

    /// Makes one more identity visible to the lookup.
    pub fn add_user(&mut self, user: UserInfo)
        ensures
            final(self)@ == old(self)@.push(user@),
    {
        self.users.push(user);
    }

    /// Answers with the first known user whose id or email is the key.
    pub fn get_user_info(&self, user_id_or_email: &str) -> (r: Option<UserInfo>)
        ensures
            r matches Some(u) ==> user_find(self@, user_id_or_email@) == Some(u@),
            r is None ==> user_find(self@, user_id_or_email@) is None,
    {
        let n = self.users.len();
        let mut i: usize = 0;
        proof {
            assert(self@.skip(0) =~= self@);
        }
        while i < n
            invariant
                n == self@.len(),
                i <= n,
                user_find(self@, user_id_or_email@) == user_find(
                    self@.skip(i as int),
                    user_id_or_email@,
                ),
            decreases n - i,
        {
            proof {
                assert(self@.skip(i as int)[0] == self@[i as int]);
            }
            let hit = text::str_eq(self.users[i].id.as_str(), user_id_or_email) || text::str_eq(
                self.users[i].email.as_str(),
                user_id_or_email,
            );
            if hit {
                let u = &self.users[i];
                return Some(UserInfo { id: u.id.clone(), email: u.email.clone(), role: u.role });
            }
            proof {
                assert(self@.skip(i as int).drop_first() =~= self@.skip(i + 1));
            }
            i += 1;
        }
        proof {
            assert(self@.skip(n as int) =~= Seq::<UserInfoV>::empty());
        }
        None
    }
}

/// The one-time-code generator.
pub struct RandomCode;

impl RandomCode {
    /// A fresh 12-character code over letters, digits, `-` and `_`.
    pub fn random_code(&self) -> (r: String)
        ensures
            r@.len() == 12,
            text::plain(r@),
    {
        crypto::random_code_text()
    }
}

} // verus!
