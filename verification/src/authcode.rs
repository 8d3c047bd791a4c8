//! One-time login codes.

use vstd::prelude::*;

verus! {

/// Age in seconds after which a stored code no longer counts, even if it
/// is still physically present.
pub const MAX_AGE: u64 = 60 * 2;

/// A one-time code issued to an email address. Consumed at most once: the
/// only read path is a destructive pop.
#[derive(Debug, Clone)]
pub struct Authcode {
    pub user_email: String,
    pub code: String,
}

#[verifier::ext_equal]
pub ghost struct AuthcodeV {
    pub user_email: Seq<char>,
    pub code: Seq<char>,
}

impl View for Authcode {
    type V = AuthcodeV;

    open spec fn view(&self) -> AuthcodeV {
        AuthcodeV { user_email: self.user_email@, code: self.code@ }
    }
}

impl Authcode {
    pub fn new(user_email: String, code: String) -> (r: Authcode)
        ensures
            r@.user_email == user_email@,
            r@.code == code@,
    {
        Authcode { user_email, code }
    }
}

} // verus!
