//! What the user-identity service answers with.

use vstd::prelude::*;

verus! {

/// One user, as the identity service reports it.
#[derive(Debug, Clone)]
pub struct UserInfo {
    pub id: String,
    pub email: String,
    pub role: u8,
}

#[verifier::ext_equal]
pub ghost struct UserInfoV {
    pub id: Seq<char>,
    pub email: Seq<char>,
    pub role: u8,
}

impl View for UserInfo {
    type V = UserInfoV;

    open spec fn view(&self) -> UserInfoV {
        UserInfoV { id: self.id@, email: self.email@, role: self.role }
    }
}

} // verus!
