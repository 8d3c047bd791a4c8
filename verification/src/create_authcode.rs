//! Issues a one-time code for a user, under the per-email cap. The code is
//! stored here; its delivery by email happens outside and does not decide
//! anything: a stored code is valid whether or not its mail arrived.

use vstd::prelude::*;

use crate::authcode::{Authcode, AuthcodeV};
use crate::authcode_repository::{spec_add, InMemoryAuthcodeRepository};
use crate::command::{user_find, GetUserInfo, RandomCode};
use crate::error::{Error as CrateError, UseCaseError};
use crate::text::plain;

verus! {

pub struct Payload {
    pub user_email: String,
    /// Whether the caller should dispatch the code by email: carried
    /// through untouched, for the process edge to act on.
    pub ses_flag: bool,
}

/// The issued code, for the caller to dispatch.
pub struct Model {
    pub user_email: String,
    pub code: String,
}

#[derive(Debug)]
pub enum Error {
    NotFoundUser,
    TooManyCreatedAuthcode,
}

pub open spec fn not_found_user() -> CrateError {
    CrateError::UseCase(UseCaseError::CreateAuthcode(Error::NotFoundUser))
}

pub open spec fn too_many() -> CrateError {
    CrateError::UseCase(UseCaseError::CreateAuthcode(Error::TooManyCreatedAuthcode))
}

/// What issuing guarantees: a fresh 12-character code was offered to the
/// found user's bucket, and the store answered as its cap demands.
pub open spec fn issued(
    s0: Seq<crate::authcode_repository::BucketV>,
    s1: Seq<crate::authcode_repository::BucketV>,
    email: Seq<char>,
    now: int,
    r: Result<Model, CrateError>,
) -> bool {
    exists|code: Seq<char>|
        #![trigger spec_add(s0, AuthcodeV { user_email: email, code }, now)]
        ({
            let a = AuthcodeV { user_email: email, code };
            &&& code.len() == 12
            &&& plain(code)
            &&& s1 == spec_add(s0, a, now).0
            &&& (spec_add(s0, a, now).1 == true ==> (r matches Ok(m) && m.user_email@ == email
                && m.code@ == code))
            &&& (spec_add(s0, a, now).1 == false ==> (r matches Err(e) && e == too_many()))
        })
}

/// Issues a code for the user `payload` names, as of `now`.
pub fn execute(
    payload: Payload,
    repository: &mut InMemoryAuthcodeRepository,
    command: &GetUserInfo,
    now: i64,
) -> (r: Result<Model, CrateError>)
    requires
        old(repository).wf(),
    ensures
        final(repository).wf(),
        user_find(command@, payload.user_email@) is None ==> (r matches Err(e) && e
            == not_found_user()) && final(repository)@ == old(repository)@,
        user_find(command@, payload.user_email@) matches Some(u) ==> issued(
            old(repository)@,
            final(repository)@,
            u.email,
            now as int,
            r,
        ),
{
    let user = match command.get_user_info(payload.user_email.as_str()) {
        Some(u) => u,
        None => {
            return Err(CrateError::UseCase(UseCaseError::CreateAuthcode(Error::NotFoundUser)));
        },
    };
    let user_email = user.email;
    let generator = RandomCode;
    let code = generator.random_code();
    let authcode = Authcode::new(user_email.clone(), code.clone());
    let ghost av = authcode@;
    let created = repository.add_at(authcode, now);
    if !created {
        proof {
            assert(issued(
                old(repository)@,
                final(repository)@,
                av.user_email,
                now as int,
                Result::<Model, CrateError>::Err(too_many()),
            ));
        }
        return Err(CrateError::UseCase(UseCaseError::CreateAuthcode(Error::TooManyCreatedAuthcode)));
    }
    proof {
        assert(spec_add(old(repository)@, av, now as int).1 == true);
    }
    Ok(Model { user_email, code })
}

} // verus!
