//! Consumes a one-time code and yields the email it was issued for. The
//! pop is destructive either way: a matched code is gone whether it was
//! live or already expired.

use vstd::prelude::*;

use crate::authcode_repository::{spec_pop_code, InMemoryAuthcodeRepository};
use crate::error::{Error as CrateError, UseCaseError};

verus! {

#[derive(Clone)]
pub struct Payload {
    pub code: String,
}

pub struct Model {
    pub user_email: String,
}

#[derive(Debug)]
pub enum Error {
    InvalidAuthcode,
}

pub open spec fn invalid_authcode() -> CrateError {
    CrateError::UseCase(UseCaseError::CheckAuthcode(Error::InvalidAuthcode))
}

/// Pops the code, keyed by the code alone, as of `now`.
pub fn execute(
    payload: Payload,
    repository: &mut InMemoryAuthcodeRepository,
    now: i64,
) -> (r: Result<Model, CrateError>)
    requires
        old(repository).wf(),
    ensures
        final(repository).wf(),
        final(repository)@ == spec_pop_code(old(repository)@, payload.code@, now as int).0,
        r matches Ok(m) ==> spec_pop_code(old(repository)@, payload.code@, now as int).1 matches Some(
            a,
        ) && a.user_email == m.user_email@,
        r matches Err(e) ==> e == invalid_authcode() && spec_pop_code(
            old(repository)@,
            payload.code@,
            now as int,
        ).1 is None,
{
    match repository.pop_code_at(payload.code.as_str(), now) {
        Some(authcode) => Ok(Model { user_email: authcode.user_email }),
        None => Err(CrateError::UseCase(UseCaseError::CheckAuthcode(Error::InvalidAuthcode))),
    }
}

} // verus!
