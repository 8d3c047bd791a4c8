//! The error taxonomy, mirrored across every layer of the library.

use vstd::prelude::*;

use crate::check_access_token;
use crate::check_and_refresh_token_pair;
use crate::check_authcode;
use crate::check_refresh_token;
use crate::check_token_pair;
use crate::create_authcode;
use crate::create_token_pair;
use crate::delete_token_pair;
use crate::refresh_token_pair;

verus! {

/// Transport-decoding failures.
#[derive(Debug)]
pub enum MsgError {
    NotFound,
    JsonDeserializePayload,
}

/// Failures of the outbound commands. The commands themselves cannot fail
/// inside this library; the variants stand for their places in the
/// taxonomy.
#[derive(Debug)]
pub enum CommandError {
    GetUserInfo,
    RandomCode,
    SendEmail,
}

/// Failures reported by the user-identity service.
#[derive(Debug)]
pub enum UserSdkError {
    NotFoundUser,
}

/// One error per use case, each carrying that use case's own error.
#[derive(Debug)]
pub enum UseCaseError {
    CheckAccessToken(check_access_token::Error),
    CheckRefreshToken(check_refresh_token::Error),
    CheckAuthcode(check_authcode::Error),
    CreateTokenPair(create_token_pair::Error),
    CheckTokenPair(check_token_pair::Error),
    CreateAuthcode(create_authcode::Error),
    CheckAndRefreshTokenPair(check_and_refresh_token_pair::Error),
    RefreshTokenPair(refresh_token_pair::Error),
    DeleteTokenPair(delete_token_pair::Error),
}

/// The library's top error type.
#[derive(Debug)]
pub enum Error {
    Msg(MsgError),
    Command(CommandError),
    UseCase(UseCaseError),
    UserSdk(UserSdkError),
}

/// The HTTP status an error answers with: authentication failures are
/// 401, a denied role 403, business not-founds 404, the rate limit 429, a
/// malformed logout or body 400, and everything else 500.
pub open spec fn spec_status_of(e: Error) -> u16 {
    match e {
        Error::Msg(MsgError::NotFound) => 404,
        Error::Msg(MsgError::JsonDeserializePayload) => 400,
        Error::Command(_) => 500,
        Error::UserSdk(UserSdkError::NotFoundUser) => 404,
        Error::UseCase(u) => match u {
            UseCaseError::CheckAccessToken(check_access_token::Error::UnauthorizedAccessToken) => 401,
            UseCaseError::CheckAccessToken(check_access_token::Error::PermissionDenied) => 403,
            UseCaseError::CheckRefreshToken(_) => 401,
            UseCaseError::CheckTokenPair(_) => 401,
            UseCaseError::CheckAuthcode(_) => 404,
            UseCaseError::CreateAuthcode(create_authcode::Error::NotFoundUser) => 404,
            UseCaseError::CreateAuthcode(create_authcode::Error::TooManyCreatedAuthcode) => 429,
            UseCaseError::CreateTokenPair(create_token_pair::Error::NotFoundUser) => 404,
            UseCaseError::CreateTokenPair(create_token_pair::Error::CannotAddedSecretKey) => 500,
            UseCaseError::CheckAndRefreshTokenPair(_) => 403,
            UseCaseError::RefreshTokenPair(_) => 500,
            UseCaseError::DeleteTokenPair(_) => 400,
        },
    }
}

/// Reads the status for an error off the taxonomy.
pub fn status_of(error: &Error) -> (r: u16)
    ensures
        r == spec_status_of(*error),
{
    match error {
        Error::Msg(MsgError::NotFound) => 404,
        Error::Msg(MsgError::JsonDeserializePayload) => 400,
        Error::Command(_) => 500,
        Error::UserSdk(UserSdkError::NotFoundUser) => 404,
        Error::UseCase(u) => match u {
            UseCaseError::CheckAccessToken(check_access_token::Error::UnauthorizedAccessToken) => 401,
            UseCaseError::CheckAccessToken(check_access_token::Error::PermissionDenied) => 403,
            UseCaseError::CheckRefreshToken(_) => 401,
            UseCaseError::CheckTokenPair(_) => 401,
            UseCaseError::CheckAuthcode(_) => 404,
            UseCaseError::CreateAuthcode(create_authcode::Error::NotFoundUser) => 404,
            UseCaseError::CreateAuthcode(create_authcode::Error::TooManyCreatedAuthcode) => 429,
            UseCaseError::CreateTokenPair(create_token_pair::Error::NotFoundUser) => 404,
            UseCaseError::CreateTokenPair(create_token_pair::Error::CannotAddedSecretKey) => 500,
            UseCaseError::CheckAndRefreshTokenPair(_) => 403,
            UseCaseError::RefreshTokenPair(_) => 500,
            UseCaseError::DeleteTokenPair(_) => 400,
        },
    }
}

} // verus!
