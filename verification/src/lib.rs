//! Authentication session library: per-session secret keys, signed
//! access/refresh token pairs, and one-time email authcodes.
//!
//! The token codec, the two stores and the session state machine live here,
//! verified; transport and backing services stand outside and talk to this
//! crate through plain values.

pub mod authcode;
pub mod authcode_repository;
pub mod b64;
pub mod check_access_token;
pub mod check_and_refresh_token_pair;
pub mod check_authcode;
pub mod check_refresh_token;
pub mod check_token_pair;
pub mod claims;
pub mod create_authcode;
pub mod create_token_pair;
pub mod command;
pub mod crypto;
pub mod delete_token_pair;
pub mod error;
pub mod http;
pub mod jwt;
pub mod laws;
pub mod model;
pub mod msg;
pub mod resolver;
pub mod refresh_token_pair;
pub mod secret_key;
pub mod secret_key_repository;
pub mod text;
pub mod token;
pub mod user;

use vstd::prelude::*;

verus! {

/// True in the build that is shipped: this library carries no debug-only
/// behaviour, so the flag is constant.
pub fn release() -> (r: bool)
    ensures
        r == true,
{
    true
}

/// Debug-only behaviour is left to the surrounding application; the library
/// itself never switches on it.
pub fn debug() -> (r: bool)
    ensures
        r == false,
{
    false
}

/// Test doubles are ordinary values in this library, not a build mode.
pub fn test() -> (r: bool)
    ensures
        r == false,
{
    false
}

} // verus!
