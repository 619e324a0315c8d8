//! The login token scheme: passwords and tokens are MD5 digests rendered as
//! lowercase hex, and a request is authorized exactly when its header equals
//! the current token.

use vstd::prelude::*;
use vstd::string::StringSliceAdditionalSpecFns;

use crate::config::Account;
use crate::digest::{md5_digest, md5_of};
use crate::hex::{hex_of, to_hex};

verus! {

/// The hex-rendered MD5 of a string's bytes, as stored for passwords and
/// tokens.
pub fn encode(data: &str) -> (r: String)
    ensures
        r@ == hex_of(md5_of(data.spec_bytes())),
{
    let digest = md5_digest(data.as_bytes());
    to_hex(digest.as_slice())
}

/// Whether the presented authorization value is the current token.
pub fn authorize(auth_info: &str, token: &str) -> (r: bool)
    ensures
        r == (auth_info@ == token@),
{
    crate::str_eq(auth_info, token)
}

/// What a login token digests: the account it was issued for and a
/// per-session key (empty when concurrent logins are allowed).
#[derive(Debug)]
pub struct Login<'a> {
    pub account: &'a Account,
    pub key: &'a str,
}

} // verus!
