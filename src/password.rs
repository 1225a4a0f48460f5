//! One-way adaptive password hashing.

use vstd::prelude::*;
use crate::error::AuthError;

verus! {

/// What bcrypt's verification says of a password against a stored hash:
/// `None` where the hash cannot be read.
pub uninterp spec fn bcrypt_verdict(password: Seq<char>, hash: Seq<char>) -> Option<bool>;

/// Relies on `bcrypt::verify`: its verdict depends on the two strings alone;
/// an unreadable hash is an error, here `None`.
#[verifier::external_body]
fn bcrypt_verify(password: &str, hash: &str) -> (r: Option<bool>)
    ensures
        r == bcrypt_verdict(password@, hash@),
{
    bcrypt::verify(password, hash).ok()
}

/// Relies on `bcrypt::hash` at `DEFAULT_COST`: the salt is random, so nothing
/// names the result; on success it is `$2b$`, two cost digits, `$` and 53
/// characters of salt and digest (60 in all), and `bcrypt::verify` accepts the
/// password against it. It fails only where the system's randomness does.
#[verifier::external_body]
fn bcrypt_hash(password: &str) -> (r: Option<String>)
    ensures
        r matches Some(h) ==> h@.len() == 60 && h@[0] == '$' && bcrypt_verdict(password@, h@)
            == Some(true),
{
    bcrypt::hash(password, bcrypt::DEFAULT_COST).ok()
}

/// A fresh salted hash of `password`, which verifies against it.
pub fn hash_password(password: &str) -> (r: Result<String, AuthError>)
    ensures
        r matches Ok(h) ==> h@.len() == 60 && h@[0] == '$' && bcrypt_verdict(password@, h@)
            == Some(true),
        r matches Err(e) ==> e == AuthError::Internal,
{
    match bcrypt_hash(password) {
        Some(h) => Ok(h),
        None => Err(AuthError::Internal),
    }
}

/// Whether `password` matches `hash`; an unreadable hash is an internal
/// failure, never a wrong password.
pub fn verify_password(password: &str, hash: &str) -> (r: Result<bool, AuthError>)
    ensures
        r == match bcrypt_verdict(password@, hash@) {
            Some(v) => Ok::<bool, AuthError>(v),
            None => Err(AuthError::Internal),
        },
{
    match bcrypt_verify(password, hash) {
        Some(v) => Ok(v),
        None => Err(AuthError::Internal),
    }
}

} // verus!
