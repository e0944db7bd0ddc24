//! Password hashing and verification.
//!
//! The hash itself is computed by the bcrypt crate; the library states
//! what relates a password to a hash — `bcrypt_matches` — and that every
//! hash this module produces matches the password it was produced from.

use vstd::prelude::*;

use crate::error::{AppError, AppResult};

verus! {

/// What bcrypt verification returns for a password and a hash string: a
/// function of the two arguments alone.
pub uninterp spec fn bcrypt_matches(password: Seq<char>, hash: Seq<char>) -> bool;

/// Relies on bcrypt::hash with the default cost of 12: the salt is drawn
/// fresh, so nothing is stated of the hash itself beyond that verification
/// with the same password accepts it. The call fails only when the
/// operating system cannot supply randomness for the salt.
#[verifier::external_body]
fn bcrypt_hash(password: &str) -> (r: Result<String, ()>)
    ensures
        r matches Ok(h) ==> bcrypt_matches(password@, h@),
{
    match bcrypt::hash(password, bcrypt::DEFAULT_COST) {
        Ok(h) => Ok(h),
        Err(_) => Err(()),
    }
}

/// Relies on bcrypt::verify: whether the password matches the hash; fails
/// on a malformed hash string.
#[verifier::external_body]
fn bcrypt_verify(password: &str, hash: &str) -> (r: Result<bool, ()>)
    ensures
        r matches Ok(b) ==> b == bcrypt_matches(password@, hash@),
{
    match bcrypt::verify(password, hash) {
        Ok(b) => Ok(b),
        Err(_) => Err(()),
    }
}

/// Hashes a password with a fresh salt. Every hash returned verifies
/// against the password it was made from; the call fails only when the
/// system cannot supply randomness.
pub fn hash_password(password: &str) -> (r: AppResult<String>)
    ensures
        r matches Ok(h) ==> bcrypt_matches(password@, h@),
        r matches Err(e) ==> e matches AppError::InternalServerError(m) && m@
            == "Failed to hash password"@,
{
    match bcrypt_hash(password) {
        Ok(h) => Ok(h),
        Err(_) => Err(
            AppError::InternalServerError(String::from_str("Failed to hash password")),
        ),
    }
}

/// Checks a password against a stored hash; a malformed hash is reported
/// as an internal error.
pub fn verify_password(password: &str, hash: &str) -> (r: AppResult<bool>)
    ensures
        r matches Ok(b) ==> b == bcrypt_matches(password@, hash@),
        r matches Err(e) ==> e matches AppError::InternalServerError(m) && m@
            == "Password verification failed"@,
{
    match bcrypt_verify(password, hash) {
        Ok(b) => Ok(b),
        Err(_) => Err(
            AppError::InternalServerError(String::from_str("Password verification failed")),
        ),
    }
}

} // verus!
