use crate::error::Error;
use password_hash::{PasswordHash, PasswordHasher, PasswordVerifier, SaltString};
use vstd::prelude::*;

verus! {

/// The outcome of checking `password` against the stored hash string `stored`:
/// `Some(true)` on a match, `Some(false)` on a mismatch, `None` when the stored
/// string cannot be used to check anything.
pub uninterp spec fn password_check(stored: Seq<char>, password: Seq<char>) -> Option<bool>;

/// Relies on password_hash's SaltString::generate over the operating system's
/// random source and on pbkdf2's Pbkdf2::hash_password: with the default parameters
/// and a generated salt hashing always succeeds, and the hash string it returns
/// (salt and parameters included) verifies against the same password.
#[verifier::external_body]
fn derive_hash(password: &str) -> (r: Option<String>)
    ensures
        r is Some,
        r is Some ==> password_check(r->0@, password@) == Some(true),
{
    let salt = SaltString::generate(&mut password_hash::rand_core::OsRng);
    let hashed = pbkdf2::Pbkdf2.hash_password(password.as_bytes(), &salt);
    hashed.ok().map(|h| h.to_string())
}

/// Relies on password_hash's PasswordHash::new, which parses the stored string, and
/// on pbkdf2's Pbkdf2::verify_password, which recomputes the hash from its salt and
/// parameters and compares: its result depends on the two strings alone.
#[verifier::external_body]
fn check_hash(stored: &str, password: &str) -> (r: Option<bool>)
    ensures
        r == password_check(stored@, password@),
{
    let parsed = match PasswordHash::new(stored) {
        Ok(h) => h,
        Err(_) => return None,
    };
    match pbkdf2::Pbkdf2.verify_password(password.as_bytes(), &parsed) {
        Ok(()) => Some(true),
        Err(password_hash::Error::Password) => Some(false),
        Err(_) => None,
    }
}

/// What verification reports for a stored hash and a presented password.
pub open spec fn verify_outcome(stored: Seq<char>, password: Seq<char>) -> Result<bool, Error> {
    match password_check(stored, password) {
        Some(b) => Ok(b),
        None => Err(Error::CorruptHash),
    }
}

/// A salted, slow hash of `password`, for storage.
pub fn hash_password(password: &str) -> (r: Result<String, Error>)
    ensures
        r is Ok,
        r is Ok ==> password_check(r->Ok_0@, password@) == Some(true),
{
    match derive_hash(password) {
        Some(h) => Ok(h),
        None => Err(Error::ServerError),
    }
}

/// Whether `password` matches the stored hash; a stored string that cannot be
/// used is an error, not a mismatch.
pub fn verify_password(stored: &str, password: &str) -> (r: Result<bool, Error>)
    ensures
        r == verify_outcome(stored@, password@),
{
    match check_hash(stored, password) {
        Some(b) => Ok(b),
        None => Err(Error::CorruptHash),
    }
}

/// A hash produced for a password verifies against that password.
pub proof fn lemma_hash_verifies(stored: Seq<char>, password: Seq<char>)
    requires
        password_check(stored, password) == Some(true),
    ensures
        verify_outcome(stored, password) == Ok::<bool, Error>(true),
{
}

} // verus!
