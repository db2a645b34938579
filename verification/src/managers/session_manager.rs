//! Password hashing, as the login uses it. The hashing itself is the work of
//! the `argon2` crate.

use vstd::prelude::*;
use argon2::password_hash::rand_core::OsRng;
use argon2::password_hash::{PasswordHash, PasswordHasher, PasswordVerifier, SaltString};
use argon2::Argon2;

verus! {

/// The error of the `argon2` crate's hashing and verifying.
#[verifier::external_type_specification]
#[verifier::external_body]
pub struct ExHashError(argon2::password_hash::Error);

pub struct SessionManager {}

/// Whether `Argon2::verify_password`, with the default parameters, accepts
/// the password for the hash that the text holds. It does not where the text
/// is no password hash.
pub uninterp spec fn argon2_accepts(password: Seq<u8>, password_hash: Seq<char>) -> bool;

/// Hashes the bytes with `Argon2::hash_password` under a salt that
/// `SaltString::generate` draws from the operating system, and returns the
/// hash as text.
///
/// The salt is random: two calls on the same bytes return different texts.
/// What holds of each of them is what the `argon2` crate documents of a hash
/// it has made: verifying the same bytes against it succeeds.
#[verifier::external_body]
pub fn hash_bytes(bytes: &[u8]) -> (r: Result<String, argon2::password_hash::Error>)
    ensures
        r is Ok ==> argon2_accepts(bytes@, r->Ok_0@),
{
    let salt = SaltString::generate(&mut OsRng);
    let argon2 = Argon2::default();
    let password_hash = argon2.hash_password(bytes, &salt)?.to_string();
    Ok(password_hash)
}

/// Checks a password against a hash: parses the text with
/// `PasswordHash::new` and verifies the password with
/// `Argon2::verify_password`. The outcome depends on the two arguments
/// alone; [`argon2_accepts`] names it.
#[verifier::external_body]
pub fn hash_match(password: &[u8], password_hash: &str) -> (r: Result<
    (),
    argon2::password_hash::Error,
>)
    ensures
        r is Ok <==> argon2_accepts(password@, password_hash@),
{
    let password_hash = PasswordHash::new(&password_hash)?;
    Argon2::default().verify_password(password, &password_hash)
}

} // verus!
