//! Key derivation and the master-password verifier.
//!
//! A memory-hard password hash (Argon2id, default parameters) turns the
//! master password and a salt into the 32-byte vault key, and produces the
//! storable verifier record that later authentications are checked
//! against.  The primitive calls are trusted at their stated contracts;
//! everything around them is verified.

use vstd::prelude::*;
use vstd::utf8::encode_utf8;
use argon2::password_hash::{PasswordHash, PasswordHasher, PasswordVerifier, SaltString};
use crate::error::CryptoError;

verus! {

/// The 32-byte key that Argon2id (default parameters) derives from a
/// password and a salt.  A function of its arguments alone; the algorithm
/// itself is not restated.
pub uninterp spec fn derived_key(password: Seq<char>, salt: Seq<u8>) -> Seq<u8>;

/// Whether `verifier` parses as a password-hash record and Argon2
/// verification of `password` against it succeeds.  Deterministic in both
/// arguments.
pub uninterp spec fn verifier_ok(password: Seq<char>, verifier: Seq<char>) -> bool;

/// The salt-string bytes embedded in a verifier record.
pub uninterp spec fn verifier_salt(verifier: Seq<char>) -> Seq<u8>;

/// Relies on `Argon2::hash_password_into` with a 32-byte output buffer:
/// deterministic in password and salt, and it succeeds whenever the salt
/// is 8 to 2^32-1 bytes long and the password at most 2^32-1 bytes.
#[verifier::external_body]
pub fn derive_key(password: &str, salt: &[u8]) -> (r: Result<Vec<u8>, CryptoError>)
    ensures
        r matches Ok(k) ==> k@ == derived_key(password@, salt@) && k@.len() == 32,
        8 <= salt@.len() <= 0xFFFF_FFFF && encode_utf8(password@).len() <= 0xFFFF_FFFF ==> r is Ok,
{
    let mut key = vec![0u8; 32];
    match argon2::Argon2::default().hash_password_into(password.as_bytes(), salt, &mut key) {
        Ok(()) => Ok(key),
        Err(_) => Err(CryptoError::KeyDerivationFailed),
    }
}

/// Relies on `SaltString::generate` and `Argon2::hash_password`: the
/// produced record always verifies against the password it was made from,
/// it embeds the fresh 16-byte salt as a 22-character salt string, and
/// hashing with a generated salt and the default parameters succeeds for
/// every password of at most 2^32-1 bytes.  Aborts only if the operating
/// system's random generator fails, an environmental condition no
/// precondition can exclude.
#[verifier::external_body]
pub fn make_verifier(password: &str) -> (r: Result<String, CryptoError>)
    ensures
        r matches Ok(v) ==> verifier_ok(password@, v@),
        r matches Ok(v) ==> verifier_salt(v@).len() == 22,
        encode_utf8(password@).len() <= 0xFFFF_FFFF ==> r is Ok,
{
    let salt = SaltString::generate(&mut argon2::password_hash::rand_core::OsRng);
    match argon2::Argon2::default().hash_password(password.as_bytes(), &salt) {
        Ok(h) => Ok(h.to_string()),
        Err(_) => Err(CryptoError::KeyDerivationFailed),
    }
}

/// Relies on `SaltString::generate`: a fresh random 16-byte salt,
/// returned as the bytes of its 22-character salt string.  Nothing is
/// promised of its value; the call aborts only if the operating system's
/// random generator fails.
#[verifier::external_body]
pub fn fresh_salt() -> (r: Vec<u8>)
    ensures
        r@.len() == 22,
{
    let salt = SaltString::generate(&mut argon2::password_hash::rand_core::OsRng);
    salt.as_str().as_bytes().to_vec()
}

/// Relies on `PasswordHash::new` and `Argon2::verify_password`: both are
/// deterministic in the password and the record; a record that does not
/// parse verifies nothing.
#[verifier::external_body]
pub fn check_verifier(password: &str, record: &str) -> (r: bool)
    ensures
        r == verifier_ok(password@, record@),
{
    match PasswordHash::new(record) {
        Ok(parsed) => argon2::Argon2::default().verify_password(password.as_bytes(), &parsed)
            .is_ok(),
        Err(_) => false,
    }
}

/// Relies on `PasswordHash::new` and its `salt` field: parsing is
/// deterministic, and any record that verifies some password carries a
/// salt, so extraction succeeds on it.
#[verifier::external_body]
pub fn salt_of_verifier(record: &str) -> (r: Result<Vec<u8>, CryptoError>)
    ensures
        r matches Ok(s) ==> s@ == verifier_salt(record@),
        forall|p: Seq<char>| verifier_ok(p, record@) ==> r is Ok,
{
    match PasswordHash::new(record) {
        Ok(h) => match h.salt {
            Some(salt) => Ok(salt.as_str().as_bytes().to_vec()),
            None => Err(CryptoError::KeyDerivationFailed),
        },
        Err(_) => Err(CryptoError::KeyDerivationFailed),
    }
}

/// Determinism law: the derived key is a function of the password and the
/// salt alone, so repeated derivations with equal inputs agree.
pub proof fn lemma_derive_key_deterministic(
    password: Seq<char>,
    salt: Seq<u8>,
    k1: Seq<u8>,
    k2: Seq<u8>,
)
    requires
        k1 == derived_key(password, salt),
        k2 == derived_key(password, salt),
    ensures
        k1 == k2,
{
}

} // verus!
