//! Password hashing and checking with Argon2 (PHC strings).

use vstd::prelude::*;
use argon2::password_hash::{PasswordHash, PasswordHasher, PasswordVerifier, SaltString};
use argon2::Argon2;
use crate::web::auth::session::random_bytes;
use vstd::utf8::encode_utf8;

verus! {

/// Whether Argon2 with default parameters accepts `password` against the PHC
/// string `phc` (false where `phc` does not parse as a PHC string).
pub uninterp spec fn argon2_accepts(password: Seq<char>, phc: Seq<char>) -> bool;

/// Why a password could not be hashed.
#[derive(Debug, Clone, Copy, PartialEq, Eq, Structural)]
pub enum PasswordError {
    Hash,
}

/// `PasswordHash::new(phc)` followed by `Argon2::default().verify_password`:
/// true exactly where the PHC string parses and the password matches it. The
/// outcome is a function of the two strings.
#[verifier::external_body]
pub fn verify(pw: &str, phc: &str) -> (ok: bool)
    ensures
        ok == argon2_accepts(pw@, phc@),
{
    match PasswordHash::new(phc) {
        Ok(parsed) => Argon2::default().verify_password(pw.as_bytes(), &parsed).is_ok(),
        Err(_) => false,
    }
}

/// The longest password, in UTF-8 bytes, that Argon2 hashes (`MAX_PWD_LEN`).
pub open spec fn max_password_bytes() -> int {
    0xFFFF_FFFF
}

/// `Argon2::default().hash_password` with the salt `SaltString::encode_b64(salt)`,
/// as a PHC string. A hash it returns is one that `verify_password` accepts for
/// the same password: that is what `PasswordVerifier` is for. With a 16-byte
/// salt (22 B64 characters, within the salt limits of both crates) the only
/// refusal left in the crate is a password longer than `MAX_PWD_LEN` bytes.
#[verifier::external_body]
fn argon2_hash(pw: &str, salt: &[u8]) -> (phc: Option<String>)
    ensures
        phc matches Some(s) ==> argon2_accepts(pw@, s@),
        salt@.len() == 16 ==> (phc is Some <==> encode_utf8(pw@).len() <= max_password_bytes()),
{
    let salt = SaltString::encode_b64(salt).ok()?;
    Argon2::default().hash_password(pw.as_bytes(), &salt).ok().map(|h| h.to_string())
}

/// Hashes a password with a fresh 128-bit random salt. Fails exactly for a
/// password longer than Argon2's limit in UTF-8 bytes.
pub fn hash(pw: &str) -> (r: Result<String, PasswordError>)
    ensures
        r is Ok <==> encode_utf8(pw@).len() <= max_password_bytes(),
        r matches Ok(phc) ==> argon2_accepts(pw@, phc@),
        r matches Err(e) ==> e == PasswordError::Hash,
{
    let salt = random_bytes(16);
    match argon2_hash(pw, salt.as_slice()) {
        Some(phc) => Ok(phc),
        None => Err(PasswordError::Hash),
    }
}

} // verus!
