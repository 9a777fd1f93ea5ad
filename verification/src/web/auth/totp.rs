//! Time-based one-time passwords (RFC 6238: SHA-1, six digits, 30-second
//! steps, one step of skew) and the enrollment text for an authenticator.

use vstd::prelude::*;
use totp_rs::{Algorithm, Secret, TOTP};
use crate::text::chars_of;

verus! {

broadcast use vstd::string::group_string_axioms;

/// RFC 4648 base32 without padding, as `totp_rs::Secret::to_encoded` writes it.
pub uninterp spec fn base32_encoding(raw: Seq<u8>) -> Seq<char>;

/// RFC 4648 base32 without padding, as `totp_rs::Secret::to_bytes` reads it;
/// `None` where the text is not base32.
pub uninterp spec fn base32_decoding(text: Seq<char>) -> Option<Seq<u8>>;

/// The six-digit code of a secret for a 30-second time step (SHA-1 HOTP of
/// the step counter).
pub uninterp spec fn totp_code(secret: Seq<u8>, counter: u64) -> Seq<char>;

/// Why a secret is refused.
#[derive(Debug, Clone, Copy, PartialEq, Eq, Structural)]
pub enum TotpError {
    /// The text is not base32.
    BadBase32,
    /// The secret is shorter than 128 bits.
    SecretTooShort,
}

/// A TOTP generator and checker for one secret.
pub struct Totp {
    secret: Vec<u8>,
}

/// `Secret::Raw(bytes).to_encoded().to_string()`: the base32 text of 20 raw
/// bytes, suitable as a TOTP secret. Encoding and decoding both use the
/// `base32` crate's RFC 4648 alphabet without padding, and 20 bytes fill
/// whole 8-character groups, so decoding the text gives the bytes back.
#[verifier::external_body]
pub fn generate_secret_base32(rng_bytes: [u8; 20]) -> (s: String)
    ensures
        s@ == base32_encoding(rng_bytes@),
        base32_decoding(s@) == Some(rng_bytes@),
{
    Secret::Raw(rng_bytes.to_vec()).to_encoded().to_string()
}

/// `Secret::Encoded(text).to_bytes()`: the raw bytes of a base32 secret.
#[verifier::external_body]
fn decode_base32(text: &str) -> (r: Option<Vec<u8>>)
    ensures
        r is Some <==> base32_decoding(text@) is Some,
        r matches Some(b) ==> base32_decoding(text@) == Some(b@),
{
    Secret::Encoded(text.to_string()).to_bytes().ok()
}

/// `TOTP::new(SHA1, 6, 1, 30, secret)` succeeds: the crate checks the digit
/// count (6 is in range) and that the secret has at least 16 bytes.
#[verifier::external_body]
fn totp_accepts_secret(secret: &Vec<u8>) -> (ok: bool)
    ensures
        ok == (secret@.len() >= 16),
{
    TOTP::new(Algorithm::SHA1, 6, 1, 30, secret.clone()).is_ok()
}

/// `TOTP::generate` for SHA-1, six digits, 30-second steps: the code of the
/// step `time / 30`.
#[verifier::external_body]
fn totp_generate(secret: &Vec<u8>, time: u64) -> (code: String)
    ensures
        code@ == totp_code(secret@, time / 30),
{
    TOTP::new_unchecked(Algorithm::SHA1, 6, 1, 30, secret.clone()).generate(time)
}

/// `TOTP::check` with one step of skew: the token equals the code of the
/// step before, at, or after `time / 30`. The crate computes
/// `time / 30 - 1`, which underflows below 30 s, and `(time / 30 + 1) * 30`.
#[verifier::external_body]
fn totp_check(secret: &Vec<u8>, token: &str, time: u64) -> (ok: bool)
    requires
        30 <= time <= u64::MAX - 60,
    ensures
        ok == (token@ == totp_code(secret@, (time / 30 - 1) as u64)
            || token@ == totp_code(secret@, time / 30)
            || token@ == totp_code(secret@, (time / 30 + 1) as u64)),
{
    TOTP::new_unchecked(Algorithm::SHA1, 6, 1, 30, secret.clone()).check(token, time)
}

/// The token is accepted at `time`: it is the code of the current step or of
/// one step on either side.
pub open spec fn accepted(secret: Seq<u8>, token: Seq<char>, time: u64) -> bool {
    token == totp_code(secret, (time / 30 - 1) as u64)
        || token == totp_code(secret, time / 30)
        || token == totp_code(secret, (time / 30 + 1) as u64)
}

/// What `Totp::from_base32` gives for a base32 text.
pub open spec fn secret_of(text: Seq<char>) -> Result<Seq<u8>, TotpError> {
    match base32_decoding(text) {
        None => Err(TotpError::BadBase32),
        Some(b) => if b.len() >= 16 { Ok(b) } else { Err(TotpError::SecretTooShort) },
    }
}

impl Totp {
    /// The raw secret.
    pub closed spec fn spec_secret(&self) -> Seq<u8> {
        self.secret@
    }

    /// Decodes a base32 secret; refuses text that is not base32 and secrets
    /// shorter than 128 bits.
    pub fn from_base32(secret_b32: &str) -> (r: Result<Totp, TotpError>)
        ensures
            r matches Ok(t) ==> secret_of(secret_b32@) == Ok::<Seq<u8>, TotpError>(t.spec_secret()),
            r matches Err(e) ==> secret_of(secret_b32@) == Err::<Seq<u8>, TotpError>(e),
    {
        match decode_base32(secret_b32) {
            None => Err(TotpError::BadBase32),
            Some(bytes) => {
                if totp_accepts_secret(&bytes) {
                    Ok(Totp { secret: bytes })
                } else {
                    Err(TotpError::SecretTooShort)
                }
            },
        }
    }

    /// The code for the step of `unix_secs`.
    pub fn current(&self, unix_secs: u64) -> (code: String)
        ensures
            code@ == totp_code(self.spec_secret(), unix_secs / 30),
    {
        totp_generate(&self.secret, unix_secs)
    }

    /// Whether `code` is accepted at `unix_secs`.
    pub fn check(&self, code: &str, unix_secs: u64) -> (ok: bool)
        requires
            30 <= unix_secs <= u64::MAX - 60,
        ensures
            ok == accepted(self.spec_secret(), code@, unix_secs),
    {
        totp_check(&self.secret, code, unix_secs)
    }
}

/// Law: the code generated for a moment is accepted at that moment.
pub proof fn law_current_code_is_accepted(secret: Seq<u8>, time: u64)
    ensures
        accepted(secret, totp_code(secret, time / 30), time),
{
}

/// The `otpauth://` URI of a secret.
pub open spec fn enrollment_uri_of(secret_b32: Seq<char>) -> Seq<char> {
    "otpauth://totp/SentinelConsole:admin?secret="@ + secret_b32
        + "&issuer=SentinelConsole&algorithm=SHA1&digits=6&period=30"@
}

/// The `otpauth://` URI the operator scans once during enrollment.
pub fn enrollment_uri(secret_b32: &str) -> (uri: String)
    ensures
        uri@ == enrollment_uri_of(secret_b32@),
{
    let mut s = String::from_str("otpauth://totp/SentinelConsole:admin?secret=");
    s.append(secret_b32);
    s.append("&issuer=SentinelConsole&algorithm=SHA1&digits=6&period=30");
    s
}

/// The one-time enrollment banner: the secret and its URI.
pub open spec fn enrollment_text_of(secret_b32: Seq<char>) -> Seq<char> {
    "=== TOTP ENROLLMENT \u{2014} scan ONCE with your authenticator app, then DELETE this file ===\nSecret (base32): "@
        + secret_b32 + "\nOTPAuth URI    : "@ + enrollment_uri_of(secret_b32) + "\n"@
}

/// The text of the enrollment file.
pub fn enrollment_text(secret_b32: &str) -> (text: String)
    ensures
        text@ == enrollment_text_of(secret_b32@),
{
    let mut s = String::from_str(
        "=== TOTP ENROLLMENT \u{2014} scan ONCE with your authenticator app, then DELETE this file ===\nSecret (base32): ",
    );
    s.append(secret_b32);
    s.append("\nOTPAuth URI    : ");
    let uri = enrollment_uri(secret_b32);
    s.append(uri.as_str());
    s.append("\n");
    s
}

/// Law: a generated secret is always usable: its text decodes back to its 20
/// bytes, enough for the checked constructor, so `from_base32` accepts it.
pub proof fn law_generated_secret_is_usable(raw: Seq<u8>)
    requires
        raw.len() == 20,
        base32_decoding(base32_encoding(raw)) == Some(raw),
    ensures
        secret_of(base32_encoding(raw)) == Ok::<Seq<u8>, TotpError>(raw),
{
}

} // verus!
