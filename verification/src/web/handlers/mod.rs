//! The decisions behind the console's HTTP handlers: the CSRF check, login,
//! the restart operation, and the parameters of the read endpoints.

pub mod auth;
pub mod ops;
pub mod read;

use vstd::prelude::*;
use subtle::ConstantTimeEq;

verus! {

broadcast use vstd::string::group_string_axioms;

/// `subtle`'s `ConstantTimeEq` on byte slices, converted to `bool`: false
/// for different lengths, otherwise whether every byte matches.
#[verifier::external_body]
fn ct_eq_bytes(a: &[u8], b: &[u8]) -> (eq: bool)
    ensures
        eq == (a@ == b@),
{
    a.ct_eq(b).into()
}

/// Constant-time string comparison for the CSRF double-submit check. The
/// lengths are compared first (they are public).
pub fn csrf_eq(a: &str, b: &str) -> (eq: bool)
    ensures
        eq == (a@ == b@),
{
    let r = a.len() == b.len() && ct_eq_bytes(a.as_bytes(), b.as_bytes());
    proof {
        vstd::utf8::encode_utf8_decode_utf8(a@);
        vstd::utf8::encode_utf8_decode_utf8(b@);
    }
    r
}

/// The double-submit check: the `x-csrf` header and the `csrf` cookie are
/// both present and equal.
pub open spec fn csrf_passes(header: Seq<char>, cookie: Seq<char>) -> bool {
    header.len() > 0 && cookie.len() > 0 && header == cookie
}

/// The CSRF-only check: `Ok` when the header matches the cookie, 403
/// otherwise.
pub fn check_csrf(header: &str, cookie: &str) -> (r: Result<(), u16>)
    ensures
        csrf_passes(header@, cookie@) ==> r is Ok,
        !csrf_passes(header@, cookie@) ==> r == Err::<(), u16>(403),
{
    if header.is_empty() || cookie.is_empty() || !csrf_eq(header, cookie) {
        return Err(403);
    }
    Ok(())
}

} // verus!
