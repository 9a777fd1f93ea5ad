//! Wall-clock time.

use vstd::prelude::*;
use std::time::{SystemTime, UNIX_EPOCH};

verus! {

/// Milliseconds since the Unix epoch by the system clock (`SystemTime::now`
/// and `duration_since(UNIX_EPOCH)`), or `None` where the clock is set before
/// the epoch. The value depends on the clock.
#[verifier::external_body]
fn epoch_millis() -> (ms: Option<u128>)
{
    SystemTime::now().duration_since(UNIX_EPOCH).ok().map(|d| d.as_millis())
}

/// A millisecond count as an `i64`: the low 64 bits, as `as i64` takes them;
/// zero where the clock gave none.
pub open spec fn millis_as_i64(ms: Option<u128>) -> i64 {
    match ms {
        None => 0,
        Some(m) => m as i64,
    }
}

/// Current time in milliseconds since the Unix epoch.
pub fn now_ms() -> i64 {
    let ms = epoch_millis();
    millis_to_i64(ms)
}

/// A clock reading in milliseconds as an `i64`.
pub fn millis_to_i64(ms: Option<u128>) -> (t: i64)
    ensures
        t == millis_as_i64(ms),
{
    match ms {
        None => 0,
        Some(m) => m as i64,
    }
}

} // verus!
