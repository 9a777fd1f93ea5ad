//! Authentication of API requests by the `sid` session cookie.

use vstd::prelude::*;
use crate::web::auth::session::{SessionStore, SessionView, is_live};

verus! {

/// The actor of an authenticated request.
pub struct AuthActor(pub String);

/// Authenticates a request by its `sid` cookie: the session's actor where the
/// cookie names a live session (refreshing its idle timeout), 401 otherwise;
/// a session found dead is dropped.
pub fn authenticate(sessions: &mut SessionStore, sid: Option<&str>, now_ms: i64) -> (r: Result<AuthActor, u16>)
    requires
        old(sessions).wf(),
    ensures
        final(sessions).wf(),
        sid is None ==> r == Err::<AuthActor, u16>(401) && final(sessions).spec_sessions() == old(sessions).spec_sessions(),
        sid matches Some(t) ==> {
            let m = old(sessions).spec_sessions();
            if m.contains_key(t@) && is_live(m[t@], now_ms) {
                &&& r matches Ok(a) && a.0@ == m[t@].actor
                &&& final(sessions).spec_sessions() == m.insert(t@, SessionView { last_ms: now_ms, ..m[t@] })
            } else if m.contains_key(t@) {
                &&& r == Err::<AuthActor, u16>(401)
                &&& final(sessions).spec_sessions() == m.remove(t@)
            } else {
                &&& r == Err::<AuthActor, u16>(401)
                &&& final(sessions).spec_sessions() == m
            }
        },
{
    match sid {
        None => Err(401),
        Some(t) => match sessions.validate(t, now_ms) {
            Some(actor) => Ok(AuthActor(actor)),
            None => Err(401),
        },
    }
}

} // verus!
