//! Login: the throttle, the credential check, and the session and CSRF
//! tokens of a successful login.

use vstd::prelude::*;
use crate::web::auth::password::{verify, argon2_accepts};
use crate::web::auth::session::{SessionStore, SessionView, fresh_session, hex_of};
use crate::web::state::{Creds, Throttle, window_at, MAX_LOGIN_FAILURES};

verus! {

broadcast use vstd::string::group_string_axioms;

/// The body of a login request.
pub struct LoginBody {
    pub username: String,
    pub password: String,
}

/// Lifetime of a login session: 12 hours.
pub const SESSION_TTL_MS: i64 = 43_200_000;

/// How a login ended.
pub enum LoginOutcome {
    /// Too many failures for this user in the window (429).
    Throttled,
    /// Wrong user name or password (401).
    Unauthorized,
    /// Logged in: the session token (for the `sid` cookie) and the CSRF token
    /// (for the `csrf` cookie).
    LoggedIn { sid: String, csrf: String },
}

/// The only account.
pub open spec fn admin_name() -> Seq<char> {
    seq!['a', 'd', 'm', 'i', 'n']
}

/// The session that a login stores.
pub open spec fn login_session(now_ms: i64) -> SessionView {
    fresh_session(admin_name(), now_ms, SESSION_TTL_MS)
}

/// Handles a login request. At most 5 failures per user name within a
/// 5-minute window; past that the request is refused before the password is
/// looked at. Only `admin` with the stored password logs in; a failure
/// counts against the window.
pub fn login(throttle: &mut Throttle, sessions: &mut SessionStore, creds: &Creds, body: &LoginBody, now_ms: i64) -> (out: LoginOutcome)
    requires
        old(sessions).wf(),
    ensures
        final(sessions).wf(),
        ({
            let w = window_at(old(throttle).spec_fails(), body.username@, now_ms);
            let ok = body.username@ == admin_name() && argon2_accepts(body.password@, creds.pw_phc@);
            if w.0 >= MAX_LOGIN_FAILURES {
                &&& out is Throttled
                &&& final(throttle).spec_fails() == old(throttle).spec_fails().insert(body.username@, w)
                &&& final(sessions).spec_sessions() == old(sessions).spec_sessions()
            } else if !ok {
                &&& out is Unauthorized
                &&& final(throttle).spec_fails() == old(throttle).spec_fails().insert(body.username@, ((w.0 + 1) as u32, w.1))
                &&& final(sessions).spec_sessions() == old(sessions).spec_sessions()
            } else {
                &&& out matches LoginOutcome::LoggedIn { sid, csrf }
                &&& sid@.len() == 64
                &&& exists|b: Seq<u8>| b.len() == 32 && sid@ == hex_of(b)
                &&& csrf@.len() == 64
                &&& exists|b: Seq<u8>| b.len() == 32 && csrf@ == hex_of(b)
                &&& final(throttle).spec_fails() == old(throttle).spec_fails().insert(body.username@, w)
                &&& final(sessions).spec_sessions() == old(sessions).spec_sessions()
                    .insert(sid@, login_session(now_ms))
            }
        }),
{
    let w = throttle.open_window(body.username.as_str(), now_ms);
    if w.0 >= MAX_LOGIN_FAILURES {
        return LoginOutcome::Throttled;
    }
    let admin = String::from_str("admin");
    proof { reveal_strlit("admin"); }
    assert(admin@ == admin_name());
    let ok = body.username == admin && verify(body.password.as_str(), creds.pw_phc.as_str());
    if !ok {
        throttle.record_failure(body.username.as_str(), w);
        return LoginOutcome::Unauthorized;
    }
    let sid = sessions.create("admin", now_ms, SESSION_TTL_MS);
    let csrf = SessionStore::random_token();
    LoginOutcome::LoggedIn { sid, csrf }
}

/// Handles a logout request: removes the session named by the `sid` cookie,
/// if any. Nothing else is stored for a login, so nothing else remains.
pub fn logout(sessions: &mut SessionStore, sid: Option<&str>)
    requires
        old(sessions).wf(),
    ensures
        final(sessions).wf(),
        sid is None ==> final(sessions).spec_sessions() == old(sessions).spec_sessions(),
        sid matches Some(t) ==> final(sessions).spec_sessions() == old(sessions).spec_sessions().remove(t@),
{
    match sid {
        Some(t) => sessions.remove(t),
        None => {},
    }
}

/// Law: a logout with the `sid` cookie of a login leaves the store as it was
/// before the login, whatever the token was.
pub proof fn law_logout_undoes_login(before: Map<Seq<char>, SessionView>, sid: Seq<char>, now_ms: i64)
    requires
        !before.contains_key(sid),
    ensures
        before.insert(sid, login_session(now_ms)).remove(sid) == before,
{
    assert(before.insert(sid, login_session(now_ms)).remove(sid) =~= before);
}

/// Law: once a user has `MAX_LOGIN_FAILURES` failures in an open window,
/// every login for that name within the window is throttled, whatever the
/// password, and leaves the window as it is.
pub proof fn law_throttle_ignores_password(fails: Map<Seq<char>, (u32, i64)>, user: Seq<char>, now_ms: i64)
    requires
        fails.contains_key(user),
        fails[user].0 >= MAX_LOGIN_FAILURES,
        now_ms - fails[user].1 <= crate::web::state::LOGIN_WINDOW_MS,
    ensures
        window_at(fails, user, now_ms).0 >= MAX_LOGIN_FAILURES,
        window_at(fails, user, now_ms) == fails[user],
{
}

/// Law: a user's failures stop counting once their window is more than
/// `LOGIN_WINDOW_MS` old: the next login opens a fresh window, so it is
/// judged on the password alone.
pub proof fn law_throttle_window_expires(fails: Map<Seq<char>, (u32, i64)>, user: Seq<char>, now_ms: i64)
    requires
        fails.contains_key(user),
        now_ms - fails[user].1 > crate::web::state::LOGIN_WINDOW_MS,
    ensures
        window_at(fails, user, now_ms) == (0u32, now_ms),
        window_at(fails, user, now_ms).0 < MAX_LOGIN_FAILURES,
{
}

} // verus!
