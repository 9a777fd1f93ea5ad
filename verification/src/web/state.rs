//! Shared console state: the credentials, the login throttle, and the guard
//! on the TOTP codes of privileged operations.

use vstd::prelude::*;
use vstd::hash_map::StringHashMap;

verus! {

broadcast use vstd::string::group_string_axioms;

/// The stored credentials: the admin's password hash and the TOTP secret.
#[derive(Clone)]
pub struct Creds {
    pub pw_phc: String,
    pub totp_secret_b32: String,
}

/// Failed logins per user name within the current window.
pub struct Throttle {
    fails: StringHashMap<(u32, i64)>,
}

/// Length of a throttle window.
pub const LOGIN_WINDOW_MS: i64 = 300_000;

/// Failures allowed in a window before logins are refused.
pub const MAX_LOGIN_FAILURES: u32 = 5;

/// The throttle entry of `user` at `now_ms`: the stored `(failures,
/// window start)`, or a fresh window where there is none or where the
/// stored window started more than `LOGIN_WINDOW_MS` ago.
pub open spec fn window_at(fails: Map<Seq<char>, (u32, i64)>, user: Seq<char>, now_ms: i64) -> (u32, i64) {
    let e = if fails.contains_key(user) { fails[user] } else { (0u32, now_ms) };
    if now_ms - e.1 > LOGIN_WINDOW_MS { (0u32, now_ms) } else { e }
}

impl Default for Throttle {
    /// No failures recorded.
    fn default() -> (t: Throttle)
        ensures
            t.spec_fails() == Map::<Seq<char>, (u32, i64)>::empty(),
    {
        Throttle::new()
    }
}

impl Throttle {
    /// Failures and window start, by user name.
    pub closed spec fn spec_fails(&self) -> Map<Seq<char>, (u32, i64)> {
        self.fails@
    }

    pub fn new() -> (t: Throttle)
        ensures
            t.spec_fails() == Map::<Seq<char>, (u32, i64)>::empty(),
    {
        Throttle { fails: StringHashMap::new() }
    }

    /// Opens the user's window at `now_ms` (a fresh one where none is open or
    /// the open one has expired), stores it, and returns it.
    pub fn open_window(&mut self, user: &str, now_ms: i64) -> (e: (u32, i64))
        ensures
            e == window_at(old(self).spec_fails(), user@, now_ms),
            final(self).spec_fails() == old(self).spec_fails().insert(user@, e),
    {
        let stored = match self.fails.get(user) {
            Some(e) => *e,
            None => (0u32, now_ms),
        };
        let e = if (now_ms as i128) - (stored.1 as i128) > LOGIN_WINDOW_MS as i128 {
            (0u32, now_ms)
        } else {
            stored
        };
        self.fails.insert(String::from_str(user), e);
        e
    }

    /// Counts one more failure in the user's open window.
    pub fn record_failure(&mut self, user: &str, window: (u32, i64))
        requires
            window.0 < u32::MAX,
        ensures
            final(self).spec_fails() == old(self).spec_fails().insert(user@, ((window.0 + 1) as u32, window.1)),
    {
        self.fails.insert(String::from_str(user), (window.0 + 1, window.1));
    }
}

/// Failed TOTP codes allowed in a window before the operations are locked.
pub const MAX_TOTP_FAILURES: u32 = 5;

/// How long an accepted code stays spent: a code is valid for at most three
/// 30-second steps.
pub const REPLAY_WINDOW_MS: i64 = 90_000;

/// The guard on the TOTP codes of privileged operations: failed codes within
/// the current window, and the codes accepted lately.
pub struct TotpGuard {
    fails: u32,
    window_start_ms: i64,
    used: Vec<(String, i64)>,
}

/// The failure window at `now_ms`: the stored one, or a fresh one starting
/// at `now_ms` where the stored one holds no failure or started more than
/// `LOGIN_WINDOW_MS` ago.
pub open spec fn guard_window(w: (u32, i64), now_ms: i64) -> (u32, i64) {
    if w.0 == 0 || now_ms - w.1 > LOGIN_WINDOW_MS { (0u32, now_ms) } else { w }
}

/// The operations are locked at `now_ms`: the window holds the maximum of
/// failed codes.
pub open spec fn totp_locked(w: (u32, i64), now_ms: i64) -> bool {
    guard_window(w, now_ms).0 >= MAX_TOTP_FAILURES
}

/// The code was accepted at most `REPLAY_WINDOW_MS` before `now_ms`.
pub open spec fn replayed(used: Seq<(Seq<char>, i64)>, code: Seq<char>, now_ms: i64) -> bool {
    exists|i: int| 0 <= i < used.len() && #[trigger] used[i].0 == code && now_ms - used[i].1 <= REPLAY_WINDOW_MS
}

/// The accepted codes that are still spent at `now_ms`, in order.
pub open spec fn still_spent(used: Seq<(Seq<char>, i64)>, now_ms: i64) -> Seq<(Seq<char>, i64)>
    decreases used.len(),
{
    if used.len() == 0 {
        Seq::empty()
    } else {
        let prev = still_spent(used.drop_last(), now_ms);
        if now_ms - used.last().1 <= REPLAY_WINDOW_MS { prev.push(used.last()) } else { prev }
    }
}

proof fn lemma_still_spent_keeps(used: Seq<(Seq<char>, i64)>, now_ms: i64, i: int)
    requires
        0 <= i < used.len(),
        now_ms - used[i].1 <= REPLAY_WINDOW_MS,
    ensures
        exists|m: int| 0 <= m < still_spent(used, now_ms).len() && #[trigger] still_spent(used, now_ms)[m] == used[i],
    decreases used.len(),
{
    let prev = still_spent(used.drop_last(), now_ms);
    if i == used.len() - 1 {
        assert(still_spent(used, now_ms) == prev.push(used.last()));
        assert(still_spent(used, now_ms)[prev.len() as int] == used[i]);
    } else {
        assert(used.drop_last()[i] == used[i]);
        lemma_still_spent_keeps(used.drop_last(), now_ms, i);
        let m = choose|m: int| 0 <= m < prev.len() && #[trigger] prev[m] == used.drop_last()[i];
        if now_ms - used.last().1 <= REPLAY_WINDOW_MS {
            assert(still_spent(used, now_ms)[m] == prev[m]);
        } else {
            assert(still_spent(used, now_ms) == prev);
        }
    }
}

/// Law: spending a code forgets no code that is still spent: every code
/// that counts as a replay at a time `later_ms` (at or after the spend) before
/// the spend still counts as one after it, whichever code was spent.
pub proof fn law_spend_keeps_spent_codes(
    used: Seq<(Seq<char>, i64)>,
    new_code: Seq<char>,
    now_ms: i64,
    code: Seq<char>,
    later_ms: i64,
)
    requires
        now_ms <= later_ms,
        replayed(used, code, later_ms),
    ensures
        replayed(still_spent(used, now_ms).push((new_code, now_ms)), code, later_ms),
{
    let i = choose|i: int| 0 <= i < used.len() && #[trigger] used[i].0 == code && later_ms - used[i].1 <= REPLAY_WINDOW_MS;
    lemma_still_spent_keeps(used, now_ms, i);
    let kept = still_spent(used, now_ms);
    let m = choose|m: int| 0 <= m < kept.len() && #[trigger] kept[m] == used[i];
    let after = kept.push((new_code, now_ms));
    assert(after[m] == used[i]);
    assert(after[m].0 == code);
}

/// Law: a code accepted at `accepted_ms` is spent at every time from then on
/// within `REPLAY_WINDOW_MS`, whatever else was accepted before it.
pub proof fn law_accepted_code_is_spent(used: Seq<(Seq<char>, i64)>, code: Seq<char>, accepted_ms: i64, now_ms: i64)
    requires
        accepted_ms <= now_ms <= accepted_ms + REPLAY_WINDOW_MS,
    ensures
        replayed(still_spent(used, accepted_ms).push((code, accepted_ms)), code, now_ms),
{
    let u = still_spent(used, accepted_ms).push((code, accepted_ms));
    assert(u[u.len() - 1].0 == code);
}

/// Law: once the window holds the maximum of failed codes, the operations
/// stay locked at every later time within the window, and the window is
/// left as it is.
pub proof fn law_lockout_lasts_the_window(w: (u32, i64), now_ms: i64)
    requires
        w.0 >= MAX_TOTP_FAILURES,
        w.1 <= now_ms,
        now_ms - w.1 <= LOGIN_WINDOW_MS,
    ensures
        totp_locked(w, now_ms),
        guard_window(w, now_ms) == w,
{
}

/// Law: a lockout ends with its window: after `LOGIN_WINDOW_MS` the failures
/// no longer count.
pub proof fn law_lockout_expires(w: (u32, i64), now_ms: i64)
    requires
        now_ms - w.1 > LOGIN_WINDOW_MS,
    ensures
        !totp_locked(w, now_ms),
        guard_window(w, now_ms) == (0u32, now_ms),
{
}

/// The view of the accepted codes.
pub open spec fn used_view(used: Seq<(String, i64)>) -> Seq<(Seq<char>, i64)> {
    used.map_values(|e: (String, i64)| (e.0@, e.1))
}

impl TotpGuard {
    /// The failure window: `(failed codes, window start)`.
    pub closed spec fn spec_window(&self) -> (u32, i64) {
        (self.fails, self.window_start_ms)
    }

    /// The accepted codes with the times they were accepted, in order.
    pub closed spec fn spec_used(&self) -> Seq<(Seq<char>, i64)> {
        used_view(self.used@)
    }

    /// A guard with no failures and no spent codes.
    pub fn new() -> (g: TotpGuard)
        ensures
            g.spec_window() == (0u32, 0i64),
            g.spec_used() == Seq::<(Seq<char>, i64)>::empty(),
    {
        let g = TotpGuard { fails: 0, window_start_ms: 0, used: Vec::new() };
        assert(g.spec_used() =~= Seq::<(Seq<char>, i64)>::empty());
        g
    }

    /// Opens the failure window at `now_ms` (a fresh one where the stored one
    /// has expired) and says whether the operations are locked.
    pub fn open_window(&mut self, now_ms: i64) -> (locked: bool)
        ensures
            final(self).spec_window() == guard_window(old(self).spec_window(), now_ms),
            final(self).spec_used() == old(self).spec_used(),
            locked == totp_locked(old(self).spec_window(), now_ms),
    {
        if self.fails == 0 || (now_ms as i128) - (self.window_start_ms as i128) > LOGIN_WINDOW_MS as i128 {
            self.fails = 0;
            self.window_start_ms = now_ms;
        }
        self.fails >= MAX_TOTP_FAILURES
    }

    /// Counts one more failed code in the open window.
    pub fn record_failure(&mut self)
        requires
            old(self).spec_window().0 < MAX_TOTP_FAILURES,
        ensures
            final(self).spec_window() == ((old(self).spec_window().0 + 1) as u32, old(self).spec_window().1),
            final(self).spec_used() == old(self).spec_used(),
    {
        self.fails = self.fails + 1;
    }

    /// Whether `code` was accepted within `REPLAY_WINDOW_MS` before `now_ms`.
    pub fn is_spent(&self, code: &str, now_ms: i64) -> (b: bool)
        ensures
            b == replayed(self.spec_used(), code@, now_ms),
    {
        let c = String::from_str(code);
        let mut i: usize = 0;
        while i < self.used.len()
            invariant
                c@ == code@,
                0 <= i <= self.used@.len(),
                forall|k: int| 0 <= k < i ==> !(#[trigger] used_view(self.used@)[k].0 == code@
                    && now_ms - used_view(self.used@)[k].1 <= REPLAY_WINDOW_MS),
            decreases self.used@.len() - i,
        {
            let (u, t) = &self.used[i];
            if *u == c && (now_ms as i128) - (*t as i128) <= REPLAY_WINDOW_MS as i128 {
                assert(used_view(self.used@)[i as int].0 == code@);
                return true;
            }
            i += 1;
        }
        false
    }

    /// Spends `code` at `now_ms`, forgetting the codes no longer spent.
    pub fn spend(&mut self, code: &str, now_ms: i64)
        ensures
            final(self).spec_window() == old(self).spec_window(),
            final(self).spec_used() == still_spent(old(self).spec_used(), now_ms).push((code@, now_ms)),
    {
        let ghost old_used = used_view(self.used@);
        let mut kept: Vec<(String, i64)> = Vec::new();
        let mut i: usize = 0;
        while i < self.used.len()
            invariant
                old_used == used_view(self.used@),
                0 <= i <= self.used@.len(),
                used_view(kept@) == still_spent(old_used.take(i as int), now_ms),
            decreases self.used@.len() - i,
        {
            let (u, t) = &self.used[i];
            assert(old_used.take(i + 1).drop_last() =~= old_used.take(i as int));
            assert(old_used.take(i + 1).last() == (u@, *t));
            if (now_ms as i128) - (*t as i128) <= REPLAY_WINDOW_MS as i128 {
                kept.push((u.clone(), *t));
                assert(used_view(kept@) =~= used_view(kept@.drop_last()).push((u@, *t)));
            }
            i += 1;
        }
        assert(old_used.take(old_used.len() as int) =~= old_used);
        kept.push((String::from_str(code), now_ms));
        assert(used_view(kept@) =~= used_view(kept@.drop_last()).push((code@, now_ms)));
        self.used = kept;
    }
}

} // verus!
