//! The restart operation. Its checks, in order: the CSRF double-submit, the
//! TOTP lockout, a valid TOTP code not spent before, the unit on the
//! allowlist; only then does the executor run. Every outcome yields an audit
//! row.

use vstd::prelude::*;
use crate::web::auth::totp::{Totp, accepted, secret_of};
use crate::web::config::{contains_unit, is_allowed};
use crate::web::ops::{Op, OpExecutor};
use crate::web::state::{Creds, TotpGuard, guard_window, replayed, still_spent, totp_locked};
use crate::web::store::{AuditRow, AuditRowView};
use crate::web::handlers::csrf_passes;

verus! {

broadcast use vstd::string::group_string_axioms;

/// The body of a restart request.
pub struct RestartBody {
    pub unit: String,
    pub totp: String,
}

/// Seconds since the epoch for a time in milliseconds, clamped at zero.
pub open spec fn unix_secs(now_ms: i64) -> u64 {
    if now_ms < 0 { 0 } else { (now_ms / 1000) as u64 }
}

/// The TOTP code is valid at `now_ms` for the stored secret (false where the
/// stored secret does not decode).
pub open spec fn totp_passes(secret_b32: Seq<char>, code: Seq<char>, now_ms: i64) -> bool {
    match secret_of(secret_b32) {
        Ok(secret) => accepted(secret, code, unix_secs(now_ms)),
        Err(_) => false,
    }
}

/// The audit row of a restart attempt.
pub open spec fn restart_row(now_ms: i64, actor: Seq<char>, unit: Seq<char>, result: Seq<char>, detail: Seq<char>) -> AuditRowView {
    AuditRowView {
        ts_ms: now_ms,
        actor,
        op: "restart"@,
        params: unit,
        result,
        detail,
    }
}

fn audit_row(now_ms: i64, actor: &str, unit: &str, result: &str, detail: &str) -> (row: AuditRow)
    ensures
        row@ == restart_row(now_ms, actor@, unit@, result@, detail@),
{
    AuditRow {
        ts_ms: now_ms,
        actor: String::from_str(actor),
        op: String::from_str("restart"),
        params: String::from_str(unit),
        result: String::from_str(result),
        detail: String::from_str(detail),
    }
}

/// The checks of a restart request, in order: the CSRF double-submit; the
/// lockout after `MAX_TOTP_FAILURES` failed codes in a window (429); a valid
/// TOTP code (a failure counts against the window); a code not spent within
/// `REPLAY_WINDOW_MS` (a valid code is spent here); the unit on the
/// allowlist. Returns the restart operation when all pass, or the HTTP status
/// and the audit row of the first that fails.
pub fn restart_gate(
    actor: &str,
    body: &RestartBody,
    csrf_header: &str,
    csrf_cookie: &str,
    creds: &Creds,
    allowed: &Vec<String>,
    guard: &mut TotpGuard,
    now_ms: i64,
) -> (r: Result<Op, (u16, AuditRow)>)
    requires
        csrf_passes(csrf_header@, csrf_cookie@) && secret_of(creds.totp_secret_b32@) is Ok
            ==> now_ms >= 30_000,
    ensures
        ({
            let c = csrf_passes(csrf_header@, csrf_cookie@);
            let w = old(guard).spec_window();
            let gw = guard_window(w, now_ms);
            let locked = totp_locked(w, now_ms);
            let t = totp_passes(creds.totp_secret_b32@, body.totp@, now_ms);
            let spent = replayed(old(guard).spec_used(), body.totp@, now_ms);
            let a = is_allowed(allowed@, body.unit@);
            &&& !c ==> (r matches Err((status, row)) && status == 403
                && row@ == restart_row(now_ms, actor@, body.unit@, "denied"@, "csrf mismatch"@))
            &&& !c ==> final(guard).spec_window() == w && final(guard).spec_used() == old(guard).spec_used()
            &&& c && locked ==> (r matches Err((status, row)) && status == 429
                && row@ == restart_row(now_ms, actor@, body.unit@, "denied"@, "totp locked out"@))
            &&& c && locked ==> final(guard).spec_window() == gw && final(guard).spec_used() == old(guard).spec_used()
            &&& c && !locked && !t ==> (r matches Err((status, row)) && status == 403
                && row@ == restart_row(now_ms, actor@, body.unit@, "denied"@, "invalid totp"@))
            &&& c && !locked && !t ==> final(guard).spec_window() == ((gw.0 + 1) as u32, gw.1)
                && final(guard).spec_used() == old(guard).spec_used()
            &&& c && !locked && t && spent ==> (r matches Err((status, row)) && status == 403
                && row@ == restart_row(now_ms, actor@, body.unit@, "denied"@, "totp replay"@))
            &&& c && !locked && t && spent ==> final(guard).spec_window() == gw
                && final(guard).spec_used() == old(guard).spec_used()
            &&& c && !locked && t && !spent ==> final(guard).spec_window() == gw
                && final(guard).spec_used() == still_spent(old(guard).spec_used(), now_ms).push((body.totp@, now_ms))
            &&& c && !locked && t && !spent && !a ==> (r matches Err((status, row)) && status == 400
                && row@ == restart_row(now_ms, actor@, body.unit@, "denied"@, "unit not in allowlist"@))
            &&& (r is Ok) <==> (c && !locked && t && !spent && a)
            &&& r matches Ok(op) ==> (op matches Op::Restart { unit } && unit@ == body.unit@)
        }),
{
    let header = String::from_str(csrf_header);
    let cookie = String::from_str(csrf_cookie);
    if csrf_header.is_empty() || csrf_cookie.is_empty() || header != cookie {
        return Err((403, audit_row(now_ms, actor, body.unit.as_str(), "denied", "csrf mismatch")));
    }
    if guard.open_window(now_ms) {
        return Err((429, audit_row(now_ms, actor, body.unit.as_str(), "denied", "totp locked out")));
    }
    let secs: u64 = if now_ms < 0 { 0 } else { (now_ms / 1000) as u64 };
    let totp_ok = match Totp::from_base32(creds.totp_secret_b32.as_str()) {
        Ok(t) => t.check(body.totp.as_str(), secs),
        Err(_) => false,
    };
    if !totp_ok {
        guard.record_failure();
        return Err((403, audit_row(now_ms, actor, body.unit.as_str(), "denied", "invalid totp")));
    }
    if guard.is_spent(body.totp.as_str(), now_ms) {
        return Err((403, audit_row(now_ms, actor, body.unit.as_str(), "denied", "totp replay")));
    }
    guard.spend(body.totp.as_str(), now_ms);
    if !contains_unit(allowed, body.unit.as_str()) {
        return Err((400, audit_row(now_ms, actor, body.unit.as_str(), "denied", "unit not in allowlist")));
    }
    Ok(Op::Restart { unit: body.unit.clone() })
}

/// Handles a restart request: runs the checks, then the executor. Returns
/// the audit row of the attempt and either the executor's description (200)
/// or the HTTP status of the failure (403, 429, 400, or 500 where the
/// executor failed). A refused request leaves the executor untouched; an
/// accepted one runs it exactly once, on the restart of the requested unit.
pub fn restart<E: OpExecutor>(
    actor: &str,
    body: &RestartBody,
    csrf_header: &str,
    csrf_cookie: &str,
    creds: &Creds,
    allowed: &Vec<String>,
    guard: &mut TotpGuard,
    executor: &mut E,
    now_ms: i64,
) -> (out: (AuditRow, Result<String, u16>))
    requires
        csrf_passes(csrf_header@, csrf_cookie@) && secret_of(creds.totp_secret_b32@) is Ok
            ==> now_ms >= 30_000,
    ensures
        ({
            let c = csrf_passes(csrf_header@, csrf_cookie@);
            let w = old(guard).spec_window();
            let gw = guard_window(w, now_ms);
            let locked = totp_locked(w, now_ms);
            let t = totp_passes(creds.totp_secret_b32@, body.totp@, now_ms);
            let spent = replayed(old(guard).spec_used(), body.totp@, now_ms);
            let a = is_allowed(allowed@, body.unit@);
            &&& !c ==> out.1 == Err::<String, u16>(403)
                && out.0@ == restart_row(now_ms, actor@, body.unit@, "denied"@, "csrf mismatch"@)
                && final(guard).spec_window() == w && final(guard).spec_used() == old(guard).spec_used()
            &&& c && locked ==> out.1 == Err::<String, u16>(429)
                && out.0@ == restart_row(now_ms, actor@, body.unit@, "denied"@, "totp locked out"@)
                && final(guard).spec_window() == gw && final(guard).spec_used() == old(guard).spec_used()
            &&& c && !locked && !t ==> out.1 == Err::<String, u16>(403)
                && out.0@ == restart_row(now_ms, actor@, body.unit@, "denied"@, "invalid totp"@)
                && final(guard).spec_window() == ((gw.0 + 1) as u32, gw.1)
                && final(guard).spec_used() == old(guard).spec_used()
            &&& c && !locked && t && spent ==> out.1 == Err::<String, u16>(403)
                && out.0@ == restart_row(now_ms, actor@, body.unit@, "denied"@, "totp replay"@)
                && final(guard).spec_window() == gw && final(guard).spec_used() == old(guard).spec_used()
            &&& c && !locked && t && !spent ==> final(guard).spec_window() == gw
                && final(guard).spec_used() == still_spent(old(guard).spec_used(), now_ms).push((body.totp@, now_ms))
            &&& c && !locked && t && !spent && !a ==> out.1 == Err::<String, u16>(400)
                && out.0@ == restart_row(now_ms, actor@, body.unit@, "denied"@, "unit not in allowlist"@)
            &&& !(c && !locked && t && !spent && a) ==> *final(executor) == *old(executor)
            &&& c && !locked && t && !spent && a ==> restart_ran(*old(executor), *final(executor), now_ms,
                actor@, body.unit@, out)
        }),
{
    match restart_gate(actor, body, csrf_header, csrf_cookie, creds, allowed, guard, now_ms) {
        Err((status, row)) => (row, Err(status)),
        Ok(op) => {
            let ghost before = *executor;
            let r = executor.run(&op);
            let ghost rg = r;
            let out = restart_outcome(actor, body.unit.as_str(), now_ms, r);
            assert(before.runs(&*executor, op, rg));
            assert(is_outcome_of(out, restart_outcome_of(now_ms, actor@, body.unit@, rg)));
            out
        },
    }
}

/// A restart whose checks passed ran the executor once, from `before` to
/// `after`, on the restart of `unit`, and `out` is the reply and audit row
/// for what that run returned.
pub open spec fn restart_ran<E: OpExecutor>(before: E, after: E, now_ms: i64, actor: Seq<char>, unit: Seq<char>,
    out: (AuditRow, Result<String, u16>)) -> bool
{
    exists|op: Op, r: Result<String, String>|
        #[trigger] before.runs(&after, op, r)
        && (op matches Op::Restart { unit: u } && u@ == unit)
        && is_outcome_of(out, restart_outcome_of(now_ms, actor, unit, r))
}

/// The reply and the audit row of a restart whose checks passed, for what the
/// executor returned: its description with an `ok` row, or 500 with an
/// `error` row that carries the executor's error.
pub open spec fn restart_outcome_of(now_ms: i64, actor: Seq<char>, unit: Seq<char>, r: Result<String, String>)
    -> (AuditRowView, Result<Seq<char>, u16>)
{
    match r {
        Ok(d) => (restart_row(now_ms, actor, unit, "ok"@, d@), Ok(d@)),
        Err(e) => (restart_row(now_ms, actor, unit, "error"@, e@), Err(500)),
    }
}

/// `out` is the reply and row `o`, the reply's text taken by its view.
pub open spec fn is_outcome_of(out: (AuditRow, Result<String, u16>), o: (AuditRowView, Result<Seq<char>, u16>)) -> bool {
    &&& out.0@ == o.0
    &&& match out.1 {
        Ok(d) => o.1 == Ok::<Seq<char>, u16>(d@),
        Err(code) => o.1 == Err::<Seq<char>, u16>(code),
    }
}

/// The reply and audit row of a restart whose checks passed, given what the
/// executor returned.
pub fn restart_outcome(actor: &str, unit: &str, now_ms: i64, result: Result<String, String>) -> (out: (AuditRow, Result<String, u16>))
    ensures
        is_outcome_of(out, restart_outcome_of(now_ms, actor@, unit@, result)),
{
    match result {
        Ok(detail) => {
            let row = audit_row(now_ms, actor, unit, "ok", detail.as_str());
            (row, Ok(detail))
        },
        Err(e) => {
            let row = audit_row(now_ms, actor, unit, "error", e.as_str());
            (row, Err(500))
        },
    }
}

} // verus!
