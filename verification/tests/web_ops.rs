use sentinel::web::auth::session::SessionStore;
use sentinel::web::auth::totp::{generate_secret_base32, Totp};
use sentinel::web::config::{contains_unit, ServiceKind, WebConfig};
use sentinel::web::handlers::ops::{restart, restart_gate, restart_outcome, RestartBody};
use sentinel::web::handlers::read::{logs_lines, metrics_window_ms, LogsParams};
use sentinel::web::ops::{Op, OpExecutor, SudoSystemctl};
use sentinel::web::probe::{parse_apt_candidate, version_tag};
use sentinel::web::state::{Creds, TotpGuard};
use sentinel::web::version::validate;
use std::sync::Mutex;

#[test]
fn defaults_match_node_facts() {
    let c = WebConfig::default();
    assert_eq!(c.listen_addr, "127.0.0.1:8088");
    assert!(!c.dev_insecure_cookies);
    let units: Vec<&str> = c.services.iter().map(|s| s.unit.as_str()).collect();
    assert_eq!(units, ["monad-bft.service", "monad-execution.service", "monad-rpc.service"]);
    let bft = c.services.iter().find(|s| s.kind == ServiceKind::Bft).unwrap();
    assert_eq!(bft.binary, "/usr/local/bin/monad-node");
    assert_eq!(bft.github_repo.as_deref(), Some("category-labs/monad-bft"));
}

#[test]
fn allowed_units_follow_the_services() {
    let c = WebConfig::default();
    let allowed = c.allowed_units();
    assert_eq!(allowed, vec!["monad-bft.service", "monad-execution.service", "monad-rpc.service"]);
    assert!(contains_unit(&allowed, "monad-rpc.service"));
    assert!(!contains_unit(&allowed, "evil.service"));
    assert!(!contains_unit(&allowed, "monad-rpc.service "));
    assert_eq!(ServiceKind::Execution.name(), "execution");
    assert_eq!(ServiceKind::Other.name(), "other");
}

#[test]
fn sudo_systemctl_rejects_unlisted_unit() {
    let exec = SudoSystemctl { allowed: vec!["monad-bft.service".into()] };
    let err = exec.command(&Op::Restart { unit: "evil.service".into() }).unwrap_err();
    assert!(err.to_string().contains("not allowed"));
}

#[test]
fn sudo_systemctl_builds_a_fixed_argv() {
    let exec = SudoSystemctl { allowed: vec!["monad-bft.service".into()] };
    let argv = exec.command(&Op::Restart { unit: "monad-bft.service".into() }).unwrap();
    assert_eq!(argv, ["sudo", "-n", "systemctl", "restart", "monad-bft.service"]);
}

struct RecordingExecutor {
    calls: Mutex<Vec<Op>>,
}

impl RecordingExecutor {
    fn new() -> Self {
        Self { calls: Mutex::new(vec![]) }
    }
}

impl OpExecutor for RecordingExecutor {
    fn run(&mut self, op: &Op) -> Result<String, String> {
        self.calls.lock().unwrap().push(op.clone());
        match op {
            Op::Restart { unit } => Ok(format!("fake-restarted {unit}")),
        }
    }
}

#[test]
fn recording_executor_captures_ops() {
    let mut exec = RecordingExecutor::new();
    exec.run(&Op::Restart { unit: "monad-bft.service".into() }).unwrap();
    let calls = exec.calls.lock().unwrap();
    assert_eq!(*calls, vec![Op::Restart { unit: "monad-bft.service".into() }]);
}

fn creds() -> Creds {
    Creds { pw_phc: String::new(), totp_secret_b32: generate_secret_base32([7u8; 20]) }
}

fn allowed() -> Vec<String> {
    WebConfig::default().allowed_units()
}

const NOW_MS: i64 = 1_700_000_000_000;

fn code_now(c: &Creds) -> String {
    Totp::from_base32(&c.totp_secret_b32).unwrap().current((NOW_MS / 1000) as u64)
}

#[test]
fn restart_runs_the_executor_after_all_checks() {
    let c = creds();
    let mut exec = RecordingExecutor::new();
    let body = RestartBody { unit: "monad-bft.service".into(), totp: code_now(&c) };
    let (row, r) = restart("admin", &body, "tok", "tok", &c, &allowed(), &mut TotpGuard::new(), &mut exec, NOW_MS);
    assert_eq!(r, Ok("fake-restarted monad-bft.service".to_string()));
    assert_eq!(row.op, "restart");
    assert_eq!(row.result, "ok");
    assert_eq!(row.params, "monad-bft.service");
    assert_eq!(row.actor, "admin");
    assert_eq!(row.ts_ms, NOW_MS);
    assert_eq!(*exec.calls.lock().unwrap(), vec![Op::Restart { unit: "monad-bft.service".into() }]);
}

#[test]
fn restart_refuses_csrf_mismatch_before_anything_else() {
    let c = creds();
    let mut exec = RecordingExecutor::new();
    let body = RestartBody { unit: "monad-bft.service".into(), totp: code_now(&c) };
    let (row, r) = restart("admin", &body, "tok", "other", &c, &allowed(), &mut TotpGuard::new(), &mut exec, NOW_MS);
    assert_eq!(r, Err(403));
    assert_eq!(row.result, "denied");
    assert_eq!(row.detail, "csrf mismatch");
    let (_, r) = restart("admin", &body, "", "", &c, &allowed(), &mut TotpGuard::new(), &mut exec, NOW_MS);
    assert_eq!(r, Err(403));
    assert!(exec.calls.lock().unwrap().is_empty());
}

#[test]
fn restart_refuses_a_wrong_totp_code() {
    let c = creds();
    let mut exec = RecordingExecutor::new();
    let body = RestartBody { unit: "monad-bft.service".into(), totp: wrong_code(&c) };
    let (row, r) = restart("admin", &body, "tok", "tok", &c, &allowed(), &mut TotpGuard::new(), &mut exec, NOW_MS);
    assert_eq!(r, Err(403));
    assert_eq!(row.detail, "invalid totp");
    assert!(exec.calls.lock().unwrap().is_empty());
}

#[test]
fn restart_refuses_a_unit_off_the_allowlist() {
    let c = creds();
    let mut exec = RecordingExecutor::new();
    let body = RestartBody { unit: "evil.service".into(), totp: code_now(&c) };
    let (row, r) = restart("admin", &body, "tok", "tok", &c, &allowed(), &mut TotpGuard::new(), &mut exec, NOW_MS);
    assert_eq!(r, Err(400));
    assert_eq!(row.detail, "unit not in allowlist");
    assert!(exec.calls.lock().unwrap().is_empty());
}

struct FailingExecutor;

impl OpExecutor for FailingExecutor {
    fn run(&mut self, _op: &Op) -> Result<String, String> {
        Err("boom".to_string())
    }
}

#[test]
fn restart_reports_an_executor_failure_as_500() {
    let c = creds();
    let body = RestartBody { unit: "monad-rpc.service".into(), totp: code_now(&c) };
    let (row, r) = restart("admin", &body, "tok", "tok", &c, &allowed(), &mut TotpGuard::new(), &mut FailingExecutor, NOW_MS);
    assert_eq!(r, Err(500));
    assert_eq!(row.result, "error");
    assert_eq!(row.detail, "boom");
}

#[test]
fn restart_gate_with_an_undecodable_secret_refuses() {
    let c = Creds { pw_phc: String::new(), totp_secret_b32: "!!".into() };
    let body = RestartBody { unit: "monad-rpc.service".into(), totp: "123456".into() };
    match restart_gate("admin", &body, "t", "t", &c, &allowed(), &mut TotpGuard::new(), 0) {
        Err((status, row)) => {
            assert_eq!(status, 403);
            assert_eq!(row.detail, "invalid totp");
        }
        Ok(_) => panic!("must refuse"),
    }
}

#[test]
fn metrics_windows() {
    assert_eq!(metrics_window_ms("1h"), Ok(3_600_000));
    assert_eq!(metrics_window_ms("24h"), Ok(86_400_000));
    assert_eq!(metrics_window_ms("7d"), Ok(604_800_000));
    assert_eq!(metrics_window_ms("999y"), Err(400));
    assert_eq!(metrics_window_ms(""), Err(400));
}

#[test]
fn logs_lines_param_is_clamped() {
    let a = allowed();
    let p = |unit: &str, lines: Option<usize>| LogsParams { unit: unit.to_string(), lines };
    assert_eq!(logs_lines(&a, &p("monad-bft.service", Some(999_999))), Ok(1000));
    assert_eq!(logs_lines(&a, &p("monad-bft.service", Some(10))), Ok(10));
    assert_eq!(logs_lines(&a, &p("monad-bft.service", None)), Ok(100));
    assert_eq!(logs_lines(&a, &p("evil.service", Some(10))), Err(400));
}

#[test]
fn parses_apt_candidate() {
    let sample = "monad:\n  Installed: 0.14.5\n  Candidate: 0.14.7\n  Version table:\n";
    assert_eq!(parse_apt_candidate(sample).as_deref(), Some("0.14.7"));
    let none = "monad:\n  Installed: 0.14.5\n  Candidate: (none)\n";
    assert_eq!(parse_apt_candidate(none), None);
}

#[test]
fn apt_candidate_edge_cases() {
    assert_eq!(parse_apt_candidate(""), None);
    assert_eq!(parse_apt_candidate("Candidate:\n"), None);
    assert_eq!(parse_apt_candidate("Candidate: 1.0\r\nCandidate: 2.0\n").as_deref(), Some("1.0"));
    assert_eq!(parse_apt_candidate("  Installed: 1\n\tCandidate:   0.2.3  ").as_deref(), Some("0.2.3"));
}

#[test]
fn version_tag_reads_the_json_after_the_banner() {
    assert_eq!(version_tag("monad-node {\"tag\":\"v0.14.5\",\"commit\":\"abc\"}\n").as_deref(), Some("v0.14.5"));
    assert_eq!(version_tag("no json here"), None);
    assert_eq!(version_tag("x {\"commit\":\"abc\"}"), None);
    assert_eq!(version_tag("x {\"tag\":5}"), None);
    assert_eq!(version_tag("x {broken"), None);
}

#[test]
fn accepts_and_canonicalizes() {
    assert_eq!(validate("0.14.5").as_deref(), Some("0.14.5"));
    assert_eq!(validate("v0.14.7").as_deref(), Some("0.14.7"));
}

#[test]
fn rejects_malformed_and_injection() {
    for bad in ["0.14", "0.14.5.1", "", "0.14.5; rm -rf /", "0.14.5 && reboot",
                "../0.14.5", "latest", "v", "0.x.5", " 0.14.5"] {
        assert_eq!(validate(bad), None, "must reject {bad:?}");
    }
}

#[test]
fn validate_is_idempotent_on_concrete_values() {
    for input in ["v1.2.3", "10.0.99", "vv1.2.3", "1..2", "1.2.", ".1.2"] {
        let once = validate(input);
        if let Some(v) = &once {
            assert_eq!(validate(v).as_ref(), Some(v));
            assert!(v.chars().all(|c| c.is_ascii_digit() || c == '.'));
        }
    }
    assert_eq!(validate("vv1.2.3"), None);
    assert_eq!(validate("1..2"), None);
    assert_eq!(validate("\u{0661}.2.3"), None);
}

#[test]
fn session_store_is_usable_through_the_web_module() {
    let mut s = SessionStore::new();
    let t = s.create("admin", 0, 1);
    assert!(!s.is_empty());
    s.remove(&t);
    assert!(s.is_empty());
}

fn code_at(c: &Creds, secs: u64) -> String {
    Totp::from_base32(&c.totp_secret_b32).unwrap().current(secs)
}

fn wrong_code(c: &Creds) -> String {
    let right: Vec<String> = (0..3).map(|d| code_at(c, (NOW_MS / 1000) as u64 + d * 30 - 30)).collect();
    let mut n = 0u32;
    loop {
        let w = format!("{n:06}");
        if !right.contains(&w) {
            return w;
        }
        n += 1;
    }
}

#[test]
fn totp_code_cannot_be_replayed_but_next_step_code_works() {
    let c = creds();
    let mut exec = RecordingExecutor::new();
    let mut guard = TotpGuard::new();
    let code = code_now(&c);
    let body = RestartBody { unit: "monad-bft.service".into(), totp: code.clone() };
    let (_, r) = restart("admin", &body, "t", "t", &c, &allowed(), &mut guard, &mut exec, NOW_MS);
    assert!(r.is_ok());
    assert_eq!(exec.calls.lock().unwrap().len(), 1);
    let (row, r) = restart("admin", &body, "t", "t", &c, &allowed(), &mut guard, &mut exec, NOW_MS);
    assert_eq!(r, Err(403));
    assert_eq!(row.result, "denied");
    assert!(row.detail.contains("replay"), "audit must record the replay attempt: {row:?}");
    assert_eq!(exec.calls.lock().unwrap().len(), 1);
    let next = code_at(&c, (NOW_MS / 1000) as u64 + 30);
    assert_ne!(next, code, "adjacent step must produce a different code");
    let body = RestartBody { unit: "monad-bft.service".into(), totp: next };
    let (_, r) = restart("admin", &body, "t", "t", &c, &allowed(), &mut guard, &mut exec, NOW_MS);
    assert!(r.is_ok());
    assert_eq!(exec.calls.lock().unwrap().len(), 2);
}

#[test]
fn repeated_wrong_totp_locks_out_even_the_correct_code() {
    let c = creds();
    let mut exec = RecordingExecutor::new();
    let mut guard = TotpGuard::new();
    let bad = RestartBody { unit: "monad-bft.service".into(), totp: wrong_code(&c) };
    for _ in 0..5 {
        let (_, r) = restart("admin", &bad, "t", "t", &c, &allowed(), &mut guard, &mut exec, NOW_MS);
        assert_eq!(r, Err(403));
    }
    let good = RestartBody { unit: "monad-bft.service".into(), totp: code_now(&c) };
    let (row, r) = restart("admin", &good, "t", "t", &c, &allowed(), &mut guard, &mut exec, NOW_MS);
    assert_eq!(r, Err(429));
    assert_eq!(row.detail, "totp locked out");
    assert_eq!(exec.calls.lock().unwrap().len(), 0, "executor must never run while locked out");
}

#[test]
fn totp_lockout_expires_after_window() {
    let c = creds();
    let mut exec = RecordingExecutor::new();
    let mut guard = TotpGuard::new();
    let bad = RestartBody { unit: "monad-bft.service".into(), totp: wrong_code(&c) };
    for _ in 0..5 {
        let (_, r) = restart("admin", &bad, "t", "t", &c, &allowed(), &mut guard, &mut exec, NOW_MS);
        assert_eq!(r, Err(403));
    }
    let good = RestartBody { unit: "monad-bft.service".into(), totp: code_now(&c) };
    let (_, r) = restart("admin", &good, "t", "t", &c, &allowed(), &mut guard, &mut exec, NOW_MS);
    assert_eq!(r, Err(429));
    let later = NOW_MS + 301_000;
    let good = RestartBody { unit: "monad-bft.service".into(), totp: code_at(&c, (later / 1000) as u64) };
    let (_, r) = restart("admin", &good, "t", "t", &c, &allowed(), &mut guard, &mut exec, later);
    assert!(r.is_ok());
    assert_eq!(exec.calls.lock().unwrap().len(), 1);
}

#[test]
fn spent_code_is_free_again_after_the_replay_window() {
    let mut g = TotpGuard::new();
    g.spend("123456", 1_000);
    assert!(g.is_spent("123456", 1_000));
    assert!(g.is_spent("123456", 91_000));
    assert!(!g.is_spent("123456", 91_001));
    assert!(!g.is_spent("654321", 1_000));
    g.spend("111111", 200_000);
    assert!(!g.is_spent("123456", 1_000), "stale entries are forgotten on the next spend");
    assert!(g.is_spent("111111", 200_000));
}

#[test]
fn guard_window_counts_failures() {
    let mut g = TotpGuard::new();
    for _ in 0..5 {
        assert!(!g.open_window(10_000));
        g.record_failure();
    }
    assert!(g.open_window(10_000));
    assert!(g.open_window(310_000));
    assert!(!g.open_window(310_001));
}

struct FakeProbes;

impl sentinel::web::probe::ServiceProbe for FakeProbes {
    fn is_active(&self, unit: &str) -> bool {
        unit != "monad-rpc.service"
    }
}

impl sentinel::web::probe::VersionProbe for FakeProbes {
    fn version(&self, binary: &str) -> Option<String> {
        if binary.ends_with("monad-node") { Some("v0.14.5".to_string()) } else { None }
    }
}

impl sentinel::web::probe::LogReader for FakeProbes {
    fn tail(&self, unit: &str, lines: usize) -> Vec<String> {
        (0..lines).map(|i| format!("{unit} line {i}")).collect()
    }
}

#[test]
fn status_reports_every_service_with_probe_results() {
    let c = WebConfig::default();
    let st = sentinel::web::handlers::read::get_status(&c.services, &FakeProbes, &FakeProbes);
    assert_eq!(st.len(), 3);
    assert_eq!(st[0].name, "BFT");
    assert_eq!(st[0].unit, "monad-bft.service");
    assert_eq!(st[0].kind, "bft");
    assert!(st[0].active);
    assert_eq!(st[0].version.as_deref(), Some("v0.14.5"));
    assert_eq!(st[2].kind, "rpc");
    assert!(!st[2].active);
    assert_eq!(st[2].version, None);
}

#[test]
fn logs_rejects_unlisted_unit() {
    let p = LogsParams { unit: "evil.service".to_string(), lines: Some(10) };
    assert_eq!(sentinel::web::handlers::read::get_logs(&allowed(), &p, &FakeProbes), Err(400));
}

#[test]
fn logs_returns_lines_for_allowed_unit() {
    let p = LogsParams { unit: "monad-bft.service".to_string(), lines: Some(10) };
    let lines = sentinel::web::handlers::read::get_logs(&allowed(), &p, &FakeProbes).unwrap();
    assert_eq!(lines.len(), 10);
    assert_eq!(lines[0], "monad-bft.service line 0");
    let p = LogsParams { unit: "monad-bft.service".to_string(), lines: Some(999_999) };
    assert!(sentinel::web::handlers::read::get_logs(&allowed(), &p, &FakeProbes).unwrap().len() <= 1000);
}

#[test]
fn restart_outcome_follows_the_executor() {
    let (row, r) = restart_outcome("admin", "monad-bft.service", 7, Ok("restarted monad-bft.service".to_string()));
    assert_eq!(r, Ok("restarted monad-bft.service".to_string()));
    assert_eq!(row.result, "ok");
    assert_eq!(row.detail, "restarted monad-bft.service");
    assert_eq!(row.params, "monad-bft.service");
    assert_eq!(row.ts_ms, 7);
    let (row, r) = restart_outcome("admin", "monad-bft.service", 7, Err("boom".to_string()));
    assert_eq!(r, Err(500));
    assert_eq!(row.result, "error");
    assert_eq!(row.detail, "boom");
}

#[test]
fn status_of_places_each_probe_result() {
    let c = WebConfig::default();
    let st = sentinel::web::handlers::read::status_of(
        &c.services,
        &vec![true, false, true],
        &vec![Some("v1".to_string()), None, Some("v3".to_string())],
    );
    assert_eq!(st.len(), 3);
    assert!(st[0].active && !st[1].active && st[2].active);
    assert_eq!(st[0].version.as_deref(), Some("v1"));
    assert_eq!(st[1].version, None);
    assert_eq!(st[1].unit, "monad-execution.service");
    assert_eq!(st[1].kind, "execution");
}

#[test]
fn logs_request_names_unit_and_clamped_count() {
    let a = allowed();
    let p = LogsParams { unit: "monad-rpc.service".to_string(), lines: Some(5_000) };
    assert_eq!(sentinel::web::handlers::read::logs_request(&a, &p), Ok(("monad-rpc.service".to_string(), 1000)));
    let p = LogsParams { unit: "monad-rpc.service".to_string(), lines: None };
    assert_eq!(sentinel::web::handlers::read::logs_request(&a, &p), Ok(("monad-rpc.service".to_string(), 100)));
    let p = LogsParams { unit: "x".to_string(), lines: None };
    assert_eq!(sentinel::web::handlers::read::logs_request(&a, &p), Err(400));
}
