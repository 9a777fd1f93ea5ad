use sentinel::alert::{AlertState, Severity, Transition};
use sentinel::notify::{after_failure, backoff_delay_ms, format_message, Notifier, RetryStep};
use sentinel::rules::{Engine, Fired, RuleSpec};
use std::cell::RefCell;

#[test]
fn fires_only_after_for_duration() {
    let mut a = AlertState::new(30_000, 900_000);
    assert_eq!(a.step(true, 0), None);
    assert_eq!(a.step(true, 29_000), None);
    assert_eq!(a.step(true, 30_000), Some(Transition::Firing));
}

#[test]
fn resolves_after_firing() {
    let mut a = AlertState::new(0, 900_000);
    assert_eq!(a.step(true, 0), Some(Transition::Firing));
    assert_eq!(a.step(false, 1_000), Some(Transition::Resolved));
}

#[test]
fn renotifies_after_repeat_interval() {
    let mut a = AlertState::new(0, 900_000);
    assert_eq!(a.step(true, 0), Some(Transition::Firing));
    assert_eq!(a.step(true, 800_000), None);
    assert_eq!(a.step(true, 900_000), Some(Transition::ReNotify));
}

#[test]
fn pending_then_inactive_no_transition() {
    let mut a = AlertState::new(30_000, 900_000);
    assert_eq!(a.step(true, 0), None);
    assert_eq!(a.step(false, 5_000), None);
}

#[test]
fn protocol_never_resolves_or_renotifies_a_closed_alert() {
    // Inactive ticks on a closed alert report nothing, however long they run.
    let mut a = AlertState::new(0, 1_000);
    assert_eq!(a.step(false, 0), None);
    assert_eq!(a.step(false, 10_000), None);
    // One Firing, then ReNotify while open, then one Resolved.
    assert_eq!(a.step(true, 20_000), Some(Transition::Firing));
    assert_eq!(a.step(true, 20_500), None);
    assert_eq!(a.step(true, 21_000), Some(Transition::ReNotify));
    assert_eq!(a.step(false, 21_500), Some(Transition::Resolved));
    assert_eq!(a.step(false, 30_000), None);
}

#[test]
fn no_firing_before_window_elapses_even_with_extreme_times() {
    let mut a = AlertState::new(i64::MAX, 900_000);
    assert_eq!(a.step(true, i64::MIN), None);
    assert_eq!(a.step(true, -2), None);
    // now - since = i64::MAX exactly: the window has elapsed.
    assert_eq!(a.step(true, -1), Some(Transition::Firing));
}

fn fired() -> Fired {
    Fired {
        rule_id: "sync_stall".into(),
        severity: Severity::Critical,
        transition: Transition::Firing,
        message: "Block height is not increasing".into(),
        vdp_link: "uptime".into(),
    }
}

#[test]
fn format_includes_severity_and_rule() {
    let text = format_message(&fired());
    assert!(text.contains("CRITICAL"));
    assert!(text.contains("sync_stall"));
    assert!(text.contains("uptime"));
}

#[test]
fn resolved_format_marks_resolved() {
    let mut f = fired();
    f.transition = Transition::Resolved;
    let text = format_message(&f);
    assert!(text.to_uppercase().contains("RESOLVED"));
}

#[test]
fn format_exact_text_for_each_transition() {
    let mut f = fired();
    f.severity = Severity::Warning;
    assert_eq!(
        format_message(&f),
        "\u{1F534} [WARNING] sync_stall\nBlock height is not increasing\nVDP: uptime"
    );
    f.transition = Transition::ReNotify;
    assert_eq!(
        format_message(&f),
        "\u{1F534} [WARNING] (still active) sync_stall\nBlock height is not increasing\nVDP: uptime"
    );
    f.transition = Transition::Resolved;
    assert_eq!(
        format_message(&f),
        "\u{2705} [RESOLVED] sync_stall\nBlock height is not increasing\nVDP: uptime"
    );
}

struct Mock(RefCell<Vec<String>>);

impl Notifier for Mock {
    fn send(&mut self, text: &str) -> Result<(), String> {
        self.0.borrow_mut().push(text.to_string());
        Ok(())
    }
}

#[test]
fn mock_notifier_records_send() {
    let mut m = Mock(RefCell::new(vec![]));
    m.send("hi").unwrap();
    assert_eq!(m.0.borrow().len(), 1);
}

fn spec(id: &str, for_ms: i64, suppressed_by: &[&str]) -> RuleSpec {
    RuleSpec {
        id: id.to_string(),
        severity: Severity::Warning,
        for_ms,
        repeat_ms: 900_000,
        vdp_link: "uptime".to_string(),
        message: format!("{id} message"),
        suppressed_by: suppressed_by.iter().map(|s| s.to_string()).collect(),
        duration_in_kind: false,
    }
}

#[test]
fn suppressed_rule_does_not_fire_when_suppressor_active() {
    let mut e = Engine::new();
    e.push_rule(spec("suppressor", 0, &[]));
    e.push_rule(spec("target", 0, &["suppressor"]));
    let fired = e.evaluate(&vec![true, true], 0);
    assert!(fired.iter().any(|f| f.rule_id == "suppressor"));
    assert!(!fired.iter().any(|f| f.rule_id == "target"), "target must be suppressed");
}

#[test]
fn target_fires_when_suppressor_inactive() {
    let mut e = Engine::new();
    e.push_rule(spec("suppressor", 0, &[]));
    e.push_rule(spec("target", 0, &["suppressor"]));
    let fired = e.evaluate(&vec![false, true], 0);
    assert_eq!(fired.len(), 1);
    assert_eq!(fired[0].rule_id, "target");
    assert_eq!(fired[0].transition, Transition::Firing);
}

#[test]
fn suppression_resolves_an_open_alert() {
    let mut e = Engine::new();
    e.push_rule(spec("suppressor", 0, &[]));
    e.push_rule(spec("target", 0, &["suppressor"]));
    let first = e.evaluate(&vec![false, true], 0);
    assert_eq!(first.len(), 1);
    // The suppressor comes up: the target counts as inactive and resolves.
    let second = e.evaluate(&vec![true, true], 1_000);
    assert_eq!(second.len(), 2);
    assert_eq!(second[0].rule_id, "suppressor");
    assert_eq!(second[0].transition, Transition::Firing);
    assert_eq!(second[1].rule_id, "target");
    assert_eq!(second[1].transition, Transition::Resolved);
}

#[test]
fn stale_kind_rule_fires_immediately_when_condition_holds() {
    let mut e = Engine::new();
    let mut s = spec("metrics_stale", 60_000, &[]);
    s.duration_in_kind = true;
    e.push_rule(s);
    e.push_rule(spec("slow", 60_000, &[]));
    assert_eq!(e.rule_count(), 2);
    let fired = e.evaluate(&vec![true, true], 100_000);
    assert_eq!(fired.len(), 1);
    assert_eq!(fired[0].rule_id, "metrics_stale");
    assert_eq!(fired[0].message, "metrics_stale message");
    assert_eq!(fired[0].vdp_link, "uptime");
    assert_eq!(e.rules()[1].for_ms, 60_000);
}

#[test]
fn engine_reports_in_rule_order() {
    let mut e = Engine::new();
    e.push_rule(spec("a", 0, &[]));
    e.push_rule(spec("b", 0, &[]));
    e.push_rule(spec("c", 0, &[]));
    let fired = e.evaluate(&vec![true, false, true], 5);
    let ids: Vec<&str> = fired.iter().map(|f| f.rule_id.as_str()).collect();
    assert_eq!(ids, ["a", "c"]);
}

#[test]
fn run_once_sends_each_reported_alert() {
    let mut e = Engine::new();
    e.push_rule(spec("a", 0, &[]));
    e.push_rule(spec("b", 0, &[]));
    let mut m = Mock(RefCell::new(vec![]));
    let sent = sentinel::notify::run_once(&mut e, &vec![true, true], 0, &mut m);
    assert_eq!(sent, 2);
    assert_eq!(m.0.borrow()[0], "\u{1F534} [WARNING] a\na message\nVDP: uptime");
    // Nothing changes on the next tick inside the repeat interval.
    assert_eq!(sentinel::notify::run_once(&mut e, &vec![true, true], 1, &mut m), 0);
}

struct Failing;

impl Notifier for Failing {
    fn send(&mut self, _text: &str) -> Result<(), String> {
        Err("down".to_string())
    }
}

#[test]
fn run_once_counts_only_successful_sends() {
    let mut e = Engine::new();
    e.push_rule(spec("a", 0, &[]));
    assert_eq!(sentinel::notify::run_once(&mut e, &vec![true], 0, &mut Failing), 0);
}

#[test]
fn backoff_doubles_and_saturates() {
    assert_eq!(backoff_delay_ms(200, 0), 200);
    assert_eq!(backoff_delay_ms(200, 1), 400);
    assert_eq!(backoff_delay_ms(200, 2), 800);
    assert_eq!(backoff_delay_ms(u64::MAX / 2, 3), u64::MAX);
    assert_eq!(backoff_delay_ms(1, 63), 1u64 << 63);
    assert_eq!(backoff_delay_ms(3, 63), u64::MAX);
}

#[test]
fn retry_schedule_sleeps_between_attempts_then_gives_up() {
    assert_eq!(after_failure(0, 3, 200), RetryStep::Sleep(200));
    assert_eq!(after_failure(1, 3, 200), RetryStep::Sleep(400));
    assert_eq!(after_failure(2, 3, 200), RetryStep::GiveUp);
    assert_eq!(after_failure(0, 1, 200), RetryStep::GiveUp);
    assert_eq!(after_failure(0, 0, 200), RetryStep::GiveUp);
}

#[test]
fn alert_messages_are_the_formatted_reports() {
    let mut f2 = fired();
    f2.rule_id = "other".into();
    f2.transition = Transition::Resolved;
    let texts = sentinel::notify::alert_messages(&vec![fired(), f2.clone()]);
    assert_eq!(texts, vec![format_message(&fired()), format_message(&f2)]);
    assert!(sentinel::notify::alert_messages(&vec![]).is_empty());
}

#[test]
fn firing_only_after_a_held_window_on_mixed_ticks() {
    let mut a = AlertState::new(10_000, 900_000);
    assert_eq!(a.step(true, 0), None);
    assert_eq!(a.step(false, 5_000), None);
    assert_eq!(a.step(true, 8_000), None);
    assert_eq!(a.step(true, 15_000), None);
    assert_eq!(a.step(true, 18_000), Some(Transition::Firing));
}
