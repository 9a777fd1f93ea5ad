//! Alert notifications: the text sent for a reported alert, the sending loop
//! of one tick, and the retry schedule for a failing channel.

use vstd::prelude::*;
use vstd::arithmetic::power2::pow2;
use crate::alert::{Severity, Transition};
use crate::rules::{Engine, Fired, effective_at, fired_prefix};
use crate::alert::next_phase;
use crate::config::Secrets;

verus! {

/// A channel that alerts are sent to.
pub trait Notifier {
    /// Sending `text` once may take the channel from `self` to `after` and
    /// give `result`. Delivery depends on the network, so a send has no one
    /// outcome; an implementation that keeps this default claims nothing more
    /// of its sends.
    open spec fn delivers(&self, after: &Self, text: Seq<char>, result: Result<(), String>) -> bool {
        true
    }

    /// Sends one message; an `Err` carries a description of the failure.
    fn send(&mut self, text: &str) -> (result: Result<(), String>)
        ensures
            old(self).delivers(final(self), text@, result),
    ;
}

/// The texts sent for the given alerts, in order.
pub open spec fn message_texts(fs: Seq<Fired>) -> Seq<Seq<char>> {
    fs.map_values(|f: Fired| message_text(f))
}

/// The number of successful sends among `results`.
pub open spec fn ok_count(results: Seq<Result<(), String>>) -> nat
    decreases results.len(),
{
    if results.len() == 0 {
        0
    } else {
        ok_count(results.drop_last()) + if results.last() is Ok { 1nat } else { 0nat }
    }
}

/// The channel went through `states`, sending `texts[i]` from `states[i]` to
/// `states[i + 1]` with outcome `results[i]`, one send per text, in order.
pub open spec fn sent_in_order<N: Notifier>(states: Seq<N>, results: Seq<Result<(), String>>, texts: Seq<Seq<char>>) -> bool {
    &&& states.len() == texts.len() + 1
    &&& results.len() == texts.len()
    &&& forall|i: int| 0 <= i < texts.len() ==> #[trigger] states[i].delivers(&states[i + 1], texts[i], results[i])
}

/// The label of a severity in a message.
pub open spec fn severity_label(s: Severity) -> Seq<char> {
    match s {
        Severity::Warning => "WARNING"@,
        Severity::Critical => "CRITICAL"@,
    }
}

/// The first line of a message.
pub open spec fn message_head(f: Fired) -> Seq<char> {
    match f.transition {
        Transition::Firing => "\u{1F534} ["@ + severity_label(f.severity) + "] "@ + f.rule_id@,
        Transition::ReNotify => "\u{1F534} ["@ + severity_label(f.severity) + "] (still active) "@ + f.rule_id@,
        Transition::Resolved => "\u{2705} [RESOLVED] "@ + f.rule_id@,
    }
}

/// The text sent for an alert: the head line, the rule's message, and the
/// VDP link.
pub open spec fn message_text(f: Fired) -> Seq<char> {
    message_head(f) + "\n"@ + f.message@ + "\nVDP: "@ + f.vdp_link@
}

/// Law: the text of an alert that fires or re-notifies names the alert's own
/// severity: right after the red mark and the opening bracket it reads
/// `CRITICAL` for a critical alert and `WARNING` for a warning.
pub proof fn law_message_names_its_severity(f: Fired)
    requires
        f.transition != Transition::Resolved,
    ensures
        f.severity == Severity::Critical
            ==> message_text(f).subrange(3, 11) == seq!['C', 'R', 'I', 'T', 'I', 'C', 'A', 'L'],
        f.severity == Severity::Warning
            ==> message_text(f).subrange(3, 10) == seq!['W', 'A', 'R', 'N', 'I', 'N', 'G'],
{
    reveal_strlit("\u{1F534} [");
    reveal_strlit("CRITICAL");
    reveal_strlit("WARNING");
    let open = "\u{1F534} ["@;
    assert(open.len() == 3);
    let label = severity_label(f.severity);
    let head = message_head(f);
    let tail = "\n"@ + f.message@ + "\nVDP: "@ + f.vdp_link@;
    let rest = match f.transition {
        Transition::ReNotify => "] (still active) "@ + f.rule_id@,
        _ => "] "@ + f.rule_id@,
    };
    assert(head =~= open + label + rest);
    assert(message_text(f) =~= open + label + (rest + tail));
    let t = message_text(f);
    assert(t.subrange(3, 3 + label.len() as int) =~= label);
}

/// Formats an alert for sending.
pub fn format_message(f: &Fired) -> (text: String)
    ensures
        text@ == message_text(*f),
{
    let sev = match f.severity {
        Severity::Warning => "WARNING",
        Severity::Critical => "CRITICAL",
    };
    let mut text = match f.transition {
        Transition::Firing => {
            let mut h = String::from_str("\u{1F534} [");
            h.append(sev);
            h.append("] ");
            h
        },
        Transition::ReNotify => {
            let mut h = String::from_str("\u{1F534} [");
            h.append(sev);
            h.append("] (still active) ");
            h
        },
        Transition::Resolved => String::from_str("\u{2705} [RESOLVED] "),
    };
    text.append(f.rule_id.as_str());
    text.append("\n");
    text.append(f.message.as_str());
    text.append("\nVDP: ");
    text.append(f.vdp_link.as_str());
    text
}

/// The texts sent for the reported alerts, in order.
pub fn alert_messages(fired: &Vec<Fired>) -> (texts: Vec<String>)
    ensures
        texts@.len() == fired@.len(),
        forall|i: int| 0 <= i < fired@.len() ==> (#[trigger] texts@[i])@ == message_text(fired@[i]),
{
    let mut texts: Vec<String> = Vec::new();
    let mut i: usize = 0;
    while i < fired.len()
        invariant
            0 <= i <= fired@.len(),
            texts@.len() == i,
            forall|j: int| 0 <= j < i ==> (#[trigger] texts@[j])@ == message_text(fired@[j]),
        decreases fired@.len() - i,
    {
        texts.push(format_message(&fired[i]));
        i += 1;
    }
    texts
}

/// One evaluation tick: evaluates the rules on the given activity and sends
/// the text of each reported alert, in order (the texts `alert_messages`
/// gives). Returns the number of sends that succeeded.
pub fn run_once<N: Notifier>(engine: &mut Engine, active: &Vec<bool>, now_ms: i64, notifier: &mut N) -> (sent: usize)
    requires
        old(engine).wf(),
        active@.len() == old(engine).spec_rules().len(),
    ensures
        final(engine).wf(),
        final(engine).spec_rules() == old(engine).spec_rules(),
        forall|i: int| 0 <= i < old(engine).spec_states().len() ==> {
            let s = #[trigger] old(engine).spec_states()[i];
            let n = next_phase(s.spec_for_ms(), s.spec_repeat_ms(), s.spec_phase(),
                effective_at(old(engine).spec_rules(), active@, i), now_ms);
            &&& final(engine).spec_states()[i].spec_for_ms() == s.spec_for_ms()
            &&& final(engine).spec_states()[i].spec_repeat_ms() == s.spec_repeat_ms()
            &&& final(engine).spec_states()[i].spec_phase() == n.0
        },
        sent <= fired_prefix(old(engine).spec_rules(), old(engine).spec_states(), active@, now_ms,
            old(engine).spec_rules().len()).len(),
        ({
            let reports = fired_prefix(old(engine).spec_rules(), old(engine).spec_states(), active@, now_ms,
                old(engine).spec_rules().len());
            exists|states: Seq<N>, results: Seq<Result<(), String>>|
                #[trigger] sent_in_order(states, results, message_texts(reports))
                && states[0] == *old(notifier)
                && states.last() == *final(notifier)
                && sent == ok_count(results)
        }),
{
    let fired = engine.evaluate(active, now_ms);
    let messages = alert_messages(&fired);
    let ghost texts = message_texts(fired@);
    let ghost mut states: Seq<N> = seq![*notifier];
    let ghost mut results: Seq<Result<(), String>> = Seq::empty();
    let mut sent: usize = 0;
    let mut i: usize = 0;
    while i < messages.len()
        invariant
            messages@.len() == fired@.len(),
            texts.len() == fired@.len(),
            forall|j: int| 0 <= j < fired@.len() ==> (#[trigger] messages@[j])@ == texts[j],
            0 <= i <= messages@.len(),
            sent <= i,
            states.len() == i + 1,
            results.len() == i,
            states[0] == *old(notifier),
            states.last() == *notifier,
            forall|j: int| 0 <= j < i ==> #[trigger] states[j].delivers(&states[j + 1], texts[j], results[j]),
            sent == ok_count(results),
        decreases messages@.len() - i,
    {
        let ghost before = *notifier;
        let r = notifier.send(messages[i].as_str());
        proof {
            assert(before.delivers(&*notifier, texts[i as int], r));
            assert(results.push(r).drop_last() =~= results);
            states = states.push(*notifier);
            results = results.push(r);
        }
        match r {
            Ok(()) => {
                sent = sent + 1;
            },
            Err(_) => {},
        }
        i += 1;
    }
    proof {
        assert(sent_in_order(states, results, texts));
    }
    sent
}

/// The Telegram channel's settings.
pub struct Telegram {
    token: String,
    chat_id: String,
}

/// The Bot API endpoint that sends a message.
pub open spec fn send_url_of(token: Seq<char>) -> Seq<char> {
    "https://api.telegram.org/bot"@ + token + "/sendMessage"@
}

impl Telegram {
    /// The bot token.
    pub closed spec fn spec_token(&self) -> Seq<char> {
        self.token@
    }

    /// The chat that messages go to.
    pub closed spec fn spec_chat_id(&self) -> Seq<char> {
        self.chat_id@
    }

    pub fn new(secrets: &Secrets) -> (t: Telegram)
        ensures
            t.spec_token() == secrets.telegram_token@,
            t.spec_chat_id() == secrets.telegram_chat_id@,
    {
        Telegram { token: secrets.telegram_token.clone(), chat_id: secrets.telegram_chat_id.clone() }
    }

    /// The chat that messages go to.
    pub fn chat_id(&self) -> (c: &str)
        ensures
            c@ == self.spec_chat_id(),
    {
        self.chat_id.as_str()
    }

    /// The URL a message is posted to.
    pub fn send_url(&self) -> (u: String)
        ensures
            u@ == send_url_of(self.spec_token()),
    {
        let mut u = String::from_str("https://api.telegram.org/bot");
        u.append(self.token.as_str());
        u.append("/sendMessage");
        u
    }
}

/// What to do after a send attempt failed.
#[derive(Debug, Clone, Copy, PartialEq, Eq, Structural)]
pub enum RetryStep {
    /// Wait this many milliseconds, then try again.
    Sleep(u64),
    /// Stop and report the last error.
    GiveUp,
}

/// `base * 2^attempt` milliseconds, saturating at `u64::MAX`.
pub open spec fn backoff_delay(base_delay_ms: u64, attempt: nat) -> int {
    let d = base_delay_ms * pow2(attempt);
    if d > u64::MAX { u64::MAX as int } else { d }
}

/// The delay before the attempt following failed attempt number `attempt`
/// (counted from zero): `base_delay_ms * 2^attempt`, saturating. The factor
/// `2^attempt` is a `u64`, so `attempt` stays below 64.
pub fn backoff_delay_ms(base_delay_ms: u64, attempt: u32) -> (d: u64)
    requires
        attempt < 64,
    ensures
        d == backoff_delay(base_delay_ms, attempt as nat),
{
    let mut d: u64 = base_delay_ms;
    let mut k: u32 = 0;
    proof {
        assert(pow2(0) == 1) by { vstd::arithmetic::power2::lemma2_to64(); }
        assert(base_delay_ms * pow2(0) == base_delay_ms) by (nonlinear_arith)
            requires pow2(0) == 1;
    }
    while k < attempt
        invariant
            0 <= k <= attempt,
            d == backoff_delay(base_delay_ms, k as nat),
        decreases attempt - k,
    {
        proof {
            vstd::arithmetic::power2::lemma_pow2_unfold((k + 1) as nat);
            let p = pow2(k as nat);
            assert(base_delay_ms * pow2((k + 1) as nat) == 2 * (base_delay_ms * p)) by (nonlinear_arith)
                requires pow2((k + 1) as nat) == 2 * p;
            assert(base_delay_ms * p >= 0) by (nonlinear_arith);
        }
        if d > u64::MAX / 2 {
            d = u64::MAX;
        } else {
            d = d * 2;
        }
        k = k + 1;
    }
    d
}

/// After failed attempt number `attempt` (counted from zero) out of
/// `attempts`: try again after `base_delay_ms * 2^attempt` ms if attempts
/// remain, else give up.
pub fn after_failure(attempt: u32, attempts: u32, base_delay_ms: u64) -> (step: RetryStep)
    requires
        attempt + 1 < attempts ==> attempt < 64,
    ensures
        attempt + 1 < attempts ==> step == RetryStep::Sleep(backoff_delay(base_delay_ms, attempt as nat) as u64),
        attempt + 1 >= attempts ==> step == RetryStep::GiveUp,
{
    if attempt < attempts && attempt + 1 < attempts {
        RetryStep::Sleep(backoff_delay_ms(base_delay_ms, attempt))
    } else {
        RetryStep::GiveUp
    }
}

} // verus!
