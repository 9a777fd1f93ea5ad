//! Per-rule alert state machine: pending (for) → firing → resolved, with
//! periodic re-notification while the condition stays active.

use vstd::prelude::*;

verus! {

/// How loud an alert is.
#[derive(Debug, Clone, Copy, PartialEq, Eq, Structural)]
pub enum Severity {
    Warning,
    Critical,
}

/// A change that the state machine reports on a tick.
#[derive(Debug, Clone, Copy, PartialEq, Eq, Structural)]
pub enum Transition {
    Firing,
    ReNotify,
    Resolved,
}

/// Where a rule stands between ticks.
#[derive(Debug, Clone, Copy, PartialEq, Eq, Structural)]
pub enum Phase {
    Inactive,
    Pending { since_ms: i64 },
    Firing { last_notified_ms: i64 },
}

/// State machine for a single rule.
#[derive(Debug, Clone, Copy)]
pub struct AlertState {
    for_ms: i64,
    repeat_ms: i64,
    phase: Phase,
}

/// The phase after one tick and the transition it reports, as a function of
/// the pending window, the repeat interval, the phase before the tick, whether
/// the condition holds, and the time of the tick.
pub open spec fn next_phase(for_ms: i64, repeat_ms: i64, phase: Phase, active: bool, now_ms: i64) -> (Phase, Option<Transition>) {
    match phase {
        Phase::Inactive => {
            if active {
                if for_ms == 0 {
                    (Phase::Firing { last_notified_ms: now_ms }, Some(Transition::Firing))
                } else {
                    (Phase::Pending { since_ms: now_ms }, None)
                }
            } else {
                (Phase::Inactive, None)
            }
        },
        Phase::Pending { since_ms } => {
            if !active {
                (Phase::Inactive, None)
            } else if now_ms - since_ms >= for_ms {
                (Phase::Firing { last_notified_ms: now_ms }, Some(Transition::Firing))
            } else {
                (phase, None)
            }
        },
        Phase::Firing { last_notified_ms } => {
            if !active {
                (Phase::Inactive, Some(Transition::Resolved))
            } else if now_ms - last_notified_ms >= repeat_ms {
                (Phase::Firing { last_notified_ms: now_ms }, Some(Transition::ReNotify))
            } else {
                (phase, None)
            }
        },
    }
}

impl AlertState {
    /// The pending window: how long the condition must hold before firing.
    pub closed spec fn spec_for_ms(&self) -> i64 {
        self.for_ms
    }

    /// The interval between re-notifications while firing.
    pub closed spec fn spec_repeat_ms(&self) -> i64 {
        self.repeat_ms
    }

    /// The current phase.
    pub closed spec fn spec_phase(&self) -> Phase {
        self.phase
    }

    /// A fresh, inactive state machine.
    pub fn new(for_ms: i64, repeat_ms: i64) -> (s: AlertState)
        ensures
            s.spec_for_ms() == for_ms,
            s.spec_repeat_ms() == repeat_ms,
            s.spec_phase() == Phase::Inactive,
    {
        AlertState { for_ms, repeat_ms, phase: Phase::Inactive }
    }

    /// Processes one tick. Returns the transition, if one occurred.
    pub fn step(&mut self, active: bool, now_ms: i64) -> (t: Option<Transition>)
        ensures
            final(self).spec_for_ms() == old(self).spec_for_ms(),
            final(self).spec_repeat_ms() == old(self).spec_repeat_ms(),
            (final(self).spec_phase(), t) == next_phase(
                old(self).spec_for_ms(),
                old(self).spec_repeat_ms(),
                old(self).spec_phase(),
                active,
                now_ms,
            ),
    {
        match self.phase {
            Phase::Inactive => {
                if active {
                    if self.for_ms == 0 {
                        self.phase = Phase::Firing { last_notified_ms: now_ms };
                        Some(Transition::Firing)
                    } else {
                        self.phase = Phase::Pending { since_ms: now_ms };
                        None
                    }
                } else {
                    None
                }
            },
            Phase::Pending { since_ms } => {
                if !active {
                    self.phase = Phase::Inactive;
                    None
                } else if (now_ms as i128) - (since_ms as i128) >= self.for_ms as i128 {
                    self.phase = Phase::Firing { last_notified_ms: now_ms };
                    Some(Transition::Firing)
                } else {
                    None
                }
            },
            Phase::Firing { last_notified_ms } => {
                if !active {
                    self.phase = Phase::Inactive;
                    Some(Transition::Resolved)
                } else if (now_ms as i128) - (last_notified_ms as i128) >= self.repeat_ms as i128 {
                    self.phase = Phase::Firing { last_notified_ms: now_ms };
                    Some(Transition::ReNotify)
                } else {
                    None
                }
            },
        }
    }
}


/// The phase after a sequence of ticks `(active, now_ms)`, and the transition
/// reported on each tick, in order.
pub open spec fn run_ticks(for_ms: i64, repeat_ms: i64, phase: Phase, ticks: Seq<(bool, i64)>) -> (Phase, Seq<Option<Transition>>)
    decreases ticks.len(),
{
    if ticks.len() == 0 {
        (phase, Seq::empty())
    } else {
        let first = next_phase(for_ms, repeat_ms, phase, ticks[0].0, ticks[0].1);
        let rest = run_ticks(for_ms, repeat_ms, first.0, ticks.drop_first());
        (rest.0, seq![first.1] + rest.1)
    }
}

/// The notification protocol: starting closed, an alert opens with `Firing`,
/// may repeat `ReNotify` while open, and closes with `Resolved`.
pub open spec fn follows_protocol(open: bool, reported: Seq<Option<Transition>>) -> bool
    decreases reported.len(),
{
    if reported.len() == 0 {
        true
    } else {
        let rest = reported.drop_first();
        match reported[0] {
            None => follows_protocol(open, rest),
            Some(Transition::Firing) => !open && follows_protocol(true, rest),
            Some(Transition::ReNotify) => open && follows_protocol(true, rest),
            Some(Transition::Resolved) => open && follows_protocol(false, rest),
        }
    }
}

/// Whether every tick in the sequence reports the condition as holding.
pub open spec fn all_active(ticks: Seq<(bool, i64)>) -> bool {
    forall|k: int| 0 <= k < ticks.len() ==> #[trigger] ticks[k].0
}

/// Law: whatever the ticks, the transitions a rule reports follow the protocol
/// `Firing ReNotify* Resolved`, repeated: no `Resolved` or `ReNotify` without a
/// `Firing` before it, and no second `Firing` before a `Resolved`.
pub proof fn law_transitions_follow_protocol(for_ms: i64, repeat_ms: i64, phase: Phase, ticks: Seq<(bool, i64)>)
    ensures
        follows_protocol(phase is Firing, run_ticks(for_ms, repeat_ms, phase, ticks).1),
        run_ticks(for_ms, repeat_ms, phase, ticks).0 is Firing == follows_protocol_ends_open(phase is Firing, run_ticks(for_ms, repeat_ms, phase, ticks).1),
    decreases ticks.len(),
{
    if ticks.len() > 0 {
        let first = next_phase(for_ms, repeat_ms, phase, ticks[0].0, ticks[0].1);
        law_transitions_follow_protocol(for_ms, repeat_ms, first.0, ticks.drop_first());
        let rest = run_ticks(for_ms, repeat_ms, first.0, ticks.drop_first());
        let all = run_ticks(for_ms, repeat_ms, phase, ticks).1;
        assert(all.drop_first() =~= rest.1);
    }
}

/// Whether the protocol is left open (between a `Firing` and its `Resolved`)
/// after the reported transitions, starting from `open`.
pub open spec fn follows_protocol_ends_open(open: bool, reported: Seq<Option<Transition>>) -> bool
    decreases reported.len(),
{
    if reported.len() == 0 {
        open
    } else {
        let rest = reported.drop_first();
        match reported[0] {
            None => follows_protocol_ends_open(open, rest),
            Some(Transition::Firing) => follows_protocol_ends_open(true, rest),
            Some(Transition::ReNotify) => follows_protocol_ends_open(true, rest),
            Some(Transition::Resolved) => follows_protocol_ends_open(false, rest),
        }
    }
}

proof fn lemma_run_len(for_ms: i64, repeat_ms: i64, phase: Phase, ticks: Seq<(bool, i64)>)
    ensures
        run_ticks(for_ms, repeat_ms, phase, ticks).1.len() == ticks.len(),
    decreases ticks.len(),
{
    if ticks.len() > 0 {
        let first = next_phase(for_ms, repeat_ms, phase, ticks[0].0, ticks[0].1);
        lemma_run_len(for_ms, repeat_ms, first.0, ticks.drop_first());
    }
}

proof fn lemma_no_early_firing_from(for_ms: i64, repeat_ms: i64, phase: Phase, ticks: Seq<(bool, i64)>)
    requires
        all_active(ticks),
        phase !is Inactive,
    ensures
        forall|k: int| 0 <= k < ticks.len() && #[trigger] run_ticks(for_ms, repeat_ms, phase, ticks).1[k] == Some(Transition::Firing)
            ==> phase is Pending && ticks[k].1 - phase->since_ms >= for_ms,
    decreases ticks.len(),
{
    if ticks.len() > 0 {
        assert(ticks[0].0);
        let first = next_phase(for_ms, repeat_ms, phase, ticks[0].0, ticks[0].1);
        let tail = ticks.drop_first();
        assert forall|k: int| 0 <= k < tail.len() implies #[trigger] tail[k].0 by {
            assert(tail[k] == ticks[k + 1]);
        }
        lemma_no_early_firing_from(for_ms, repeat_ms, first.0, tail);
        lemma_run_len(for_ms, repeat_ms, first.0, tail);
        let all = run_ticks(for_ms, repeat_ms, phase, ticks).1;
        let rest = run_ticks(for_ms, repeat_ms, first.0, tail).1;
        assert forall|k: int| 0 <= k < ticks.len() && #[trigger] all[k] == Some(Transition::Firing)
            implies phase is Pending && ticks[k].1 - phase->since_ms >= for_ms by {
            if k > 0 {
                assert(all[k] == rest[k - 1]);
                assert(tail[k - 1] == ticks[k]);
            }
        }
    }
}

/// Law: a condition that holds on every tick, starting from an inactive rule
/// with a positive pending window, is never reported `Firing` before the
/// window, counted from the first tick, has elapsed.
pub proof fn law_no_firing_before_window(for_ms: i64, repeat_ms: i64, ticks: Seq<(bool, i64)>, k: int)
    requires
        for_ms > 0,
        all_active(ticks),
        0 <= k < ticks.len(),
        run_ticks(for_ms, repeat_ms, Phase::Inactive, ticks).1[k] == Some(Transition::Firing),
    ensures
        ticks[k].1 - ticks[0].1 >= for_ms,
{
    assert(ticks[0].0);
    let first = next_phase(for_ms, repeat_ms, Phase::Inactive, ticks[0].0, ticks[0].1);
    let tail = ticks.drop_first();
    assert forall|j: int| 0 <= j < tail.len() implies #[trigger] tail[j].0 by {
        assert(tail[j] == ticks[j + 1]);
    }
    lemma_no_early_firing_from(for_ms, repeat_ms, first.0, tail);
    lemma_run_len(for_ms, repeat_ms, first.0, tail);
    let all = run_ticks(for_ms, repeat_ms, Phase::Inactive, ticks).1;
    let rest = run_ticks(for_ms, repeat_ms, first.0, tail).1;
    assert(k > 0);
    assert(all[k] == rest[k - 1]);
    assert(tail[k - 1] == ticks[k]);
}

/// Law: a rule reports `Firing` or `ReNotify` only on a tick where its
/// condition holds, and `Resolved` only on a tick where it does not.
pub proof fn law_transition_matches_activity(for_ms: i64, repeat_ms: i64, phase: Phase, active: bool, now_ms: i64)
    ensures
        next_phase(for_ms, repeat_ms, phase, active, now_ms).1 == Some(Transition::Firing) ==> active,
        next_phase(for_ms, repeat_ms, phase, active, now_ms).1 == Some(Transition::ReNotify) ==> active,
        next_phase(for_ms, repeat_ms, phase, active, now_ms).1 == Some(Transition::Resolved) ==> !active,
{
}

/// The condition holds on every tick from `j` to `k`.
pub open spec fn active_between(ticks: Seq<(bool, i64)>, j: int, k: int) -> bool {
    forall|m: int| j <= m <= k ==> #[trigger] ticks[m].0
}

proof fn lemma_firing_window_from(for_ms: i64, repeat_ms: i64, phase: Phase, ticks: Seq<(bool, i64)>)
    ensures
        forall|k: int| 0 <= k < ticks.len() && #[trigger] run_ticks(for_ms, repeat_ms, phase, ticks).1[k] == Some(Transition::Firing)
            ==> (exists|j: int| 0 <= j <= k && #[trigger] active_between(ticks, j, k) && ticks[k].1 - ticks[j].1 >= for_ms)
                || (phase is Pending && active_between(ticks, 0, k) && ticks[k].1 - phase->since_ms >= for_ms),
    decreases ticks.len(),
{
    if ticks.len() > 0 {
        let first = next_phase(for_ms, repeat_ms, phase, ticks[0].0, ticks[0].1);
        let tail = ticks.drop_first();
        lemma_firing_window_from(for_ms, repeat_ms, first.0, tail);
        lemma_run_len(for_ms, repeat_ms, first.0, tail);
        let all = run_ticks(for_ms, repeat_ms, phase, ticks).1;
        let rest = run_ticks(for_ms, repeat_ms, first.0, tail).1;
        assert forall|k: int| 0 <= k < ticks.len() && #[trigger] all[k] == Some(Transition::Firing)
            implies (exists|j: int| 0 <= j <= k && #[trigger] active_between(ticks, j, k) && ticks[k].1 - ticks[j].1 >= for_ms)
                || (phase is Pending && active_between(ticks, 0, k) && ticks[k].1 - phase->since_ms >= for_ms) by {
            if k == 0 {
                assert(all[0] == first.1);
                if phase is Inactive {
                    assert(active_between(ticks, 0, 0));
                }
            } else {
                assert(all[k] == rest[k - 1]);
                assert(tail[k - 1] == ticks[k]);
                if exists|j: int| 0 <= j <= k - 1 && #[trigger] active_between(tail, j, k - 1) && tail[k - 1].1 - tail[j].1 >= for_ms {
                    let j = choose|j: int| 0 <= j <= k - 1 && #[trigger] active_between(tail, j, k - 1) && tail[k - 1].1 - tail[j].1 >= for_ms;
                    assert(tail[j] == ticks[j + 1]);
                    assert(active_between(ticks, j + 1, k)) by {
                        assert forall|m: int| j + 1 <= m <= k implies #[trigger] ticks[m].0 by {
                            assert(tail[m - 1] == ticks[m]);
                        }
                    }
                } else {
                    assert(first.0 is Pending && active_between(tail, 0, k - 1));
                    assert(ticks[0].0);
                    assert(active_between(ticks, 0, k)) by {
                        assert forall|m: int| 0 <= m <= k implies #[trigger] ticks[m].0 by {
                            if m > 0 { assert(tail[m - 1] == ticks[m]); }
                        }
                    }
                    if phase is Inactive {
                        assert(first.0->since_ms == ticks[0].1);
                    }
                }
            }
        }
    }
}

/// Law: whatever the ticks, a rule that starts inactive reports `Firing`
/// only after its condition has held on every tick of a stretch that spans
/// at least the pending window: some earlier (or the same) tick `j` starts a
/// run of ticks, up to the firing one, on which the condition holds, and at
/// least `for_ms` passed from tick `j` to the firing tick.
pub proof fn law_firing_needs_a_held_window(for_ms: i64, repeat_ms: i64, ticks: Seq<(bool, i64)>, k: int)
    requires
        0 <= k < ticks.len(),
        run_ticks(for_ms, repeat_ms, Phase::Inactive, ticks).1[k] == Some(Transition::Firing),
    ensures
        exists|j: int| 0 <= j <= k && #[trigger] active_between(ticks, j, k) && ticks[k].1 - ticks[j].1 >= for_ms,
{
    lemma_firing_window_from(for_ms, repeat_ms, Phase::Inactive, ticks);
}

/// Law: one more call of `step` extends the tick model by one tick: running
/// `ticks` and then stepping once with `(active, now_ms)` gives the phase and
/// the transitions of running `ticks.push((active, now_ms))`. So a sequence
/// of `step` calls on a state machine reports exactly what `run_ticks` says.
pub proof fn law_step_extends_run(for_ms: i64, repeat_ms: i64, phase: Phase, ticks: Seq<(bool, i64)>, active: bool, now_ms: i64)
    ensures
        ({
            let before = run_ticks(for_ms, repeat_ms, phase, ticks);
            let last = next_phase(for_ms, repeat_ms, before.0, active, now_ms);
            run_ticks(for_ms, repeat_ms, phase, ticks.push((active, now_ms))) == (last.0, before.1.push(last.1))
        }),
    decreases ticks.len(),
{
    let longer = ticks.push((active, now_ms));
    if ticks.len() == 0 {
        assert(longer.drop_first() =~= Seq::<(bool, i64)>::empty());
        let first = next_phase(for_ms, repeat_ms, phase, active, now_ms);
        assert(longer[0] == (active, now_ms));
        assert(run_ticks(for_ms, repeat_ms, first.0, longer.drop_first())
            == (first.0, Seq::<Option<Transition>>::empty()));
        assert(run_ticks(for_ms, repeat_ms, phase, ticks) == (phase, Seq::<Option<Transition>>::empty()));
        assert(seq![first.1] + Seq::<Option<Transition>>::empty() =~= Seq::<Option<Transition>>::empty().push(first.1));
    } else {
        let first = next_phase(for_ms, repeat_ms, phase, ticks[0].0, ticks[0].1);
        assert(longer[0] == ticks[0]);
        assert(longer.drop_first() =~= ticks.drop_first().push((active, now_ms)));
        law_step_extends_run(for_ms, repeat_ms, first.0, ticks.drop_first(), active, now_ms);
        let rest = run_ticks(for_ms, repeat_ms, first.0, ticks.drop_first());
        let last = next_phase(for_ms, repeat_ms, rest.0, active, now_ms);
        assert(run_ticks(for_ms, repeat_ms, first.0, longer.drop_first())
            == (last.0, rest.1.push(last.1)));
        assert(run_ticks(for_ms, repeat_ms, phase, longer)
            == (last.0, seq![first.1] + rest.1.push(last.1)));
        assert(run_ticks(for_ms, repeat_ms, phase, ticks) == (rest.0, seq![first.1] + rest.1));
        assert(seq![first.1] + rest.1.push(last.1) =~= (seq![first.1] + rest.1).push(last.1));
    }
}

/// Law: a re-notification restarts the repeat interval: the tick that reports
/// `ReNotify` leaves the alert firing with that tick's time as its last
/// notification, and a second `ReNotify` on the next tick comes only once
/// `repeat_ms` has passed since the first.
pub proof fn law_renotify_restarts_the_interval(
    for_ms: i64,
    repeat_ms: i64,
    phase: Phase,
    a1: bool,
    t1: i64,
    a2: bool,
    t2: i64,
)
    requires
        next_phase(for_ms, repeat_ms, phase, a1, t1).1 == Some(Transition::ReNotify),
    ensures
        next_phase(for_ms, repeat_ms, phase, a1, t1).0 == (Phase::Firing { last_notified_ms: t1 }),
        next_phase(for_ms, repeat_ms, next_phase(for_ms, repeat_ms, phase, a1, t1).0, a2, t2).1
            == Some(Transition::ReNotify) ==> t2 - t1 >= repeat_ms,
{
}

/// Law: a tick that reports `Firing` leaves the alert firing with that tick's
/// time as its last notification, so the first re-notification comes only
/// once `repeat_ms` has passed.
pub proof fn law_firing_starts_the_interval(
    for_ms: i64,
    repeat_ms: i64,
    phase: Phase,
    a1: bool,
    t1: i64,
    a2: bool,
    t2: i64,
)
    requires
        next_phase(for_ms, repeat_ms, phase, a1, t1).1 == Some(Transition::Firing),
    ensures
        next_phase(for_ms, repeat_ms, phase, a1, t1).0 == (Phase::Firing { last_notified_ms: t1 }),
        next_phase(for_ms, repeat_ms, next_phase(for_ms, repeat_ms, phase, a1, t1).0, a2, t2).1
            == Some(Transition::ReNotify) ==> t2 - t1 >= repeat_ms,
{
}

} // verus!
