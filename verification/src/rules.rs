//! The rule engine: per-rule alert state machines, suppression between rules,
//! and the list of alerts a tick reports.
//!
//! Whether a rule's condition holds on a tick (a threshold, a rate, staleness)
//! is measured on metric values outside this module and handed in as one
//! activity flag per rule.

use vstd::prelude::*;
use crate::alert::{next_phase, run_ticks, law_step_extends_run, AlertState, Phase, Severity, Transition};

verus! {

/// One rule's definition as loaded from a rule file.
pub struct RuleSpec {
    pub id: String,
    pub severity: Severity,
    pub for_ms: i64,
    pub repeat_ms: i64,
    pub vdp_link: String,
    pub message: String,
    pub suppressed_by: Vec<String>,
    /// The rule's kind measures the duration itself (staleness, freshness):
    /// its `for_ms` is the staleness threshold, and the alert fires as soon as
    /// the kind reports the condition.
    pub duration_in_kind: bool,
}

/// A loaded rule.
pub struct Rule {
    pub id: String,
    pub severity: Severity,
    pub for_ms: i64,
    pub vdp_link: String,
    pub message: String,
    pub suppressed_by: Vec<String>,
}

/// An alert that a tick reports.
#[derive(Debug, Clone, PartialEq)]
pub struct Fired {
    pub rule_id: String,
    pub severity: Severity,
    pub transition: Transition,
    pub message: String,
    pub vdp_link: String,
}

/// The rules with one alert state machine each.
pub struct Engine {
    rules: Vec<Rule>,
    states: Vec<AlertState>,
}

/// The pending window of a rule's state machine: zero where the kind measures
/// the duration itself.
pub open spec fn alert_window(spec: RuleSpec) -> i64 {
    if spec.duration_in_kind { 0 } else { spec.for_ms }
}

/// Rule `i` is suppressed: one of the ids it names in `suppressed_by` is the
/// id of a rule whose condition holds on this tick.
pub open spec fn suppressed_at(rules: Seq<Rule>, active: Seq<bool>, i: int) -> bool {
    exists|k: int, j: int|
        #![trigger rules[i].suppressed_by@[k], rules[j]]
        0 <= k < rules[i].suppressed_by@.len() && 0 <= j < rules.len() && active[j]
            && rules[i].suppressed_by@[k]@ == rules[j].id@
}

/// Rule `i` counts as active on this tick: its condition holds and it is not
/// suppressed.
pub open spec fn effective_at(rules: Seq<Rule>, active: Seq<bool>, i: int) -> bool {
    active[i] && !suppressed_at(rules, active, i)
}

/// The alert reported for a rule and a transition.
pub open spec fn fired_for(rule: Rule, t: Transition) -> Fired {
    Fired {
        rule_id: rule.id,
        severity: rule.severity,
        transition: t,
        message: rule.message,
        vdp_link: rule.vdp_link,
    }
}

/// The transition that rule `i` reports on this tick.
pub open spec fn transition_at(rules: Seq<Rule>, states: Seq<AlertState>, active: Seq<bool>, now_ms: i64, i: int) -> Option<Transition> {
    next_phase(states[i].spec_for_ms(), states[i].spec_repeat_ms(), states[i].spec_phase(), effective_at(rules, active, i), now_ms).1
}

/// The alerts reported by the first `n` rules, in rule order.
pub open spec fn fired_prefix(rules: Seq<Rule>, states: Seq<AlertState>, active: Seq<bool>, now_ms: i64, n: nat) -> Seq<Fired>
    decreases n,
{
    if n == 0 {
        Seq::empty()
    } else {
        let prev = fired_prefix(rules, states, active, now_ms, (n - 1) as nat);
        match transition_at(rules, states, active, now_ms, n - 1) {
            Some(t) => prev.push(fired_for(rules[n - 1], t)),
            None => prev,
        }
    }
}


/// Law: on a tick where one of the rules that a rule names in its
/// `suppressed_by` has its condition holding, the rule counts as inactive: it
/// neither fires nor re-notifies (it can only close an alert that was open),
/// and its state machine is inactive after the tick.
pub proof fn law_suppressed_rule_is_silenced(rules: Seq<Rule>, states: Seq<AlertState>, active: Seq<bool>, now_ms: i64, i: int)
    requires
        0 <= i < rules.len(),
        suppressed_at(rules, active, i),
    ensures
        transition_at(rules, states, active, now_ms, i) is None
            || transition_at(rules, states, active, now_ms, i) == Some(Transition::Resolved),
        next_phase(states[i].spec_for_ms(), states[i].spec_repeat_ms(), states[i].spec_phase(),
            effective_at(rules, active, i), now_ms).0 == Phase::Inactive,
{
}

/// Law: a rule is suppressed on a tick whenever some rule of the engine,
/// wherever it stands in the rule order, whose id the first rule names in its
/// `suppressed_by` has its condition holding on that tick: the first rule
/// then counts as inactive, fires and re-notifies nothing, and its machine
/// ends the tick inactive.
pub proof fn law_any_active_suppressor_silences(
    rules: Seq<Rule>,
    states: Seq<AlertState>,
    active: Seq<bool>,
    now_ms: i64,
    i: int,
    j: int,
    k: int,
)
    requires
        0 <= i < rules.len(),
        0 <= j < rules.len(),
        active.len() == rules.len(),
        0 <= k < rules[i].suppressed_by@.len(),
        rules[i].suppressed_by@[k]@ == rules[j].id@,
        active[j],
    ensures
        !effective_at(rules, active, i),
        transition_at(rules, states, active, now_ms, i) != Some(Transition::Firing),
        transition_at(rules, states, active, now_ms, i) != Some(Transition::ReNotify),
        next_phase(states[i].spec_for_ms(), states[i].spec_repeat_ms(), states[i].spec_phase(),
            effective_at(rules, active, i), now_ms).0 == Phase::Inactive,
{
    assert(rules[i].suppressed_by@[k]@ == rules[j].id@);
    assert(suppressed_at(rules, active, i));
}

/// Law: a rule with no active suppressor counts as active exactly when its
/// own condition holds.
pub proof fn law_unsuppressed_rule_follows_its_condition(rules: Seq<Rule>, active: Seq<bool>, i: int)
    requires
        0 <= i < rules.len(),
        forall|k: int, j: int|
            #![trigger rules[i].suppressed_by@[k], rules[j]]
            0 <= k < rules[i].suppressed_by@.len() && 0 <= j < rules.len() && active[j]
                ==> rules[i].suppressed_by@[k]@ != rules[j].id@,
    ensures
        effective_at(rules, active, i) == active[i],
{
}

/// Law: each alert that a tick reports is the report of one rule for the
/// transition that rule's state machine made on that tick, and the only
/// report a suppressed rule can make is `Resolved`.
pub proof fn law_reports_come_from_rules(rules: Seq<Rule>, states: Seq<AlertState>, active: Seq<bool>, now_ms: i64, n: nat, k: int)
    requires
        n <= rules.len(),
        0 <= k < fired_prefix(rules, states, active, now_ms, n).len(),
    ensures
        exists|j: int| {
            let f = fired_prefix(rules, states, active, now_ms, n)[k];
            &&& 0 <= j < n
            &&& #[trigger] transition_at(rules, states, active, now_ms, j) == Some(f.transition)
            &&& f == fired_for(rules[j], f.transition)
            &&& (suppressed_at(rules, active, j) ==> f.transition == Transition::Resolved)
        },
    decreases n,
{
    let prev = fired_prefix(rules, states, active, now_ms, (n - 1) as nat);
    if k < prev.len() {
        law_reports_come_from_rules(rules, states, active, now_ms, (n - 1) as nat, k);
        let j = choose|j: int| {
            let f = fired_prefix(rules, states, active, now_ms, (n - 1) as nat)[k];
            &&& 0 <= j < n - 1
            &&& #[trigger] transition_at(rules, states, active, now_ms, j) == Some(f.transition)
            &&& f == fired_for(rules[j], f.transition)
            &&& (suppressed_at(rules, active, j) ==> f.transition == Transition::Resolved)
        };
        assert(fired_prefix(rules, states, active, now_ms, n)[k] == prev[k]);
        assert(transition_at(rules, states, active, now_ms, j) == Some(prev[k].transition));
    } else {
        let j = n - 1;
        let f = fired_prefix(rules, states, active, now_ms, n)[k];
        assert(transition_at(rules, states, active, now_ms, j) == Some(f.transition));
        if suppressed_at(rules, active, j) {
            law_suppressed_rule_is_silenced(rules, states, active, now_ms, j);
        }
    }
}

/// The phases of all rules after one tick with activity `act.0` at time
/// `act.1`, from `phases`, each rule with its `(pending window, repeat
/// interval)` in `windows`.
pub open spec fn next_phases(rules: Seq<Rule>, windows: Seq<(i64, i64)>, phases: Seq<Phase>, act: (Seq<bool>, i64)) -> Seq<Phase> {
    Seq::new(phases.len(), |i: int| next_phase(windows[i].0, windows[i].1, phases[i], effective_at(rules, act.0, i), act.1).0)
}

/// The phases of all rules after a sequence of ticks, in order.
pub open spec fn phases_after(rules: Seq<Rule>, windows: Seq<(i64, i64)>, phases: Seq<Phase>, acts: Seq<(Seq<bool>, i64)>) -> Seq<Phase>
    decreases acts.len(),
{
    if acts.len() == 0 {
        phases
    } else {
        next_phases(rules, windows, phases_after(rules, windows, phases, acts.drop_last()), acts.last())
    }
}

/// The ticks that rule `i`'s state machine sees over a sequence of engine
/// ticks: whether it counted as active (its condition held and no suppressor
/// held), and the time.
pub open spec fn effective_ticks(rules: Seq<Rule>, acts: Seq<(Seq<bool>, i64)>, i: int) -> Seq<(bool, i64)> {
    acts.map_values(|a: (Seq<bool>, i64)| (effective_at(rules, a.0, i), a.1))
}

/// Law: over any sequence of engine ticks, each rule's state machine goes
/// exactly where its own machine would go on the ticks it sees: its phase
/// after the sequence is what `run_ticks` gives for its effective activity,
/// and the transition it reports on the last tick is the last one `run_ticks`
/// reports.
pub proof fn law_engine_runs_each_rule(rules: Seq<Rule>, windows: Seq<(i64, i64)>, phases: Seq<Phase>, acts: Seq<(Seq<bool>, i64)>, i: int)
    requires
        0 <= i < phases.len(),
        windows.len() == phases.len(),
    ensures
        phases_after(rules, windows, phases, acts).len() == phases.len(),
        phases_after(rules, windows, phases, acts)[i]
            == run_ticks(windows[i].0, windows[i].1, phases[i], effective_ticks(rules, acts, i)).0,
        acts.len() > 0 ==> next_phase(windows[i].0, windows[i].1,
            phases_after(rules, windows, phases, acts.drop_last())[i],
            effective_at(rules, acts.last().0, i), acts.last().1).1
            == run_ticks(windows[i].0, windows[i].1, phases[i], effective_ticks(rules, acts, i)).1.last(),
    decreases acts.len(),
{
    let eff = effective_ticks(rules, acts, i);
    if acts.len() == 0 {
        assert(eff =~= Seq::<(bool, i64)>::empty());
        assert(run_ticks(windows[i].0, windows[i].1, phases[i], eff).0 == phases[i]);
    } else {
        law_engine_runs_each_rule(rules, windows, phases, acts.drop_last(), i);
        let prev = effective_ticks(rules, acts.drop_last(), i);
        let last = (effective_at(rules, acts.last().0, i), acts.last().1);
        assert(eff =~= prev.push(last));
        law_step_extends_run(windows[i].0, windows[i].1, phases[i], prev, last.0, last.1);
    }
}

impl Engine {
    /// The loaded rules, in file order.
    pub closed spec fn spec_rules(&self) -> Seq<Rule> {
        self.rules@
    }

    /// The state machine of each rule, in rule order.
    pub closed spec fn spec_states(&self) -> Seq<AlertState> {
        self.states@
    }

    /// The phase of each rule's state machine, in rule order.
    pub open spec fn phases(&self) -> Seq<Phase> {
        Seq::new(self.spec_states().len(), |i: int| self.spec_states()[i].spec_phase())
    }

    /// The `(pending window, repeat interval)` of each rule's state machine.
    pub open spec fn windows(&self) -> Seq<(i64, i64)> {
        Seq::new(self.spec_states().len(), |i: int| (self.spec_states()[i].spec_for_ms(), self.spec_states()[i].spec_repeat_ms()))
    }

    /// Every rule has its state machine.
    pub open spec fn wf(&self) -> bool {
        self.spec_rules().len() == self.spec_states().len()
    }

    /// An engine with no rules.
    pub fn new() -> (e: Engine)
        ensures
            e.wf(),
            e.spec_rules().len() == 0,
    {
        Engine { rules: Vec::new(), states: Vec::new() }
    }

    /// Adds a rule behind those already loaded, with an inactive state machine
    /// whose pending window is zero where the kind measures the duration
    /// itself and `for_ms` otherwise.
    pub fn push_rule(&mut self, spec: RuleSpec)
        requires
            old(self).wf(),
        ensures
            final(self).wf(),
            final(self).spec_rules() == old(self).spec_rules().push(Rule {
                id: spec.id,
                severity: spec.severity,
                for_ms: spec.for_ms,
                vdp_link: spec.vdp_link,
                message: spec.message,
                suppressed_by: spec.suppressed_by,
            }),
            final(self).spec_states().len() == old(self).spec_states().len() + 1,
            forall|i: int| 0 <= i < old(self).spec_states().len()
                ==> #[trigger] final(self).spec_states()[i] == old(self).spec_states()[i],
            final(self).spec_states().last().spec_for_ms() == alert_window(spec),
            final(self).spec_states().last().spec_repeat_ms() == spec.repeat_ms,
            final(self).spec_states().last().spec_phase() == Phase::Inactive,
    {
        let window = if spec.duration_in_kind { 0 } else { spec.for_ms };
        let state = AlertState::new(window, spec.repeat_ms);
        self.rules.push(Rule {
            id: spec.id,
            severity: spec.severity,
            for_ms: spec.for_ms,
            vdp_link: spec.vdp_link,
            message: spec.message,
            suppressed_by: spec.suppressed_by,
        });
        self.states.push(state);
    }

    /// Number of loaded rules.
    pub fn rule_count(&self) -> (n: usize)
        ensures
            n == self.spec_rules().len(),
    {
        self.rules.len()
    }

    /// The loaded rules, in file order.
    pub fn rules(&self) -> (r: &Vec<Rule>)
        ensures
            r@ == self.spec_rules(),
    {
        &self.rules
    }

    /// One tick: `active[i]` says whether rule `i`'s condition holds. A rule
    /// counts as active when its condition holds and none of the rules named
    /// in its `suppressed_by` has its condition holding; each state machine
    /// takes one step with that, and the transitions are reported in rule
    /// order.
    pub fn evaluate(&mut self, active: &Vec<bool>, now_ms: i64) -> (out: Vec<Fired>)
        requires
            old(self).wf(),
            active@.len() == old(self).spec_rules().len(),
        ensures
            final(self).wf(),
            final(self).spec_rules() == old(self).spec_rules(),
            forall|i: int| 0 <= i < old(self).spec_states().len() ==> {
                let s = #[trigger] old(self).spec_states()[i];
                let n = next_phase(s.spec_for_ms(), s.spec_repeat_ms(), s.spec_phase(),
                    effective_at(old(self).spec_rules(), active@, i), now_ms);
                &&& final(self).spec_states()[i].spec_for_ms() == s.spec_for_ms()
                &&& final(self).spec_states()[i].spec_repeat_ms() == s.spec_repeat_ms()
                &&& final(self).spec_states()[i].spec_phase() == n.0
            },
            out@ == fired_prefix(old(self).spec_rules(), old(self).spec_states(), active@, now_ms,
                old(self).spec_rules().len()),
            final(self).windows() == old(self).windows(),
            final(self).phases() == next_phases(old(self).spec_rules(), old(self).windows(), old(self).phases(),
                (active@, now_ms)),
    {
        let ghost old_states = self.states@;
        let ghost old_rules = self.rules@;
        let n = self.rules.len();
        let mut out: Vec<Fired> = Vec::new();
        let mut i: usize = 0;
        while i < n
            invariant
                n == self.rules@.len(),
                self.rules@ == old_rules,
                self.states@.len() == n,
                old_states.len() == n,
                active@.len() == n,
                0 <= i <= n,
                forall|j: int| i <= j < n ==> #[trigger] self.states@[j] == old_states[j],
                forall|j: int| 0 <= j < i ==> {
                    let s = #[trigger] old_states[j];
                    let nx = next_phase(s.spec_for_ms(), s.spec_repeat_ms(), s.spec_phase(),
                        effective_at(self.rules@, active@, j), now_ms);
                    &&& self.states@[j].spec_for_ms() == s.spec_for_ms()
                    &&& self.states@[j].spec_repeat_ms() == s.spec_repeat_ms()
                    &&& self.states@[j].spec_phase() == nx.0
                },
                out@ == fired_prefix(self.rules@, old_states, active@, now_ms, i as nat),
            decreases n - i,
        {
            let suppressed = is_suppressed(&self.rules, active, i);
            let effective = active[i] && !suppressed;
            let mut st = self.states[i];
            let t = st.step(effective, now_ms);
            self.states.set(i, st);
            match t {
                Some(transition) => {
                    let r = &self.rules[i];
                    out.push(Fired {
                        rule_id: r.id.clone(),
                        severity: r.severity,
                        transition,
                        message: r.message.clone(),
                        vdp_link: r.vdp_link.clone(),
                    });
                },
                None => {},
            }
            i += 1;
        }
        proof {
            assert(self.windows() =~= old(self).windows());
            assert(self.phases() =~= next_phases(old(self).spec_rules(), old(self).windows(), old(self).phases(),
                (active@, now_ms)));
        }
        out
    }
}

/// Whether rule `i` is suppressed on this tick.
fn is_suppressed(rules: &Vec<Rule>, active: &Vec<bool>, i: usize) -> (r: bool)
    requires
        active@.len() == rules@.len(),
        i < rules@.len(),
    ensures
        r == suppressed_at(rules@, active@, i as int),
{
    let subs = &rules[i].suppressed_by;
    let mut k: usize = 0;
    while k < subs.len()
        invariant
            active@.len() == rules@.len(),
            i < rules@.len(),
            *subs == rules@[i as int].suppressed_by,
            0 <= k <= subs@.len(),
            forall|kk: int, j: int|
                #![trigger subs@[kk], rules@[j]]
                0 <= kk < k && 0 <= j < rules@.len() && active@[j]
                    ==> subs@[kk]@ != rules@[j].id@,
        decreases subs@.len() - k,
    {
        let mut j: usize = 0;
        while j < rules.len()
            invariant
                active@.len() == rules@.len(),
                i < rules@.len(),
                *subs == rules@[i as int].suppressed_by,
                0 <= k < subs@.len(),
                0 <= j <= rules@.len(),
                forall|kk: int, jj: int|
                    #![trigger subs@[kk], rules@[jj]]
                    0 <= kk < k && 0 <= jj < rules@.len() && active@[jj]
                        ==> subs@[kk]@ != rules@[jj].id@,
                forall|jj: int| 0 <= jj < j && active@[jj] ==> subs@[k as int]@ != #[trigger] rules@[jj].id@,
            decreases rules@.len() - j,
        {
            if active[j] && rules[j].id == subs[k] {
                assert(active@[j as int] && rules@[i as int].suppressed_by@[k as int]@ == rules@[j as int].id@);
                return true;
            }
            j += 1;
        }
        k += 1;
    }
    false
}

} // verus!
