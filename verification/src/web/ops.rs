//! Privileged operations and the executor that runs them.
//!
//! The system executor checks the allowlist before anything runs, and the
//! command is a fixed argument vector (`sudo -n systemctl restart <unit>`): no
//! shell, no interpolation.

use vstd::prelude::*;
use crate::web::config::{contains_unit, is_allowed};

verus! {

broadcast use vstd::string::group_string_axioms;

/// A privileged operation.
#[derive(Debug, Clone, PartialEq)]
pub enum Op {
    Restart { unit: String },
}

/// Runs privileged operations; `Ok` carries a short description of what was
/// done, `Err` a description of the failure.
pub trait OpExecutor {
    /// Running `op` once may take the executor from `self` to `after` and
    /// give `result`. What a run does depends on the host, so a run has no
    /// one outcome; an implementation that keeps this default claims nothing
    /// more of its runs.
    open spec fn runs(&self, after: &Self, op: Op, result: Result<String, String>) -> bool {
        true
    }

    fn run(&mut self, op: &Op) -> (result: Result<String, String>)
        ensures
            old(self).runs(final(self), *op, result),
    ;
}

/// The system executor: restarts units with `sudo -n systemctl`, for the
/// units on its allowlist only.
pub struct SudoSystemctl {
    pub allowed: Vec<String>,
}

/// The argument vector that restarts a unit.
pub open spec fn restart_argv(unit: Seq<char>) -> Seq<Seq<char>> {
    seq!["sudo"@, "-n"@, "systemctl"@, "restart"@, unit]
}

/// The error text for a unit that is not on the allowlist.
pub open spec fn not_allowed_text(unit: Seq<char>) -> Seq<char> {
    "unit not allowed: "@ + unit
}

impl SudoSystemctl {
    /// The command that runs `op`: the fixed argument vector for a unit on the
    /// allowlist, and an error, with nothing to run, for any other unit.
    pub fn command(&self, op: &Op) -> (r: Result<Vec<String>, String>)
        ensures
            match op {
                Op::Restart { unit } => {
                    &&& is_allowed(self.allowed@, unit@) ==> (r matches Ok(argv)
                        && argv@.map_values(|a: String| a@) == restart_argv(unit@))
                    &&& !is_allowed(self.allowed@, unit@) ==> (r matches Err(e)
                        && e@ == not_allowed_text(unit@))
                },
            },
    {
        match op {
            Op::Restart { unit } => {
                if !contains_unit(&self.allowed, unit.as_str()) {
                    let mut e = String::from_str("unit not allowed: ");
                    e.append(unit.as_str());
                    return Err(e);
                }
                let mut argv: Vec<String> = Vec::new();
                argv.push(String::from_str("sudo"));
                argv.push(String::from_str("-n"));
                argv.push(String::from_str("systemctl"));
                argv.push(String::from_str("restart"));
                argv.push(unit.clone());
                assert(argv@.map_values(|a: String| a@) =~= restart_argv(unit@));
                Ok(argv)
            },
        }
    }
}

} // verus!
