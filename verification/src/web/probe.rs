//! The host probes that the console reads, and the reading of their output:
//! the candidate version in `apt-cache policy` output, and the version tag
//! that a node binary prints.

use vstd::prelude::*;
use crate::text::{chars_of, find_char, find_char_in, lemma_find_char_from_bounds, line_bounds, lines, range_equals, range_starts_with, starts_with, string_of, trim, trim_bounds};

verus! {

broadcast use vstd::string::group_string_axioms;

/// Whether a systemd unit is active.
pub trait ServiceProbe {
    /// `active` is a reply that the probe may give about `unit`. The unit's
    /// state changes, so a question has no one reply; an implementation that
    /// keeps this default claims nothing more of its replies.
    open spec fn reports_active(&self, unit: Seq<char>, active: bool) -> bool {
        true
    }

    fn is_active(&self, unit: &str) -> (active: bool)
        ensures
            self.reports_active(unit@, active),
    ;
}

/// The text of an optional string.
pub open spec fn opt_text(o: Option<String>) -> Option<Seq<char>> {
    match o {
        Some(t) => Some(t@),
        None => None,
    }
}

/// The version a binary reports, if any.
pub trait VersionProbe {
    /// `version` is a reply that the probe may give about `binary`; an
    /// implementation that keeps this default claims nothing more of its
    /// replies.
    open spec fn reports_version(&self, binary: Seq<char>, version: Option<Seq<char>>) -> bool {
        true
    }

    fn version(&self, binary: &str) -> (v: Option<String>)
        ensures
            self.reports_version(binary@, opt_text(v)),
    ;
}

/// The last lines of a unit's log.
pub trait LogReader {
    /// `out` is a reply that the reader may give when asked for the last `n`
    /// lines of `unit` (the log changes, so a request has no one reply); an
    /// implementation that keeps this default claims nothing more of its
    /// replies.
    open spec fn tails(&self, unit: Seq<char>, n: usize, out: Seq<String>) -> bool {
        true
    }

    fn tail(&self, unit: &str, lines: usize) -> (out: Vec<String>)
        ensures
            self.tails(unit@, lines, out@),
    ;
}

/// The candidate version of a package, if any.
pub trait CandidateProbe {
    fn candidate(&self, pkg: &str) -> Option<String>;
}

/// What the candidate line of `apt-cache policy` output gives: after the
/// `Candidate:` prefix, the trimmed rest, unless it is empty or `(none)`.
pub open spec fn candidate_of_line(line: Seq<char>) -> Option<Seq<char>> {
    let v = trim(line.subrange(candidate_prefix().len() as int, line.len() as int));
    if v.len() == 0 || v == none_marker() { None } else { Some(v) }
}

pub open spec fn candidate_prefix() -> Seq<char> {
    seq!['C', 'a', 'n', 'd', 'i', 'd', 'a', 't', 'e', ':']
}

pub open spec fn none_marker() -> Seq<char> {
    seq!['(', 'n', 'o', 'n', 'e', ')']
}

/// The candidate version in the lines from `k` on: the first trimmed line
/// that starts with `Candidate:` decides.
pub open spec fn candidate_from(ls: Seq<Seq<char>>, k: int) -> Option<Seq<char>>
    decreases ls.len() - k,
{
    if k < 0 || k >= ls.len() {
        None
    } else if starts_with(trim(ls[k]), candidate_prefix()) {
        candidate_of_line(trim(ls[k]))
    } else {
        candidate_from(ls, k + 1)
    }
}

/// Extracts the `Candidate:` version from `apt-cache policy <pkg>` output.
pub fn parse_apt_candidate(text: &str) -> (r: Option<String>)
    ensures
        r is Some <==> candidate_from(lines(text@), 0) is Some,
        r matches Some(v) ==> candidate_from(lines(text@), 0) == Some(v@),
{
    let s = chars_of(text);
    let bounds = line_bounds(&s);
    let prefix: Vec<char> = vec!['C', 'a', 'n', 'd', 'i', 'd', 'a', 't', 'e', ':'];
    let none: Vec<char> = vec!['(', 'n', 'o', 'n', 'e', ')'];
    assert(prefix@ =~= candidate_prefix());
    assert(none@ =~= none_marker());
    let ghost ls = lines(s@);
    let mut k: usize = 0;
    while k < bounds.len()
        invariant
            s@ == text@,
            ls == lines(s@),
            bounds@.len() == ls.len(),
            prefix@ == candidate_prefix(),
            none@ == none_marker(),
            forall|j: int| 0 <= j < bounds@.len() ==> {
                let (a, b) = #[trigger] bounds@[j];
                a <= b <= s@.len() && s@.subrange(a as int, b as int) == ls[j]
            },
            0 <= k <= bounds@.len(),
            candidate_from(ls, 0) == candidate_from(ls, k as int),
        decreases bounds@.len() - k,
    {
        let (a, b) = bounds[k];
        let (ta, tb) = trim_bounds(&s, a, b);
        assert(s@.subrange(a as int, b as int) == ls[k as int]);
        if range_starts_with(&s, ta, tb, &prefix) {
            let (va, vb) = trim_bounds(&s, ta + 10, tb);
            proof {
                let line = s@.subrange(ta as int, tb as int);
                assert(line.subrange(10, line.len() as int) =~= s@.subrange(ta + 10, tb as int));
            }
            if va == vb || range_equals(&s, va, vb, &none) {
                return None;
            }
            return Some(string_of(text, va, vb));
        }
        k += 1;
    }
    None
}

/// The `tag` string field of a JSON object, as `serde_json` parses the text;
/// `None` where the text is not JSON, not an object, or the field is missing
/// or not a string.
pub uninterp spec fn json_tag_field(text: Seq<char>) -> Option<Seq<char>>;

/// `serde_json::from_str::<Value>(text)`, then the string at `"tag"`.
#[verifier::external_body]
fn json_tag(text: &str) -> (r: Option<String>)
    ensures
        r is Some <==> json_tag_field(text@) is Some,
        r matches Some(t) ==> json_tag_field(text@) == Some(t@),
{
    let json: serde_json::Value = serde_json::from_str(text).ok()?;
    json.get("tag")?.as_str().map(|s| s.to_string())
}

/// What `version_tag` reads from a binary's `--version` output.
pub open spec fn version_tag_of(output: Seq<char>) -> Option<Seq<char>> {
    match find_char(output, '{') {
        None => None,
        Some(i) => json_tag_field(trim(output.subrange(i, output.len() as int))),
    }
}

/// The version tag in a node binary's `--version` output: the JSON object
/// that starts at the first `{`, read for its `tag` field.
pub fn version_tag(output: &str) -> (r: Option<String>)
    ensures
        r is Some <==> version_tag_of(output@) is Some,
        r matches Some(t) ==> version_tag_of(output@) == Some(t@),
{
    let s = chars_of(output);
    proof { lemma_find_char_from_bounds(s@, '{', 0); }
    match find_char_in(&s, '{', 0) {
        None => None,
        Some(i) => {
            let (a, b) = trim_bounds(&s, i, s.len());
            let body = string_of(output, a, b);
            json_tag(body.as_str())
        },
    }
}

} // verus!
