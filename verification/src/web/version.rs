//! The guard on upgrade targets: only `N.N.N` (optionally `vN.N.N`) versions
//! reach the privileged upgrade command.

use vstd::prelude::*;
use crate::text::{chars_of, find_char_from, lemma_find_char_from_bounds, split_range};

verus! {

broadcast use vstd::string::group_string_axioms;

/// An ASCII decimal digit.
pub open spec fn is_digit(c: char) -> bool {
    '0' <= c && c <= '9'
}

/// The number of dots in `s`.
pub open spec fn dot_count(s: Seq<char>) -> nat
    decreases s.len(),
{
    if s.len() == 0 {
        0
    } else {
        dot_count(s.drop_last()) + if s.last() == '.' { 1nat } else { 0nat }
    }
}

/// `s` is three non-empty runs of ASCII digits joined by dots: splitting it at
/// `.` gives exactly three parts, none empty, all digits.
pub open spec fn is_version(s: Seq<char>) -> bool {
    &&& s.len() > 0
    &&& forall|k: int| 0 <= k < s.len() ==> is_digit(#[trigger] s[k]) || s[k] == '.'
    &&& dot_count(s) == 2
    &&& s[0] != '.'
    &&& s.last() != '.'
    &&& forall|k: int| 0 <= k < s.len() - 1 ==> !(#[trigger] s[k] == '.' && s[k + 1] == '.')
}

/// `input` without one leading `v`.
pub open spec fn strip_v(input: Seq<char>) -> Seq<char> {
    if input.len() > 0 && input[0] == 'v' { input.drop_first() } else { input }
}

/// What `validate` gives for `input`.
pub open spec fn validated(input: Seq<char>) -> Option<Seq<char>> {
    if is_version(strip_v(input)) { Some(strip_v(input)) } else { None }
}

/// The prefix conditions that the scan in `validate` tracks.
spec fn scan_ok(t: Seq<char>, n: int) -> bool {
    &&& forall|k: int| 0 <= k < n ==> is_digit(#[trigger] t[k]) || t[k] == '.'
    &&& (n > 0 ==> t[0] != '.')
    &&& forall|k: int| 0 <= k < n - 1 ==> !(#[trigger] t[k] == '.' && t[k + 1] == '.')
}

/// Validates a target version. Accepts `0.14.5` or `v0.14.5`; returns the
/// canonical form without a leading `v`, and rejects anything else.
pub fn validate(input: &str) -> (r: Option<String>)
    ensures
        r is Some <==> validated(input@) is Some,
        r matches Some(v) ==> validated(input@) == Some(v@),
{
    let c = chars_of(input);
    let start: usize = if c.len() > 0 && c[0] == 'v' { 1 } else { 0 };
    let ghost t = c@.subrange(start as int, c@.len() as int);
    assert(t =~= strip_v(input@));
    if start == c.len() {
        return None;
    }
    let mut dots: usize = 0;
    let mut i = start;
    while i < c.len()
        invariant
            start < c@.len(),
            start <= i <= c@.len(),
            t == c@.subrange(start as int, c@.len() as int),
            t == strip_v(input@),
            dots <= i - start,
            dots == dot_count(t.subrange(0, i - start)),
            scan_ok(t, i - start),
        decreases c@.len() - i,
    {
        let ch = c[i];
        let ghost k = i - start;
        assert(t[k] == ch);
        assert(t.subrange(0, k + 1).drop_last() =~= t.subrange(0, k));
        if ch == '.' {
            if i == start || c[i - 1] == '.' {
                proof {
                    if k > 0 {
                        assert(t[k - 1] == c@[i - 1]);
                        assert(t[k - 1] == '.' && t[k] == '.');
                    }
                }
                return None;
            }
            dots = dots + 1;
        } else if !('0' <= ch && ch <= '9') {
            assert(!(is_digit(t[k]) || t[k] == '.'));
            return None;
        }
        proof {
            if k > 0 { assert(t[k - 1] == c@[i - 1]); }
        }
        i = i + 1;
    }
    assert(t.subrange(0, t.len() as int) =~= t);
    if dots != 2 || c[c.len() - 1] == '.' {
        proof { assert(t.last() == c@[c@.len() - 1]); }
        return None;
    }
    proof { assert(t.last() == c@[c@.len() - 1]); }
    Some(crate::text::string_of(input, start, c.len()))
}

/// Law: a validated version validates to itself: the canonical form is a
/// fixed point.
pub proof fn law_validate_is_idempotent(input: Seq<char>)
    requires
        validated(input) is Some,
    ensures
        validated(validated(input)->0) == validated(input),
{
    let t = strip_v(input);
    assert(is_digit(t[0]));
    assert(strip_v(t) == t);
}

/// Law: an accepted version holds nothing but ASCII digits and dots, so no
/// shell metacharacter, space, path separator or option dash reaches the
/// upgrade command.
pub proof fn law_validated_is_digits_and_dots(input: Seq<char>)
    requires
        validated(input) is Some,
    ensures
        forall|k: int| 0 <= k < validated(input)->0.len()
            ==> is_digit(#[trigger] validated(input)->0[k]) || validated(input)->0[k] == '.',
{
}

/// A non-empty run of ASCII digits.
pub open spec fn digit_run(p: Seq<char>) -> bool {
    p.len() > 0 && forall|k: int| 0 <= k < p.len() ==> is_digit(#[trigger] p[k])
}

/// `t.split('.')` gives exactly three parts, each a non-empty run of ASCII
/// digits.
pub open spec fn three_digit_parts(t: Seq<char>) -> bool {
    let p = split_range(t, '.', 0, t.len() as int);
    p.len() == 3 && forall|k: int| 0 <= k < 3 ==> digit_run(#[trigger] p[k])
}

/// Digits and single dots, neither starting nor ending with a dot.
spec fn dotted_digits(u: Seq<char>) -> bool {
    &&& u.len() > 0
    &&& forall|k: int| 0 <= k < u.len() ==> is_digit(#[trigger] u[k]) || u[k] == '.'
    &&& u[0] != '.'
    &&& u.last() != '.'
    &&& forall|k: int| 0 <= k < u.len() - 1 ==> !(#[trigger] u[k] == '.' && u[k + 1] == '.')
}

proof fn lemma_dot_count_concat(a: Seq<char>, b: Seq<char>)
    ensures
        dot_count(a + b) == dot_count(a) + dot_count(b),
    decreases b.len(),
{
    if b.len() == 0 {
        assert(a + b =~= a);
    } else {
        lemma_dot_count_concat(a, b.drop_last());
        assert((a + b).drop_last() =~= a + b.drop_last());
        assert((a + b).last() == b.last());
    }
}

proof fn lemma_dot_count_none(u: Seq<char>)
    requires
        forall|k: int| 0 <= k < u.len() ==> #[trigger] u[k] != '.',
    ensures
        dot_count(u) == 0,
    decreases u.len(),
{
    if u.len() > 0 {
        assert(u.last() == u[u.len() - 1]);
        lemma_dot_count_none(u.drop_last());
    }
}

proof fn lemma_split_parts(s: Seq<char>, from: int, to: int)
    requires
        0 <= from <= to <= s.len(),
    ensures
        split_range(s, '.', from, to).len() == dot_count(s.subrange(from, to)) + 1,
        (forall|k: int| 0 <= k < split_range(s, '.', from, to).len()
            ==> digit_run(#[trigger] split_range(s, '.', from, to)[k]))
            <==> dotted_digits(s.subrange(from, to)),
    decreases to - from,
{
    let t = s.subrange(0, to);
    let u = s.subrange(from, to);
    let p = split_range(s, '.', from, to);
    lemma_find_char_from_bounds(t, '.', from);
    match find_char_from(t, '.', from) {
        None => {
            assert(p == seq![u]);
            assert forall|k: int| 0 <= k < u.len() implies #[trigger] u[k] != '.' by {
                assert(u[k] == t[from + k]);
            }
            lemma_dot_count_none(u);
            assert(p.len() == 1 && p[0] == u);
            if digit_run(u) {
                assert(u.last() == u[u.len() - 1]);
                assert(dotted_digits(u));
            }
            if dotted_digits(u) {
                assert forall|k: int| 0 <= k < u.len() implies is_digit(#[trigger] u[k]) by {
                    assert(is_digit(u[k]) || u[k] == '.');
                }
                assert(digit_run(u));
            }
            if forall|k: int| 0 <= k < p.len() ==> digit_run(#[trigger] p[k]) {
                assert(digit_run(p[0]));
            }
        },
        Some(i) => {
            lemma_split_parts(s, i + 1, to);
            let pre = s.subrange(from, i);
            let suf = s.subrange(i + 1, to);
            let rest = split_range(s, '.', i + 1, to);
            assert(p == seq![pre] + rest);
            assert(s[i] == '.') by { assert(t[i] == s[i]); }
            assert(u =~= pre + seq!['.'] + suf);
            assert forall|k: int| 0 <= k < pre.len() implies #[trigger] pre[k] != '.' by {
                assert(pre[k] == t[from + k]);
            }
            lemma_dot_count_none(pre);
            lemma_dot_count_concat(pre + seq!['.'], suf);
            lemma_dot_count_concat(pre, seq!['.']);
            assert(dot_count(seq!['.']) == 1) by {
                assert(seq!['.'].drop_last() =~= Seq::<char>::empty());
                assert(dot_count(Seq::<char>::empty()) == 0);
                assert(seq!['.'].last() == '.');
            }
            let l = pre.len() as int;
            assert forall|k: int| 0 <= k < l implies #[trigger] u[k] == pre[k] by {}
            assert(u[l] == '.');
            assert forall|k: int| 0 <= k < suf.len() implies #[trigger] u[l + 1 + k] == suf[k] by {}
            let all_p = forall|k: int| 0 <= k < p.len() ==> digit_run(#[trigger] p[k]);
            let all_rest = forall|k: int| 0 <= k < rest.len() ==> digit_run(#[trigger] rest[k]);
            assert(all_p <==> (digit_run(pre) && all_rest)) by {
                assert(p[0] == pre);
                assert forall|k: int| 0 <= k < rest.len() implies #[trigger] p[k + 1] == rest[k] by {}
                if digit_run(pre) && all_rest {
                    assert forall|k: int| 0 <= k < p.len() implies digit_run(#[trigger] p[k]) by {
                        if k > 0 { assert(p[k] == rest[k - 1]); }
                    }
                }
                if all_p {
                    assert(digit_run(p[0]));
                    assert forall|k: int| 0 <= k < rest.len() implies digit_run(#[trigger] rest[k]) by {
                        assert(digit_run(p[k + 1]));
                    }
                }
            }
            if digit_run(pre) && dotted_digits(suf) {
                assert forall|k: int| 0 <= k < u.len() implies is_digit(#[trigger] u[k]) || u[k] == '.' by {
                    if k < l { assert(u[k] == pre[k]); }
                    else if k > l { assert(u[k] == suf[k - l - 1]); }
                }
                assert(u[0] == pre[0]);
                assert(u.last() == suf.last()) by { assert(u[u.len() - 1] == suf[suf.len() - 1]); }
                assert forall|k: int| 0 <= k < u.len() - 1 implies !(#[trigger] u[k] == '.' && u[k + 1] == '.') by {
                    if k < l {
                        assert(u[k] == pre[k]);
                    } else if k == l {
                        assert(u[k + 1] == suf[0]);
                    } else {
                        assert(u[k] == suf[k - l - 1]);
                        assert(u[k + 1] == suf[k - l]);
                    }
                }
                assert(dotted_digits(u));
            }
            if dotted_digits(u) {
                assert(l > 0) by {
                    if l == 0 { assert(u[0] == '.'); }
                }
                assert forall|k: int| 0 <= k < pre.len() implies is_digit(#[trigger] pre[k]) by {
                    assert(u[k] == pre[k]);
                    assert(is_digit(u[k]) || u[k] == '.');
                }
                assert(suf.len() > 0) by {
                    if suf.len() == 0 { assert(u.last() == u[l]); }
                }
                assert forall|k: int| 0 <= k < suf.len() implies is_digit(#[trigger] suf[k]) || suf[k] == '.' by {
                    assert(u[l + 1 + k] == suf[k]);
                    assert(is_digit(u[l + 1 + k]) || u[l + 1 + k] == '.');
                }
                assert(suf[0] != '.') by {
                    assert(!(u[l] == '.' && u[l + 1] == '.'));
                    assert(u[l + 1] == suf[0]);
                }
                assert(suf.last() != '.') by {
                    assert(u[u.len() - 1] == suf[suf.len() - 1]);
                }
                assert forall|k: int| 0 <= k < suf.len() - 1 implies !(#[trigger] suf[k] == '.' && suf[k + 1] == '.') by {
                    assert(u[l + 1 + k] == suf[k]);
                    assert(u[l + 2 + k] == suf[k + 1]);
                    assert(!(u[l + 1 + k] == '.' && u[l + 1 + k + 1] == '.'));
                }
                assert(dotted_digits(suf));
                assert(digit_run(pre));
            }
        },
    }
}

/// Law: `validate` accepts exactly what its doc says: after dropping one
/// leading `v`, splitting at `.` gives exactly three parts, each a non-empty
/// run of ASCII digits; the result is that text.
pub proof fn law_validate_is_three_digit_parts(input: Seq<char>)
    ensures
        validated(input) == (if three_digit_parts(strip_v(input)) { Some(strip_v(input)) } else { None::<Seq<char>> }),
{
    let t = strip_v(input);
    lemma_split_parts(t, 0, t.len() as int);
    assert(t.subrange(0, t.len() as int) =~= t);
    let p = split_range(t, '.', 0, t.len() as int);
    if three_digit_parts(t) {
        assert(forall|k: int| 0 <= k < p.len() ==> digit_run(#[trigger] p[k]));
        assert(dotted_digits(t));
        assert(is_version(t));
    }
    if is_version(t) {
        assert(dotted_digits(t));
        assert(p.len() == 3);
        assert(forall|k: int| 0 <= k < 3 ==> digit_run(#[trigger] p[k]));
    }
}

} // verus!
