//! Character-level helpers over string views: search, whitespace trimming,
//! and line splitting, each with the meaning that `str`'s own methods give it.

use vstd::prelude::*;

verus! {

broadcast use vstd::string::group_string_axioms;

/// The characters of a string, in order.
pub fn chars_of(s: &str) -> (v: Vec<char>)
    ensures
        v@ == s@,
{
    let mut v: Vec<char> = Vec::new();
    for c in it: s.chars()
        invariant
            v@ == it.seq().take(it.index() as int),
    {
        v.push(c);
    }
    v
}

/// `String::push`: appends one character.
#[verifier::external_body]
pub fn push_char(s: &mut String, c: char)
    ensures
        final(s)@ == old(s)@.push(c),
{
    s.push(c);
}

/// The string made of the characters `v[from..to]`.
pub fn string_of(s: &str, from: usize, to: usize) -> (r: String)
    requires
        from <= to <= s@.len(),
    ensures
        r@ == s@.subrange(from as int, to as int),
{
    String::from_str(s.substring_char(from, to))
}

/// `needle` occurs in `hay` at position `i`.
pub open spec fn occurs_at(hay: Seq<char>, needle: Seq<char>, i: int) -> bool {
    0 <= i && i + needle.len() <= hay.len() && hay.subrange(i, i + needle.len()) == needle
}

/// The first position at or after `from` where `needle` occurs in `hay`.
pub open spec fn find_from(hay: Seq<char>, needle: Seq<char>, from: int) -> Option<int>
    decreases hay.len() + 1 - from,
{
    if from < 0 || from + needle.len() > hay.len() {
        None
    } else if occurs_at(hay, needle, from) {
        Some(from)
    } else {
        find_from(hay, needle, from + 1)
    }
}

/// The first position of `needle` in `hay`.
pub open spec fn find(hay: Seq<char>, needle: Seq<char>) -> Option<int> {
    find_from(hay, needle, 0)
}

/// The first position at or after `from` that holds `c`.
pub open spec fn find_char_from(s: Seq<char>, c: char, from: int) -> Option<int>
    decreases s.len() - from,
{
    if from < 0 || from >= s.len() {
        None
    } else if s[from] == c {
        Some(from)
    } else {
        find_char_from(s, c, from + 1)
    }
}

/// The first position of `c` in `s`.
pub open spec fn find_char(s: Seq<char>, c: char) -> Option<int> {
    find_char_from(s, c, 0)
}

pub proof fn lemma_find_char_from_bounds(s: Seq<char>, c: char, from: int)
    ensures
        find_char_from(s, c, from) matches Some(i) ==> from <= i < s.len() && s[i] == c
            && forall|k: int| from <= k < i ==> s[k] != c,
        find_char_from(s, c, from) is None ==> forall|k: int| from <= k < s.len() && 0 <= from ==> s[k] != c,
    decreases s.len() - from,
{
    if from >= 0 && from < s.len() && s[from] != c {
        lemma_find_char_from_bounds(s, c, from + 1);
    }
}

pub proof fn lemma_find_from_bounds(hay: Seq<char>, needle: Seq<char>, from: int)
    ensures
        find_from(hay, needle, from) matches Some(i) ==> from <= i && occurs_at(hay, needle, i),
    decreases hay.len() + 1 - from,
{
    if from >= 0 && from + needle.len() <= hay.len() && !occurs_at(hay, needle, from) {
        lemma_find_from_bounds(hay, needle, from + 1);
    }
}

/// The first position at or after `from` where `needle` occurs in `hay`.
pub fn find_seq_from(hay: &Vec<char>, needle: &Vec<char>, from: usize) -> (r: Option<usize>)
    ensures
        r matches Some(i) ==> find_from(hay@, needle@, from as int) == Some(i as int),
        r is None ==> find_from(hay@, needle@, from as int) is None,
{
    let mut i = from;
    while i <= hay.len() && needle.len() <= hay.len() - i
        invariant
            from <= i,
            find_from(hay@, needle@, from as int) == find_from(hay@, needle@, i as int),
        decreases hay@.len() + 1 - i,
    {
        let mut k: usize = 0;
        let mut same = true;
        while k < needle.len()
            invariant
                i + needle@.len() <= hay.len(),
                0 <= k <= needle@.len(),
                same == forall|j: int| 0 <= j < k ==> hay@[i + j] == needle@[j],
            decreases needle@.len() - k,
        {
            assert(i + k < hay.len());
            if hay[i + k] != needle[k] {
                same = false;
            }
            k += 1;
        }
        if same {
            assert(hay@.subrange(i as int, i + needle@.len()) =~= needle@);
            return Some(i);
        }
        assert(!occurs_at(hay@, needle@, i as int)) by {
            if occurs_at(hay@, needle@, i as int) {
                let j = choose|j: int| 0 <= j < needle@.len() && hay@[i + j] != needle@[j];
                assert(hay@.subrange(i as int, i + needle@.len())[j] == hay@[i + j]);
            }
        }
        i += 1;
    }
    None
}

/// The first position at or after `from` that holds `c`.
pub fn find_char_in(s: &Vec<char>, c: char, from: usize) -> (r: Option<usize>)
    ensures
        r matches Some(i) ==> find_char_from(s@, c, from as int) == Some(i as int),
        r is None ==> find_char_from(s@, c, from as int) is None,
{
    let mut i = from;
    while i < s.len()
        invariant
            from <= i,
            find_char_from(s@, c, from as int) == find_char_from(s@, c, i as int),
        decreases s@.len() - i,
    {
        if s[i] == c {
            return Some(i);
        }
        i += 1;
    }
    None
}

/// Unicode `White_Space`, the property that `char::is_whitespace` tests.
pub open spec fn is_ws(c: char) -> bool {
    let u = c as u32;
    (0x9 <= u <= 0xd) || u == 0x20 || u == 0x85 || u == 0xa0 || u == 0x1680
        || (0x2000 <= u <= 0x200a) || u == 0x2028 || u == 0x2029 || u == 0x202f
        || u == 0x205f || u == 0x3000
}

/// Whether `c` is whitespace.
pub fn is_whitespace(c: char) -> (b: bool)
    ensures
        b == is_ws(c),
{
    let u = c as u32;
    (0x9 <= u && u <= 0xd) || u == 0x20 || u == 0x85 || u == 0xa0 || u == 0x1680
        || (0x2000 <= u && u <= 0x200a) || u == 0x2028 || u == 0x2029 || u == 0x202f
        || u == 0x205f || u == 0x3000
}

/// `s` without leading whitespace.
pub open spec fn trim_start(s: Seq<char>) -> Seq<char>
    decreases s.len(),
{
    if s.len() > 0 && is_ws(s[0]) { trim_start(s.drop_first()) } else { s }
}

/// `s` without trailing whitespace.
pub open spec fn trim_end(s: Seq<char>) -> Seq<char>
    decreases s.len(),
{
    if s.len() > 0 && is_ws(s.last()) { trim_end(s.drop_last()) } else { s }
}

/// `s` without leading and trailing whitespace.
pub open spec fn trim(s: Seq<char>) -> Seq<char> {
    trim_end(trim_start(s))
}

proof fn lemma_trim_start_step(s: Seq<char>, a: int, b: int)
    requires
        0 <= a < b <= s.len(),
        is_ws(s[a]),
    ensures
        trim_start(s.subrange(a, b)) == trim_start(s.subrange(a + 1, b)),
{
    assert(s.subrange(a, b).drop_first() =~= s.subrange(a + 1, b));
}

proof fn lemma_trim_end_step(s: Seq<char>, a: int, b: int)
    requires
        0 <= a < b <= s.len(),
        is_ws(s[b - 1]),
    ensures
        trim_end(s.subrange(a, b)) == trim_end(s.subrange(a, b - 1)),
{
    assert(s.subrange(a, b).drop_last() =~= s.subrange(a, b - 1));
}

/// The bounds of `s[from..to]` without leading and trailing whitespace.
pub fn trim_bounds(s: &Vec<char>, from: usize, to: usize) -> (r: (usize, usize))
    requires
        from <= to <= s@.len(),
    ensures
        from <= r.0 <= r.1 <= to,
        s@.subrange(r.0 as int, r.1 as int) == trim(s@.subrange(from as int, to as int)),
{
    let mut a = from;
    while a < to && is_whitespace(s[a])
        invariant
            from <= a <= to <= s@.len(),
            trim_start(s@.subrange(from as int, to as int)) == trim_start(s@.subrange(a as int, to as int)),
        decreases to - a,
    {
        proof { lemma_trim_start_step(s@, a as int, to as int); }
        a += 1;
    }
    let ghost ts = s@.subrange(a as int, to as int);
    assert(trim_start(ts) == ts) by {
        if ts.len() > 0 {
            assert(ts[0] == s@[a as int]);
        }
    }
    let mut b = to;
    while b > a && is_whitespace(s[b - 1])
        invariant
            from <= a <= b <= to <= s@.len(),
            trim(s@.subrange(from as int, to as int)) == trim_end(s@.subrange(a as int, b as int)),
        decreases b - a,
    {
        proof { lemma_trim_end_step(s@, a as int, b as int); }
        b -= 1;
    }
    let ghost te = s@.subrange(a as int, b as int);
    assert(trim_end(te) == te) by {
        if te.len() > 0 {
            assert(te.last() == s@[b - 1]);
        }
    }
    (a, b)
}

/// `piece` without one trailing carriage return.
pub open spec fn strip_cr(piece: Seq<char>) -> Seq<char> {
    if piece.len() > 0 && piece.last() == '\r' { piece.drop_last() } else { piece }
}

/// The lines of `s[from..]`, as `str::lines` gives them: split at `\n`, a
/// `\r` before the `\n` dropped, and no empty line after a final `\n`.
pub open spec fn lines_from(s: Seq<char>, from: int) -> Seq<Seq<char>>
    decreases s.len() - from,
{
    if from < 0 || from >= s.len() {
        Seq::empty()
    } else {
        match find_char_from(s, '\n', from) {
            None => seq![s.subrange(from, s.len() as int)],
            Some(i) => {
                if i < from || i >= s.len() {
                    Seq::empty()
                } else {
                    seq![strip_cr(s.subrange(from, i))] + lines_from(s, i + 1)
                }
            },
        }
    }
}

/// The lines of `s`.
pub open spec fn lines(s: Seq<char>) -> Seq<Seq<char>> {
    lines_from(s, 0)
}

/// The bounds of each line of `s`.
pub fn line_bounds(s: &Vec<char>) -> (r: Vec<(usize, usize)>)
    ensures
        r@.len() == lines(s@).len(),
        forall|k: int| 0 <= k < r@.len() ==> {
            let (a, b) = #[trigger] r@[k];
            a <= b <= s@.len() && s@.subrange(a as int, b as int) == lines(s@)[k]
        },
{
    let mut out: Vec<(usize, usize)> = Vec::new();
    let mut p: usize = 0;
    let ghost mut done: Seq<Seq<char>> = Seq::empty();
    while p < s.len()
        invariant
            p <= s@.len(),
            done + lines_from(s@, p as int) == lines(s@),
            out@.len() == done.len(),
            forall|k: int| 0 <= k < out@.len() ==> {
                let (a, b) = #[trigger] out@[k];
                a <= b <= s@.len() && s@.subrange(a as int, b as int) == done[k]
            },
        decreases s@.len() - p,
    {
        proof { lemma_find_char_from_bounds(s@, '\n', p as int); }
        match find_char_in(s, '\n', p) {
            None => {
                out.push((p, s.len()));
                proof {
                    done = done.push(s@.subrange(p as int, s@.len() as int));
                    assert(lines_from(s@, s@.len() as int) =~= Seq::<Seq<char>>::empty());
                    assert(done + lines_from(s@, s@.len() as int) =~= done);
                }
                p = s.len();
            },
            Some(i) => {
                let end = if i > p && s[i - 1] == '\r' { i - 1 } else { i };
                proof {
                    let piece = s@.subrange(p as int, i as int);
                    assert(s@.subrange(p as int, end as int) =~= strip_cr(piece));
                    let l = lines_from(s@, p as int);
                    assert(l =~= seq![strip_cr(piece)] + lines_from(s@, i + 1));
                    done = done.push(strip_cr(piece));
                    assert(done + lines_from(s@, i + 1) =~= (done.drop_last() + l));
                }
                out.push((p, end));
                p = i + 1;
            },
        }
    }
    proof {
        assert(lines_from(s@, p as int) =~= Seq::<Seq<char>>::empty());
        assert(done =~= lines(s@));
    }
    out
}

/// `s` without leading and trailing `"` characters (`trim_matches('"')`).
pub open spec fn trim_quotes(s: Seq<char>) -> Seq<char> {
    trim_quotes_end(trim_quotes_start(s))
}

pub open spec fn trim_quotes_start(s: Seq<char>) -> Seq<char>
    decreases s.len(),
{
    if s.len() > 0 && s[0] == '"' { trim_quotes_start(s.drop_first()) } else { s }
}

pub open spec fn trim_quotes_end(s: Seq<char>) -> Seq<char>
    decreases s.len(),
{
    if s.len() > 0 && s.last() == '"' { trim_quotes_end(s.drop_last()) } else { s }
}

/// The bounds of `s[from..to]` without leading and trailing `"` characters.
pub fn trim_quotes_bounds(s: &Vec<char>, from: usize, to: usize) -> (r: (usize, usize))
    requires
        from <= to <= s@.len(),
    ensures
        from <= r.0 <= r.1 <= to,
        s@.subrange(r.0 as int, r.1 as int) == trim_quotes(s@.subrange(from as int, to as int)),
{
    let mut a = from;
    while a < to && s[a] == '"'
        invariant
            from <= a <= to <= s@.len(),
            trim_quotes_start(s@.subrange(from as int, to as int)) == trim_quotes_start(s@.subrange(a as int, to as int)),
        decreases to - a,
    {
        assert(s@.subrange(a as int, to as int).drop_first() =~= s@.subrange(a + 1, to as int));
        a += 1;
    }
    let ghost ts = s@.subrange(a as int, to as int);
    assert(trim_quotes_start(ts) == ts) by {
        if ts.len() > 0 {
            assert(ts[0] == s@[a as int]);
        }
    }
    let mut b = to;
    while b > a && s[b - 1] == '"'
        invariant
            from <= a <= b <= to <= s@.len(),
            trim_quotes(s@.subrange(from as int, to as int)) == trim_quotes_end(s@.subrange(a as int, b as int)),
        decreases b - a,
    {
        assert(s@.subrange(a as int, b as int).drop_last() =~= s@.subrange(a as int, b - 1));
        b -= 1;
    }
    let ghost te = s@.subrange(a as int, b as int);
    assert(trim_quotes_end(te) == te) by {
        if te.len() > 0 {
            assert(te.last() == s@[b - 1]);
        }
    }
    (a, b)
}

/// The pieces of `s[from..to]` between occurrences of `c` (`str::split`):
/// one more piece than there are occurrences, empty pieces kept.
pub open spec fn split_range(s: Seq<char>, c: char, from: int, to: int) -> Seq<Seq<char>>
    decreases to + 1 - from,
{
    if from < 0 || from > to || to > s.len() {
        Seq::empty()
    } else {
        match find_char_from(s.subrange(0, to), c, from) {
            None => seq![s.subrange(from, to)],
            Some(i) => {
                if i < from || i >= to {
                    Seq::empty()
                } else {
                    seq![s.subrange(from, i)] + split_range(s, c, i + 1, to)
                }
            },
        }
    }
}

/// The first position at or after `from`, and before `to`, that holds `c`.
pub fn find_char_upto(s: &Vec<char>, c: char, from: usize, to: usize) -> (r: Option<usize>)
    requires
        to <= s@.len(),
    ensures
        r matches Some(i) ==> find_char_from(s@.subrange(0, to as int), c, from as int) == Some(i as int),
        r is None ==> find_char_from(s@.subrange(0, to as int), c, from as int) is None,
{
    let ghost t = s@.subrange(0, to as int);
    let mut i = from;
    while i < to
        invariant
            from <= i,
            to <= s@.len(),
            t == s@.subrange(0, to as int),
            find_char_from(t, c, from as int) == find_char_from(t, c, i as int),
        decreases to - i,
    {
        assert(t[i as int] == s@[i as int]);
        if s[i] == c {
            return Some(i);
        }
        i += 1;
    }
    None
}

/// The bounds of the pieces of `s[from..to]` between occurrences of `c`.
pub fn split_bounds(s: &Vec<char>, c: char, from: usize, to: usize) -> (r: Vec<(usize, usize)>)
    requires
        from <= to <= s@.len(),
    ensures
        r@.len() == split_range(s@, c, from as int, to as int).len(),
        forall|k: int| 0 <= k < r@.len() ==> {
            let (a, b) = #[trigger] r@[k];
            from <= a <= b <= to && s@.subrange(a as int, b as int) == split_range(s@, c, from as int, to as int)[k]
        },
{
    let mut out: Vec<(usize, usize)> = Vec::new();
    let mut p: usize = from;
    let ghost mut done: Seq<Seq<char>> = Seq::empty();
    loop
        invariant
            from <= p <= to <= s@.len(),
            done + split_range(s@, c, p as int, to as int) == split_range(s@, c, from as int, to as int),
            out@.len() == done.len(),
            forall|k: int| 0 <= k < out@.len() ==> {
                let (a, b) = #[trigger] out@[k];
                from <= a <= b <= to && s@.subrange(a as int, b as int) == done[k]
            },
        decreases to + 1 - p,
    {
        proof { lemma_find_char_from_bounds(s@.subrange(0, to as int), c, p as int); }
        match find_char_upto(s, c, p, to) {
            None => {
                out.push((p, to));
                proof {
                    let rest = split_range(s@, c, p as int, to as int);
                    assert(rest =~= seq![s@.subrange(p as int, to as int)]);
                    done = done.push(s@.subrange(p as int, to as int));
                    assert(done =~= split_range(s@, c, from as int, to as int));
                }
                return out;
            },
            Some(i) => {
                proof {
                    let rest = split_range(s@, c, p as int, to as int);
                    assert(rest =~= seq![s@.subrange(p as int, i as int)] + split_range(s@, c, i + 1, to as int));
                    done = done.push(s@.subrange(p as int, i as int));
                    assert(done + split_range(s@, c, i + 1, to as int) =~= (done.drop_last() + rest));
                }
                out.push((p, i));
                p = i + 1;
            },
        }
    }
}

/// The first position at or after `from`, before `to`, that is not
/// whitespace (or `to`).
pub open spec fn skip_ws(s: Seq<char>, from: int, to: int) -> int
    decreases to - from,
{
    if from < to && is_ws(s[from]) { skip_ws(s, from + 1, to) } else { from }
}

/// The first position at or after `from`, before `to`, that is whitespace
/// (or `to`).
pub open spec fn run_end(s: Seq<char>, from: int, to: int) -> int
    decreases to - from,
{
    if from < to && !is_ws(s[from]) { run_end(s, from + 1, to) } else { from }
}

/// The bounds of the first whitespace-separated word of `s[from..to]`
/// (`split_whitespace().next()`).
pub open spec fn word_at(s: Seq<char>, from: int, to: int) -> Option<(int, int)> {
    let a = skip_ws(s, from, to);
    if a >= to { None } else { Some((a, run_end(s, a, to))) }
}

/// The bounds of the first whitespace-separated word of `s[from..to]`.
pub fn word_bounds(s: &Vec<char>, from: usize, to: usize) -> (r: Option<(usize, usize)>)
    requires
        from <= to <= s@.len(),
    ensures
        r matches Some((a, b)) ==> word_at(s@, from as int, to as int) == Some((a as int, b as int)) && from <= a < b <= to,
        r is None ==> word_at(s@, from as int, to as int) is None,
{
    let mut a = from;
    while a < to && is_whitespace(s[a])
        invariant
            from <= a <= to <= s@.len(),
            skip_ws(s@, from as int, to as int) == skip_ws(s@, a as int, to as int),
        decreases to - a,
    {
        a += 1;
    }
    if a >= to {
        return None;
    }
    let mut b = a;
    while b < to && !is_whitespace(s[b])
        invariant
            a <= b <= to <= s@.len(),
            run_end(s@, a as int, to as int) == run_end(s@, b as int, to as int),
        decreases to - b,
    {
        b += 1;
    }
    assert(b > a);
    Some((a, b))
}

/// `s` starts with `prefix`.
pub open spec fn starts_with(s: Seq<char>, prefix: Seq<char>) -> bool {
    prefix.len() <= s.len() && s.subrange(0, prefix.len() as int) == prefix
}

/// Whether `s[from..to]` starts with `prefix`.
pub fn range_starts_with(s: &Vec<char>, from: usize, to: usize, prefix: &Vec<char>) -> (b: bool)
    requires
        from <= to <= s@.len(),
    ensures
        b == starts_with(s@.subrange(from as int, to as int), prefix@),
{
    if prefix.len() > to - from {
        return false;
    }
    let mut k: usize = 0;
    while k < prefix.len()
        invariant
            from <= to <= s@.len(),
            prefix@.len() <= to - from,
            0 <= k <= prefix@.len(),
            forall|j: int| 0 <= j < k ==> s@[from + j] == prefix@[j],
        decreases prefix@.len() - k,
    {
        if s[from + k] != prefix[k] {
            assert(s@.subrange(from as int, to as int).subrange(0, prefix@.len() as int)[k as int] == s@[from + k]);
            return false;
        }
        k += 1;
    }
    assert(s@.subrange(from as int, to as int).subrange(0, prefix@.len() as int) =~= prefix@);
    true
}

/// Whether `s[from..to]` equals `word`.
pub fn range_equals(s: &Vec<char>, from: usize, to: usize, word: &Vec<char>) -> (b: bool)
    requires
        from <= to <= s@.len(),
    ensures
        b == (s@.subrange(from as int, to as int) == word@),
{
    if word.len() != to - from {
        return false;
    }
    let r = range_starts_with(s, from, to, word);
    proof {
        let sub = s@.subrange(from as int, to as int);
        assert(sub.subrange(0, word@.len() as int) =~= sub);
    }
    r
}

} // verus!
