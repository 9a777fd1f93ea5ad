//! A minimal reader of the Prometheus exposition format.
//!
//! A line is `name{labels} value [timestamp]`; blank lines and lines that
//! start with `#` are skipped, and so are lines whose value is not a number.
//! The value is kept as the text of its field, text that `f64` parsing
//! accepts: turning it into a number is done where metric values are
//! measured.

use vstd::prelude::*;
use crate::text::{chars_of, range_starts_with, find_char, find_char_from, find_char_in, find_char_upto, lemma_find_char_from_bounds, line_bounds, lines, split_bounds, split_range, string_of, trim, trim_bounds, trim_quotes, trim_quotes_bounds, word_at, word_bounds};

verus! {

broadcast use vstd::string::group_string_axioms;

/// A single sample.
pub struct Sample {
    pub name: String,
    pub labels: Vec<(String, String)>,
    /// The text of the value field: a decimal number, `inf` or `nan`, as
    /// `f64` parsing accepts it.
    pub value: String,
    pub ts_ms: Option<i64>,
}

/// All samples of one scrape.
pub struct Snapshot {
    pub samples: Vec<Sample>,
    pub scraped_at_ms: i64,
}

/// A sample as the contracts see it.
pub struct SampleView {
    pub name: Seq<char>,
    pub labels: Seq<(Seq<char>, Seq<char>)>,
    pub value: Seq<char>,
    pub ts_ms: Option<i64>,
}

pub open spec fn labels_view(labels: Seq<(String, String)>) -> Seq<(Seq<char>, Seq<char>)> {
    labels.map_values(|p: (String, String)| (p.0@, p.1@))
}

impl View for Sample {
    type V = SampleView;

    open spec fn view(&self) -> SampleView {
        SampleView { name: self.name@, labels: labels_view(self.labels@), value: self.value@, ts_ms: self.ts_ms }
    }
}

/// One label: the trimmed text before the first `=`, and the trimmed text
/// after it without surrounding quotes; none where the piece has no `=`.
pub open spec fn label_of(piece: Seq<char>) -> Option<(Seq<char>, Seq<char>)> {
    match find_char(piece, '=') {
        None => None,
        Some(e) => Some((trim(piece.subrange(0, e)), trim_quotes(trim(piece.subrange(e + 1, piece.len() as int))))),
    }
}

/// The labels of the pieces that have one, in order.
pub open spec fn labels_of(pieces: Seq<Seq<char>>) -> Seq<(Seq<char>, Seq<char>)>
    decreases pieces.len(),
{
    if pieces.len() == 0 {
        Seq::empty()
    } else {
        let prev = labels_of(pieces.drop_last());
        match label_of(pieces.last()) {
            Some(l) => prev.push(l),
            None => prev,
        }
    }
}

/// `split_name_labels` is defined on `s`: where `s` has a `{`, it is not the
/// last character, and the last character is ASCII (the text between the
/// braces is cut one byte before the end).
pub open spec fn name_labels_defined(s: Seq<char>) -> bool {
    find_char(s, '{') matches Some(o) ==> o < s.len() - 1 && (s.last() as u32) < 128
}

/// The name and labels of `name{k="v",...}`: the text before the first `{`,
/// and the labels of the comma-separated pieces between it and the last
/// character.
pub open spec fn name_labels_of(s: Seq<char>) -> (Seq<char>, Seq<(Seq<char>, Seq<char>)>) {
    match find_char(s, '{') {
        None => (s, Seq::empty()),
        Some(o) => (s.subrange(0, o), labels_of(split_range(s, ',', o + 1, s.len() - 1))),
    }
}

/// Splits `name{k="v",...}` into the name and the labels.
pub fn split_name_labels(s: &str) -> (r: (String, Vec<(String, String)>))
    requires
        name_labels_defined(s@),
    ensures
        r.0@ == name_labels_of(s@).0,
        labels_view(r.1@) == name_labels_of(s@).1,
{
    let c = chars_of(s);
    assert(c@.subrange(0, c@.len() as int) =~= c@);
    name_labels_in(&c, 0, c.len())
}

/// The label of the piece `s[a..b]`.
fn label_in(s: &Vec<char>, a: usize, b: usize) -> (r: Option<(String, String)>)
    requires
        a <= b <= s@.len(),
    ensures
        r is Some <==> label_of(s@.subrange(a as int, b as int)) is Some,
        r matches Some(l) ==> label_of(s@.subrange(a as int, b as int)) == Some((l.0@, l.1@)),
{
    let ghost piece = s@.subrange(a as int, b as int);
    proof {
        lemma_find_char_from_bounds(s@.subrange(0, b as int), '=', a as int);
        lemma_find_char_from_bounds(piece, '=', 0);
    }
    match find_char_upto(s, '=', a, b) {
        None => {
            assert(find_char(piece, '=') is None) by {
                if find_char(piece, '=') is Some {
                    let e = find_char(piece, '=')->0;
                    assert(piece[e] == s@.subrange(0, b as int)[a + e]);
                }
            }
            None
        },
        Some(e) => {
            assert(find_char(piece, '=') == Some(e - a)) by {
                assert(piece[e - a] == s@.subrange(0, b as int)[e as int]);
                assert forall|k: int| 0 <= k < e - a implies piece[k] != '=' by {
                    assert(piece[k] == s@.subrange(0, b as int)[a + k]);
                }
                lemma_find_char_from_bounds(piece, '=', 0);
                if find_char(piece, '=') is Some {
                    let f = find_char(piece, '=')->0;
                    assert(piece[f] == s@.subrange(0, b as int)[a + f]);
                }
            }
            let (ka, kb) = trim_bounds(s, a, e);
            let (va0, vb0) = trim_bounds(s, e + 1, b);
            let (va, vb) = trim_quotes_bounds(s, va0, vb0);
            assert(piece.subrange(0, e - a) =~= s@.subrange(a as int, e as int));
            assert(piece.subrange(e - a + 1, piece.len() as int) =~= s@.subrange(e + 1, b as int));
            let key = string_from_chars(s, ka, kb);
            let value = string_from_chars(s, va, vb);
            Some((key, value))
        },
    }
}

/// The string of the characters `s[a..b]`.
fn string_from_chars(s: &Vec<char>, a: usize, b: usize) -> (r: String)
    requires
        a <= b <= s@.len(),
    ensures
        r@ == s@.subrange(a as int, b as int),
{
    let mut r = String::new();
    let mut i = a;
    while i < b
        invariant
            a <= i <= b <= s@.len(),
            r@ == s@.subrange(a as int, i as int),
        decreases b - i,
    {
        crate::text::push_char(&mut r, s[i]);
        assert(s@.subrange(a as int, i + 1) =~= s@.subrange(a as int, i as int).push(s@[i as int]));
        i += 1;
    }
    r
}

/// The name and labels of `s[from..to]`.
fn name_labels_in(s: &Vec<char>, from: usize, to: usize) -> (r: (String, Vec<(String, String)>))
    requires
        from <= to <= s@.len(),
        name_labels_defined(s@.subrange(from as int, to as int)),
    ensures
        r.0@ == name_labels_of(s@.subrange(from as int, to as int)).0,
        labels_view(r.1@) == name_labels_of(s@.subrange(from as int, to as int)).1,
{
    let ghost sub = s@.subrange(from as int, to as int);
    proof {
        lemma_find_char_from_bounds(s@.subrange(0, to as int), '{', from as int);
        lemma_find_char_from_bounds(sub, '{', 0);
    }
    match find_char_upto(s, '{', from, to) {
        None => {
            assert(find_char(sub, '{') is None) by {
                if find_char(sub, '{') is Some {
                    let e = find_char(sub, '{')->0;
                    assert(sub[e] == s@.subrange(0, to as int)[from + e]);
                }
            }
            let labels: Vec<(String, String)> = Vec::new();
            assert(labels_view(labels@) =~= Seq::<(Seq<char>, Seq<char>)>::empty());
            (string_from_chars(s, from, to), labels)
        },
        Some(o) => {
            assert(find_char(sub, '{') == Some(o - from)) by {
                assert(sub[o - from] == s@.subrange(0, to as int)[o as int]);
                assert forall|k: int| 0 <= k < o - from implies sub[k] != '{' by {
                    assert(sub[k] == s@.subrange(0, to as int)[from + k]);
                }
                if find_char(sub, '{') is Some {
                    let f = find_char(sub, '{')->0;
                    assert(sub[f] == s@.subrange(0, to as int)[from + f]);
                }
            }
            let name = string_from_chars(s, from, o);
            assert(sub.subrange(0, o - from) =~= s@.subrange(from as int, o as int));
            let pieces = split_bounds(s, ',', o + 1, to - 1);
            proof { lemma_split_shift(s@, ',', from as int, to as int, (o + 1) as int, (to - 1) as int); }
            let ghost ps = split_range(s@, ',', (o + 1) as int, (to - 1) as int);
            let mut labels: Vec<(String, String)> = Vec::new();
            let mut k: usize = 0;
            while k < pieces.len()
                invariant
                    0 <= k <= pieces@.len(),
                    pieces@.len() == ps.len(),
                    o + 1 <= to - 1,
                    to <= s@.len(),
                    forall|j: int| 0 <= j < pieces@.len() ==> {
                        let (a, b) = #[trigger] pieces@[j];
                        a <= b <= s@.len() && s@.subrange(a as int, b as int) == ps[j]
                    },
                    labels_view(labels@) == labels_of(ps.take(k as int)),
                decreases pieces@.len() - k,
            {
                let (a, b) = pieces[k];
                assert(ps.take(k + 1).drop_last() =~= ps.take(k as int));
                assert(ps.take(k + 1).last() == ps[k as int]);
                match label_in(s, a, b) {
                    Some(l) => {
                        labels.push(l);
                        assert(labels_view(labels@) =~= labels_view(labels@.drop_last()).push((l.0@, l.1@)));
                    },
                    None => {},
                }
                k += 1;
            }
            assert(ps.take(ps.len() as int) =~= ps);
            (name, labels)
        },
    }
}

/// Splitting a window of `s` is splitting the same window of a subrange of
/// `s` that contains it, with positions shifted.
proof fn lemma_split_shift(s: Seq<char>, c: char, from: int, to: int, a: int, b: int)
    requires
        0 <= from <= a,
        a <= b + 1,
        b <= to <= s.len(),
        a <= b,
    ensures
        split_range(s.subrange(from, to), c, a - from, b - from) == split_range(s, c, a, b),
    decreases b + 1 - a,
{
    let sub = s.subrange(from, to);
    let t1 = sub.subrange(0, b - from);
    let t2 = s.subrange(0, b);
    lemma_find_shift(s, c, from, to, a, b);
    match find_char_from(t2, c, a) {
        None => {
            assert(sub.subrange(a - from, b - from) =~= s.subrange(a, b));
        },
        Some(i) => {
            lemma_find_char_from_bounds(t2, c, a);
            assert(sub.subrange(a - from, i - from) =~= s.subrange(a, i));
            if i + 1 <= b {
                lemma_split_shift(s, c, from, to, i + 1, b);
            }
        },
    }
}

proof fn lemma_find_shift(s: Seq<char>, c: char, from: int, to: int, a: int, b: int)
    requires
        0 <= from <= a,
        b <= to <= s.len(),
        a <= b,
    ensures
        find_char_from(s.subrange(from, to).subrange(0, b - from), c, a - from)
            == (match find_char_from(s.subrange(0, b), c, a) { Some(i) => Some(i - from), None => None }),
    decreases b + 1 - a,
{
    let t1 = s.subrange(from, to).subrange(0, b - from);
    let t2 = s.subrange(0, b);
    assert(t1.len() == b - from);
    assert(t2.len() == b);
    if a < b {
        assert(t1[a - from] == t2[a]);
        if t2[a] != c {
            lemma_find_shift(s, c, from, to, a + 1, b);
        }
    }
}

/// `i64::from_str`: an optional sign, then one or more decimal digits whose
/// value fits in 64 bits.
pub open spec fn parse_i64(s: Seq<char>) -> Option<i64> {
    let neg = s.len() > 0 && s[0] == '-';
    let d = if s.len() > 0 && (s[0] == '+' || s[0] == '-') { s.drop_first() } else { s };
    if d.len() == 0 || !all_decimal(d) {
        None
    } else {
        let v = if neg { -decimal_number(d) } else { decimal_number(d) };
        if i64::MIN <= v <= i64::MAX { Some(v as i64) } else { None }
    }
}

pub open spec fn all_decimal(s: Seq<char>) -> bool {
    forall|i: int| 0 <= i < s.len() ==> '0' <= #[trigger] s[i] && s[i] <= '9'
}

pub open spec fn decimal_number(s: Seq<char>) -> int
    decreases s.len(),
{
    if s.len() == 0 { 0 } else { decimal_number(s.drop_last()) * 10 + (s.last() as int - '0' as int) }
}

proof fn lemma_decimal_grows(d: Seq<char>, n: int)
    requires
        0 <= n <= d.len(),
        all_decimal(d),
    ensures
        0 <= decimal_number(d.subrange(0, n)) <= decimal_number(d),
    decreases d.len() - n,
{
    let a = d.subrange(0, n);
    if n == 0 {
        assert(a.len() == 0);
    }
    if n < d.len() {
        let b = d.subrange(0, n + 1);
        assert(b.drop_last() =~= a);
        assert(b.last() == d[n]);
        lemma_decimal_grows(d, n + 1);
        lemma_decimal_nonneg(a);
        assert(decimal_number(a) <= decimal_number(b)) by (nonlinear_arith)
            requires decimal_number(b) == decimal_number(a) * 10 + (d[n] as int - '0' as int),
                decimal_number(a) >= 0, d[n] as int - '0' as int >= 0;
    } else {
        assert(a =~= d);
        lemma_decimal_nonneg(d);
    }
}

proof fn lemma_decimal_nonneg(d: Seq<char>)
    requires
        all_decimal(d),
    ensures
        decimal_number(d) >= 0,
    decreases d.len(),
{
    if d.len() > 0 {
        assert(d.last() == d[d.len() - 1]);
        assert(all_decimal(d.drop_last())) by {
            assert forall|i: int| 0 <= i < d.drop_last().len() implies '0' <= #[trigger] d.drop_last()[i] && d.drop_last()[i] <= '9' by {
                assert(d.drop_last()[i] == d[i]);
            }
        }
        lemma_decimal_nonneg(d.drop_last());
    }
}

/// `i64::from_str` on `s[from..to]`.
pub fn parse_i64_range(s: &Vec<char>, from: usize, to: usize) -> (r: Option<i64>)
    requires
        from <= to <= s@.len(),
    ensures
        r == parse_i64(s@.subrange(from as int, to as int)),
{
    let ghost whole = s@.subrange(from as int, to as int);
    let neg = from < to && s[from] == '-';
    let start = if from < to && (s[from] == '+' || s[from] == '-') { from + 1 } else { from };
    let ghost d = s@.subrange(start as int, to as int);
    assert(d =~= (if whole.len() > 0 && (whole[0] == '+' || whole[0] == '-') { whole.drop_first() } else { whole }));
    if start == to {
        return None;
    }
    // Magnitude bound: 2^63 for negative numbers, 2^63 - 1 otherwise.
    let limit: u64 = if neg { 9_223_372_036_854_775_808u64 } else { 9_223_372_036_854_775_807u64 };
    let mut acc: u64 = 0;
    let mut i = start;
    while i < to
        invariant
            start <= i <= to <= s@.len(),
            from <= start,
            d == s@.subrange(start as int, to as int),
            whole == s@.subrange(from as int, to as int),
            d == (if whole.len() > 0 && (whole[0] == '+' || whole[0] == '-') { whole.drop_first() } else { whole }),
            neg == (whole.len() > 0 && whole[0] == '-'),
            d.len() > 0,
            limit == (if neg { 9_223_372_036_854_775_808u64 } else { 9_223_372_036_854_775_807u64 }),
            all_decimal(s@.subrange(start as int, i as int)),
            acc as int == decimal_number(s@.subrange(start as int, i as int)),
            acc <= limit,
        decreases to - i,
    {
        let ghost prefix = s@.subrange(start as int, i as int);
        let ghost next = s@.subrange(start as int, i + 1);
        assert(next.drop_last() =~= prefix);
        assert(next.last() == s@[i as int]);
        let c = s[i];
        if !('0' <= c && c <= '9') {
            assert(!all_decimal(d)) by {
                assert(d[i - start] == s@[i as int]);
            }
            return None;
        }
        let v = (c as u32 - '0' as u32) as u64;
        assert(all_decimal(next)) by {
            assert forall|k: int| 0 <= k < next.len() implies '0' <= #[trigger] next[k] && next[k] <= '9' by {
                if k < prefix.len() { assert(next[k] == prefix[k]); }
            }
        }
        if acc > (limit - v) / 10 {
            proof {
                assert(decimal_number(next) == acc * 10 + v);
                assert(decimal_number(next) > limit) by (nonlinear_arith)
                    requires decimal_number(next) == acc * 10 + v, acc > (limit - v) / 10, v < 10, v <= limit;
                if all_decimal(d) {
                    assert(d.subrange(0, i - start + 1) =~= next);
                    lemma_decimal_grows(d, i - start + 1);
                }
            }
            return None;
        }
        assert(acc * 10 + v <= limit) by (nonlinear_arith)
            requires acc <= (limit - v) / 10, v < 10, v <= limit;
        acc = acc * 10 + v;
        i += 1;
    }
    assert(s@.subrange(start as int, i as int) =~= d);
    if neg {
        if acc == 9_223_372_036_854_775_808u64 {
            Some(i64::MIN)
        } else {
            Some(-(acc as i64))
        }
    } else {
        Some(acc as i64)
    }
}

/// Where the name-and-labels part of a line ends and the value part starts:
/// after the first `}`, or else at the first space; none without either.
pub open spec fn split_point(line: Seq<char>) -> Option<int> {
    match find_char(line, '}') {
        Some(be) => Some(be + 1),
        None => match find_char(line, ' ') {
            Some(sp) => Some(sp),
            None => None,
        },
    }
}

/// Reading the line does not cut its name part inside a character.
pub open spec fn line_defined(line: Seq<char>) -> bool {
    split_point(line) matches Some(e) ==> name_labels_defined(line.subrange(0, e))
}

/// The sample of a line: its name and labels, the first word after them as
/// the value, and the second word, where it reads as an `i64`, as the
/// timestamp. None without a value, or where the value is not a number that
/// `f64` parsing accepts.
pub open spec fn sample_of_line(line: Seq<char>) -> Option<SampleView> {
    match split_point(line) {
        None => None,
        Some(e) => match word_at(line, e, line.len() as int) {
            None => None,
            Some((va, vb)) => if !float_literal(line.subrange(va, vb)) { None } else {
                let nl = name_labels_of(line.subrange(0, e));
                let ts = match word_at(line, vb, line.len() as int) {
                    None => None,
                    Some((ta, tb)) => parse_i64(line.subrange(ta, tb)),
                };
                Some(SampleView { name: nl.0, labels: nl.1, value: line.subrange(va, vb), ts_ms: ts })
            }
        },
    }
}

/// A line that carries a sample: not blank and not a `#` comment.
pub open spec fn content_line(l: Seq<char>) -> bool {
    trim(l).len() > 0 && trim(l)[0] != '#'
}

/// The samples of the lines, in order.
pub open spec fn samples_of(ls: Seq<Seq<char>>) -> Seq<SampleView>
    decreases ls.len(),
{
    if ls.len() == 0 {
        Seq::empty()
    } else {
        let prev = samples_of(ls.drop_last());
        if content_line(ls.last()) {
            match sample_of_line(trim(ls.last())) {
                Some(x) => prev.push(x),
                None => prev,
            }
        } else {
            prev
        }
    }
}

/// Law: every sample that the reader keeps has a value that `f64` parsing
/// accepts, so turning the values into numbers never fails.
pub proof fn law_kept_values_are_numbers(ls: Seq<Seq<char>>, k: int)
    requires
        0 <= k < samples_of(ls).len(),
    ensures
        float_literal(samples_of(ls)[k].value),
    decreases ls.len(),
{
    let prev = samples_of(ls.drop_last());
    if k < prev.len() {
        law_kept_values_are_numbers(ls.drop_last(), k);
    } else {
        let line = trim(ls.last());
        let e = split_point(line)->0;
        let (va, vb) = word_at(line, e, line.len() as int)->0;
        assert(samples_of(ls)[k] == sample_of_line(line)->0);
        assert(samples_of(ls)[k].value == line.subrange(va, vb));
    }
}

/// Reading the text does not cut a name part inside a character: every
/// content line is defined.
pub open spec fn text_defined(text: Seq<char>) -> bool {
    forall|k: int| 0 <= k < lines(text).len() && #[trigger] content_line(lines(text)[k])
        ==> line_defined(trim(lines(text)[k]))
}

/// A copy of `s[a..b]`.
fn chars_range(s: &Vec<char>, a: usize, b: usize) -> (r: Vec<char>)
    requires
        a <= b <= s@.len(),
    ensures
        r@ == s@.subrange(a as int, b as int),
{
    let mut r: Vec<char> = Vec::new();
    let mut i = a;
    while i < b
        invariant
            a <= i <= b <= s@.len(),
            r@ == s@.subrange(a as int, i as int),
        decreases b - i,
    {
        r.push(s[i]);
        assert(s@.subrange(a as int, i + 1) =~= s@.subrange(a as int, i as int).push(s@[i as int]));
        i += 1;
    }
    r
}

/// `c` is an ASCII decimal digit.
pub open spec fn is_dec(c: char) -> bool {
    '0' <= c && c <= '9'
}

/// `c` marks an exponent.
pub open spec fn is_exp_mark(c: char) -> bool {
    c == 'e' || c == 'E'
}

/// ASCII lowercase of a character; other characters stay.
pub open spec fn ascii_lower(c: char) -> char {
    if 'A' <= c && c <= 'Z' { ((c as u32) + 32) as char } else { c }
}

/// `s` lowercased (ASCII) is the word `w`.
pub open spec fn eq_lower(s: Seq<char>, w: Seq<char>) -> bool {
    s.len() == w.len() && forall|i: int| 0 <= i < s.len() ==> ascii_lower(#[trigger] s[i]) == w[i]
}

/// `s` without one leading `+` or `-`.
pub open spec fn strip_sign(s: Seq<char>) -> Seq<char> {
    if s.len() > 0 && (s[0] == '+' || s[0] == '-') { s.drop_first() } else { s }
}

/// A mantissa: digits with at most one `.`, and at least one digit
/// (`Digit+ | Digit+ '.' Digit* | Digit* '.' Digit+`).
pub open spec fn mantissa_ok(m: Seq<char>) -> bool {
    &&& forall|i: int| 0 <= i < m.len() ==> is_dec(#[trigger] m[i]) || m[i] == '.'
    &&& forall|i: int, j: int| 0 <= i < j < m.len() ==> !(#[trigger] m[i] == '.' && #[trigger] m[j] == '.')
    &&& exists|i: int| 0 <= i < m.len() && is_dec(#[trigger] m[i])
}

/// An exponent after its mark: an optional sign and one or more digits.
pub open spec fn exponent_ok(x: Seq<char>) -> bool {
    strip_sign(x).len() > 0 && all_decimal(strip_sign(x))
}

/// No exponent mark in `t`.
pub open spec fn no_exp_mark(t: Seq<char>) -> bool {
    forall|i: int| 0 <= i < t.len() ==> !is_exp_mark(#[trigger] t[i])
}

/// A number: a mantissa, optionally followed by an exponent mark and an
/// exponent.
pub open spec fn number_ok(t: Seq<char>) -> bool {
    ||| no_exp_mark(t) && mantissa_ok(t)
    ||| exists|p: int| 0 <= p < t.len() && #[trigger] is_exp_mark(t[p]) && no_exp_mark(t.subrange(0, p))
            && mantissa_ok(t.subrange(0, p)) && exponent_ok(t.subrange(p + 1, t.len() as int))
}

/// The text that `str::parse::<f64>` accepts, by the grammar its
/// documentation gives (case-insensitive): an optional sign, then `inf`,
/// `infinity`, `nan`, or a number.
pub open spec fn float_literal(s: Seq<char>) -> bool {
    let t = strip_sign(s);
    ||| eq_lower(t, seq!['i', 'n', 'f'])
    ||| eq_lower(t, seq!['i', 'n', 'f', 'i', 'n', 'i', 't', 'y'])
    ||| eq_lower(t, seq!['n', 'a', 'n'])
    ||| number_ok(t)
}

fn lower_char(c: char) -> (r: char)
    ensures
        r == ascii_lower(c),
{
    if 'A' <= c && c <= 'Z' {
        ((c as u32 + 32) as u8) as char
    } else {
        c
    }
}

fn lower_equals(t: &Vec<char>, w: &Vec<char>) -> (b: bool)
    ensures
        b == eq_lower(t@, w@),
{
    if t.len() != w.len() {
        return false;
    }
    let mut i: usize = 0;
    while i < t.len()
        invariant
            t@.len() == w@.len(),
            0 <= i <= t@.len(),
            forall|k: int| 0 <= k < i ==> ascii_lower(#[trigger] t@[k]) == w@[k],
        decreases t@.len() - i,
    {
        if lower_char(t[i]) != w[i] {
            return false;
        }
        i += 1;
    }
    true
}

fn mantissa_check(m: &Vec<char>) -> (b: bool)
    ensures
        b == mantissa_ok(m@),
{
    let mut dot: Option<usize> = None;
    let mut digit = false;
    let mut i: usize = 0;
    while i < m.len()
        invariant
            0 <= i <= m@.len(),
            forall|k: int| 0 <= k < i ==> is_dec(#[trigger] m@[k]) || m@[k] == '.',
            forall|k: int, j: int| 0 <= k < j < i ==> !(#[trigger] m@[k] == '.' && #[trigger] m@[j] == '.'),
            dot matches Some(d) ==> d < i && m@[d as int] == '.',
            dot is None ==> forall|k: int| 0 <= k < i ==> m@[k] != '.',
            digit <==> exists|k: int| 0 <= k < i && is_dec(#[trigger] m@[k]),
        decreases m@.len() - i,
    {
        let c = m[i];
        if c == '.' {
            match dot {
                Some(d) => {
                    assert(m@[d as int] == '.' && m@[i as int] == '.');
                    return false;
                },
                None => {
                    dot = Some(i);
                },
            }
        } else if '0' <= c && c <= '9' {
            digit = true;
            assert(is_dec(m@[i as int]));
        } else {
            assert(!(is_dec(m@[i as int]) || m@[i as int] == '.'));
            return false;
        }
        i += 1;
    }
    digit
}

fn exponent_check(x: &Vec<char>) -> (b: bool)
    ensures
        b == exponent_ok(x@),
{
    let start: usize = if x.len() > 0 && (x[0] == '+' || x[0] == '-') { 1 } else { 0 };
    let y = chars_range(x, start, x.len());
    assert(y@ =~= strip_sign(x@));
    if y.len() == 0 {
        return false;
    }
    let mut i: usize = 0;
    while i < y.len()
        invariant
            y@ == strip_sign(x@),
            0 <= i <= y@.len(),
            forall|k: int| 0 <= k < i ==> '0' <= #[trigger] y@[k] && y@[k] <= '9',
        decreases y@.len() - i,
    {
        if !('0' <= y[i] && y[i] <= '9') {
            assert(!('0' <= y@[i as int] && y@[i as int] <= '9'));
            assert(!all_decimal(strip_sign(x@)));
            return false;
        }
        i += 1;
    }
    true
}

fn number_check(t: &Vec<char>) -> (b: bool)
    ensures
        b == number_ok(t@),
{
    let mut p: usize = 0;
    while p < t.len() && !(t[p] == 'e' || t[p] == 'E')
        invariant
            0 <= p <= t@.len(),
            forall|k: int| 0 <= k < p ==> !is_exp_mark(#[trigger] t@[k]),
        decreases t@.len() - p,
    {
        p += 1;
    }
    if p == t.len() {
        let r = mantissa_check(t);
        assert(no_exp_mark(t@));
        assert(!(exists|q: int| 0 <= q < t@.len() && #[trigger] is_exp_mark(t@[q]) && no_exp_mark(t@.subrange(0, q))
            && mantissa_ok(t@.subrange(0, q)) && exponent_ok(t@.subrange(q + 1, t@.len() as int))));
        return r;
    }
    let m = chars_range(t, 0, p);
    let x = chars_range(t, p + 1, t.len());
    assert(no_exp_mark(m@)) by {
        assert forall|i: int| 0 <= i < m@.len() implies !is_exp_mark(#[trigger] m@[i]) by {
            assert(m@[i] == t@[i]);
        }
    }
    let r = mantissa_check(&m) && exponent_check(&x);
    proof {
        assert(!no_exp_mark(t@)) by { assert(is_exp_mark(t@[p as int])); }
        if r {
            assert(is_exp_mark(t@[p as int]));
        } else {
            assert forall|q: int| 0 <= q < t@.len() && #[trigger] is_exp_mark(t@[q]) && no_exp_mark(t@.subrange(0, q))
                implies !(mantissa_ok(t@.subrange(0, q)) && exponent_ok(t@.subrange(q + 1, t@.len() as int))) by {
                if q < p {
                } else if q > p {
                    assert(t@.subrange(0, q)[p as int] == t@[p as int]);
                }
            }
        }
    }
    r
}

/// Whether `w` is text that `str::parse::<f64>` accepts.
pub fn is_float_literal(w: &Vec<char>) -> (b: bool)
    ensures
        b == float_literal(w@),
{
    let start: usize = if w.len() > 0 && (w[0] == '+' || w[0] == '-') { 1 } else { 0 };
    let t = chars_range(w, start, w.len());
    assert(t@ =~= strip_sign(w@));
    let inf: Vec<char> = vec!['i', 'n', 'f'];
    let infinity: Vec<char> = vec!['i', 'n', 'f', 'i', 'n', 'i', 't', 'y'];
    let nan: Vec<char> = vec!['n', 'a', 'n'];
    assert(inf@ =~= seq!['i', 'n', 'f']);
    assert(infinity@ =~= seq!['i', 'n', 'f', 'i', 'n', 'i', 't', 'y']);
    assert(nan@ =~= seq!['n', 'a', 'n']);
    lower_equals(&t, &inf) || lower_equals(&t, &infinity) || lower_equals(&t, &nan) || number_check(&t)
}

/// Reads one line (already trimmed).
fn parse_line(line: &Vec<char>) -> (r: Option<Sample>)
    requires
        line_defined(line@),
    ensures
        r is Some <==> sample_of_line(line@) is Some,
        r matches Some(x) ==> sample_of_line(line@) == Some(x@),
{
    proof {
        lemma_find_char_from_bounds(line@, '}', 0);
        lemma_find_char_from_bounds(line@, ' ', 0);
    }
    let e = match find_char_in(line, '}', 0) {
        Some(be) => {
            assert(be < line.len());
            be + 1
        },
        None => match find_char_in(line, ' ', 0) {
            Some(sp) => sp,
            None => { return None; },
        },
    };
    assert(split_point(line@) == Some(e as int));
    let (va, vb) = match word_bounds(line, e, line.len()) {
        None => { return None; },
        Some(w) => w,
    };
    let word = chars_range(line, va, vb);
    if !is_float_literal(&word) {
        return None;
    }
    let (name, labels) = name_labels_in(line, 0, e);
    let ts = match word_bounds(line, vb, line.len()) {
        None => None,
        Some((ta, tb)) => parse_i64_range(line, ta, tb),
    };
    let value = string_from_chars(line, va, vb);
    Some(Sample { name, labels, value, ts_ms: ts })
}

/// Whether a trimmed line can be read without cutting its name part inside
/// a character.
fn line_ok(line: &Vec<char>) -> (b: bool)
    ensures
        b == line_defined(line@),
{
    proof {
        lemma_find_char_from_bounds(line@, '}', 0);
        lemma_find_char_from_bounds(line@, ' ', 0);
    }
    let e = match find_char_in(line, '}', 0) {
        Some(be) => {
            assert(be < line.len());
            be + 1
        },
        None => match find_char_in(line, ' ', 0) {
            Some(sp) => sp,
            None => { return true; },
        },
    };
    assert(split_point(line@) == Some(e as int));
    let ghost nl = line@.subrange(0, e as int);
    proof { lemma_find_char_from_bounds(nl, '{', 0); }
    match find_char_upto(line, '{', 0, e) {
        None => true,
        Some(o) => {
            assert(nl.last() == line@[e - 1]);
            o + 1 < e && (line[e - 1] as u32) < 128
        },
    }
}

/// Whether `parse` can read `text`: every content line can be read without
/// cutting its name part inside a character. Where this is false, reading
/// the text would slice a string off a character boundary.
pub fn readable(text: &str) -> (b: bool)
    ensures
        b == text_defined(text@),
{
    let s = chars_of(text);
    let bounds = line_bounds(&s);
    let ghost ls = lines(s@);
    let mut k: usize = 0;
    while k < bounds.len()
        invariant
            s@ == text@,
            ls == lines(s@),
            bounds@.len() == ls.len(),
            forall|j: int| 0 <= j < bounds@.len() ==> {
                let (a, b) = #[trigger] bounds@[j];
                a <= b <= s@.len() && s@.subrange(a as int, b as int) == ls[j]
            },
            0 <= k <= bounds@.len(),
            forall|j: int| 0 <= j < k && #[trigger] content_line(ls[j]) ==> line_defined(trim(ls[j])),
        decreases bounds@.len() - k,
    {
        let (a, b) = bounds[k];
        let (ta, tb) = trim_bounds(&s, a, b);
        let ghost l = ls[k as int];
        assert(s@.subrange(a as int, b as int) == l);
        if ta < tb && s[ta] != '#' {
            let line = chars_range(&s, ta, tb);
            assert(content_line(l));
            if !line_ok(&line) {
                return false;
            }
        } else {
            assert(!content_line(l)) by {
                if ta < tb { assert(trim(l)[0] == s@[ta as int]); }
            }
        }
        k += 1;
    }
    true
}

/// Reads a scrape. `scraped_at_ms` is recorded as the time of the snapshot.
pub fn parse(text: &str, scraped_at_ms: i64) -> (snap: Snapshot)
    requires
        text_defined(text@),
    ensures
        snap.scraped_at_ms == scraped_at_ms,
        snap.samples@.map_values(|x: Sample| x@) == samples_of(lines(text@)),
{
    let s = chars_of(text);
    let bounds = line_bounds(&s);
    let ghost ls = lines(s@);
    let mut samples: Vec<Sample> = Vec::new();
    let mut k: usize = 0;
    while k < bounds.len()
        invariant
            s@ == text@,
            ls == lines(s@),
            text_defined(text@),
            bounds@.len() == ls.len(),
            forall|j: int| 0 <= j < bounds@.len() ==> {
                let (a, b) = #[trigger] bounds@[j];
                a <= b <= s@.len() && s@.subrange(a as int, b as int) == ls[j]
            },
            0 <= k <= bounds@.len(),
            samples@.map_values(|x: Sample| x@) == samples_of(ls.take(k as int)),
        decreases bounds@.len() - k,
    {
        let (a, b) = bounds[k];
        let (ta, tb) = trim_bounds(&s, a, b);
        let ghost l = ls[k as int];
        assert(s@.subrange(a as int, b as int) == l);
        assert(ls.take(k + 1).drop_last() =~= ls.take(k as int));
        assert(ls.take(k + 1).last() == l);
        if ta < tb && s[ta] != '#' {
            let line = chars_range(&s, ta, tb);
            assert(content_line(l));
            assert(line_defined(trim(l)));
            match parse_line(&line) {
                Some(x) => {
                    samples.push(x);
                    assert(samples@.map_values(|x: Sample| x@) =~= samples@.drop_last().map_values(|x: Sample| x@).push(x@));
                },
                None => {},
            }
        } else {
            assert(!content_line(l)) by {
                if ta < tb { assert(trim(l)[0] == s@[ta as int]); }
            }
        }
        k += 1;
    }
    assert(ls.take(ls.len() as int) =~= ls);
    Snapshot { samples, scraped_at_ms }
}

/// The largest timestamp among the samples, none where no sample has one.
pub open spec fn freshest_of(samples: Seq<Sample>) -> Option<i64>
    decreases samples.len(),
{
    if samples.len() == 0 {
        None
    } else {
        let prev = freshest_of(samples.drop_last());
        match samples.last().ts_ms {
            None => prev,
            Some(t) => match prev {
                None => Some(t),
                Some(p) => Some(if t > p { t } else { p }),
            },
        }
    }
}

/// The position of the first sample named `name`.
pub open spec fn first_named(samples: Seq<Sample>, name: Seq<char>) -> Option<int> {
    if exists|i: int| 0 <= i < samples.len() && #[trigger] samples[i].name@ == name {
        Some(choose|i: int| 0 <= i < samples.len() && #[trigger] samples[i].name@ == name
            && forall|j: int| 0 <= j < i ==> #[trigger] samples[j].name@ != name)
    } else {
        None
    }
}

/// `s` starts with `prefix` (as sequences of characters).
pub open spec fn has_prefix(s: Seq<char>, prefix: Seq<char>) -> bool {
    prefix.len() <= s.len() && s.subrange(0, prefix.len() as int) == prefix
}

/// The positions of the samples whose name starts with `prefix`, in order.
pub open spec fn prefixed_positions(samples: Seq<Sample>, prefix: Seq<char>) -> Seq<int>
    decreases samples.len(),
{
    if samples.len() == 0 {
        Seq::empty()
    } else {
        let prev = prefixed_positions(samples.drop_last(), prefix);
        if has_prefix(samples.last().name@, prefix) { prev.push(samples.len() - 1) } else { prev }
    }
}

/// The family of `prefix` is exactly the samples whose name starts with
/// `prefix`, whatever their labels: each such sample's position is listed,
/// no other, in increasing order.
pub proof fn law_family_is_chosen_by_name(samples: Seq<Sample>, prefix: Seq<char>)
    ensures
        forall|i: int| 0 <= i < samples.len() ==>
            ((exists|m: int| 0 <= m < prefixed_positions(samples, prefix).len()
                && prefixed_positions(samples, prefix)[m] == i)
            <==> (prefix.len() <= samples[i].name@.len()
                && samples[i].name@.subrange(0, prefix.len() as int) == prefix)),
        forall|m: int| 0 <= m < prefixed_positions(samples, prefix).len()
            ==> 0 <= #[trigger] prefixed_positions(samples, prefix)[m] < samples.len(),
        forall|m1: int, m2: int| 0 <= m1 < m2 < prefixed_positions(samples, prefix).len()
            ==> prefixed_positions(samples, prefix)[m1] < prefixed_positions(samples, prefix)[m2],
    decreases samples.len(),
{
    if samples.len() > 0 {
        let init = samples.drop_last();
        law_family_is_chosen_by_name(init, prefix);
        let prev = prefixed_positions(init, prefix);
        let ps = prefixed_positions(samples, prefix);
        let n = samples.len() - 1;
        assert forall|i: int| 0 <= i < samples.len() implies
            ((exists|m: int| 0 <= m < ps.len() && ps[m] == i)
            <==> (prefix.len() <= samples[i].name@.len()
                && samples[i].name@.subrange(0, prefix.len() as int) == prefix)) by {
            if i < n {
                assert(init[i] == samples[i]);
                if exists|m: int| 0 <= m < ps.len() && ps[m] == i {
                    let m = choose|m: int| 0 <= m < ps.len() && ps[m] == i;
                    if m < prev.len() {
                        assert(prev[m] == i);
                    }
                }
                if exists|m: int| 0 <= m < prev.len() && prev[m] == i {
                    let m = choose|m: int| 0 <= m < prev.len() && prev[m] == i;
                    assert(ps[m] == i);
                }
            } else {
                if has_prefix(samples.last().name@, prefix) {
                    assert(ps[prev.len() as int] == i);
                } else {
                    if exists|m: int| 0 <= m < ps.len() && ps[m] == i {
                        let m = choose|m: int| 0 <= m < ps.len() && ps[m] == i;
                        assert(prev[m] < n);
                    }
                }
            }
        }
    }
}

/// The metrics pipeline looks dead at `now_ms`: the freshest embedded
/// timestamp is more than `max_age_ms` old. Never where no sample carries a
/// timestamp.
pub open spec fn older_than(samples: Seq<Sample>, now_ms: i64, max_age_ms: i64) -> bool {
    match freshest_of(samples) {
        None => false,
        Some(ts) => now_ms - ts > max_age_ms,
    }
}

impl Snapshot {
    /// The position of the first sample named `name` (the sample whose value
    /// a lookup by name reads).
    pub fn first_sample(&self, name: &str) -> (r: Option<usize>)
        ensures
            r matches Some(i) ==> first_named(self.samples@, name@) == Some(i as int),
            r is None ==> first_named(self.samples@, name@) is None,
    {
        let u = String::from_str(name);
        let mut i: usize = 0;
        while i < self.samples.len()
            invariant
                u@ == name@,
                0 <= i <= self.samples@.len(),
                forall|j: int| 0 <= j < i ==> #[trigger] self.samples@[j].name@ != name@,
            decreases self.samples@.len() - i,
        {
            if self.samples[i].name == u {
                proof {
                    assert(self.samples@[i as int].name@ == name@);
                    let w = choose|k: int| 0 <= k < self.samples@.len() && #[trigger] self.samples@[k].name@ == name@
                        && forall|j: int| 0 <= j < k ==> #[trigger] self.samples@[j].name@ != name@;
                    if w < i {
                    } else if w > i {
                        assert(self.samples@[i as int].name@ != name@);
                    }
                }
                return Some(i);
            }
            i += 1;
        }
        None
    }

    /// The positions of the samples whose name starts with `prefix`, in
    /// order (the samples that a sum over a metric family adds up).
    pub fn prefixed(&self, prefix: &str) -> (r: Vec<usize>)
        ensures
            r@.map_values(|i: usize| i as int) == prefixed_positions(self.samples@, prefix@),
    {
        let p = chars_of(prefix);
        let mut r: Vec<usize> = Vec::new();
        let mut i: usize = 0;
        while i < self.samples.len()
            invariant
                p@ == prefix@,
                0 <= i <= self.samples@.len(),
                r@.map_values(|k: usize| k as int) == prefixed_positions(self.samples@.take(i as int), prefix@),
            decreases self.samples@.len() - i,
        {
            let name = chars_of(self.samples[i].name.as_str());
            let hit = range_starts_with(&name, 0, name.len(), &p);
            assert(name@.subrange(0, name@.len() as int) =~= name@);
            assert(self.samples@.take(i + 1).drop_last() =~= self.samples@.take(i as int));
            if hit {
                r.push(i);
                assert(r@.map_values(|k: usize| k as int) =~= r@.drop_last().map_values(|k: usize| k as int).push(i as int));
            }
            i += 1;
        }
        assert(self.samples@.take(self.samples@.len() as int) =~= self.samples@);
        r
    }

    /// Whether the freshest embedded timestamp is more than `max_age_ms`
    /// older than `now_ms` (false where no sample has a timestamp).
    pub fn older_than(&self, now_ms: i64, max_age_ms: i64) -> (b: bool)
        ensures
            b == older_than(self.samples@, now_ms, max_age_ms),
    {
        match self.freshest_ts_ms() {
            None => false,
            Some(ts) => (now_ms as i128) - (ts as i128) > max_age_ms as i128,
        }
    }

    /// The most recent embedded timestamp among the samples (for checking
    /// that the node's metrics pipeline is alive).
    pub fn freshest_ts_ms(&self) -> (r: Option<i64>)
        ensures
            r == freshest_of(self.samples@),
    {
        let mut best: Option<i64> = None;
        let mut i: usize = 0;
        while i < self.samples.len()
            invariant
                0 <= i <= self.samples@.len(),
                best == freshest_of(self.samples@.take(i as int)),
            decreases self.samples@.len() - i,
        {
            assert(self.samples@.take(i + 1).drop_last() =~= self.samples@.take(i as int));
            match self.samples[i].ts_ms {
                None => {},
                Some(t) => {
                    best = match best {
                        None => Some(t),
                        Some(p) => Some(if t > p { t } else { p }),
                    };
                },
            }
            i += 1;
        }
        assert(self.samples@.take(self.samples@.len() as int) =~= self.samples@);
        best
    }
}

} // verus!
