//! JSON-RPC liveness: the client's settings and the reading of the block
//! height out of an `eth_blockNumber` reply.

use vstd::prelude::*;
use crate::text::{chars_of, find, find_from, find_char, occurs_at, find_char_in, find_seq_from, lemma_find_char_from_bounds, lemma_find_from_bounds};

verus! {

broadcast use vstd::string::group_string_axioms;

/// Client for the node's JSON-RPC endpoint.
pub struct RpcClient {
    pub url: String,
    pub timeout_ms: u64,
}

impl RpcClient {
    pub fn new(url: String, timeout_ms: u64) -> (c: RpcClient)
        ensures
            c.url == url,
            c.timeout_ms == timeout_ms,
    {
        RpcClient { url, timeout_ms }
    }
}

/// Why a reply carries no block height.
#[derive(Debug, Clone, Copy, PartialEq, Eq, Structural)]
pub enum RpcError {
    /// The reply has no `"result":"0x` field.
    NoResult,
    /// The result's string is not closed.
    Unterminated,
    /// The result is not a hexadecimal number that fits in 64 bits.
    BadHex,
}

/// The value of a hexadecimal digit, as `char::to_digit(16)` gives it.
pub open spec fn hex_value(c: char) -> Option<int> {
    if '0' <= c && c <= '9' {
        Some(c as int - '0' as int)
    } else if 'a' <= c && c <= 'f' {
        Some(c as int - 'a' as int + 10)
    } else if 'A' <= c && c <= 'F' {
        Some(c as int - 'A' as int + 10)
    } else {
        None
    }
}

/// Every character is a hexadecimal digit.
pub open spec fn all_hex(s: Seq<char>) -> bool {
    forall|i: int| 0 <= i < s.len() ==> #[trigger] hex_value(s[i]) is Some
}

/// The number that hexadecimal digits spell.
pub open spec fn hex_number(s: Seq<char>) -> int
    decreases s.len(),
{
    if s.len() == 0 {
        0
    } else {
        hex_number(s.drop_last()) * 16 + hex_value(s.last())->0
    }
}

/// `u64::from_str_radix(s, 16)`: an optional `+`, then one or more
/// hexadecimal digits whose number fits in 64 bits.
pub open spec fn parse_hex_u64(s: Seq<char>) -> Option<u64> {
    let d = if s.len() > 0 && s[0] == '+' { s.drop_first() } else { s };
    if d.len() == 0 || !all_hex(d) || hex_number(d) > u64::MAX {
        None
    } else {
        Some(hex_number(d) as u64)
    }
}

/// The field that holds the result.
pub open spec fn result_key() -> Seq<char> {
    seq!['"', 'r', 'e', 's', 'u', 'l', 't', '"', ':', '"', '0', 'x']
}

/// The block height in an `eth_blockNumber` reply: the text between the
/// first `"result":"0x` and the next `"`, read as hexadecimal.
pub open spec fn block_height_of(body: Seq<char>) -> Result<u64, RpcError> {
    match find(body, result_key()) {
        None => Err(RpcError::NoResult),
        Some(start) => {
            let rest = body.subrange(start + result_key().len(), body.len() as int);
            match find_char(rest, '"') {
                None => Err(RpcError::Unterminated),
                Some(end) => match parse_hex_u64(rest.subrange(0, end)) {
                    Some(n) => Ok(n),
                    None => Err(RpcError::BadHex),
                },
            }
        },
    }
}

proof fn lemma_hex_number_bound(s: Seq<char>)
    requires
        all_hex(s),
    ensures
        0 <= hex_number(s),
    decreases s.len(),
{
    if s.len() > 0 {
        assert(hex_value(s.last()) is Some) by { assert(s.last() == s[s.len() - 1]); }
        assert forall|i: int| 0 <= i < s.drop_last().len() implies #[trigger] hex_value(s.drop_last()[i]) is Some by {
            assert(s.drop_last()[i] == s[i]);
        }
        lemma_hex_number_bound(s.drop_last());
    }
}

/// The value of a hexadecimal digit.
fn hex_digit(c: char) -> (v: Option<u64>)
    ensures
        v matches Some(x) ==> hex_value(c) == Some(x as int),
        v is None ==> hex_value(c) is None,
{
    if '0' <= c && c <= '9' {
        Some((c as u32 - '0' as u32) as u64)
    } else if 'a' <= c && c <= 'f' {
        Some((c as u32 - 'a' as u32 + 10) as u64)
    } else if 'A' <= c && c <= 'F' {
        Some((c as u32 - 'A' as u32 + 10) as u64)
    } else {
        None
    }
}

/// `u64::from_str_radix(s[from..to], 16)`.
fn parse_hex_range(s: &Vec<char>, from: usize, to: usize) -> (r: Option<u64>)
    requires
        from <= to <= s@.len(),
    ensures
        r == parse_hex_u64(s@.subrange(from as int, to as int)),
{
    let ghost whole = s@.subrange(from as int, to as int);
    let start = if from < to && s[from] == '+' { from + 1 } else { from };
    let ghost d = s@.subrange(start as int, to as int);
    assert(d =~= (if whole.len() > 0 && whole[0] == '+' { whole.drop_first() } else { whole }));
    if start == to {
        return None;
    }
    let mut acc: u64 = 0;
    let mut i = start;
    while i < to
        invariant
            start <= i <= to <= s@.len(),
            from <= start,
            d == s@.subrange(start as int, to as int),
            whole == s@.subrange(from as int, to as int),
            d == (if whole.len() > 0 && whole[0] == '+' { whole.drop_first() } else { whole }),
            all_hex(s@.subrange(start as int, i as int)),
            acc as int == hex_number(s@.subrange(start as int, i as int)),
        decreases to - i,
    {
        let ghost prefix = s@.subrange(start as int, i as int);
        let ghost next = s@.subrange(start as int, i + 1);
        assert(next.drop_last() =~= prefix);
        assert(next.last() == s@[i as int]);
        match hex_digit(s[i]) {
            None => {
                assert(!all_hex(d)) by {
                    assert(d[i - start] == s@[i as int]);
                    assert(hex_value(d[i - start]) is None);
                }
                return None;
            },
            Some(v) => {
                if acc > (u64::MAX - v) / 16 {
                    proof {
                        assert forall|k: int| 0 <= k < next.len() implies #[trigger] hex_value(next[k]) is Some by {
                            if k < prefix.len() { assert(next[k] == prefix[k]); }
                        }
                        assert(d.subrange(0, i - start + 1) =~= next);
                        lemma_hex_numbers_grow(d, (i - start + 1) as int);
                        assert(hex_number(next) == hex_number(prefix) * 16 + v);
                        assert(hex_number(next) > u64::MAX) by (nonlinear_arith)
                            requires hex_number(next) == acc * 16 + v, acc > (u64::MAX - v) / 16, v < 16;
                    }
                    return None;
                }
                assert(acc * 16 + v <= u64::MAX) by (nonlinear_arith)
                    requires acc <= (u64::MAX - v) / 16, v < 16;
                acc = acc * 16 + v;
                proof {
                    assert forall|k: int| 0 <= k < next.len() implies #[trigger] hex_value(next[k]) is Some by {
                        if k < prefix.len() { assert(next[k] == prefix[k]); }
                    }
                }
            },
        }
        i += 1;
    }
    assert(s@.subrange(start as int, i as int) =~= d);
    Some(acc)
}

/// When every digit is hexadecimal, a longer prefix never spells a smaller
/// number.
proof fn lemma_hex_numbers_grow(d: Seq<char>, n: int)
    requires
        0 <= n <= d.len(),
        all_hex(d.subrange(0, n)),
    ensures
        all_hex(d) ==> hex_number(d.subrange(0, n)) <= hex_number(d),
    decreases d.len() - n,
{
    if all_hex(d) && n < d.len() {
        let a = d.subrange(0, n);
        let b = d.subrange(0, n + 1);
        assert(b.drop_last() =~= a);
        assert(b.last() == d[n]);
        assert(hex_value(d[n]) is Some);
        assert forall|k: int| 0 <= k < b.len() implies #[trigger] hex_value(b[k]) is Some by {
            assert(b[k] == d[k]);
        }
        lemma_hex_numbers_grow(d, n + 1);
        lemma_hex_number_bound(a);
        assert(hex_number(a) <= hex_number(b)) by (nonlinear_arith)
            requires hex_number(b) == hex_number(a) * 16 + hex_value(d[n])->0, hex_number(a) >= 0, hex_value(d[n])->0 >= 0;
    }
    if n == d.len() {
        assert(d.subrange(0, n) =~= d);
    }
}

/// Reads the block height from an `eth_blockNumber` JSON reply without a full
/// JSON parser.
pub fn parse_block_hex(body: &str) -> (r: Result<u64, RpcError>)
    ensures
        r == block_height_of(body@),
{
    let b = chars_of(body);
    let key: Vec<char> = vec!['"', 'r', 'e', 's', 'u', 'l', 't', '"', ':', '"', '0', 'x'];
    assert(key@ =~= result_key());
    proof { lemma_find_from_bounds(b@, key@, 0); }
    match find_seq_from(&b, &key, 0) {
        None => Err(RpcError::NoResult),
        Some(start) => {
            let blen = b.len();
            assert(start + key@.len() <= blen);
            let from = start + key.len();
            let ghost rest = b@.subrange(from as int, b@.len() as int);
            proof { lemma_find_char_from_bounds(b@, '"', from as int); lemma_find_char_from_bounds(rest, '"', 0); }
            match find_char_in(&b, '"', from) {
                None => {
                    assert(find_char(rest, '"') is None) by {
                        if find_char(rest, '"') is Some {
                            let e = find_char(rest, '"')->0;
                            assert(rest[e] == b@[from + e]);
                        }
                    }
                    Err(RpcError::Unterminated)
                },
                Some(end) => {
                    assert(find_char(rest, '"') == Some(end - from)) by {
                        assert(rest[end - from] == b@[end as int]);
                        if find_char(rest, '"') is Some {
                            let e = find_char(rest, '"')->0;
                            assert(rest[e] == b@[from + e]);
                        }
                        assert forall|k: int| 0 <= k < end - from implies rest[k] != '"' by {
                            assert(rest[k] == b@[from + k]);
                        }
                    }
                    assert(rest.subrange(0, end - from) =~= b@.subrange(from as int, end as int));
                    match parse_hex_range(&b, from, end) {
                        Some(n) => Ok(n),
                        None => Err(RpcError::BadHex),
                    }
                },
            }
        },
    }
}

/// The lowercase hexadecimal digit of a value below 16.
pub open spec fn hex_digit_of(v: int) -> char {
    if v < 10 { ('0' as int + v) as char } else { ('a' as int + v - 10) as char }
}

/// `n` in lowercase hexadecimal without leading zeros (`format!("{:x}", n)`).
pub open spec fn hex_text(n: nat) -> Seq<char>
    decreases n,
{
    if n < 16 { seq![hex_digit_of(n as int)] } else { hex_text(n / 16).push(hex_digit_of((n % 16) as int)) }
}

proof fn lemma_hex_text(n: nat)
    ensures
        hex_text(n).len() > 0,
        all_hex(hex_text(n)),
        hex_number(hex_text(n)) == n,
        forall|i: int| 0 <= i < hex_text(n).len() ==> #[trigger] hex_text(n)[i] != '"' && hex_text(n)[i] != '+',
    decreases n,
{
    if n < 16 {
        let t = hex_text(n);
        assert(t.drop_last() =~= Seq::<char>::empty());
        assert(hex_number(Seq::<char>::empty()) == 0);
        assert(t.last() == hex_digit_of(n as int));
    } else {
        lemma_hex_text(n / 16);
        let t = hex_text(n);
        let prev = hex_text(n / 16);
        let d = hex_digit_of((n % 16) as int);
        assert(t.drop_last() =~= prev);
        assert(t.last() == d);
        assert forall|i: int| 0 <= i < t.len() implies #[trigger] hex_value(t[i]) is Some by {
            if i < prev.len() { assert(t[i] == prev[i]); }
        }
        assert forall|i: int| 0 <= i < t.len() implies #[trigger] t[i] != '"' && t[i] != '+' by {
            if i < prev.len() { assert(t[i] == prev[i]); }
        }
        assert(hex_value(d) == Some((n % 16) as int));
        assert((n / 16) * 16 + n % 16 == n) by (nonlinear_arith);
    }
}

proof fn lemma_find_in_prefix(body: Seq<char>, pk: Seq<char>, key: Seq<char>, i: int)
    requires
        pk.len() <= body.len(),
        forall|k: int| 0 <= k < pk.len() ==> #[trigger] body[k] == pk[k],
        key.len() <= pk.len(),
        0 <= i <= pk.len() - key.len(),
        occurs_at(pk, key, pk.len() - key.len()),
    ensures
        find_from(body, key, i) == find_from(pk, key, i),
    decreases pk.len() - key.len() - i,
{
    assert(body.subrange(i, i + key.len()) =~= pk.subrange(i, i + key.len())) by {
        assert forall|k: int| 0 <= k < key.len() implies #[trigger] body.subrange(i, i + key.len())[k] == pk.subrange(i, i + key.len())[k] by {
            assert(body[i + k] == pk[i + k]);
        }
    }
    if !occurs_at(pk, key, i) && i < pk.len() - key.len() {
        lemma_find_in_prefix(body, pk, key, i + 1);
    }
}

/// Law: the height that a reply carries in lowercase hexadecimal, as a node
/// writes it (`"result":"0x` then `format!("{:x}", n)` then `"`), reads back
/// as that height, whatever follows and whatever comes before, so long as
/// what comes before holds no start of the result field (`find` then meets
/// the field first: `find(prefix + result_key(), result_key())` is the end of
/// the prefix, as for `{"jsonrpc":"2.0",`).
pub proof fn law_block_height_round_trip(n: u64, prefix: Seq<char>, rest: Seq<char>)
    requires
        find(prefix + result_key(), result_key()) == Some(prefix.len() as int),
    ensures
        block_height_of(prefix + result_key() + hex_text(n as nat) + seq!['"'] + rest) == Ok::<u64, RpcError>(n),
{
    let h = hex_text(n as nat);
    lemma_hex_text(n as nat);
    let k = result_key();
    let pk = prefix + k;
    let body = pk + h + seq!['"'] + rest;
    assert(prefix + k + h + seq!['"'] + rest =~= body);
    let p = prefix.len() as int;
    assert(pk.subrange(p, p + k.len()) =~= k);
    assert(occurs_at(pk, k, p));
    lemma_find_in_prefix(body, pk, k, 0);
    assert(find(body, k) == Some(p));
    let after = body.subrange(p + k.len(), body.len() as int);
    assert(after =~= h + seq!['"'] + rest);
    lemma_find_char_from_bounds(after, '"', 0);
    assert(after[h.len() as int] == '"');
    assert forall|i: int| 0 <= i < h.len() implies #[trigger] after[i] != '"' by {
        assert(after[i] == h[i]);
    }
    assert(find_char(after, '"') == Some(h.len() as int));
    assert(after.subrange(0, h.len() as int) =~= h);
    assert(h[0] != '+');
}

} // verus!
