use vstd::prelude::*;
use crate::json::{JsonNumber, JsonValue};
use crate::references::{decimal, decimal_exec, digits_value, is_digit, lemma_digits_value_grows};
use crate::server::{key_index, key_index_exec};
use crate::text::chars_of;
use crate::virtual_doc::vec_eq;

verus! {

broadcast use vstd::std_specs::vec::group_vec_axioms;

/// The bytes of an ASCII text.
pub open spec fn ascii_bytes(s: Seq<char>) -> Seq<u8> {
    s.map_values(|c: char| c as u8)
}

/// The header that precedes a message body of `n` bytes.
pub open spec fn frame_header(n: nat) -> Seq<char> {
    "Content-Length: "@ + decimal(n) + "\r\n\r\n"@
}

/// Frames a message body: `Content-Length: <n>\r\n\r\n` followed by the body's `n` bytes.
pub fn frame_message(body: &Vec<u8>) -> (r: Vec<u8>)
    ensures
        r@ == ascii_bytes(frame_header(body@.len())) + body@,
{
    let mut h = chars_of("Content-Length: ");
    let mut d = decimal_exec(body.len() as u64);
    h.append(&mut d);
    let mut tail = chars_of("\r\n\r\n");
    h.append(&mut tail);
    let mut r: Vec<u8> = Vec::new();
    let mut i: usize = 0;
    while i < h.len()
        invariant
            0 <= i <= h@.len(),
            h@ == frame_header(body@.len()),
            r@ == ascii_bytes(h@.take(i as int)),
        decreases h@.len() - i,
    {
        r.push(h[i] as u8);
        assert(h@.take(i + 1) =~= h@.take(i as int).push(h@[i as int]));
        assert(ascii_bytes(h@.take(i + 1)) =~= ascii_bytes(h@.take(i as int)).push(h@[i as int] as u8));
        i = i + 1;
    }
    assert(h@.take(i as int) =~= h@);
    let mut j: usize = 0;
    let ghost hb = r@;
    while j < body.len()
        invariant
            0 <= j <= body@.len(),
            r@ == hb + body@.take(j as int),
        decreases body@.len() - j,
    {
        r.push(body[j]);
        assert(body@.take(j + 1) =~= body@.take(j as int).push(body@[j as int]));
        j = j + 1;
    }
    assert(body@.take(j as int) =~= body@);
    r
}

/// Whitespace that trimming removes from header keys and values.
pub open spec fn is_space(c: char) -> bool {
    c == ' ' || c == '\t' || c == '\r' || c == '\n' || c == '\x0b' || c == '\x0c'
}

/// Leading whitespace of `s` from `p`.
pub open spec fn space_run(s: Seq<char>, p: int) -> int
    decreases s.len() - p,
{
    if 0 <= p < s.len() && is_space(s[p]) {
        1 + space_run(s, p + 1)
    } else {
        0
    }
}

/// Trailing whitespace of `s` before `e`.
pub open spec fn space_run_back(s: Seq<char>, e: int) -> int
    decreases e,
{
    if 0 < e <= s.len() && is_space(s[e - 1]) {
        1 + space_run_back(s, e - 1)
    } else {
        0
    }
}

/// `s` without whitespace at either end.
pub open spec fn trimmed(s: Seq<char>) -> Seq<char> {
    let a = space_run(s, 0);
    if a >= s.len() {
        Seq::<char>::empty()
    } else {
        s.subrange(a, s.len() - space_run_back(s, s.len() as int))
    }
}

/// Index of the first `:` in `s`, or -1.
pub open spec fn first_colon(s: Seq<char>) -> int {
    if exists|i: int| 0 <= i < s.len() && s[i] == ':' {
        choose|i: int| 0 <= i < s.len() && s[i] == ':' && forall|j: int| 0 <= j < i ==> s[j] != ':'
    } else {
        -1
    }
}

/// The key of a header line, where it has a `:`.
pub open spec fn header_key(l: Seq<char>) -> Option<Seq<char>> {
    if first_colon(l) < 0 {
        None
    } else {
        Some(trimmed(l.subrange(0, first_colon(l))))
    }
}

/// The value of a header line, where it has a `:`.
pub open spec fn header_value(l: Seq<char>) -> Seq<char> {
    trimmed(l.subrange(first_colon(l) + 1, l.len() as int))
}

/// The value of the last `Content-Length` header among `ls`.
pub open spec fn length_header(ls: Seq<String>) -> Option<Seq<char>>
    decreases ls.len(),
{
    if ls.len() == 0 {
        None
    } else if header_key(ls.last()@) == Some("Content-Length"@) {
        Some(header_value(ls.last()@))
    } else {
        length_header(ls.drop_last())
    }
}

/// The digits of a length, after an optional `+`.
pub open spec fn length_digits(v: Seq<char>) -> Seq<char> {
    if v.len() > 0 && v[0] == '+' {
        v.drop_first()
    } else {
        v
    }
}

/// A length spelled in base ten that fits a `usize`.
pub open spec fn valid_length(v: Seq<char>) -> bool {
    let d = length_digits(v);
    &&& d.len() > 0
    &&& forall|i: int| 0 <= i < d.len() ==> is_digit(#[trigger] d[i])
    &&& digits_value(d) <= usize::MAX
}

/// Why a message's headers give no body length.
pub enum FrameError {
    MissingContentLength,
    InvalidContentLength,
}

/// The body length that a message's header lines give.
pub open spec fn content_length_spec(ls: Seq<String>) -> Result<int, FrameError> {
    match length_header(ls) {
        None => Err(FrameError::MissingContentLength),
        Some(v) => if valid_length(v) {
            Ok(digits_value(length_digits(v)))
        } else {
            Err(FrameError::InvalidContentLength)
        },
    }
}

} // verus!

verus! {

fn is_space_exec(c: char) -> (r: bool)
    ensures
        r == is_space(c),
{
    c == ' ' || c == '\t' || c == '\r' || c == '\n' || c == '\x0b' || c == '\x0c'
}

/// `s` without whitespace at either end.
pub fn trim_chars(s: &Vec<char>) -> (r: Vec<char>)
    ensures
        r@ == trimmed(s@),
{
    let n = s.len();
    let mut a: usize = 0;
    while a < n && is_space_exec(s[a])
        invariant
            0 <= a <= n,
            n == s@.len(),
            space_run(s@, 0) == a + space_run(s@, a as int),
        decreases n - a,
    {
        a = a + 1;
    }
    if a >= n {
        return Vec::new();
    }
    let mut e: usize = n;
    assert(space_run_back(s@, n as int) == (n - e) + space_run_back(s@, e as int));
    while e > 0 && is_space_exec(s[e - 1])
        invariant
            0 <= e <= n,
            n == s@.len(),
            a < n,
            !is_space(s@[a as int]),
            a < e,
            space_run_back(s@, n as int) == (n - e) + space_run_back(s@, e as int),
        decreases e,
    {
        e = e - 1;
    }
    let mut r: Vec<char> = Vec::new();
    let mut i: usize = a;
    while i < e
        invariant
            a <= i <= e <= n,
            n == s@.len(),
            r@ == s@.subrange(a as int, i as int),
        decreases e - i,
    {
        r.push(s[i]);
        assert(s@.subrange(a as int, i + 1) =~= s@.subrange(a as int, i as int).push(s@[i as int]));
        i = i + 1;
    }
    r
}

fn first_colon_exec(s: &Vec<char>) -> (r: Option<usize>)
    ensures
        match r {
            Some(i) => i < s@.len() && first_colon(s@) == i,
            None => first_colon(s@) == -1,
        },
{
    let mut i: usize = 0;
    while i < s.len()
        invariant
            0 <= i <= s@.len(),
            forall|j: int| 0 <= j < i ==> s@[j] != ':',
        decreases s@.len() - i,
    {
        if s[i] == ':' {
            let ghost gi = i as int;
            let ghost c = choose|c: int| 0 <= c < s@.len() && s@[c] == ':' && forall|j: int| 0 <= j < c ==> s@[j] != ':';
            assert(c == gi) by {
                if c < gi {
                    assert(s@[c] != ':');
                } else if c > gi {
                    assert(s@[gi] != ':');
                }
            }
            return Some(i);
        }
        i = i + 1;
    }
    None
}

fn copy_range(s: &Vec<char>, a: usize, e: usize) -> (r: Vec<char>)
    requires
        a <= e <= s@.len(),
    ensures
        r@ == s@.subrange(a as int, e as int),
{
    let mut r: Vec<char> = Vec::new();
    let mut i: usize = a;
    while i < e
        invariant
            a <= i <= e <= s@.len(),
            r@ == s@.subrange(a as int, i as int),
        decreases e - i,
    {
        r.push(s[i]);
        assert(s@.subrange(a as int, i + 1) =~= s@.subrange(a as int, i as int).push(s@[i as int]));
        i = i + 1;
    }
    r
}

proof fn lemma_digits_prefix_le(d: Seq<char>, k: int)
    requires
        0 <= k <= d.len(),
        forall|i: int| 0 <= i < d.len() ==> is_digit(#[trigger] d[i]),
    ensures
        digits_value(d.take(k)) <= digits_value(d),
    decreases d.len(),
{
    if k < d.len() {
        let p = d.drop_last();
        assert(p.push(d.last()) =~= d);
        lemma_digits_value_grows(p, d.last());
        assert(p.take(k) =~= d.take(k));
        lemma_digits_prefix_le(p, k);
    } else {
        assert(d.take(k) =~= d);
    }
}

/// A length written in base ten, with an optional leading `+`, that fits a `usize`.
pub fn parse_length(v: &Vec<char>) -> (r: Option<usize>)
    ensures
        match r {
            Some(n) => valid_length(v@) && n == digits_value(length_digits(v@)),
            None => !valid_length(v@),
        },
{
    let start: usize = if v.len() > 0 && v[0] == '+' {
        1
    } else {
        0
    };
    let ghost d = length_digits(v@);
    assert(d =~= v@.subrange(start as int, v@.len() as int));
    if start >= v.len() {
        return None;
    }
    let mut val: usize = 0;
    let mut q: usize = start;
    while q < v.len()
        invariant
            start <= q <= v@.len(),
            d =~= v@.subrange(start as int, v@.len() as int),
            d == length_digits(v@),
            forall|i: int| start <= i < q ==> is_digit(#[trigger] v@[i]),
            val as int == digits_value(v@.subrange(start as int, q as int)),
        decreases v@.len() - q,
    {
        let c = v[q];
        if !('0' <= c && c <= '9') {
            assert(!is_digit(d[q - start]));
            return None;
        }
        let ghost pre = v@.subrange(start as int, q as int);
        assert(v@.subrange(start as int, q + 1) =~= pre.push(c));
        assert(v@.subrange(start as int, q + 1).drop_last() =~= pre);
        let dv = (c as u32 - '0' as u32) as usize;
        if val > (usize::MAX - dv) / 10 {
            proof {
                if forall|i: int| 0 <= i < d.len() ==> is_digit(#[trigger] d[i]) {
                    assert(d.take(q - start + 1) =~= pre.push(c));
                    lemma_digits_prefix_le(d, q - start + 1);
                }
            }
            return None;
        }
        val = val * 10 + dv;
        q = q + 1;
    }
    Some(val)
}

} // verus!

verus! {

/// The body length that a message's header lines give: the value of the last
/// `Content-Length` header, which must be a base-ten number.
pub fn content_length(headers: &Vec<String>) -> (r: Result<usize, FrameError>)
    ensures
        match content_length_spec(headers@) {
            Ok(n) => r matches Ok(m) && m == n,
            Err(FrameError::MissingContentLength) => r matches Err(FrameError::MissingContentLength),
            Err(FrameError::InvalidContentLength) => r matches Err(FrameError::InvalidContentLength),
        },
{
    let mut i: usize = headers.len();
    assert(headers@.take(i as int) =~= headers@);
    while i > 0
        invariant
            0 <= i <= headers@.len(),
            length_header(headers@) == length_header(headers@.take(i as int)),
        decreases i,
    {
        let line = chars_of(headers[i - 1].as_str());
        assert(headers@.take(i as int).last() == headers@[i - 1]);
        assert(headers@.take(i as int).drop_last() =~= headers@.take(i - 1));
        if let Some(c) = first_colon_exec(&line) {
            let key = trim_chars(&copy_range(&line, 0, c));
            if vec_eq(&key, &chars_of("Content-Length")) {
                let value = trim_chars(&copy_range(&line, c + 1, line.len()));
                assert(length_header(headers@) == Some(value@));
                return match parse_length(&value) {
                    Some(n) => Ok(n),
                    None => Err(FrameError::InvalidContentLength),
                };
            }
        }
        i = i - 1;
    }
    assert(headers@.take(0) =~= Seq::<String>::empty());
    Err(FrameError::MissingContentLength)
}

/// `v` read as a signed 64-bit integer, where it is one.
pub open spec fn as_i64(v: JsonValue) -> Option<i64> {
    match v {
        JsonValue::Number(JsonNumber::PosInt(n)) => if n <= i64::MAX {
            Some(n as i64)
        } else {
            None
        },
        JsonValue::Number(JsonNumber::NegInt(n)) => Some(n),
        _ => None,
    }
}

/// `msg` is the reply to request `id`: its `id` is `id` and it carries a `result` or an
/// `error`.
pub open spec fn is_awaited(msg: JsonValue, id: i64) -> bool {
    match msg {
        JsonValue::Object(fs) => {
            &&& key_index(fs@, "id"@) matches Some(i) && as_i64(fs@[i].1) == Some(id)
            &&& (key_index(fs@, "result"@) is Some || key_index(fs@, "error"@) is Some)
        },
        _ => false,
    }
}

/// Whether `msg` is the reply to request `id`.
pub fn is_awaited_reply(msg: &JsonValue, id: i64) -> (r: bool)
    ensures
        r == is_awaited(*msg, id),
{
    match msg {
        JsonValue::Object(fs) => {
            let id_ok = match key_index_exec(fs, "id") {
                Some(i) => match &fs[i].1 {
                    JsonValue::Number(JsonNumber::PosInt(n)) => *n <= i64::MAX as u64 && *n as i64 == id,
                    JsonValue::Number(JsonNumber::NegInt(n)) => *n == id,
                    _ => false,
                },
                None => false,
            };
            id_ok && (key_index_exec(fs, "result").is_some() || key_index_exec(fs, "error").is_some())
        },
        _ => false,
    }
}

/// The position of the reply to request `id` among messages read in order: the first that
/// is awaited; all before it are passed over.
pub open spec fn awaited_index(msgs: Seq<JsonValue>, id: i64) -> Option<int> {
    if exists|k: int| 0 <= k < msgs.len() && is_awaited(#[trigger] msgs[k], id) {
        Some(
            choose|k: int|
                0 <= k < msgs.len() && is_awaited(#[trigger] msgs[k], id) && forall|j: int|
                    0 <= j < k ==> !is_awaited(#[trigger] msgs[j], id),
        )
    } else {
        None
    }
}

/// Picks, among messages read in order, the reply to request `id`.
pub fn select_reply(msgs: &Vec<JsonValue>, id: i64) -> (r: Option<usize>)
    ensures
        match r {
            Some(k) => k < msgs@.len() && awaited_index(msgs@, id) == Some(k as int),
            None => awaited_index(msgs@, id) is None,
        },
{
    let mut k: usize = 0;
    while k < msgs.len()
        invariant
            0 <= k <= msgs@.len(),
            forall|j: int| 0 <= j < k ==> !is_awaited(#[trigger] msgs@[j], id),
        decreases msgs@.len() - k,
    {
        if is_awaited_reply(&msgs[k], id) {
            proof {
                law_other_replies_skipped(msgs@, id, k as int);
            }
            return Some(k);
        }
        k = k + 1;
    }
    None
}

/// Messages that are not the awaited reply (notifications, requests from the child,
/// replies to other ids) are skipped, and the awaited reply that follows them is still the
/// one returned.
pub proof fn law_other_replies_skipped(msgs: Seq<JsonValue>, id: i64, k: int)
    requires
        0 <= k < msgs.len(),
        is_awaited(msgs[k], id),
        forall|j: int| 0 <= j < k ==> !is_awaited(#[trigger] msgs[j], id),
    ensures
        awaited_index(msgs, id) == Some(k),
{
    let c = choose|c: int|
        0 <= c < msgs.len() && is_awaited(#[trigger] msgs[c], id) && forall|j: int|
            0 <= j < c ==> !is_awaited(#[trigger] msgs[j], id);
    if c < k {
        assert(!is_awaited(msgs[c], id));
    } else if c > k {
        assert(!is_awaited(msgs[k], id));
    }
}

} // verus!
