use vstd::prelude::*;
use crate::json::{copy_scalar, JsonValue};
use crate::position::{to_outer_line, with_col, PositionMapper};
use crate::text::{chars_of, string_of};
use crate::virtual_doc::CodeBlock;

verus! {

broadcast use vstd::std_specs::vec::group_vec_axioms;

pub open spec fn is_digit(c: char) -> bool {
    '0' <= c <= '9'
}

/// Length of the run of ASCII digits in `s` starting at `p`.
pub open spec fn digit_run(s: Seq<char>, p: int) -> int
    decreases s.len() - p,
{
    if 0 <= p < s.len() && is_digit(s[p]) {
        1 + digit_run(s, p + 1)
    } else {
        0
    }
}

/// The number that a string of ASCII digits spells in base ten.
pub open spec fn digits_value(d: Seq<char>) -> int
    decreases d.len(),
{
    if d.len() == 0 {
        0
    } else {
        digits_value(d.drop_last()) * 10 + (d.last() as int - '0' as int)
    }
}

/// The ASCII digit for `n` (below ten).
pub open spec fn digit_char(n: int) -> char {
    if n == 0 {
        '0'
    } else if n == 1 {
        '1'
    } else if n == 2 {
        '2'
    } else if n == 3 {
        '3'
    } else if n == 4 {
        '4'
    } else if n == 5 {
        '5'
    } else if n == 6 {
        '6'
    } else if n == 7 {
        '7'
    } else if n == 8 {
        '8'
    } else {
        '9'
    }
}

/// `n` written in base ten.
pub open spec fn decimal(n: nat) -> Seq<char>
    decreases n,
{
    if n < 10 {
        seq![digit_char(n as int)]
    } else {
        decimal(n / 10).push(digit_char((n % 10) as int))
    }
}

/// The text that a reference to a virtual document starts with.
pub open spec fn ref_prefix(lang: Seq<char>) -> Seq<char> {
    "virtual."@ + lang + seq![':']
}

/// A reference `<prefix><digits>:<digits>` at `p`: where it ends, its line and its column.
pub open spec fn ref_match(s: Seq<char>, p: int, prefix: Seq<char>) -> Option<(int, int, int)> {
    let a = p + prefix.len();
    if 0 <= p && a <= s.len() && s.subrange(p, a) == prefix {
        let d1 = digit_run(s, a);
        let b = a + d1 + 1;
        if d1 >= 1 && a + d1 < s.len() && s[a + d1] == ':' && digit_run(s, b) >= 1 {
            let e = b + digit_run(s, b);
            Some((e, digits_value(s.subrange(a, a + d1)), digits_value(s.subrange(b, e))))
        } else {
            None
        }
    } else {
        None
    }
}

/// What a reference found at `p` becomes: `<file>:<outer line + 1>:<column>` where both
/// numbers fit a `u32` and the virtual line maps back; otherwise the reference as it was.
pub open spec fn ref_replacement(
    s: Seq<char>,
    p: int,
    m: (int, int, int),
    bs: Seq<CodeBlock>,
    fname: Seq<char>,
) -> Seq<char> {
    if m.1 <= u32::MAX && m.2 <= u32::MAX {
        match with_col(to_outer_line(bs, m.1), m.2 as u32) {
            Some((l, c)) => fname + seq![':'] + decimal((l + 1) as nat) + seq![':'] + decimal(
                c as nat,
            ),
            None => s.subrange(p, m.0),
        }
    } else {
        s.subrange(p, m.0)
    }
}

/// The text from `p` on with each reference, left to right and without overlap, replaced.
pub open spec fn refs_from(
    s: Seq<char>,
    p: int,
    prefix: Seq<char>,
    bs: Seq<CodeBlock>,
    fname: Seq<char>,
) -> Seq<char>
    decreases s.len() - p
    via refs_from_decreases
{
    if p < 0 || p >= s.len() {
        Seq::<char>::empty()
    } else {
        match ref_match(s, p, prefix) {
            Some(m) => ref_replacement(s, p, m, bs, fname) + refs_from(s, m.0, prefix, bs, fname),
            None => seq![s[p]] + refs_from(s, p + 1, prefix, bs, fname),
        }
    }
}

#[via_fn]
proof fn refs_from_decreases(
    s: Seq<char>,
    p: int,
    prefix: Seq<char>,
    bs: Seq<CodeBlock>,
    fname: Seq<char>,
) {
    if !(p < 0 || p >= s.len()) {
        if let Some(m) = ref_match(s, p, prefix) {
            let a = p + prefix.len();
            let b = a + digit_run(s, a) + 1;
            lemma_digit_run_bound(s, b);
            assert(m.0 > p);
        }
    }
}

/// `text` with every reference `virtual.<lang>:<line>:<col>` replaced.
pub open spec fn refs_mapped(
    text: Seq<char>,
    lang: Seq<char>,
    bs: Seq<CodeBlock>,
    fname: Seq<char>,
) -> Seq<char> {
    refs_from(text, 0, ref_prefix(lang), bs, fname)
}

fn digit_char_exec(n: u64) -> (r: char)
    requires
        n < 10,
    ensures
        r == digit_char(n as int),
{
    if n == 0 {
        '0'
    } else if n == 1 {
        '1'
    } else if n == 2 {
        '2'
    } else if n == 3 {
        '3'
    } else if n == 4 {
        '4'
    } else if n == 5 {
        '5'
    } else if n == 6 {
        '6'
    } else if n == 7 {
        '7'
    } else if n == 8 {
        '8'
    } else {
        '9'
    }
}

/// `n` written in base ten.
pub fn decimal_exec(n: u64) -> (r: Vec<char>)
    ensures
        r@ == decimal(n as nat),
    decreases n,
{
    if n < 10 {
        let mut v: Vec<char> = Vec::new();
        v.push(digit_char_exec(n));
        v
    } else {
        let mut v = decimal_exec(n / 10);
        v.push(digit_char_exec(n % 10));
        v
    }
}

fn digit_run_exec(s: &Vec<char>, p: usize) -> (r: usize)
    requires
        p <= s@.len(),
    ensures
        r as int == digit_run(s@, p as int),
        p + r <= s@.len(),
{
    let mut q: usize = p;
    while q < s.len() && '0' <= s[q] && s[q] <= '9'
        invariant
            p <= q <= s@.len(),
            digit_run(s@, p as int) == (q - p) + digit_run(s@, q as int),
        decreases s@.len() - q,
    {
        q = q + 1;
    }
    q - p
}

pub proof fn lemma_digits_value_grows(d: Seq<char>, x: char)
    requires
        forall|i: int| 0 <= i < d.len() ==> is_digit(#[trigger] d[i]),
        is_digit(x),
    ensures
        digits_value(d.push(x)) >= digits_value(d) >= 0,
    decreases d.len(),
{
    assert(d.push(x).drop_last() =~= d);
    if d.len() > 0 {
        lemma_digits_value_grows(d.drop_last(), d.last());
    }
}

proof fn lemma_digit_run_bound(s: Seq<char>, p: int)
    requires
        0 <= p,
    ensures
        0 <= digit_run(s, p),
        p + digit_run(s, p) <= s.len() || digit_run(s, p) == 0,
    decreases s.len() - p,
{
    if 0 <= p < s.len() && is_digit(s[p]) {
        lemma_digit_run_bound(s, p + 1);
    }
}

proof fn lemma_digit_run_digits(s: Seq<char>, p: int)
    requires
        0 <= p,
    ensures
        digit_run(s, p) >= 0,
        forall|i: int| p <= i < p + digit_run(s, p) ==> is_digit(#[trigger] s[i]),
    decreases s.len() - p,
{
    if 0 <= p < s.len() && is_digit(s[p]) {
        lemma_digit_run_digits(s, p + 1);
    }
}

/// The number spelled by the digits `s[a..e]`, where it fits a `u32`.
fn parse_u32(s: &Vec<char>, a: usize, e: usize) -> (r: Option<u32>)
    requires
        a <= e <= s@.len(),
        forall|i: int| a <= i < e ==> is_digit(#[trigger] s@[i]),
    ensures
        digits_value(s@.subrange(a as int, e as int)) >= 0,
        r == (if digits_value(s@.subrange(a as int, e as int)) <= u32::MAX {
            Some(digits_value(s@.subrange(a as int, e as int)) as u32)
        } else {
            None
        }),
{
    let mut val: u64 = 0;
    let mut big = false;
    let mut q: usize = a;
    while q < e
        invariant
            a <= q <= e <= s@.len(),
            forall|i: int| a <= i < e ==> is_digit(#[trigger] s@[i]),
            !big ==> val as int == digits_value(s@.subrange(a as int, q as int)) && val <= u32::MAX,
            big ==> digits_value(s@.subrange(a as int, q as int)) > u32::MAX,
        decreases e - q,
    {
        let ghost d = s@.subrange(a as int, q as int);
        assert(s@.subrange(a as int, q as int + 1) =~= d.push(s@[q as int]));
        assert(s@.subrange(a as int, q as int + 1).drop_last() =~= d);
        proof {
            lemma_digits_value_grows(d, s@[q as int]);
        }
        if !big {
            let dv = (s[q] as u32 - '0' as u32) as u64;
            let nv = val * 10 + dv;
            if nv > u32::MAX as u64 {
                big = true;
            } else {
                val = nv;
            }
        }
        q = q + 1;
    }
    proof {
        let d = s@.subrange(a as int, e as int);
        if d.len() > 0 {
            assert(d.drop_last().push(d.last()) =~= d);
            lemma_digits_value_grows(d.drop_last(), d.last());
        }
    }
    if big {
        None
    } else {
        Some(val as u32)
    }
}

/// Whether the reference prefix stands in `s` at `p`.
pub fn prefix_at(s: &Vec<char>, p: usize, prefix: &Vec<char>) -> (r: bool)
    requires
        p <= s@.len(),
    ensures
        r == (p + prefix@.len() <= s@.len() && s@.subrange(p as int, p + prefix@.len())
            == prefix@),
{
    if prefix.len() > s.len() - p {
        return false;
    }
    let mut j: usize = 0;
    while j < prefix.len()
        invariant
            0 <= j <= prefix@.len(),
            p + prefix@.len() <= s@.len(),
            s@.len() <= usize::MAX,
            s@.subrange(p as int, p + j) == prefix@.take(j as int),
        decreases prefix@.len() - j,
    {
        if s[p + j] != prefix[j] {
            assert(s@.subrange(p as int, p + prefix@.len())[j as int] != prefix@[j as int]);
            return false;
        }
        assert(s@.subrange(p as int, p + j + 1) =~= s@.subrange(p as int, p + j).push(s@[p + j]));
        assert(prefix@.take(j + 1) =~= prefix@.take(j as int).push(prefix@[j as int]));
        j = j + 1;
    }
    assert(prefix@.take(j as int) =~= prefix@);
    true
}

/// Replaces, in `text`, every reference `virtual.<lang>:<line>:<col>` whose virtual line
/// maps back to the outer document with `<file>:<outer line + 1>:<col>`; other text, and
/// references that do not map, stay as they are.
pub fn map_virtual_doc_references(
    text: &str,
    lang: &str,
    mapper: &PositionMapper,
    markdown_filename: &str,
) -> (r: String)
    ensures
        r@ == refs_mapped(text@, lang@, mapper.blocks@, markdown_filename@),
{
    let s = chars_of(text);
    let fname = chars_of(markdown_filename);
    let mut prefix = chars_of("virtual.");
    let lang_chars = chars_of(lang);
    let mut i: usize = 0;
    while i < lang_chars.len()
        invariant
            0 <= i <= lang_chars@.len(),
            prefix@ == "virtual."@ + lang_chars@.take(i as int),
        decreases lang_chars@.len() - i,
    {
        prefix.push(lang_chars[i]);
        i = i + 1;
    }
    prefix.push(':');
    assert(lang_chars@.take(lang_chars@.len() as int) =~= lang_chars@);
    assert(prefix@ =~= ref_prefix(lang@));
    let ghost bs = mapper.blocks@;
    let mut out: Vec<char> = Vec::new();
    let mut p: usize = 0;
    while p < s.len()
        invariant
            0 <= p <= s@.len(),
            s@ == text@,
            prefix@ == ref_prefix(lang@),
            bs == mapper.blocks@,
            fname@ == markdown_filename@,
            out@ + refs_from(s@, p as int, prefix@, bs, fname@) == refs_from(
                s@,
                0,
                prefix@,
                bs,
                fname@,
            ),
        decreases s@.len() - p,
    {
        let ghost m = ref_match(s@, p as int, prefix@);
        let mut next: usize = p + 1;
        let mut replaced = false;
        if prefix_at(&s, p, &prefix) {
            let a = p + prefix.len();
            let d1 = digit_run_exec(&s, a);
            if d1 >= 1 && a + d1 < s.len() && s[a + d1] == ':' {
                let b = a + d1 + 1;
                let d2 = digit_run_exec(&s, b);
                if d2 >= 1 {
                    let e = b + d2;
                    proof {
                        lemma_digit_run_digits(s@, a as int);
                        lemma_digit_run_digits(s@, b as int);
                    }
                    assert(m == Some((e as int, digits_value(s@.subrange(a as int, (a + d1) as int)), digits_value(s@.subrange(b as int, e as int)))));
                    let line = parse_u32(&s, a, a + d1);
                    let col = parse_u32(&s, b, e);
                    let mut rep: Vec<char> = Vec::new();
                    let mut mapped = false;
                    if let (Some(l), Some(c)) = (line, col) {
                        let ghost mm = m->0;
                        assert(mm.1 == l as int && mm.2 == c as int);
                        if let Some((ol, oc)) = mapper.virtual_to_markdown(l, c) {
                            assert(with_col(to_outer_line(bs, mm.1), mm.2 as u32) == Some((ol, oc)));
                            rep = chars_of(markdown_filename);
                            rep.push(':');
                            let mut dl = decimal_exec(ol as u64 + 1);
                            rep.append(&mut dl);
                            rep.push(':');
                            let mut dc = decimal_exec(oc as u64);
                            rep.append(&mut dc);
                            mapped = true;
                            assert(rep@ =~= fname@ + seq![':'] + decimal((ol + 1) as nat) + seq![':'] + decimal(oc as nat));
                        }
                    }
                    if !mapped {
                        let mut j: usize = p;
                        while j < e
                            invariant
                                p <= j <= e <= s@.len(),
                                rep@ == s@.subrange(p as int, j as int),
                            decreases e - j,
                        {
                            rep.push(s[j]);
                            assert(s@.subrange(p as int, j + 1) =~= s@.subrange(p as int, j as int).push(s@[j as int]));
                            j = j + 1;
                        }
                    }
                    assert(rep@ =~= ref_replacement(s@, p as int, m->0, bs, fname@));
                    out.append(&mut rep);
                    next = e;
                    replaced = true;
                }
            }
        }
        if !replaced {
            assert(m is None);
            out.push(s[p]);
        }
        assert(out@ + refs_from(s@, next as int, prefix@, bs, fname@) =~= refs_from(s@, 0, prefix@, bs, fname@));
        p = next;
    }
    string_of(&out)
}

} // verus!

verus! {

/// `new` is `old` with every string value, at any depth, passed through `refs_mapped`;
/// object keys and all else unchanged.
pub open spec fn refs_rewritten(
    new: JsonValue,
    old: JsonValue,
    lang: Seq<char>,
    bs: Seq<CodeBlock>,
    fname: Seq<char>,
) -> bool
    decreases old,
{
    match old {
        JsonValue::Str(s) => new matches JsonValue::Str(t) && t@ == refs_mapped(s@, lang, bs, fname),
        JsonValue::Object(ofs) => match new {
            JsonValue::Object(nfs) => {
                &&& nfs@.len() == ofs@.len()
                &&& forall|i: int|
                    0 <= i < ofs@.len() ==> {
                        &&& (#[trigger] nfs@[i]).0 == ofs@[i].0
                        &&& refs_rewritten(nfs@[i].1, ofs@[i].1, lang, bs, fname)
                    }
            },
            _ => false,
        },
        JsonValue::Array(os) => match new {
            JsonValue::Array(ns) => {
                &&& ns@.len() == os@.len()
                &&& forall|i: int|
                    0 <= i < os@.len() ==> refs_rewritten(#[trigger] ns@[i], os@[i], lang, bs, fname)
            },
            _ => false,
        },
        _ => new == old,
    }
}

/// The value with every string passed through `map_virtual_doc_references`.
pub fn refs_rewritten_value(
    v: &JsonValue,
    lang: &str,
    mapper: &PositionMapper,
    markdown_filename: &str,
) -> (r: JsonValue)
    ensures
        refs_rewritten(r, *v, lang@, mapper.blocks@, markdown_filename@),
    decreases v,
{
    match v {
        JsonValue::Str(s) => JsonValue::Str(
            map_virtual_doc_references(s.as_str(), lang, mapper, markdown_filename),
        ),
        JsonValue::Array(items) => {
            let mut out: Vec<JsonValue> = Vec::new();
            let mut i: usize = 0;
            while i < items.len()
                invariant
                    *v == JsonValue::Array(*items),
                    0 <= i <= items@.len(),
                    out@.len() == i,
                    forall|j: int|
                        0 <= j < i ==> refs_rewritten(
                            #[trigger] out@[j],
                            items@[j],
                            lang@,
                            mapper.blocks@,
                            markdown_filename@,
                        ),
                decreases items@.len() - i,
            {
                proof {
                    assert(decreases_to!(*v => v->Array_0));
                    assert(decreases_to!(*items => items@));
                    assert(decreases_to!(items@ => items@[i as int]));
                }
                let c = refs_rewritten_value(&items[i], lang, mapper, markdown_filename);
                out.push(c);
                i = i + 1;
            }
            JsonValue::Array(out)
        },
        JsonValue::Object(fields) => {
            let mut out: Vec<(String, JsonValue)> = Vec::new();
            let mut i: usize = 0;
            while i < fields.len()
                invariant
                    *v == JsonValue::Object(*fields),
                    0 <= i <= fields@.len(),
                    out@.len() == i,
                    forall|j: int|
                        0 <= j < i ==> {
                            &&& (#[trigger] out@[j]).0 == fields@[j].0
                            &&& refs_rewritten(
                                out@[j].1,
                                fields@[j].1,
                                lang@,
                                mapper.blocks@,
                                markdown_filename@,
                            )
                        },
                decreases fields@.len() - i,
            {
                proof {
                    assert(decreases_to!(*v => v->Object_0));
                    assert(decreases_to!(*fields => fields@));
                    assert(decreases_to!(fields@ => fields@[i as int]));
                    assert(decreases_to!(fields@[i as int] => fields@[i as int].1));
                }
                let k = fields[i].0.clone();
                let c = refs_rewritten_value(&fields[i].1, lang, mapper, markdown_filename);
                out.push((k, c));
                i = i + 1;
            }
            JsonValue::Object(out)
        },
        _ => copy_scalar(v),
    }
}

/// Rewrites, in place, every reference to the virtual document in the strings of `value`.
pub fn map_virtual_refs_in_value(
    value: &mut JsonValue,
    lang: &str,
    mapper: &PositionMapper,
    markdown_filename: &str,
)
    ensures
        refs_rewritten(*final(value), *old(value), lang@, mapper.blocks@, markdown_filename@),
{
    let r = refs_rewritten_value(value, lang, mapper, markdown_filename);
    *value = r;
}

} // verus!
