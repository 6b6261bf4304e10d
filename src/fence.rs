use vstd::prelude::*;
use crate::text::{chars_of, lines_of, split_lines, string_of};

verus! {

/// Whitespace as the fence grammar sees it.
pub open spec fn is_ws(c: char) -> bool {
    c == ' ' || c == '\t' || c == '\r' || c == '\x0b' || c == '\x0c'
}

/// Character classes that the fence grammar measures runs of.
pub open spec fn in_class(c: char, class: u8) -> bool {
    if class == 0 {
        is_ws(c)
    } else if class == 1 {
        c == '`'
    } else {
        !is_ws(c)
    }
}

/// Length of the run of characters of `class` in `l` starting at `p`.
pub open spec fn run(l: Seq<char>, p: int, class: u8) -> int
    decreases l.len() - p,
{
    if 0 <= p < l.len() && in_class(l[p], class) {
        1 + run(l, p + 1, class)
    } else {
        0
    }
}

/// Leading whitespace of a line.
pub open spec fn indent(l: Seq<char>) -> int {
    run(l, 0, 0)
}

/// Number of backticks that follow a line's indentation.
pub open spec fn ticks(l: Seq<char>) -> int {
    run(l, indent(l), 1)
}

/// Where the declared language of an opening fence starts.
pub open spec fn lang_start(l: Seq<char>) -> int {
    indent(l) + ticks(l) + run(l, indent(l) + ticks(l), 0)
}

/// The declared language of an opening fence: the first whitespace-delimited token after the
/// backticks (possibly empty).
pub open spec fn lang_of(l: Seq<char>) -> Seq<char> {
    l.subrange(lang_start(l), lang_start(l) + run(l, lang_start(l), 2))
}

/// A line that opens a fence outside of one.
pub open spec fn opens(l: Seq<char>) -> bool {
    ticks(l) >= 3
}

/// The opening line of the fence that is open just before line `i` is read, if any.
pub open spec fn open_before(lines: Seq<Seq<char>>, i: int) -> Option<int>
    decreases i,
{
    if i <= 0 {
        None
    } else {
        let l = lines[i - 1];
        match open_before(lines, i - 1) {
            None => if opens(l) {
                Some(i - 1)
            } else {
                None
            },
            Some(o) => if ticks(l) >= ticks(lines[o]) {
                None
            } else {
                Some(o)
            },
        }
    }
}

/// Line `i` closes the fence that is open before it.
pub open spec fn closes_at(lines: Seq<Seq<char>>, i: int) -> bool {
    match open_before(lines, i) {
        Some(o) => ticks(lines[i]) >= ticks(lines[o]),
        None => false,
    }
}

/// The (opening line, closing line) pairs of the fences closed among the first `n` lines.
pub open spec fn fences_upto(lines: Seq<Seq<char>>, n: int) -> Seq<(int, int)>
    decreases n,
{
    if n <= 0 {
        seq![]
    } else {
        let f = fences_upto(lines, n - 1);
        if closes_at(lines, n - 1) {
            f.push((open_before(lines, n - 1)->0, n - 1))
        } else {
            f
        }
    }
}

/// The fences of a document given as lines, in order.
pub open spec fn fences(lines: Seq<Seq<char>>) -> Seq<(int, int)> {
    fences_upto(lines, lines.len() as int)
}

/// A fenced region found by the scanner.
pub struct Fence {
    pub lang: Vec<char>,
    pub open_line: usize,
    pub close_line: usize,
}

/// `r` lists exactly the fences of `lines`, each with its declared language.
pub open spec fn fences_match(r: Seq<Fence>, lines: Seq<Seq<char>>) -> bool {
    &&& r.len() == fences(lines).len()
    &&& forall|k: int|
        0 <= k < r.len() ==> {
            &&& #[trigger] r[k].open_line as int == fences(lines)[k].0
            &&& r[k].close_line as int == fences(lines)[k].1
            &&& r[k].lang@ == lang_of(lines[r[k].open_line as int])
        }
}

fn in_class_exec(c: char, class: u8) -> (r: bool)
    ensures
        r == in_class(c, class),
{
    let ws = c == ' ' || c == '\t' || c == '\r' || c == '\x0b' || c == '\x0c';
    if class == 0 {
        ws
    } else if class == 1 {
        c == '`'
    } else {
        !ws
    }
}

/// Where the run of characters of `class` that starts at `p` ends.
fn run_end(l: &Vec<char>, p: usize, class: u8) -> (r: usize)
    requires
        p <= l@.len(),
    ensures
        r - p == run(l@, p as int, class),
        p <= r <= l@.len(),
{
    let mut q: usize = p;
    while q < l.len() && in_class_exec(l[q], class)
        invariant
            p <= q <= l@.len(),
            run(l@, p as int, class) == (q - p) + run(l@, q as int, class),
        decreases l@.len() - q,
    {
        q = q + 1;
    }
    assert(run(l@, q as int, class) == 0);
    q
}

/// The number of backticks after a line's indentation.
pub fn ticks_exec(l: &Vec<char>) -> (r: usize)
    ensures
        r as int == ticks(l@),
{
    let i = run_end(l, 0, 0);
    run_end(l, i, 1) - i
}

/// The declared language of an opening fence line.
pub fn lang_exec(l: &Vec<char>) -> (r: Vec<char>)
    ensures
        r@ == lang_of(l@),
{
    let i = run_end(l, 0, 0);
    let t = run_end(l, i, 1);
    let start = run_end(l, t, 0);
    let end = run_end(l, start, 2);
    let mut out: Vec<char> = Vec::new();
    let mut j: usize = start;
    while j < end
        invariant
            start <= j <= end <= l@.len(),
            start as int == lang_start(l@),
            end - start == run(l@, lang_start(l@), 2),
            out@ == l@.subrange(start as int, j as int),
        decreases end - j,
    {
        out.push(l[j]);
        j = j + 1;
    }
    out
}

/// Scans lines for fences: a line whose indentation is followed by at least three backticks
/// opens one; inside it, the first line with at least as many backticks closes it. A fence
/// still open at the end is dropped.
pub fn scan_fences(lines: &Vec<Vec<char>>) -> (r: Vec<Fence>)
    ensures
        fences_match(r@, lines@.map_values(|l: Vec<char>| l@)),
{
    let ghost ls = lines@.map_values(|l: Vec<char>| l@);
    let mut r: Vec<Fence> = Vec::new();
    let mut inside = false;
    let mut open_line: usize = 0;
    let mut open_ticks: usize = 0;
    let mut lang: Vec<char> = Vec::new();
    let mut i: usize = 0;
    while i < lines.len()
        invariant
            0 <= i <= lines@.len(),
            ls == lines@.map_values(|l: Vec<char>| l@),
            ls.len() == lines@.len(),
            inside == open_before(ls, i as int) is Some,
            inside ==> {
                &&& open_before(ls, i as int) == Some(open_line as int)
                &&& open_line < i
                &&& open_ticks as int == ticks(ls[open_line as int])
                &&& lang@ == lang_of(ls[open_line as int])
            },
            r@.len() == fences_upto(ls, i as int).len(),
            forall|k: int|
                0 <= k < r@.len() ==> {
                    &&& #[trigger] r@[k].open_line as int == fences_upto(ls, i as int)[k].0
                    &&& r@[k].close_line as int == fences_upto(ls, i as int)[k].1
                    &&& 0 <= r@[k].open_line < lines@.len()
                    &&& r@[k].lang@ == lang_of(ls[r@[k].open_line as int])
                },
        decreases lines@.len() - i,
    {
        let l = &lines[i];
        assert(ls[i as int] == l@);
        let t = ticks_exec(l);
        if !inside {
            if t >= 3 {
                inside = true;
                open_line = i;
                open_ticks = t;
                lang = lang_exec(l);
            }
        } else if t >= open_ticks {
            r.push(Fence { lang: lang.clone(), open_line, close_line: i });
            inside = false;
        }
        i = i + 1;
    }
    r
}

} // verus!

verus! {

/// Every fence opened before line `i` and still open began before `i`; fences closed so far
/// lie before it.
pub proof fn lemma_open_before_bounds(lines: Seq<Seq<char>>, i: int)
    ensures
        open_before(lines, i) matches Some(o) ==> 0 <= o < i,
        forall|k: int|
            0 <= k < fences_upto(lines, i).len() ==> {
                &&& 0 <= (#[trigger] fences_upto(lines, i)[k]).0
                &&& fences_upto(lines, i)[k].0 < fences_upto(lines, i)[k].1
                &&& fences_upto(lines, i)[k].1 < i
                &&& (open_before(lines, i) matches Some(o) ==> fences_upto(lines, i)[k].1 < o)
            },
        forall|k: int, j: int|
            0 <= k < j < fences_upto(lines, i).len() ==> fences_upto(lines, i)[k].1
                < fences_upto(lines, i)[j].0,
    decreases i,
{
    if i > 0 {
        lemma_open_before_bounds(lines, i - 1);
        let prev = fences_upto(lines, i - 1);
        let cur = fences_upto(lines, i);
        if closes_at(lines, i - 1) {
            let o = open_before(lines, i - 1)->0;
            assert(cur == prev.push((o, i - 1)));
            assert(open_before(lines, i) is None);
            assert forall|k: int, j: int| 0 <= k < j < cur.len() implies cur[k].1 < cur[j].0 by {
                if j < prev.len() {
                    assert(cur[k] == prev[k] && cur[j] == prev[j]);
                } else {
                    assert(cur[k] == prev[k]);
                }
            }
        } else {
            assert(cur == prev);
        }
    }
}

/// The fences of a document are ordered, disjoint, and each closes after it opens.
pub proof fn lemma_fences_ordered(lines: Seq<Seq<char>>)
    ensures
        forall|k: int|
            0 <= k < fences(lines).len() ==> {
                &&& 0 <= (#[trigger] fences(lines)[k]).0
                &&& fences(lines)[k].0 < fences(lines)[k].1
                &&& fences(lines)[k].1 < lines.len()
            },
        forall|k: int, j: int|
            0 <= k < j < fences(lines).len() ==> fences(lines)[k].1 < fences(lines)[j].0,
{
    lemma_open_before_bounds(lines, lines.len() as int);
}

} // verus!

verus! {

proof fn lemma_fences_upto_prefix(lines: Seq<Seq<char>>, n: int, m: int)
    requires
        0 <= n <= m,
    ensures
        fences_upto(lines, n).len() <= fences_upto(lines, m).len(),
        forall|k: int|
            0 <= k < fences_upto(lines, n).len() ==> #[trigger] fences_upto(lines, m)[k]
                == fences_upto(lines, n)[k],
    decreases m - n,
{
    if n < m {
        lemma_fences_upto_prefix(lines, n, m - 1);
    }
}

proof fn lemma_fence_entries(lines: Seq<Seq<char>>, n: int)
    ensures
        forall|k: int|
            0 <= k < fences_upto(lines, n).len() ==> {
                &&& closes_at(lines, (#[trigger] fences_upto(lines, n)[k]).1)
                &&& open_before(lines, fences_upto(lines, n)[k].1) == Some(
                    fences_upto(lines, n)[k].0,
                )
            },
    decreases n,
{
    if n > 0 {
        lemma_fence_entries(lines, n - 1);
    }
}

proof fn lemma_stays_open(lines: Seq<Seq<char>>, o: int, j: int)
    requires
        0 <= o < j <= lines.len(),
        open_before(lines, o) is None,
        opens(lines[o]),
        forall|i: int| o < i < j ==> ticks(#[trigger] lines[i]) < ticks(lines[o]),
    ensures
        open_before(lines, j) == Some(o),
    decreases j,
{
    if j > o + 1 {
        lemma_stays_open(lines, o, j - 1);
    }
}

/// A fence opened at line `o` is closed by the first later line with at least as many
/// backticks; the lines between, shorter fences included, are its content.
pub proof fn law_fence_closed_by_first_long_enough_line(lines: Seq<Seq<char>>, o: int, c: int)
    requires
        0 <= o < c < lines.len(),
        open_before(lines, o) is None,
        opens(lines[o]),
        ticks(lines[c]) >= ticks(lines[o]),
        forall|i: int| o < i < c ==> ticks(#[trigger] lines[i]) < ticks(lines[o]),
    ensures
        exists|k: int| 0 <= k < fences(lines).len() && #[trigger] fences(lines)[k] == (o, c),
        forall|i: int| o < i <= c ==> open_before(lines, i) == Some(o),
{
    assert forall|i: int| o < i <= c implies open_before(lines, i) == Some(o) by {
        lemma_stays_open(lines, o, i);
    }
    assert(closes_at(lines, c));
    let f = fences_upto(lines, c + 1);
    assert(f == fences_upto(lines, c).push((o, c)));
    lemma_fences_upto_prefix(lines, c + 1, lines.len() as int);
    let k = f.len() - 1;
    assert(fences(lines)[k] == (o, c));
}

/// A fence that no later line closes yields no block.
pub proof fn law_unterminated_fence_no_block(lines: Seq<Seq<char>>, o: int)
    requires
        0 <= o < lines.len(),
        open_before(lines, o) is None,
        opens(lines[o]),
        forall|i: int| o < i < lines.len() ==> ticks(#[trigger] lines[i]) < ticks(lines[o]),
    ensures
        forall|k: int| 0 <= k < fences(lines).len() ==> (#[trigger] fences(lines)[k]).0 != o,
{
    lemma_fence_entries(lines, lines.len() as int);
    lemma_open_before_bounds(lines, lines.len() as int);
    assert forall|k: int| 0 <= k < fences(lines).len() implies (#[trigger] fences(lines)[k]).0 != o by {
        let c = fences(lines)[k].1;
        if fences(lines)[k].0 == o {
            assert(o < c < lines.len());
            lemma_stays_open(lines, o, c);
            assert(ticks(lines[c]) < ticks(lines[o]));
        }
    }
}

} // verus!
