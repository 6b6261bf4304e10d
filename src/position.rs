use vstd::prelude::*;
use vstd::string::*;
use crate::fence::{fences, lang_of, lemma_fences_ordered};
use crate::virtual_doc::{
    block_for, is_virtual_doc, lemma_selected_sub, selected, target_fences, vend, vstart,
    CodeBlock, VirtualDocument,
};

verus! {

/// Translates line numbers between the outer document and a virtual document.
pub struct PositionMapper {
    pub blocks: Vec<CodeBlock>,
}

/// Outer line `line` is a payload line of `b`.
pub open spec fn in_content(b: CodeBlock, line: int) -> bool {
    b.content_start <= line <= b.content_end
}

/// Virtual line `v` is a payload line of `b`.
pub open spec fn in_virtual(b: CodeBlock, v: int) -> bool {
    b.virtual_start <= v < b.virtual_end
}

/// The virtual line for outer line `line`, through the first block whose payload holds it.
pub open spec fn to_virtual_line(bs: Seq<CodeBlock>, line: int) -> Option<int>
    decreases bs.len(),
{
    if bs.len() == 0 {
        None
    } else if in_content(bs[0], line) {
        Some(bs[0].virtual_start + (line - bs[0].content_start))
    } else {
        to_virtual_line(bs.drop_first(), line)
    }
}

/// The outer line for virtual line `v`, through the first block whose virtual range holds it.
pub open spec fn to_outer_line(bs: Seq<CodeBlock>, v: int) -> Option<int>
    decreases bs.len(),
{
    if bs.len() == 0 {
        None
    } else if in_virtual(bs[0], v) {
        Some(bs[0].content_start + (v - bs[0].virtual_start))
    } else {
        to_outer_line(bs.drop_first(), v)
    }
}

/// A mapped line with its column, where the line fits in a `u32`.
pub open spec fn with_col(l: Option<int>, col: u32) -> Option<(u32, u32)> {
    match l {
        Some(v) => if 0 <= v <= u32::MAX {
            Some((v as u32, col))
        } else {
            None
        },
        None => None,
    }
}

impl PositionMapper {
    pub fn new(blocks: Vec<CodeBlock>) -> (r: Self)
        ensures
            r.blocks@ == blocks@,
    {
        PositionMapper { blocks }
    }

    /// Maps an outer-document position into the virtual document; the column is kept.
    pub fn markdown_to_virtual(&self, markdown_line: u32, col: u32) -> (r: Option<(u32, u32)>)
        ensures
            r == with_col(to_virtual_line(self.blocks@, markdown_line as int), col),
    {
        let mut i: usize = 0;
        assert(self.blocks@.skip(0) =~= self.blocks@);
        while i < self.blocks.len()
            invariant
                0 <= i <= self.blocks@.len(),
                to_virtual_line(self.blocks@, markdown_line as int) == to_virtual_line(
                    self.blocks@.skip(i as int),
                    markdown_line as int,
                ),
            decreases self.blocks@.len() - i,
        {
            let b = &self.blocks[i];
            let ghost rest = self.blocks@.skip(i as int);
            assert(rest[0] == *b);
            assert(rest.drop_first() =~= self.blocks@.skip(i as int + 1));
            let l = markdown_line as usize;
            if b.content_start <= l && l <= b.content_end {
                let off = l - b.content_start;
                if b.virtual_start <= u32::MAX as usize && off <= u32::MAX as usize - b.virtual_start {
                    return Some(((b.virtual_start + off) as u32, col));
                } else {
                    return None;
                }
            }
            i = i + 1;
        }
        None
    }

    /// Maps a virtual-document position back to the outer document; the column is kept.
    pub fn virtual_to_markdown(&self, virtual_line: u32, col: u32) -> (r: Option<(u32, u32)>)
        ensures
            r == with_col(to_outer_line(self.blocks@, virtual_line as int), col),
    {
        let mut i: usize = 0;
        assert(self.blocks@.skip(0) =~= self.blocks@);
        while i < self.blocks.len()
            invariant
                0 <= i <= self.blocks@.len(),
                to_outer_line(self.blocks@, virtual_line as int) == to_outer_line(
                    self.blocks@.skip(i as int),
                    virtual_line as int,
                ),
            decreases self.blocks@.len() - i,
        {
            let b = &self.blocks[i];
            let ghost rest = self.blocks@.skip(i as int);
            assert(rest[0] == *b);
            assert(rest.drop_first() =~= self.blocks@.skip(i as int + 1));
            let v = virtual_line as usize;
            if b.virtual_start <= v && v < b.virtual_end {
                let off = v - b.virtual_start;
                if b.content_start <= u32::MAX as usize && off <= u32::MAX as usize - b.content_start {
                    return Some(((b.content_start + off) as u32, col));
                } else {
                    return None;
                }
            }
            i = i + 1;
        }
        None
    }
}

} // verus!

verus! {

/// A block list as the builder makes it: each block's payload sits between its fences, its
/// virtual range is as long as its payload, blocks are ordered and disjoint in both documents,
/// one separator line stands between consecutive blocks, and every line fits a `u32`.
pub open spec fn blocks_wf(bs: Seq<CodeBlock>) -> bool {
    &&& forall|k: int|
        0 <= k < bs.len() ==> {
            &&& (#[trigger] bs[k]).content_start == bs[k].markdown_start + 1
            &&& bs[k].content_end + 1 == bs[k].markdown_end
            &&& bs[k].virtual_end - bs[k].virtual_start == bs[k].content_end - bs[k].content_start
                + 1
            &&& bs[k].markdown_end <= u32::MAX
            &&& bs[k].virtual_end <= u32::MAX
        }
    &&& forall|k: int, j: int|
        0 <= k < j < bs.len() ==> {
            &&& (#[trigger] bs[k]).markdown_end < (#[trigger] bs[j]).markdown_start
            &&& bs[k].virtual_end < bs[j].virtual_start
        }
    &&& forall|k: int|
        0 <= k < bs.len() - 1 ==> #[trigger] bs[k + 1].virtual_start == bs[k].virtual_end + 1
}

proof fn lemma_to_virtual_at(bs: Seq<CodeBlock>, k: int, line: int)
    requires
        0 <= k < bs.len(),
        in_content(bs[k], line),
        forall|j: int| 0 <= j < bs.len() && j != k ==> !in_content(#[trigger] bs[j], line),
    ensures
        to_virtual_line(bs, line) == Some(bs[k].virtual_start + (line - bs[k].content_start)),
    decreases bs.len(),
{
    if k > 0 {
        assert(!in_content(bs[0], line));
        let rest = bs.drop_first();
        assert forall|j: int| 0 <= j < rest.len() && j != k - 1 implies !in_content(
            #[trigger] rest[j],
            line,
        ) by {
            assert(rest[j] == bs[j + 1]);
        }
        lemma_to_virtual_at(rest, k - 1, line);
    }
}

proof fn lemma_to_outer_at(bs: Seq<CodeBlock>, k: int, v: int)
    requires
        0 <= k < bs.len(),
        in_virtual(bs[k], v),
        forall|j: int| 0 <= j < bs.len() && j != k ==> !in_virtual(#[trigger] bs[j], v),
    ensures
        to_outer_line(bs, v) == Some(bs[k].content_start + (v - bs[k].virtual_start)),
    decreases bs.len(),
{
    if k > 0 {
        assert(!in_virtual(bs[0], v));
        let rest = bs.drop_first();
        assert forall|j: int| 0 <= j < rest.len() && j != k - 1 implies !in_virtual(
            #[trigger] rest[j],
            v,
        ) by {
            assert(rest[j] == bs[j + 1]);
        }
        lemma_to_outer_at(rest, k - 1, v);
    }
}

proof fn lemma_to_outer_none(bs: Seq<CodeBlock>, v: int)
    requires
        forall|j: int| 0 <= j < bs.len() ==> !in_virtual(#[trigger] bs[j], v),
    ensures
        to_outer_line(bs, v) is None,
    decreases bs.len(),
{
    if bs.len() > 0 {
        let rest = bs.drop_first();
        assert forall|j: int| 0 <= j < rest.len() implies !in_virtual(#[trigger] rest[j], v) by {
            assert(rest[j] == bs[j + 1]);
        }
        lemma_to_outer_none(rest, v);
    }
}

/// Mapping an outer payload line into the virtual document and back returns it unchanged,
/// column included.
pub proof fn law_outer_round_trip(bs: Seq<CodeBlock>, k: int, line: u32, col: u32)
    requires
        blocks_wf(bs),
        0 <= k < bs.len(),
        in_content(bs[k], line as int),
    ensures
        with_col(to_virtual_line(bs, line as int), col) matches Some((v, c)) && with_col(
            to_outer_line(bs, v as int),
            c,
        ) == Some((line, col)),
{
    assert forall|j: int| 0 <= j < bs.len() && j != k implies !in_content(
        #[trigger] bs[j],
        line as int,
    ) by {
        if j < k {
            assert(bs[j].markdown_end < bs[k].markdown_start);
        } else {
            assert(bs[k].markdown_end < bs[j].markdown_start);
        }
    }
    lemma_to_virtual_at(bs, k, line as int);
    let v = bs[k].virtual_start + (line - bs[k].content_start);
    assert forall|j: int| 0 <= j < bs.len() && j != k implies !in_virtual(#[trigger] bs[j], v) by {
        if j < k {
            assert(bs[j].virtual_end < bs[k].virtual_start);
        } else {
            assert(bs[k].virtual_end < bs[j].virtual_start);
        }
    }
    lemma_to_outer_at(bs, k, v);
}

/// Mapping a virtual payload line back to the outer document and in again returns it
/// unchanged, column included.
pub proof fn law_virtual_round_trip(bs: Seq<CodeBlock>, k: int, v: u32, col: u32)
    requires
        blocks_wf(bs),
        0 <= k < bs.len(),
        in_virtual(bs[k], v as int),
    ensures
        with_col(to_outer_line(bs, v as int), col) matches Some((l, c)) && with_col(
            to_virtual_line(bs, l as int),
            c,
        ) == Some((v, col)),
{
    assert forall|j: int| 0 <= j < bs.len() && j != k implies !in_virtual(
        #[trigger] bs[j],
        v as int,
    ) by {
        if j < k {
            assert(bs[j].virtual_end < bs[k].virtual_start);
        } else {
            assert(bs[k].virtual_end < bs[j].virtual_start);
        }
    }
    lemma_to_outer_at(bs, k, v as int);
    let l = bs[k].content_start + (v - bs[k].virtual_start);
    assert forall|j: int| 0 <= j < bs.len() && j != k implies !in_content(#[trigger] bs[j], l) by {
        if j < k {
            assert(bs[j].markdown_end < bs[k].markdown_start);
        } else {
            assert(bs[k].markdown_end < bs[j].markdown_start);
        }
    }
    lemma_to_virtual_at(bs, k, l);
}

/// The separator line between two consecutive blocks maps back to no outer line.
pub proof fn law_separator_unmapped(bs: Seq<CodeBlock>, k: int, col: u32)
    requires
        blocks_wf(bs),
        0 <= k < bs.len() - 1,
    ensures
        with_col(to_outer_line(bs, bs[k].virtual_end as int), col) is None,
{
    let v = bs[k].virtual_end as int;
    assert(bs[k + 1].virtual_start == v + 1);
    assert forall|j: int| 0 <= j < bs.len() implies !in_virtual(#[trigger] bs[j], v) by {
        if j < k {
            assert(bs[j].virtual_end < bs[k].virtual_start);
        } else if j > k + 1 {
            assert(bs[k + 1].virtual_end < bs[j].virtual_start);
        }
    }
    lemma_to_outer_none(bs, v);
}

} // verus!

verus! {

/// Fences that open after they close earlier ones, each within `n` lines.
pub open spec fn ordered_spans(fs: Seq<(int, int)>, n: int) -> bool {
    &&& forall|k: int| 0 <= k < fs.len() ==> 0 <= (#[trigger] fs[k]).0 < fs[k].1 < n
    &&& forall|k: int, j: int| 0 <= k < j < fs.len() ==> (#[trigger] fs[k]).1 < (#[trigger] fs[j]).0
}

pub proof fn lemma_selected_ordered(ls: Seq<Seq<char>>, fs: Seq<(int, int)>, target: Seq<char>)
    requires
        ordered_spans(fs, ls.len() as int),
    ensures
        ordered_spans(selected(ls, fs, target), ls.len() as int),
    decreases fs.len(),
{
    if fs.len() > 0 {
        let p = fs.drop_last();
        assert(ordered_spans(p, ls.len() as int)) by {
            assert forall|k: int, j: int| 0 <= k < j < p.len() implies (#[trigger] p[k]).1 < (
            #[trigger] p[j]).0 by {
                assert(p[k] == fs[k] && p[j] == fs[j]);
            }
        }
        lemma_selected_ordered(ls, p, target);
        lemma_selected_sub(ls, p, target);
        let r = selected(ls, p, target);
        if lang_of(ls[fs.last().0]) == target {
            let s = r.push(fs.last());
            assert forall|k: int, j: int| 0 <= k < j < s.len() implies (#[trigger] s[k]).1 < (
            #[trigger] s[j]).0 by {
                if j == r.len() {
                    let i = choose|i: int| 0 <= i < p.len() && p[i] == #[trigger] r[k];
                    assert(fs[i] == r[k]);
                    assert(fs[i].1 < fs[fs.len() - 1].0);
                } else {
                    assert(s[k] == r[k] && s[j] == r[j]);
                }
            }
        }
    }
}

pub proof fn lemma_vstart_bounds(sel: Seq<(int, int)>, n: int, k: int)
    requires
        ordered_spans(sel, n),
        0 <= k < sel.len(),
    ensures
        0 <= vstart(sel, k) <= sel[k].0,
    decreases k,
{
    if k > 0 {
        lemma_vstart_bounds(sel, n, k - 1);
        assert(sel[k - 1].1 < sel[k].0);
    }
}

proof fn lemma_vstart_grows(sel: Seq<(int, int)>, n: int, k: int, j: int)
    requires
        ordered_spans(sel, n),
        0 <= k < j < sel.len(),
    ensures
        vend(sel, k) < vstart(sel, j),
    decreases j - k,
{
    if j > k + 1 {
        lemma_vstart_grows(sel, n, k, j - 1);
    }
}

/// The blocks of a virtual document built from a document of at most `u32::MAX` lines are
/// well formed, so the round-trip and separator laws hold of them.
pub proof fn lemma_built_blocks_wf(d: VirtualDocument, ls: Seq<Seq<char>>, target: Seq<char>)
    requires
        is_virtual_doc(d, ls, target),
        ls.len() <= u32::MAX,
    ensures
        blocks_wf(d.blocks@),
{
    let n = ls.len() as int;
    lemma_fences_ordered(ls);
    let fs = fences(ls);
    assert(ordered_spans(fs, n));
    lemma_selected_ordered(ls, fs, target);
    let sel = target_fences(ls, target);
    let bs = d.blocks@;
    assert forall|k: int| 0 <= k < bs.len() implies {
        &&& (#[trigger] bs[k]).content_start == bs[k].markdown_start + 1
        &&& bs[k].content_end + 1 == bs[k].markdown_end
        &&& bs[k].virtual_end - bs[k].virtual_start == bs[k].content_end - bs[k].content_start + 1
        &&& bs[k].markdown_end <= u32::MAX
        &&& bs[k].virtual_end <= u32::MAX
    } by {
        assert(block_for(bs[k], ls, sel, k, target));
        lemma_vstart_bounds(sel, n, k);
    }
    assert forall|k: int, j: int| 0 <= k < j < bs.len() implies {
        &&& (#[trigger] bs[k]).markdown_end < (#[trigger] bs[j]).markdown_start
        &&& bs[k].virtual_end < bs[j].virtual_start
    } by {
        assert(block_for(bs[k], ls, sel, k, target));
        assert(block_for(bs[j], ls, sel, j, target));
        lemma_vstart_grows(sel, n, k, j);
    }
    assert forall|k: int| 0 <= k < bs.len() - 1 implies #[trigger] bs[k + 1].virtual_start
        == bs[k].virtual_end + 1 by {
        assert(block_for(bs[k], ls, sel, k, target));
        assert(block_for(bs[k + 1], ls, sel, k + 1, target));
    }
}

} // verus!

verus! {

/// A line and a column.
#[derive(Clone, Copy, Debug, PartialEq, Eq, Structural)]
pub struct TextPosition {
    pub line: u32,
    pub character: u32,
}

/// From one position to another.
#[derive(Clone, Copy, Debug, PartialEq, Eq, Structural)]
pub struct TextRange {
    pub start: TextPosition,
    pub end: TextPosition,
}

/// A range in the document at `uri`.
pub struct Location {
    pub uri: String,
    pub range: TextRange,
}

/// A virtual position mapped back to the outer document.
pub open spec fn outer_position(bs: Seq<CodeBlock>, p: TextPosition) -> Option<TextPosition> {
    match with_col(to_outer_line(bs, p.line as int), p.character) {
        Some((l, c)) => Some(TextPosition { line: l, character: c }),
        None => None,
    }
}

impl PositionMapper {
    /// Maps a location in the virtual document to the outer document at `markdown_uri`;
    /// nothing where either end maps nowhere.
    pub fn map_location(&self, virtual_location: &Location, markdown_uri: &str) -> (r: Option<Location>)
        ensures
            match (
                outer_position(self.blocks@, virtual_location.range.start),
                outer_position(self.blocks@, virtual_location.range.end),
            ) {
                (Some(s), Some(e)) => r matches Some(l) && l.uri@ == markdown_uri@ && l.range
                    == TextRange { start: s, end: e },
                _ => r is None,
            },
    {
        let s = virtual_location.range.start;
        let e = virtual_location.range.end;
        let (sl, sc) = match self.virtual_to_markdown(s.line, s.character) {
            Some(p) => p,
            None => return None,
        };
        let (el, ec) = match self.virtual_to_markdown(e.line, e.character) {
            Some(p) => p,
            None => return None,
        };
        Some(
            Location {
                uri: String::from_str(markdown_uri),
                range: TextRange {
                    start: TextPosition { line: sl, character: sc },
                    end: TextPosition { line: el, character: ec },
                },
            },
        )
    }
}

} // verus!
