use vstd::prelude::*;
use crate::fence::{fences, fences_match, lang_of, lemma_fences_ordered, scan_fences, Fence};
use crate::position::{
    blocks_wf, lemma_built_blocks_wf, lemma_selected_ordered, lemma_vstart_bounds, ordered_spans,
};
use crate::text::{chars_of, lines_of, split_lines, string_of};

verus! {

/// One fence of the target language, placed in both the outer document and the virtual one.
pub struct CodeBlock {
    pub lang: String,
    /// Line of the opening fence.
    pub markdown_start: usize,
    /// Line of the closing fence.
    pub markdown_end: usize,
    /// First line of the payload.
    pub content_start: usize,
    /// Last line of the payload.
    pub content_end: usize,
    /// First virtual line of the payload.
    pub virtual_start: usize,
    /// One past the last virtual line of the payload.
    pub virtual_end: usize,
    /// The payload, each line followed by a line feed.
    pub content: String,
}

/// The single-language buffer built from one language's fences, with its block map.
pub struct VirtualDocument {
    pub content: String,
    pub blocks: Vec<CodeBlock>,
}

/// Lines joined, each followed by a line feed.
pub open spec fn join_lines(ls: Seq<Seq<char>>) -> Seq<char>
    decreases ls.len(),
{
    if ls.len() == 0 {
        Seq::<char>::empty()
    } else {
        join_lines(ls.drop_last()) + ls.last() + seq!['\n']
    }
}

/// The payload of the fence opened at line `o` and closed at line `c`.
pub open spec fn payload(ls: Seq<Seq<char>>, o: int, c: int) -> Seq<char> {
    join_lines(ls.subrange(o + 1, c))
}

/// The fences among `fs` whose declared language is `target`, in order.
pub open spec fn selected(ls: Seq<Seq<char>>, fs: Seq<(int, int)>, target: Seq<char>) -> Seq<
    (int, int),
>
    decreases fs.len(),
{
    if fs.len() == 0 {
        seq![]
    } else {
        let r = selected(ls, fs.drop_last(), target);
        if lang_of(ls[fs.last().0]) == target {
            r.push(fs.last())
        } else {
            r
        }
    }
}

/// The fences of `target` in a document given as lines.
pub open spec fn target_fences(ls: Seq<Seq<char>>, target: Seq<char>) -> Seq<(int, int)> {
    selected(ls, fences(ls), target)
}

/// First virtual line of the `k`-th selected fence: one separator line sits between blocks.
pub open spec fn vstart(sel: Seq<(int, int)>, k: int) -> int
    decreases k,
{
    if k <= 0 {
        0
    } else {
        vstart(sel, k - 1) + (sel[k - 1].1 - sel[k - 1].0 - 1) + 1
    }
}

/// One past the last virtual line of the `k`-th selected fence.
pub open spec fn vend(sel: Seq<(int, int)>, k: int) -> int {
    vstart(sel, k) + (sel[k].1 - sel[k].0 - 1)
}

/// The text of the virtual document for the selected fences.
pub open spec fn vtext(ls: Seq<Seq<char>>, sel: Seq<(int, int)>) -> Seq<char>
    decreases sel.len(),
{
    if sel.len() == 0 {
        Seq::<char>::empty()
    } else {
        let sep = if sel.len() > 1 {
            seq!['\n']
        } else {
            Seq::<char>::empty()
        };
        vtext(ls, sel.drop_last()) + sep + payload(ls, sel.last().0, sel.last().1)
    }
}

/// `b` is the block for the `k`-th selected fence.
pub open spec fn block_for(
    b: CodeBlock,
    ls: Seq<Seq<char>>,
    sel: Seq<(int, int)>,
    k: int,
    target: Seq<char>,
) -> bool {
    let (o, c) = sel[k];
    &&& b.lang@ == target
    &&& b.markdown_start == o
    &&& b.markdown_end == c
    &&& b.content_start == o + 1
    &&& b.content_end == c - 1
    &&& b.virtual_start == vstart(sel, k)
    &&& b.virtual_end == vend(sel, k)
    &&& b.content@ == payload(ls, o, c)
}

/// What `build_virtual_document` returns for a document given as lines.
pub open spec fn is_virtual_doc(d: VirtualDocument, ls: Seq<Seq<char>>, target: Seq<char>) -> bool {
    let sel = target_fences(ls, target);
    &&& d.blocks@.len() == sel.len()
    &&& forall|k: int| 0 <= k < sel.len() ==> block_for(#[trigger] d.blocks@[k], ls, sel, k, target)
    &&& d.content@ == vtext(ls, sel)
}

proof fn lemma_vstart_push(sel: Seq<(int, int)>, x: (int, int), k: int)
    requires
        0 <= k < sel.len(),
    ensures
        vstart(sel.push(x), k) == vstart(sel, k),
        vend(sel.push(x), k) == vend(sel, k),
    decreases k,
{
    if k > 0 {
        lemma_vstart_push(sel, x, k - 1);
    }
}

proof fn lemma_join_len(ls: Seq<Seq<char>>)
    ensures
        join_lines(ls).len() >= ls.len(),
    decreases ls.len(),
{
    if ls.len() > 0 {
        lemma_join_len(ls.drop_last());
    }
}

pub proof fn lemma_selected_sub(ls: Seq<Seq<char>>, fs: Seq<(int, int)>, target: Seq<char>)
    ensures
        forall|k: int|
            0 <= k < selected(ls, fs, target).len() ==> exists|j: int|
                0 <= j < fs.len() && fs[j] == #[trigger] selected(ls, fs, target)[k],
    decreases fs.len(),
{
    if fs.len() > 0 {
        lemma_selected_sub(ls, fs.drop_last(), target);
        let r = selected(ls, fs.drop_last(), target);
        assert forall|k: int|
            0 <= k < selected(ls, fs, target).len() implies exists|j: int|
                0 <= j < fs.len() && fs[j] == #[trigger] selected(ls, fs, target)[k] by {
            if k < r.len() {
                let j = choose|j: int| 0 <= j < fs.drop_last().len() && fs.drop_last()[j] == r[k];
                assert(fs[j] == selected(ls, fs, target)[k]);
            } else {
                assert(fs[fs.len() - 1] == selected(ls, fs, target)[k]);
            }
        }
    }
}

/// Builds the virtual document of `target_lang` from an outer document: the payloads of its
/// fences in order, one blank separator line before every block but the first.
pub fn build_virtual_document(markdown: &str, target_lang: &str) -> (r: VirtualDocument)
    ensures
        is_virtual_doc(r, lines_of(markdown@), target_lang@),
        lines_of(markdown@).len() <= u32::MAX ==> blocks_wf(r.blocks@),
{
    let text = chars_of(markdown);
    let target = chars_of(target_lang);
    let lines = split_lines(&text);
    let ghost ls = lines_of(markdown@);
    assert(lines@.map_values(|l: Vec<char>| l@) =~= ls);
    let fs = scan_fences(&lines);
    let ghost gfs = fences(ls);
    assert(fences_match(fs@, ls));
    proof {
        lemma_fences_ordered(ls);
    }
    assert forall|i: int| 0 <= i < fs@.len() implies {
        &&& #[trigger] fs@[i].open_line as int == gfs[i].0
        &&& fs@[i].close_line as int == gfs[i].1
        &&& fs@[i].lang@ == lang_of(ls[gfs[i].0])
    } by {
        assert(fs@[i].open_line as int == fences(ls)[i].0);
    }
    proof {
        lemma_fences_ordered(ls);
    }
    let mut blocks: Vec<CodeBlock> = Vec::new();
    let mut content: Vec<char> = Vec::new();
    let mut virtual_line: usize = 0;
    let mut k: usize = 0;
    while k < fs.len()
        invariant
            0 <= k <= fs@.len(),
            fs@.len() == gfs.len(),
            lines@.len() == ls.len(),
            forall|i: int| 0 <= i < lines@.len() ==> #[trigger] lines@[i]@ == ls[i],
            forall|i: int|
                0 <= i < fs@.len() ==> {
                    &&& #[trigger] fs@[i].open_line as int == gfs[i].0
                    &&& fs@[i].close_line as int == gfs[i].1
                    &&& fs@[i].lang@ == lang_of(ls[gfs[i].0])
                },
            forall|i: int|
                0 <= i < gfs.len() ==> {
                    &&& 0 <= (#[trigger] gfs[i]).0
                    &&& gfs[i].0 < gfs[i].1
                    &&& gfs[i].1 < ls.len()
                },
            target@ == target_lang@,
            blocks@.len() == selected(ls, gfs.take(k as int), target@).len(),
            forall|i: int|
                0 <= i < blocks@.len() ==> block_for(
                    #[trigger] blocks@[i],
                    ls,
                    selected(ls, gfs.take(k as int), target@),
                    i,
                    target@,
                ),
            content@ == vtext(ls, selected(ls, gfs.take(k as int), target@)),
            blocks@.len() == 0 ==> virtual_line == 0,
            blocks@.len() > 0 ==> virtual_line == vend(
                selected(ls, gfs.take(k as int), target@),
                blocks@.len() - 1,
            ),
            forall|i: int, j: int| 0 <= i < j < gfs.len() ==> (#[trigger] gfs[i]).1 < (#[trigger] gfs[j]).0,
        decreases fs@.len() - k,
    {
        let ghost sel0 = selected(ls, gfs.take(k as int), target@);
        proof {
            assert(gfs.take(k as int + 1).drop_last() =~= gfs.take(k as int));
            lemma_selected_sub(ls, gfs.take(k as int), target@);
        }
        let f = &fs[k];
        assert(f.open_line as int == gfs[k as int].0);
        if vec_eq(&f.lang, &target) {
            let ghost sel1 = sel0.push(gfs[k as int]);
            assert(gfs.take(k as int + 1).last() == gfs[k as int]);
            assert(selected(ls, gfs.take(k as int + 1), target@) == sel1);
            let o = f.open_line;
            let c = f.close_line;
            proof {
                let t = gfs.take(k as int + 1);
                assert(ordered_spans(t, ls.len() as int));
                lemma_selected_ordered(ls, t, target@);
                let m = blocks@.len() as int;
                lemma_vstart_bounds(sel1, ls.len() as int, m);
                if m > 0 {
                    lemma_vstart_push(sel0, gfs[k as int], m - 1);
                }
            }
            let ghost before = content@;
            if blocks.len() > 0 {
                content.push('\n');
                virtual_line = virtual_line + 1;
            }
            let ghost with_sep = content@;
            let vstart_k = virtual_line;
            let mut block_content: Vec<char> = Vec::new();
            let mut j: usize = o + 1;
            while j < c
                invariant
                    o + 1 <= j <= c,
                    c < lines@.len(),
                    lines@.len() == ls.len(),
                    forall|i: int| 0 <= i < lines@.len() ==> #[trigger] lines@[i]@ == ls[i],
                    block_content@ == join_lines(ls.subrange(o + 1, j as int)),
                    content@ == with_sep + block_content@,
                decreases c - j,
            {
                assert(ls.subrange(o + 1, j + 1).drop_last() =~= ls.subrange(o + 1, j as int));
                let line = &lines[j];
                let mut p: usize = 0;
                let ghost bc0 = block_content@;
                while p < line.len()
                    invariant
                        0 <= p <= line@.len(),
                        block_content@ == bc0 + line@.take(p as int),
                        content@ == with_sep + block_content@,
                    decreases line@.len() - p,
                {
                    block_content.push(line[p]);
                    content.push(line[p]);
                    p = p + 1;
                }
                assert(line@.take(line@.len() as int) =~= line@);
                block_content.push('\n');
                content.push('\n');
                j = j + 1;
            }
            proof {
                lemma_join_len(ls.subrange(o + 1, c as int));
                if blocks@.len() > 0 {
                    lemma_vstart_push(sel0, gfs[k as int], blocks@.len() as int - 1);
                }
                assert forall|i: int| 0 <= i < blocks@.len() implies block_for(
                    #[trigger] blocks@[i],
                    ls,
                    sel1,
                    i,
                    target@,
                ) by {
                    lemma_vstart_push(sel0, gfs[k as int], i);
                }
            }
            virtual_line = virtual_line + (c - o - 1);
            let lang = string_of(&target);
            let cs = string_of(&block_content);
            blocks.push(
                CodeBlock {
                    lang,
                    markdown_start: o,
                    markdown_end: c,
                    content_start: o + 1,
                    content_end: c - 1,
                    virtual_start: vstart_k,
                    virtual_end: virtual_line,
                    content: cs,
                },
            );
            assert(sel1.drop_last() =~= sel0);
            assert(content@ =~= vtext(ls, sel1));
        } else {
            assert(selected(ls, gfs.take(k as int + 1), target@) == sel0);
        }
        k = k + 1;
    }
    assert(gfs.take(fs@.len() as int) =~= gfs);
    let s = string_of(&content);
    let r = VirtualDocument { content: s, blocks };
    proof {
        if ls.len() <= u32::MAX {
            lemma_built_blocks_wf(r, ls, target_lang@);
        }
    }
    r
}

/// Equality of two character vectors.
pub fn vec_eq(a: &Vec<char>, b: &Vec<char>) -> (r: bool)
    ensures
        r == (a@ == b@),
{
    if a.len() != b.len() {
        return false;
    }
    let mut i: usize = 0;
    while i < a.len()
        invariant
            0 <= i <= a@.len(),
            a@.len() == b@.len(),
            a@.take(i as int) == b@.take(i as int),
        decreases a@.len() - i,
    {
        if a[i] != b[i] {
            assert(a@[i as int] != b@[i as int]);
            return false;
        }
        assert(a@.take(i as int + 1) =~= a@.take(i as int).push(a@[i as int]));
        assert(b@.take(i as int + 1) =~= b@.take(i as int).push(b@[i as int]));
        i = i + 1;
    }
    assert(a@ =~= a@.take(i as int));
    assert(b@ =~= b@.take(i as int));
    true
}

} // verus!

verus! {

/// Line `line` lies within the fence `f`, fence lines included.
pub open spec fn encloses(f: (int, int), line: int) -> bool {
    f.0 <= line <= f.1
}

/// `r` names the fence of `ls` that encloses `line`, or there is none.
pub open spec fn block_at(ls: Seq<Seq<char>>, line: int, r: Option<(String, usize, usize)>) -> bool {
    let fs = fences(ls);
    match r {
        Some(t) => exists|k: int|
            0 <= k < fs.len() && #[trigger] fs[k] == (t.1 as int, t.2 as int) && encloses(fs[k], line)
                && t.0@ == lang_of(ls[t.1 as int]),
        None => forall|k: int| 0 <= k < fs.len() ==> !encloses(#[trigger] fs[k], line),
    }
}

/// Finds the fence that encloses `line` (fence lines included): its declared language, its
/// opening line and its closing line.
pub fn find_code_block_at_line(markdown: &str, line: usize) -> (r: Option<(String, usize, usize)>)
    ensures
        block_at(lines_of(markdown@), line as int, r),
{
    let text = chars_of(markdown);
    let lines = split_lines(&text);
    let ghost ls = lines_of(markdown@);
    assert(lines@.map_values(|l: Vec<char>| l@) =~= ls);
    let fs = scan_fences(&lines);
    let ghost gfs = fences(ls);
    assert(fences_match(fs@, ls));
    let mut k: usize = 0;
    while k < fs.len()
        invariant
            0 <= k <= fs@.len(),
            fences_match(fs@, ls),
            ls == lines_of(markdown@),
            gfs == fences(ls),
            forall|j: int| 0 <= j < k ==> !encloses(#[trigger] gfs[j], line as int),
        decreases fs@.len() - k,
    {
        let f = &fs[k];
        assert(f.open_line as int == gfs[k as int].0);
        if f.open_line <= line && line <= f.close_line {
            let lang = string_of(&f.lang);
            assert(gfs[k as int] == (f.open_line as int, f.close_line as int));
            assert(lang@ == lang_of(ls[f.open_line as int]));
            let res = Some((lang, f.open_line, f.close_line));
            assert(block_at(ls, line as int, res));
            return res;
        }
        k = k + 1;
    }
    None
}

} // verus!
