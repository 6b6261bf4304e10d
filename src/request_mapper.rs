use vstd::prelude::*;
use crate::json::{copy_scalar, copy_value, deep_eq, JsonNumber, JsonValue};
use crate::position::{
    blocks_wf, in_content, in_virtual, law_outer_round_trip, law_virtual_round_trip, to_outer_line,
    to_virtual_line, with_col,
    PositionMapper,
};
use crate::text::chars_of;
use crate::virtual_doc::{vec_eq, CodeBlock};

verus! {

broadcast use vstd::std_specs::vec::group_vec_axioms;

/// Members that form a position: exactly the two keys `line` and `character`.
pub open spec fn is_position(fs: Seq<(String, JsonValue)>) -> bool {
    &&& fs.len() == 2
    &&& {
        ||| (fs[0].0@ == "line"@ && fs[1].0@ == "character"@)
        ||| (fs[0].0@ == "character"@ && fs[1].0@ == "line"@)
    }
}

/// The value under `key` in a two-member object.
pub open spec fn member(fs: Seq<(String, JsonValue)>, key: Seq<char>) -> JsonValue {
    if fs[0].0@ == key {
        fs[0].1
    } else {
        fs[1].1
    }
}

/// An integer that fits a `u32`, as a position field holds it.
pub open spec fn as_coord(v: JsonValue) -> Option<u32> {
    match v {
        JsonValue::Number(JsonNumber::PosInt(n)) => if n <= u32::MAX {
            Some(n as u32)
        } else {
            None
        },
        _ => None,
    }
}

/// Where the mapper sends a position object's line and character, if anywhere.
pub open spec fn mapped_position(
    fs: Seq<(String, JsonValue)>,
    bs: Seq<CodeBlock>,
    to_virtual: bool,
) -> Option<(u32, u32)> {
    match (as_coord(member(fs, "line"@)), as_coord(member(fs, "character"@))) {
        (Some(l), Some(c)) => if to_virtual {
            with_col(to_virtual_line(bs, l as int), c)
        } else {
            with_col(to_outer_line(bs, l as int), c)
        },
        _ => None,
    }
}

/// `nfs` is the position `fs` after mapping: the keys stay in place and take the mapped
/// numbers; where the mapper gives nothing, the members are unchanged.
pub open spec fn position_rewritten(
    nfs: Seq<(String, JsonValue)>,
    fs: Seq<(String, JsonValue)>,
    bs: Seq<CodeBlock>,
    to_virtual: bool,
) -> bool {
    match mapped_position(fs, bs, to_virtual) {
        Some((l, c)) => {
            &&& nfs.len() == 2
            &&& forall|i: int|
                0 <= i < 2 ==> {
                    &&& (#[trigger] nfs[i]).0 == fs[i].0
                    &&& nfs[i].1 == if fs[i].0@ == "line"@ {
                        JsonValue::Number(JsonNumber::PosInt(l as u64))
                    } else {
                        JsonValue::Number(JsonNumber::PosInt(c as u64))
                    }
                }
        },
        None => {
            &&& nfs.len() == fs.len()
            &&& forall|i: int|
                0 <= i < fs.len() ==> {
                    &&& (#[trigger] nfs[i]).0 == fs[i].0
                    &&& deep_eq(fs[i].1, nfs[i].1)
                }
        },
    }
}

/// `new` is `old` with every position object, at any depth, mapped through the blocks in
/// the chosen direction; all else is unchanged.
pub open spec fn rewritten(new: JsonValue, old: JsonValue, bs: Seq<CodeBlock>, to_virtual: bool) -> bool
    decreases old,
{
    match old {
        JsonValue::Object(ofs) => match new {
            JsonValue::Object(nfs) => if is_position(ofs@) {
                position_rewritten(nfs@, ofs@, bs, to_virtual)
            } else {
                &&& nfs@.len() == ofs@.len()
                &&& forall|i: int|
                    0 <= i < ofs@.len() ==> {
                        &&& (#[trigger] nfs@[i]).0 == ofs@[i].0
                        &&& rewritten(nfs@[i].1, ofs@[i].1, bs, to_virtual)
                    }
            },
            _ => false,
        },
        JsonValue::Array(os) => match new {
            JsonValue::Array(ns) => {
                &&& ns@.len() == os@.len()
                &&& forall|i: int|
                    0 <= i < os@.len() ==> rewritten(#[trigger] ns@[i], os@[i], bs, to_virtual)
            },
            _ => false,
        },
        _ => new == old,
    }
}

/// `k` holds exactly the text `lit`.
fn key_is(k: &String, lit: &str) -> (r: bool)
    ensures
        r == (k@ == lit@),
{
    vec_eq(&chars_of(k.as_str()), &chars_of(lit))
}

fn is_position_exec(fs: &Vec<(String, JsonValue)>) -> (r: bool)
    ensures
        r == is_position(fs@),
{
    fs.len() == 2 && ((key_is(&fs[0].0, "line") && key_is(&fs[1].0, "character")) || (key_is(
        &fs[0].0,
        "character",
    ) && key_is(&fs[1].0, "line")))
}

fn as_coord_exec(v: &JsonValue) -> (r: Option<u32>)
    ensures
        r == as_coord(*v),
{
    match v {
        JsonValue::Number(JsonNumber::PosInt(n)) => if *n <= u32::MAX as u64 {
            Some(*n as u32)
        } else {
            None
        },
        _ => None,
    }
}

fn rewrite_position(
    fs: &Vec<(String, JsonValue)>,
    mapper: &PositionMapper,
    to_virtual: bool,
) -> (r: Vec<(String, JsonValue)>)
    requires
        is_position(fs@),
    ensures
        position_rewritten(r@, fs@, mapper.blocks@, to_virtual),
{
    let (lv, cv) = if key_is(&fs[0].0, "line") {
        (&fs[0].1, &fs[1].1)
    } else {
        (&fs[1].1, &fs[0].1)
    };
    proof {
        reveal_strlit("line");
        reveal_strlit("character");
    }
    assert("line"@ != "character"@) by {
        assert("line"@.len() != "character"@.len());
    }
    assert(*lv == member(fs@, "line"@));
    assert(*cv == member(fs@, "character"@));
    let mapped = match (as_coord_exec(lv), as_coord_exec(cv)) {
        (Some(l), Some(c)) => if to_virtual {
            mapper.markdown_to_virtual(l, c)
        } else {
            mapper.virtual_to_markdown(l, c)
        },
        _ => None,
    };
    let mut out: Vec<(String, JsonValue)> = Vec::new();
    let mut i: usize = 0;
    while i < 2
        invariant
            0 <= i <= 2,
            fs@.len() == 2,
            mapped == mapped_position(fs@, mapper.blocks@, to_virtual),
            out@.len() == i,
            forall|j: int|
                0 <= j < i ==> {
                    &&& (#[trigger] out@[j]).0 == fs@[j].0
                    &&& match mapped {
                        Some((l, c)) => out@[j].1 == if fs@[j].0@ == "line"@ {
                            JsonValue::Number(JsonNumber::PosInt(l as u64))
                        } else {
                            JsonValue::Number(JsonNumber::PosInt(c as u64))
                        },
                        None => deep_eq(fs@[j].1, out@[j].1),
                    }
                },
        decreases 2 - i,
    {
        let k = fs[i].0.clone();
        let v = match mapped {
            Some((l, c)) => if key_is(&fs[i].0, "line") {
                JsonValue::Number(JsonNumber::PosInt(l as u64))
            } else {
                JsonValue::Number(JsonNumber::PosInt(c as u64))
            },
            None => copy_value(&fs[i].1),
        };
        out.push((k, v));
        i = i + 1;
    }
    out
}

/// The value with every position object mapped in the chosen direction.
pub fn rewritten_value(v: &JsonValue, mapper: &PositionMapper, to_virtual: bool) -> (r: JsonValue)
    ensures
        rewritten(r, *v, mapper.blocks@, to_virtual),
    decreases v,
{
    match v {
        JsonValue::Array(items) => {
            let mut out: Vec<JsonValue> = Vec::new();
            let mut i: usize = 0;
            while i < items.len()
                invariant
                    *v == JsonValue::Array(*items),
                    0 <= i <= items@.len(),
                    out@.len() == i,
                    forall|j: int|
                        0 <= j < i ==> rewritten(#[trigger] out@[j], items@[j], mapper.blocks@, to_virtual),
                decreases items@.len() - i,
            {
                proof {
                    assert(decreases_to!(*v => v->Array_0));
                    assert(decreases_to!(*items => items@));
                    assert(decreases_to!(items@ => items@[i as int]));
                }
                let c = rewritten_value(&items[i], mapper, to_virtual);
                out.push(c);
                i = i + 1;
            }
            JsonValue::Array(out)
        },
        JsonValue::Object(fields) => {
            if is_position_exec(fields) {
                return JsonValue::Object(rewrite_position(fields, mapper, to_virtual));
            }
            let mut out: Vec<(String, JsonValue)> = Vec::new();
            let mut i: usize = 0;
            while i < fields.len()
                invariant
                    *v == JsonValue::Object(*fields),
                    0 <= i <= fields@.len(),
                    out@.len() == i,
                    forall|j: int|
                        0 <= j < i ==> {
                            &&& (#[trigger] out@[j]).0 == fields@[j].0
                            &&& rewritten(out@[j].1, fields@[j].1, mapper.blocks@, to_virtual)
                        },
                decreases fields@.len() - i,
            {
                let k = fields[i].0.clone();
                proof {
                    assert(decreases_to!(*v => v->Object_0));
                    assert(decreases_to!(*fields => fields@));
                    assert(decreases_to!(fields@ => fields@[i as int]));
                    assert(decreases_to!(fields@[i as int] => fields@[i as int].1));
                }
                let c = rewritten_value(&fields[i].1, mapper, to_virtual);
                out.push((k, c));
                i = i + 1;
            }
            JsonValue::Object(out)
        },
        _ => copy_scalar(v),
    }
}

/// Rewrites, in place, every position object of `value` (an object with exactly the keys
/// `line` and `character`, at any depth): `to_virtual` maps outer coordinates into the
/// virtual document, otherwise virtual coordinates back out. A position that the mapper
/// cannot place is left as it is.
pub fn rewrite_positions(value: &mut JsonValue, mapper: &PositionMapper, to_virtual: bool)
    ensures
        rewritten(*final(value), *old(value), mapper.blocks@, to_virtual),
{
    let r = rewritten_value(value, mapper, to_virtual);
    *value = r;
}

} // verus!

verus! {

/// Line `l` lies inside some block: in its payload (outer coordinates, `outer`) or in its
/// virtual range.
pub open spec fn line_inside(bs: Seq<CodeBlock>, l: int, outer: bool) -> bool {
    exists|k: int|
        0 <= k < bs.len() && if outer {
            in_content(#[trigger] bs[k], l)
        } else {
            in_virtual(bs[k], l)
        }
}

/// Every position object of `t` holds a line inside some block (see `line_inside`) and a
/// character, both fitting a `u32`.
pub open spec fn positions_inside(t: JsonValue, bs: Seq<CodeBlock>, outer: bool) -> bool
    decreases t,
{
    match t {
        JsonValue::Object(fs) => if is_position(fs@) {
            &&& as_coord(member(fs@, "character"@)) is Some
            &&& as_coord(member(fs@, "line"@)) matches Some(l) && line_inside(bs, l as int, outer)
        } else {
            forall|i: int| 0 <= i < fs@.len() ==> positions_inside(#[trigger] fs@[i].1, bs, outer)
        },
        JsonValue::Array(items) => forall|i: int|
            0 <= i < items@.len() ==> positions_inside(#[trigger] items@[i], bs, outer),
        _ => true,
    }
}

proof fn lemma_position_round_trip(
    ofs: Seq<(String, JsonValue)>,
    mfs: Seq<(String, JsonValue)>,
    nfs: Seq<(String, JsonValue)>,
    bs: Seq<CodeBlock>,
    outer: bool,
)
    requires
        blocks_wf(bs),
        is_position(ofs),
        as_coord(member(ofs, "character"@)) is Some,
        as_coord(member(ofs, "line"@)) matches Some(l) && line_inside(bs, l as int, outer),
        position_rewritten(mfs, ofs, bs, outer),
        is_position(mfs) ==> position_rewritten(nfs, mfs, bs, !outer),
    ensures
        is_position(mfs),
        nfs.len() == ofs.len(),
        forall|i: int|
            0 <= i < ofs.len() ==> {
                &&& (#[trigger] nfs[i]).0 == ofs[i].0
                &&& deep_eq(ofs[i].1, nfs[i].1)
            },
{
    reveal_strlit("line");
    reveal_strlit("character");
    assert("line"@ != "character"@) by {
        assert("line"@.len() != "character"@.len());
    }
    let l = as_coord(member(ofs, "line"@))->0;
    let c = as_coord(member(ofs, "character"@))->0;
    let k = choose|k: int|
        0 <= k < bs.len() && if outer {
            in_content(#[trigger] bs[k], l as int)
        } else {
            in_virtual(bs[k], l as int)
        };
    let pair = if outer {
        law_outer_round_trip(bs, k, l, c);
        with_col(to_virtual_line(bs, l as int), c)->0
    } else {
        law_virtual_round_trip(bs, k, l, c);
        with_col(to_outer_line(bs, l as int), c)->0
    };
    let v = pair.0;
    assert(mapped_position(ofs, bs, outer) == Some((v, c)));
    assert(mfs[0].0 == ofs[0].0 && mfs[1].0 == ofs[1].0);
    assert(is_position(mfs));
    assert(member(mfs, "line"@) == JsonValue::Number(JsonNumber::PosInt(v as u64)));
    assert(member(mfs, "character"@) == JsonValue::Number(JsonNumber::PosInt(c as u64)));
    assert(mapped_position(mfs, bs, !outer) == Some((l, c)));
    assert forall|i: int| 0 <= i < ofs.len() implies {
        &&& (#[trigger] nfs[i]).0 == ofs[i].0
        &&& deep_eq(ofs[i].1, nfs[i].1)
    } by {
        assert(nfs[i].0 == mfs[i].0);
        if ofs[i].0@ == "line"@ {
            assert(ofs[i].1 == member(ofs, "line"@));
        } else {
            assert(ofs[i].1 == member(ofs, "character"@));
        }
    }
}

/// For a tree whose positions all lie inside the blocks, mapping in one direction and back
/// gives the tree unchanged: into the virtual document and back when the positions are on
/// payload lines of the outer document (`outer`), out of it and back when they are on
/// payload lines of the virtual document.
pub proof fn law_positions_round_trip(
    t: JsonValue,
    t1: JsonValue,
    t2: JsonValue,
    bs: Seq<CodeBlock>,
    outer: bool,
)
    requires
        blocks_wf(bs),
        positions_inside(t, bs, outer),
        rewritten(t1, t, bs, outer),
        rewritten(t2, t1, bs, !outer),
    ensures
        deep_eq(t, t2),
    decreases t,
{
    match t {
        JsonValue::Object(ofs) => {
            let mfs = t1->Object_0;
            let nfs = t2->Object_0;
            if is_position(ofs@) {
                lemma_position_round_trip(ofs@, mfs@, nfs@, bs, outer);
            } else {
                assert(!is_position(mfs@)) by {
                    if is_position(mfs@) {
                        assert(mfs@[0].0 == ofs@[0].0 && mfs@[1].0 == ofs@[1].0);
                    }
                }
                assert forall|i: int| 0 <= i < ofs@.len() implies {
                    &&& (#[trigger] nfs@[i]).0 == ofs@[i].0
                    &&& deep_eq(ofs@[i].1, nfs@[i].1)
                } by {
                    assert(mfs@[i].0 == ofs@[i].0);
                    assert(nfs@[i].0 == mfs@[i].0);
                    law_positions_round_trip(ofs@[i].1, mfs@[i].1, nfs@[i].1, bs, outer);
                }
            }
        },
        JsonValue::Array(items) => {
            let ms = t1->Array_0;
            let ns = t2->Array_0;
            assert forall|i: int| 0 <= i < items@.len() implies deep_eq(
                items@[i],
                #[trigger] ns@[i],
            ) by {
                law_positions_round_trip(items@[i], ms@[i], ns@[i], bs, outer);
            }
        },
        _ => {},
    }
}

/// The value reached from `t` by the member or item indices `p`, stepping only through
/// arrays and objects that are not positions.
pub open spec fn at_path(t: JsonValue, p: Seq<int>) -> Option<JsonValue>
    decreases p.len(),
{
    if p.len() == 0 {
        Some(t)
    } else {
        match t {
            JsonValue::Object(fs) => if !is_position(fs@) && 0 <= p[0] < fs@.len() {
                at_path(fs@[p[0]].1, p.drop_first())
            } else {
                None
            },
            JsonValue::Array(items) => if 0 <= p[0] < items@.len() {
                at_path(items@[p[0]], p.drop_first())
            } else {
                None
            },
            _ => None,
        }
    }
}

/// `o` is an object that is not a position.
pub open spec fn is_plain_object(o: JsonValue) -> bool {
    match o {
        JsonValue::Object(fs) => !is_position(fs@),
        _ => false,
    }
}

/// `no` has the keys of the object `o` in order, and each scalar member of `o` unchanged.
pub open spec fn members_kept(no: JsonValue, o: JsonValue) -> bool {
    match (o, no) {
        (JsonValue::Object(fs), JsonValue::Object(nfs)) => {
            &&& nfs@.len() == fs@.len()
            &&& forall|i: int|
                0 <= i < fs@.len() ==> {
                    &&& (#[trigger] nfs@[i]).0 == fs@[i].0
                    &&& (!(fs@[i].1 is Array) && !(fs@[i].1 is Object)) ==> nfs@[i].1 == fs@[i].1
                }
        },
        _ => false,
    }
}

/// Every object that is not a position, at any depth, keeps its keys and its scalar members
/// (its `line` and `character` among them) through a rewrite; only values nested below it
/// may change.
pub proof fn law_non_positions_keep_members(
    t: JsonValue,
    t1: JsonValue,
    bs: Seq<CodeBlock>,
    to_virtual: bool,
    p: Seq<int>,
)
    requires
        rewritten(t1, t, bs, to_virtual),
        at_path(t, p) matches Some(o) && is_plain_object(o),
    ensures
        match (at_path(t, p), at_path(t1, p)) {
            (Some(o), Some(no)) => members_kept(no, o),
            _ => false,
        },
    decreases p.len(),
{
    if p.len() == 0 {
        let fs = t->Object_0;
        let nfs = t1->Object_0;
        assert forall|i: int| 0 <= i < fs@.len() implies {
            &&& (#[trigger] nfs@[i]).0 == fs@[i].0
            &&& (!(fs@[i].1 is Array) && !(fs@[i].1 is Object)) ==> nfs@[i].1 == fs@[i].1
        } by {
            assert(rewritten(nfs@[i].1, fs@[i].1, bs, to_virtual));
        }
    } else {
        match t {
            JsonValue::Object(fs) => {
                let nfs = t1->Object_0;
                let i = p[0];
                assert(rewritten(nfs@[i].1, fs@[i].1, bs, to_virtual));
                law_non_positions_keep_members(fs@[i].1, nfs@[i].1, bs, to_virtual, p.drop_first());
                assert(!is_position(nfs@)) by {
                    if is_position(nfs@) {
                        assert(nfs@[0].0 == fs@[0].0 && nfs@[1].0 == fs@[1].0);
                    }
                }
            },
            JsonValue::Array(items) => {
                let ns = t1->Array_0;
                let i = p[0];
                law_non_positions_keep_members(items@[i], ns@[i], bs, to_virtual, p.drop_first());
            },
            _ => {},
        }
    }
}

} // verus!
