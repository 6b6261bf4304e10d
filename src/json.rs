use vstd::prelude::*;

verus! {

broadcast use vstd::std_specs::vec::group_vec_axioms;

/// A JSON number: non-negative and negative integers exactly, any other number as its text.
pub enum JsonNumber {
    PosInt(u64),
    NegInt(i64),
    Text(String),
}

/// A JSON value; an object keeps its members in order.
pub enum JsonValue {
    Null,
    Bool(bool),
    Number(JsonNumber),
    Str(String),
    Array(Vec<JsonValue>),
    Object(Vec<(String, JsonValue)>),
}

/// A copy of a number.
pub fn copy_number(n: &JsonNumber) -> (r: JsonNumber)
    ensures
        r == *n,
{
    match n {
        JsonNumber::PosInt(u) => JsonNumber::PosInt(*u),
        JsonNumber::NegInt(i) => JsonNumber::NegInt(*i),
        JsonNumber::Text(s) => JsonNumber::Text(s.clone()),
    }
}

/// A copy of a scalar value (anything but an array or an object).
pub fn copy_scalar(v: &JsonValue) -> (r: JsonValue)
    requires
        !(v is Array),
        !(v is Object),
    ensures
        r == *v,
{
    match v {
        JsonValue::Null => JsonValue::Null,
        JsonValue::Bool(b) => JsonValue::Bool(*b),
        JsonValue::Number(n) => JsonValue::Number(copy_number(n)),
        JsonValue::Str(s) => JsonValue::Str(s.clone()),
        _ => JsonValue::Null,
    }
}

/// `b` is `a`, member by member and item by item.
pub open spec fn deep_eq(a: JsonValue, b: JsonValue) -> bool
    decreases a,
{
    match a {
        JsonValue::Object(afs) => match b {
            JsonValue::Object(bfs) => {
                &&& bfs@.len() == afs@.len()
                &&& forall|i: int|
                    0 <= i < afs@.len() ==> {
                        &&& (#[trigger] bfs@[i]).0 == afs@[i].0
                        &&& deep_eq(afs@[i].1, bfs@[i].1)
                    }
            },
            _ => false,
        },
        JsonValue::Array(items) => match b {
            JsonValue::Array(bitems) => {
                &&& bitems@.len() == items@.len()
                &&& forall|i: int|
                    0 <= i < items@.len() ==> deep_eq(items@[i], #[trigger] bitems@[i])
            },
            _ => false,
        },
        _ => a == b,
    }
}

/// A copy of a value.
pub fn copy_value(v: &JsonValue) -> (r: JsonValue)
    ensures
        deep_eq(*v, r),
    decreases v,
{
    match v {
        JsonValue::Array(items) => {
            let mut out: Vec<JsonValue> = Vec::new();
            let mut i: usize = 0;
            while i < items.len()
                invariant
                    *v == JsonValue::Array(*items),
                    0 <= i <= items@.len(),
                    out@.len() == i,
                    forall|j: int| 0 <= j < i ==> deep_eq(items@[j], #[trigger] out@[j]),
                decreases items@.len() - i,
            {
                proof {
                    assert(decreases_to!(*v => v->Array_0));
                    assert(decreases_to!(*items => items@));
                    assert(decreases_to!(items@ => items@[i as int]));
                }
                let c = copy_value(&items[i]);
                out.push(c);
                i = i + 1;
            }
            JsonValue::Array(out)
        },
        JsonValue::Object(fields) => {
            let mut out: Vec<(String, JsonValue)> = Vec::new();
            let mut i: usize = 0;
            while i < fields.len()
                invariant
                    *v == JsonValue::Object(*fields),
                    0 <= i <= fields@.len(),
                    out@.len() == i,
                    forall|j: int|
                        0 <= j < i ==> {
                            &&& (#[trigger] out@[j]).0 == fields@[j].0
                            &&& deep_eq(fields@[j].1, out@[j].1)
                        },
                decreases fields@.len() - i,
            {
                let k = fields[i].0.clone();
                proof {
                    assert(decreases_to!(*v => v->Object_0));
                    assert(decreases_to!(*fields => fields@));
                    assert(decreases_to!(fields@ => fields@[i as int]));
                    assert(decreases_to!(fields@[i as int] => fields@[i as int].1));
                }
                let c = copy_value(&fields[i].1);
                out.push((k, c));
                i = i + 1;
            }
            JsonValue::Object(out)
        },
        _ => copy_scalar(v),
    }
}

} // verus!
