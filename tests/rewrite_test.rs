use literate_lsp::json::{JsonNumber, JsonValue};
use literate_lsp::position::PositionMapper;
use literate_lsp::references::{map_virtual_doc_references, map_virtual_refs_in_value};
use literate_lsp::request_mapper::rewrite_positions;
use literate_lsp::virtual_doc::build_virtual_document;

fn o(members: Vec<(&str, JsonValue)>) -> JsonValue {
    JsonValue::Object(members.into_iter().map(|(k, v)| (k.to_string(), v)).collect())
}

fn n(v: u64) -> JsonValue {
    JsonValue::Number(JsonNumber::PosInt(v))
}

fn s(v: &str) -> JsonValue {
    JsonValue::Str(v.to_string())
}

fn same(a: &JsonValue, b: &JsonValue) -> bool {
    match (a, b) {
        (JsonValue::Null, JsonValue::Null) => true,
        (JsonValue::Bool(x), JsonValue::Bool(y)) => x == y,
        (JsonValue::Number(JsonNumber::PosInt(x)), JsonValue::Number(JsonNumber::PosInt(y))) => x == y,
        (JsonValue::Number(JsonNumber::NegInt(x)), JsonValue::Number(JsonNumber::NegInt(y))) => x == y,
        (JsonValue::Number(JsonNumber::Text(x)), JsonValue::Number(JsonNumber::Text(y))) => x == y,
        (JsonValue::Str(x), JsonValue::Str(y)) => x == y,
        (JsonValue::Array(x), JsonValue::Array(y)) => x.len() == y.len() && x.iter().zip(y).all(|(p, q)| same(p, q)),
        (JsonValue::Object(x), JsonValue::Object(y)) => {
            x.len() == y.len() && x.iter().zip(y).all(|(p, q)| p.0 == q.0 && same(&p.1, &q.1))
        }
        _ => false,
    }
}

fn mapper() -> PositionMapper {
    let doc = "intro\n```forth\na\nb\n```\ntext\n```forth\nc\n```\n";
    PositionMapper::new(build_virtual_document(doc, "forth").blocks)
}

fn pos(line: u64, ch: u64) -> JsonValue {
    o(vec![("line", n(line)), ("character", n(ch))])
}

#[test]
fn nested_positions_round_trip() {
    let m = mapper();
    let tree = o(vec![
        ("range", o(vec![("start", pos(2, 1)), ("end", pos(3, 4))])),
        ("edits", JsonValue::Array(vec![o(vec![("newText", s("x")), ("at", pos(7, 0))])])),
        ("flag", JsonValue::Bool(true)),
    ]);
    let mut v = o(vec![
        ("range", o(vec![("start", pos(2, 1)), ("end", pos(3, 4))])),
        ("edits", JsonValue::Array(vec![o(vec![("newText", s("x")), ("at", pos(7, 0))])])),
        ("flag", JsonValue::Bool(true)),
    ]);
    rewrite_positions(&mut v, &m, true);
    let expected_virtual = o(vec![
        ("range", o(vec![("start", pos(0, 1)), ("end", pos(1, 4))])),
        ("edits", JsonValue::Array(vec![o(vec![("newText", s("x")), ("at", pos(3, 0))])])),
        ("flag", JsonValue::Bool(true)),
    ]);
    assert!(same(&v, &expected_virtual));
    rewrite_positions(&mut v, &m, false);
    assert!(same(&v, &tree));
}

#[test]
fn objects_that_are_not_positions_are_left_alone() {
    let m = mapper();
    let mut v = o(vec![("line", n(2)), ("character", n(1)), ("extra", n(0))]);
    rewrite_positions(&mut v, &m, true);
    assert!(same(&v, &o(vec![("line", n(2)), ("character", n(1)), ("extra", n(0))])));
    let mut w = o(vec![("line", n(2)), ("column", n(1))]);
    rewrite_positions(&mut w, &m, true);
    assert!(same(&w, &o(vec![("line", n(2)), ("column", n(1))])));
}

#[test]
fn unmappable_position_is_left_unchanged() {
    let m = mapper();
    let mut v = pos(0, 3);
    rewrite_positions(&mut v, &m, true);
    assert!(same(&v, &pos(0, 3)));
    let mut w = o(vec![("character", n(1)), ("line", s("two"))]);
    rewrite_positions(&mut w, &m, true);
    assert!(same(&w, &o(vec![("character", n(1)), ("line", s("two"))])));
    let mut back = pos(2, 0);
    rewrite_positions(&mut back, &m, false);
    assert!(same(&back, &pos(2, 0)));
}

#[test]
fn references_in_text_are_rewritten() {
    let m = mapper();
    assert_eq!(
        map_virtual_doc_references("see virtual.forth:0:3 here", "forth", &m, "doc.md"),
        "see doc.md:3:3 here"
    );
    assert_eq!(
        map_virtual_doc_references("virtual.forth:3:0,virtual.forth:2:1", "forth", &m, "doc.md"),
        "doc.md:8:0,virtual.forth:2:1"
    );
    assert_eq!(map_virtual_doc_references("virtual.python:0:3", "forth", &m, "doc.md"), "virtual.python:0:3");
    assert_eq!(map_virtual_doc_references("virtual.forth:0:", "forth", &m, "doc.md"), "virtual.forth:0:");
    assert_eq!(
        map_virtual_doc_references("virtual.forth:99999999999:1", "forth", &m, "doc.md"),
        "virtual.forth:99999999999:1"
    );
    assert_eq!(map_virtual_doc_references("", "forth", &m, "doc.md"), "");
}

#[test]
fn references_in_nested_strings_are_rewritten() {
    let m = mapper();
    let mut v = o(vec![(
        "items",
        JsonValue::Array(vec![s("at virtual.forth:1:2"), n(4), o(vec![("virtual.forth:0:0", s("k"))])]),
    )]);
    map_virtual_refs_in_value(&mut v, "forth", &m, "doc.md");
    let expected = o(vec![(
        "items",
        JsonValue::Array(vec![s("at doc.md:4:2"), n(4), o(vec![("virtual.forth:0:0", s("k"))])]),
    )]);
    assert!(same(&v, &expected));
}

#[test]
fn virtual_positions_round_trip() {
    let m = mapper();
    let original = o(vec![("items", JsonValue::Array(vec![pos(0, 2), pos(3, 1), s("keep")]))]);
    let mut v = o(vec![("items", JsonValue::Array(vec![pos(0, 2), pos(3, 1), s("keep")]))]);
    rewrite_positions(&mut v, &m, false);
    assert!(same(&v, &o(vec![("items", JsonValue::Array(vec![pos(2, 2), pos(7, 1), s("keep")]))])));
    rewrite_positions(&mut v, &m, true);
    assert!(same(&v, &original));
}
