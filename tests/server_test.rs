use literate_lsp::config::{Config, LanguageConfig, LanguageServerEntry, LspConfig};
use literate_lsp::json::{JsonNumber, JsonValue};
use literate_lsp::server::{
    finish_reply, get_document_language, plan_document_request, plan_position_request,
    should_skip_language, RequestPlan,
};

const DOC: &str = r#"# Forth

In forth, we can add a new word to the dictionary by compiling it.
We start by entering compilation mode with the `:` word.

Let's define our `square` to square a number.

```forth
: square ( n -- n ) dup * ;    \ ok
```

Now, `square` can be used to consume one off of the stack, and add the answer back.

```forth
5 square .                     \ 25 ok
```
"#;

const URI: &str = "file:///home/user/notes/forth.md";

fn forth_config() -> Config {
    Config {
        language: vec![LanguageConfig {
            name: "forth".to_string(),
            language_servers: vec![LanguageServerEntry::String("forth-lsp".to_string())],
        }],
        language_server: vec![(
            "forth-lsp".to_string(),
            LspConfig { command: "forth-lsp".to_string(), args: vec![], config: JsonValue::Null },
        )],
    }
}

fn obj(members: Vec<(&str, JsonValue)>) -> JsonValue {
    JsonValue::Object(members.into_iter().map(|(k, v)| (k.to_string(), v)).collect())
}

fn num(n: u64) -> JsonValue {
    JsonValue::Number(JsonNumber::PosInt(n))
}

fn text(s: &str) -> JsonValue {
    JsonValue::Str(s.to_string())
}

fn member<'a>(v: &'a JsonValue, key: &str) -> &'a JsonValue {
    match v {
        JsonValue::Object(fs) => &fs.iter().find(|(k, _)| k == key).expect("member").1,
        _ => panic!("not an object"),
    }
}

fn as_num(v: &JsonValue) -> u64 {
    match v {
        JsonValue::Number(JsonNumber::PosInt(n)) => *n,
        _ => panic!("not a number"),
    }
}

fn as_text(v: &JsonValue) -> &str {
    match v {
        JsonValue::Str(s) => s.as_str(),
        _ => panic!("not a string"),
    }
}

fn location(uri: &str, line: u64, ch: u64) -> JsonValue {
    obj(vec![
        ("uri", text(uri)),
        (
            "range",
            obj(vec![
                ("start", obj(vec![("line", num(line)), ("character", num(ch))])),
                ("end", obj(vec![("line", num(line)), ("character", num(ch + 6))])),
            ]),
        ),
    ])
}

fn hover_text(plan: RequestPlan) -> String {
    match plan {
        RequestPlan::Hover(m) => m,
        _ => panic!("expected an explanatory hover"),
    }
}

#[test]
fn definition_across_blocks_maps_back_to_outer_lines() {
    let installed = vec!["forth-lsp".to_string()];
    let plan = plan_position_request(Some(DOC), URI, "/home/user/notes/forth.md", 14, 2, &forth_config(), &installed);
    let fwd = match plan {
        RequestPlan::Forward(f) => f,
        _ => panic!("expected a forwarded request"),
    };
    assert_eq!(fwd.lang, "forth");
    assert_eq!(fwd.command, "forth-lsp");
    assert_eq!(fwd.virtual_uri, "file:///home/user/notes/virtual.forth");
    assert_eq!(fwd.root_uri_base, "file:///home/user/notes");
    assert_eq!(fwd.debug_path, "/tmp/virtual.forth");
    let pos = member(&fwd.params, "position");
    assert_eq!(as_num(member(pos, "line")), 2);
    assert_eq!(as_num(member(pos, "character")), 2);
    assert_eq!(as_text(member(member(&fwd.params, "textDocument"), "uri")), fwd.virtual_uri);

    let reply = obj(vec![
        ("jsonrpc", text("2.0")),
        ("id", num(2)),
        ("result", JsonValue::Array(vec![location(&fwd.virtual_uri, 0, 2)])),
    ]);
    let done = finish_reply(&reply, &fwd.lang, &fwd.mapper, "forth.md", &fwd.virtual_uri, URI);
    let result = member(&done, "result");
    let first = match result {
        JsonValue::Array(items) => &items[0],
        _ => panic!("expected locations"),
    };
    assert_eq!(as_text(member(first, "uri")), URI);
    let start = member(member(first, "range"), "start");
    assert_eq!(as_num(member(start, "line")), 8);
    assert_eq!(as_num(member(start, "character")), 2);
}

#[test]
fn self_referential_fence_is_explained() {
    let doc = "# Doc\n\n```markdown\n# nested\n```\n";
    let plan = plan_position_request(Some(doc), "file:///d/readme.md", "/d/readme.md", 3, 0, &forth_config(), &vec![]);
    let m = hover_text(plan);
    assert!(m.starts_with(
        "Cannot provide IDE features for **markdown** code blocks inside **markdown** documents."
    ));
}

#[test]
fn unknown_language_is_explained() {
    let doc = "```brainfuck\n+++.\n```\n";
    let plan = plan_position_request(Some(doc), "file:///d/bf.md", "/d/bf.md", 1, 0, &forth_config(), &vec![]);
    let m = hover_text(plan);
    assert!(m.contains("Language 'brainfuck' is not configured"));
}

#[test]
fn configured_language_without_server_is_explained() {
    let config = Config {
        language: vec![LanguageConfig {
            name: "forth".to_string(),
            language_servers: vec![LanguageServerEntry::String("forth-lsp".to_string())],
        }],
        language_server: vec![],
    };
    let plan = plan_position_request(Some(DOC), URI, "/x/forth.md", 8, 0, &config, &vec![]);
    let m = hover_text(plan);
    assert!(m.starts_with("**Language 'forth' is configured but has no LSP server.**"));
    assert!(m.contains("language-servers = [\"forth-lsp\"]"));
}

#[test]
fn missing_target_language_lists_found_languages() {
    let doc = "```python\nprint(1)\n```\n\n```rust\n```\n\n```python\nx = 2\n```\n";
    let plan = plan_position_request(Some(doc), "file:///d/p.md", "/d/p.md", 4, 0, &forth_config(), &vec![]);
    let m = hover_text(plan);
    assert!(m.starts_with("No 'rust' code blocks found."));
    assert!(m.contains("Found: python, rust"));
}

#[test]
fn full_sync_refresh_uses_new_coordinates() {
    let installed = vec!["forth-lsp".to_string()];
    let before = "# Forth\n\nintro\n\n\n\n\n```forth\n: square dup * ;\n```\n";
    let after = "# Forth\n\nintro\n\nmore\ntext\nhere\nand\nmore\n\n\n\n```forth\n: square dup * ;\n```\n";
    let old_plan = plan_position_request(Some(before), URI, "/x/forth.md", 8, 2, &forth_config(), &installed);
    assert!(matches!(old_plan, RequestPlan::Forward(_)));
    let plan = plan_position_request(Some(after), URI, "/x/forth.md", 13, 2, &forth_config(), &installed);
    let fwd = match plan {
        RequestPlan::Forward(f) => f,
        _ => panic!("expected a forwarded request"),
    };
    let pos = member(&fwd.params, "position");
    assert_eq!(as_num(member(pos, "line")), 0);
    let reply = obj(vec![("id", num(5)), ("result", location(&fwd.virtual_uri, 0, 2))]);
    let done = finish_reply(&reply, &fwd.lang, &fwd.mapper, "forth.md", &fwd.virtual_uri, URI);
    let result = member(&done, "result");
    assert_eq!(as_text(member(result, "uri")), URI);
    assert_eq!(as_num(member(member(member(result, "range"), "start"), "line")), 13);
}

#[test]
fn no_document_or_no_fence_gives_null() {
    assert!(matches!(
        plan_position_request(None, URI, "/x/a.md", 0, 0, &forth_config(), &vec![]),
        RequestPlan::Null
    ));
    assert!(matches!(
        plan_position_request(Some(DOC), URI, "/x/a.md", 2, 0, &forth_config(), &vec![]),
        RequestPlan::Null
    ));
}

#[test]
fn not_installed_server_is_explained() {
    let plan = plan_position_request(Some(DOC), URI, "/x/forth.md", 8, 0, &Config {
        language: vec![LanguageConfig {
            name: "forth".to_string(),
            language_servers: vec![LanguageServerEntry::String("forth-lsp".to_string())],
        }],
        language_server: vec![(
            "forth-lsp".to_string(),
            LspConfig { command: "forth-lsp".to_string(), args: vec![], config: JsonValue::Null },
        )],
    }, &vec![]);
    let m = hover_text(plan);
    assert!(m.contains("is configured but has no LSP server"));
}

#[test]
fn reply_references_point_at_the_outer_file() {
    let installed = vec!["forth-lsp".to_string()];
    let plan = plan_position_request(Some(DOC), URI, "/x/forth.md", 14, 0, &forth_config(), &installed);
    let fwd = match plan {
        RequestPlan::Forward(f) => f,
        _ => panic!("expected a forwarded request"),
    };
    let reply = obj(vec![(
        "result",
        obj(vec![("contents", text("defined at virtual.forth:2:4 and virtual.forth:1:0"))]),
    )]);
    let done = finish_reply(&reply, &fwd.lang, &fwd.mapper, "forth.md", &fwd.virtual_uri, URI);
    let contents = member(member(&done, "result"), "contents");
    assert_eq!(as_text(contents), "defined at forth.md:15:4 and virtual.forth:1:0");
}

#[test]
fn document_language_by_extension() {
    assert_eq!(get_document_language("/a/b/README.MD"), Some("markdown".to_string()));
    assert_eq!(get_document_language("/a/b/x.typ"), Some("typst".to_string()));
    assert_eq!(get_document_language("/a/b/x.fth"), Some("forth".to_string()));
    assert_eq!(get_document_language("/a/b/x.go"), Some("go".to_string()));
    assert_eq!(get_document_language("/a/b/x.rst"), None);
    assert_eq!(get_document_language("markdown"), Some("markdown".to_string()));
    assert!(should_skip_language(Some("markdown"), "markdown"));
    assert!(!should_skip_language(Some("markdown"), "forth"));
    assert!(!should_skip_language(Some("python"), "python"));
    assert!(!should_skip_language(None, "markdown"));
}

#[test]
fn document_requests_use_the_fence_at_line_zero() {
    let installed = vec!["forth-lsp".to_string()];
    let doc = "```forth\n: a ;\n```\n";
    let plan = plan_document_request(Some(doc), URI, &forth_config(), &installed).unwrap();
    assert_eq!(plan.lang, "forth");
    assert_eq!(
        as_text(member(member(&plan.params, "textDocument"), "uri")),
        "file:///home/user/notes/virtual.forth"
    );
    assert!(plan_document_request(Some(DOC), URI, &forth_config(), &installed).is_none());
    assert!(plan_document_request(None, URI, &forth_config(), &installed).is_none());
}

#[test]
fn found_languages_are_sorted() {
    let doc = "```zig\n```\n```c\nint x;\n```\n";
    let plan = plan_position_request(Some(doc), "file:///d/z.md", "/d/z.md", 0, 0, &forth_config(), &vec![]);
    let m = hover_text(plan);
    assert!(m.contains("Found: c, zig\n"));
}

#[test]
fn document_without_named_fences_says_so() {
    let doc = "```\n```\n";
    let plan = plan_position_request(Some(doc), "file:///d/z.md", "/d/z.md", 0, 0, &forth_config(), &vec![]);
    assert_eq!(hover_text(plan), "No code blocks found in this document");
}

#[test]
fn locations_in_other_files_keep_their_uri() {
    let installed = vec!["forth-lsp".to_string()];
    let plan = plan_position_request(Some(DOC), URI, "/x/forth.md", 14, 2, &forth_config(), &installed);
    let fwd = match plan {
        RequestPlan::Forward(f) => f,
        _ => panic!("expected a forwarded request"),
    };
    let reply = obj(vec![(
        "result",
        JsonValue::Array(vec![
            location("file:///usr/share/forth/core.fth", 3, 0),
            location(&fwd.virtual_uri, 0, 2),
        ]),
    )]);
    let done = finish_reply(&reply, &fwd.lang, &fwd.mapper, "forth.md", &fwd.virtual_uri, URI);
    let items = match member(&done, "result") {
        JsonValue::Array(items) => items,
        _ => panic!("expected locations"),
    };
    assert_eq!(as_text(member(&items[0], "uri")), "file:///usr/share/forth/core.fth");
    assert_eq!(as_text(member(&items[1], "uri")), URI);
    let single = obj(vec![("result", location("x:y", 1, 1))]);
    let done = finish_reply(&single, &fwd.lang, &fwd.mapper, "forth.md", &fwd.virtual_uri, URI);
    assert_eq!(as_text(member(member(&done, "result"), "uri")), "x:y");
}
