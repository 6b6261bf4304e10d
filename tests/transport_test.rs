use literate_lsp::json::{JsonNumber, JsonValue};
use literate_lsp::protocol::{
    advertised_triggers, all_completion_triggers, did_change_params, did_open_params,
    initialize_params, notification_message, request_message, trigger_characters, ChildCounters, ChildLspInitializer, InitStage,
};
use literate_lsp::transport::{content_length, frame_message, is_awaited_reply, select_reply, FrameError};

fn ob(members: Vec<(&str, JsonValue)>) -> JsonValue {
    JsonValue::Object(members.into_iter().map(|(k, v)| (k.to_string(), v)).collect())
}

fn num_value(v: u64) -> JsonValue {
    JsonValue::Number(JsonNumber::PosInt(v))
}

fn st(v: &str) -> JsonValue {
    JsonValue::Str(v.to_string())
}

fn keys(v: &JsonValue) -> Vec<String> {
    match v {
        JsonValue::Object(fs) => fs.iter().map(|(k, _)| k.clone()).collect(),
        _ => vec![],
    }
}

#[test]
fn frames_with_byte_length() {
    let body = "{\"a\":\"é\"}".as_bytes().to_vec();
    let framed = frame_message(&body);
    let mut expected = b"Content-Length: 10\r\n\r\n".to_vec();
    expected.extend_from_slice(&body);
    assert_eq!(framed, expected);
    assert_eq!(frame_message(&vec![]), b"Content-Length: 0\r\n\r\n".to_vec());
}

#[test]
fn content_length_from_headers() {
    let h = vec!["Content-Type: x\r\n".to_string(), "Content-Length: 42\r\n".to_string()];
    assert!(matches!(content_length(&h), Ok(42)));
    let last = vec!["Content-Length: 1\r\n".to_string(), "Content-Length:  +7 \r\n".to_string()];
    assert!(matches!(content_length(&last), Ok(7)));
    let missing = vec!["Content-Type: x\r\n".to_string(), "no colon\r\n".to_string()];
    assert!(matches!(content_length(&missing), Err(FrameError::MissingContentLength)));
    let bad = vec!["Content-Length: 4x\r\n".to_string()];
    assert!(matches!(content_length(&bad), Err(FrameError::InvalidContentLength)));
    let huge = vec!["Content-Length: 99999999999999999999999\r\n".to_string()];
    assert!(matches!(content_length(&huge), Err(FrameError::InvalidContentLength)));
    let empty = vec!["Content-Length:\r\n".to_string()];
    assert!(matches!(content_length(&empty), Err(FrameError::InvalidContentLength)));
}

#[test]
fn awaited_reply_skips_other_messages() {
    let msgs = vec![
        ob(vec![("jsonrpc", st("2.0")), ("method", st("window/logMessage"))]),
        ob(vec![("id", num_value(2)), ("result", JsonValue::Null)]),
        ob(vec![("id", num_value(3)), ("method", st("workspace/configuration"))]),
        ob(vec![("id", num_value(3)), ("error", ob(vec![("code", num_value(1))]))]),
        ob(vec![("id", num_value(3)), ("result", num_value(9))]),
    ];
    assert_eq!(select_reply(&msgs, 3), Some(3));
    assert_eq!(select_reply(&msgs, 2), Some(1));
    assert_eq!(select_reply(&msgs, 7), None);
    assert!(!is_awaited_reply(&st("x"), 1));
    assert!(is_awaited_reply(&ob(vec![("result", JsonValue::Null), ("id", JsonValue::Number(JsonNumber::NegInt(-4)))]), -4));
}

#[test]
fn messages_have_the_protocol_shape() {
    let req = request_message(7, "textDocument/hover", JsonValue::Null);
    assert_eq!(keys(&req), vec!["jsonrpc", "id", "method", "params"]);
    assert!(is_awaited_reply(&ob(vec![("id", num_value(7)), ("result", JsonValue::Null)]), 7));
    let note = notification_message("initialized", ob(vec![]));
    assert_eq!(keys(&note), vec!["jsonrpc", "method", "params"]);
    let open = did_open_params("file:///x/virtual.forth", "forth", ": a ;\n");
    assert_eq!(keys(&open), vec!["textDocument"]);
    let change = did_change_params("file:///x/virtual.forth", 3, "b\n");
    assert_eq!(keys(&change), vec!["textDocument", "contentChanges"]);
    let init = initialize_params(42, "file:///x", None);
    assert_eq!(keys(&init), vec!["processId", "rootUri", "capabilities", "initializationOptions"]);
}

#[test]
fn counters_advance_by_one() {
    let mut c = ChildCounters::new();
    assert_eq!(c.take_request_id(), 1);
    assert_eq!(c.take_request_id(), 2);
    assert_eq!(c.bump_version(), 2);
    assert_eq!(c.next_id, 3);
    assert_eq!(c.version, 2);
}

#[test]
fn triggers_from_capabilities_and_union() {
    let caps = ob(vec![(
        "completionProvider",
        ob(vec![("triggerCharacters", JsonValue::Array(vec![st("."), num_value(3), st(":")]))]),
    )]);
    assert_eq!(trigger_characters(&caps), Some(vec![".".to_string(), ":".to_string()]));
    assert_eq!(trigger_characters(&ob(vec![("hoverProvider", JsonValue::Bool(true))])), None);
    let cache = vec![vec![".".to_string(), ":".to_string()], vec![":".to_string(), "@".to_string()]];
    let all = all_completion_triggers(&cache);
    assert_eq!(all, vec![".".to_string(), ":".to_string(), "@".to_string()]);
    assert_eq!(advertised_triggers(&vec![]), vec![" ".to_string(), ".".to_string()]);
    assert_eq!(advertised_triggers(&cache).len(), 3);
}

#[test]
fn start_failures_name_the_step() {
    assert_eq!(
        ChildLspInitializer::failure_message(InitStage::Spawn, "forth", "not found"),
        "Failed to spawn child LSP for 'forth': not found"
    );
    assert_eq!(
        ChildLspInitializer::failure_message(InitStage::OpenDocument, "go", "broken pipe"),
        "Failed to open virtual document for 'go': broken pipe"
    );
}
