use literate_lsp::logging::{log_no_lsp_found, log_request_at_position, log_server_lookup, log_virtual_doc_built, log_virtual_doc_empty};
use literate_lsp::uri_helpers::{construct_temp_vdoc_path, construct_virtual_uri, extract_root_uri_base};

#[test]
fn uri_helpers_build_virtual_locations() {
    assert_eq!(extract_root_uri_base("file:///home/user/project/example.md"), "file:///home/user/project");
    assert_eq!(extract_root_uri_base("file:///home/user/example.md"), "file:///home/user");
    assert_eq!(extract_root_uri_base("example.md"), "");
    assert_eq!(construct_virtual_uri("file:///home/user/project", "forth"), "file:///home/user/project/virtual.forth");
    assert_eq!(construct_temp_vdoc_path("forth"), "/tmp/virtual.forth");
}

#[test]
fn log_messages_are_formatted() {
    assert_eq!(
        log_request_at_position("textDocument/hover", 14, 2),
        "[LiterateLsp] Request: textDocument/hover at line:14 char:2"
    );
    assert_eq!(
        log_virtual_doc_built("forth", 2, 105),
        "[VirtualDoc] Built virtual doc: lang='forth', blocks=2, len=105"
    );
    assert_eq!(log_virtual_doc_empty("forth", true, 0), "[LiterateLsp] Virtual doc empty: true, blocks: 0");
    assert_eq!(
        log_server_lookup("python", "pyright", false),
        "[Config] Checking server 'pyright' for language 'python': not found"
    );
    assert_eq!(
        log_no_lsp_found("rust"),
        "[LiterateLsp] No LSP found for language 'rust'. Check: literate-lsp --health rust"
    );
}
