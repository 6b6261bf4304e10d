use vstd::prelude::*;
use vstd::string::*;
use crate::references::{decimal, decimal_exec};
use crate::text::string_of;

verus! {

/// `n` written in base ten.
pub fn number_text(n: u64) -> (r: String)
    ensures
        r@ == decimal(n as nat),
{
    string_of(&decimal_exec(n))
}

/// `true` or `false`.
pub open spec fn bool_text(b: bool) -> Seq<char> {
    if b {
        "true"@
    } else {
        "false"@
    }
}

pub fn log_code_block_detected(lang: &str) -> (r: String)
    ensures
        r@ == "[LiterateLsp] Detected code block language: '"@ + lang@ + "'"@,
{
    let mut r = String::from_str("[LiterateLsp] Detected code block language: '");
    r.append(lang);
    r.append("'");
    r
}

pub fn log_no_code_block_at_line(markdown_line: usize) -> (r: String)
    ensures
        r@ == "[LiterateLsp] No code block found at line "@ + decimal(markdown_line as nat),
{
    let mut r = String::from_str("[LiterateLsp] No code block found at line ");
    r.append(number_text(markdown_line as u64).as_str());
    r
}

pub fn log_self_referential_skip(lang: &str) -> (r: String)
    ensures
        r@ == "[LiterateLsp] Skipping language '"@ + lang@ + "' (self-referential)"@,
{
    let mut r = String::from_str("[LiterateLsp] Skipping language '");
    r.append(lang);
    r.append("' (self-referential)");
    r
}

pub fn log_virtual_doc_built(lang: &str, block_count: usize, content_len: usize) -> (r: String)
    ensures
        r@ == "[VirtualDoc] Built virtual doc: lang='"@ + lang@ + "', blocks="@ + decimal(
            block_count as nat,
        ) + ", len="@ + decimal(content_len as nat),
{
    let mut r = String::from_str("[VirtualDoc] Built virtual doc: lang='");
    r.append(lang);
    r.append("', blocks=");
    r.append(number_text(block_count as u64).as_str());
    r.append(", len=");
    r.append(number_text(content_len as u64).as_str());
    r
}

pub fn log_virtual_doc_empty(_lang: &str, is_empty: bool, blocks: usize) -> (r: String)
    ensures
        r@ == "[LiterateLsp] Virtual doc empty: "@ + bool_text(is_empty) + ", blocks: "@ + decimal(
            blocks as nat,
        ),
{
    let mut r = String::from_str("[LiterateLsp] Virtual doc empty: ");
    r.append(if is_empty { "true" } else { "false" });
    r.append(", blocks: ");
    r.append(number_text(blocks as u64).as_str());
    r
}

pub fn log_no_lsp_found(lang: &str) -> (r: String)
    ensures
        r@ == "[LiterateLsp] No LSP found for language '"@ + lang@
            + "'. Check: literate-lsp --health "@ + lang@,
{
    let mut r = String::from_str("[LiterateLsp] No LSP found for language '");
    r.append(lang);
    r.append("'. Check: literate-lsp --health ");
    r.append(lang);
    r
}

pub fn log_child_lsp_spawn(binary: &str) -> (r: String)
    ensures
        r@ == "[ChildLSP] Spawning: "@ + binary@,
{
    let mut r = String::from_str("[ChildLSP] Spawning: ");
    r.append(binary);
    r
}

pub fn log_child_lsp_initialized(lang: &str) -> (r: String)
    ensures
        r@ == "[ChildLSP] Initialized and ready for language: "@ + lang@,
{
    let mut r = String::from_str("[ChildLSP] Initialized and ready for language: ");
    r.append(lang);
    r
}

pub fn log_request_at_position(method: &str, line: u32, character: u32) -> (r: String)
    ensures
        r@ == "[LiterateLsp] Request: "@ + method@ + " at line:"@ + decimal(line as nat)
            + " char:"@ + decimal(character as nat),
{
    let mut r = String::from_str("[LiterateLsp] Request: ");
    r.append(method);
    r.append(" at line:");
    r.append(number_text(line as u64).as_str());
    r.append(" char:");
    r.append(number_text(character as u64).as_str());
    r
}

pub fn log_server_lookup(lang: &str, server_name: &str, found: bool) -> (r: String)
    ensures
        r@ == "[Config] Checking server '"@ + server_name@ + "' for language '"@ + lang@ + "': "@
            + if found {
            "found"@
        } else {
            "not found"@
        },
{
    let mut r = String::from_str("[Config] Checking server '");
    r.append(server_name);
    r.append("' for language '");
    r.append(lang);
    r.append("': ");
    r.append(if found { "found" } else { "not found" });
    r
}

pub fn log_language_config_found(lang: &str, server_count: usize) -> (r: String)
    ensures
        r@ == "[Config] Found language '"@ + lang@ + "' with "@ + decimal(server_count as nat)
            + " servers"@,
{
    let mut r = String::from_str("[Config] Found language '");
    r.append(lang);
    r.append("' with ");
    r.append(number_text(server_count as u64).as_str());
    r.append(" servers");
    r
}

pub fn log_language_config_not_found(lang: &str) -> (r: String)
    ensures
        r@ == "[Config] Language '"@ + lang@ + "' not in configuration"@,
{
    let mut r = String::from_str("[Config] Language '");
    r.append(lang);
    r.append("' not in configuration");
    r
}

pub fn log_server_config_not_found(server_name: &str) -> (r: String)
    ensures
        r@ == "[Config] Server configuration '"@ + server_name@
            + "' not found in language-server section"@,
{
    let mut r = String::from_str("[Config] Server configuration '");
    r.append(server_name);
    r.append("' not found in language-server section");
    r
}

} // verus!
