use vstd::prelude::*;
use vstd::string::*;
use crate::config::{find_lang_index, first_lang_index, lower_of, lowercase_text, server_names, Config};
use crate::fence::{fences, fences_match, lang_of, lemma_fences_ordered, scan_fences, Fence};
use crate::config::{resolve, LspConfig};
use crate::json::{JsonNumber, JsonValue};
use crate::position::{to_virtual_line, with_col, PositionMapper};
use crate::references::{refs_rewritten, refs_rewritten_value};
use crate::request_mapper::{rewritten, rewritten_value};
use crate::text::{chars_of, lines_of, split_lines, string_of};
use crate::uri_helpers::{
    construct_temp_vdoc_path, construct_virtual_uri, extract_root_uri_base, root_base,
    VIRTUAL_DOC_DEBUG_DIR,
};
use crate::virtual_doc::{
    build_virtual_document, encloses, find_code_block_at_line, is_virtual_doc, target_fences,
    vec_eq, vtext, CodeBlock, VirtualDocument,
};

verus! {

broadcast use vstd::std_specs::vec::group_vec_axioms;

/// Index of the last `.` in `s`, or -1.
pub open spec fn last_dot(s: Seq<char>) -> int
    decreases s.len(),
{
    if s.len() == 0 {
        -1
    } else if s.last() == '.' {
        s.len() - 1
    } else {
        last_dot(s.drop_last())
    }
}

/// The extension of a path: what follows its last `.`, or the whole path where it has none.
pub open spec fn extension(p: Seq<char>) -> Seq<char> {
    if last_dot(p) < 0 {
        p
    } else {
        p.subrange(last_dot(p) + 1, p.len() as int)
    }
}

/// The language of a document with the given lower-cased extension.
pub open spec fn language_of_ext(e: Seq<char>) -> Option<Seq<char>> {
    if e == "md"@ || e == "markdown"@ || e == "mdown"@ || e == "mkdn"@ || e == "mdx"@ || e
        == "mmd"@ {
        Some("markdown"@)
    } else if e == "typ"@ {
        Some("typst"@)
    } else if e == "go"@ {
        Some("go"@)
    } else if e == "forth"@ || e == "fth"@ {
        Some("forth"@)
    } else {
        None
    }
}

/// The language of the document at `path`, by its extension, compared without regard to
/// case.
pub open spec fn doc_language(path: Seq<char>) -> Option<Seq<char>> {
    language_of_ext(lower_of(extension(path)))
}

fn eq_lit(s: &Vec<char>, lit: &str) -> (r: bool)
    ensures
        r == (s@ == lit@),
{
    vec_eq(s, &chars_of(lit))
}

/// The language of the outer document at `path` (a URI's path), from its extension.
pub fn get_document_language(path: &str) -> (r: Option<String>)
    ensures
        match doc_language(path@) {
            Some(l) => r matches Some(s) && s@ == l,
            None => r is None,
        },
{
    let p = chars_of(path);
    let mut i: usize = p.len();
    let mut found = false;
    assert(p@.take(i as int) =~= p@);
    while i > 0 && !found
        invariant
            0 <= i <= p@.len(),
            p@ == path@,
            last_dot(p@) == last_dot(p@.take(i as int)),
            found ==> i > 0 && p@[i - 1] == '.',
        decreases i + (if found { 0int } else { 1int }),
    {
        if p[i - 1] == '.' {
            found = true;
        } else {
            assert(p@.take(i as int).drop_last() =~= p@.take(i - 1));
            i = i - 1;
        }
    }
    let start: usize = if found {
        i
    } else {
        0
    };
    proof {
        if found {
            assert(p@.take(i as int).last() == '.');
        } else {
            assert(p@.take(0) =~= Seq::<char>::empty());
        }
    }
    let mut ext: Vec<char> = Vec::new();
    let mut j: usize = start;
    while j < p.len()
        invariant
            start <= j <= p@.len(),
            ext@ == p@.subrange(start as int, j as int),
        decreases p@.len() - j,
    {
        ext.push(p[j]);
        assert(p@.subrange(start as int, j + 1) =~= p@.subrange(start as int, j as int).push(p@[j as int]));
        j = j + 1;
    }
    assert(ext@ =~= extension(path@));
    let lower = lowercase_text(&string_of(&ext));
    language_for_extension(lower.as_str())
}

/// The language of a document with the given lower-cased extension.
pub fn language_for_extension(ext: &str) -> (r: Option<String>)
    ensures
        match language_of_ext(ext@) {
            Some(l) => r matches Some(s) && s@ == l,
            None => r is None,
        },
{
    let e = chars_of(ext);
    if eq_lit(&e, "md") || eq_lit(&e, "markdown") || eq_lit(&e, "mdown") || eq_lit(&e, "mkdn")
        || eq_lit(&e, "mdx") || eq_lit(&e, "mmd") {
        Some(String::from_str("markdown"))
    } else if eq_lit(&e, "typ") {
        Some(String::from_str("typst"))
    } else if eq_lit(&e, "go") {
        Some(String::from_str("go"))
    } else if eq_lit(&e, "forth") || eq_lit(&e, "fth") {
        Some(String::from_str("forth"))
    } else {
        None
    }
}

/// A block of the document's own language: forwarding it would start this server again.
pub open spec fn skips(doc_lang: Option<Seq<char>>, block_lang: Seq<char>) -> bool {
    match doc_lang {
        Some(d) => (d == "markdown"@ || d == "typst"@ || d == "go"@ || d == "forth"@) && block_lang
            == d,
        None => false,
    }
}

/// Whether a block of `block_lang` must not be forwarded inside a document of `doc_lang`.
pub fn should_skip_language(doc_lang: Option<&str>, block_lang: &str) -> (r: bool)
    ensures
        r == skips(
            match doc_lang {
                Some(d) => Some(d@),
                None => None,
            },
            block_lang@,
        ),
{
    match doc_lang {
        Some(d) => {
            let dc = chars_of(d);
            let known = eq_lit(&dc, "markdown") || eq_lit(&dc, "typst") || eq_lit(&dc, "go")
                || eq_lit(&dc, "forth");
            known && vec_eq(&chars_of(block_lang), &dc)
        },
        None => false,
    }
}

/// The explanation given for a block of the document's own language.
pub open spec fn self_ref_message(lang: Seq<char>) -> Seq<char> {
    "Cannot provide IDE features for **"@ + lang + "** code blocks inside **"@ + lang
        + "** documents.\n\n**Why?** This would create a recursive loop (literate-lsp acting on itself).\n\n**Solution:** Move the "@
        + lang + " code outside the "@ + lang
        + " fence, or use a different documentation format."@
}

/// The explanation given for a block of the document's own language.
pub fn self_referential_message(lang: &str) -> (r: String)
    ensures
        r@ == self_ref_message(lang@),
{
    let mut r = String::from_str("Cannot provide IDE features for **");
    r.append(lang);
    r.append("** code blocks inside **");
    r.append(lang);
    r.append(
        "** documents.\n\n**Why?** This would create a recursive loop (literate-lsp acting on itself).\n\n**Solution:** Move the ",
    );
    r.append(lang);
    r.append(" code outside the ");
    r.append(lang);
    r.append(" fence, or use a different documentation format.");
    r
}

/// `items` joined with `sep` between them.
pub open spec fn join_with(items: Seq<Seq<char>>, sep: Seq<char>) -> Seq<char>
    decreases items.len(),
{
    if items.len() == 0 {
        Seq::<char>::empty()
    } else if items.len() == 1 {
        items[0]
    } else {
        join_with(items.drop_last(), sep) + sep + items.last()
    }
}

/// Joins `items` with `sep` between them.
pub fn join_strings(items: &Vec<String>, sep: &str) -> (r: String)
    ensures
        r@ == join_with(texts(items@), sep@),
{
    let ghost v = texts(items@);
    let mut r = String::new();
    let mut i: usize = 0;
    while i < items.len()
        invariant
            0 <= i <= items@.len(),
            v == texts(items@),
            r@ == join_with(v.take(i as int), sep@),
        decreases items@.len() - i,
    {
        assert(v.take(i + 1).drop_last() =~= v.take(i as int));
        if i > 0 {
            r.append(sep);
        } else {
            assert(v.take(1) =~= seq![v[0]]);
        }
        r.append(items[i].as_str());
        i = i + 1;
    }
    assert(v.take(i as int) =~= v);
    r
}

/// The declared languages of the fences in `fs`, each once, in order of first appearance;
/// empty ones left out.
pub open spec fn distinct_langs(ls: Seq<Seq<char>>, fs: Seq<(int, int)>) -> Seq<Seq<char>>
    decreases fs.len(),
{
    if fs.len() == 0 {
        seq![]
    } else {
        let r = distinct_langs(ls, fs.drop_last());
        let l = lang_of(ls[fs.last().0]);
        if l.len() > 0 && !r.contains(l) {
            r.push(l)
        } else {
            r
        }
    }
}

/// The languages found in a document: those of its fences, each once, in order.
pub open spec fn found_languages(ls: Seq<Seq<char>>) -> Seq<Seq<char>> {
    distinct_langs(ls, fences(ls))
}

/// The explanation given when the virtual document of `lang` is empty, listing the languages
/// `found` in the document.
pub open spec fn missing_message(lang: Seq<char>, found: Seq<Seq<char>>) -> Seq<char> {
    if found.len() == 0 {
        "No code blocks found in this document"@
    } else {
        "No '"@ + lang + "' code blocks found.\n\nFound: "@ + join_with(found, ", "@)
            + "\n\n**Note:** Code blocks nested inside other fences (like markdown examples) are not supported. Move the "@
            + lang + " code outside the markdown fence."@
    }
}

} // verus!

verus! {

/// The languages found in a document, each once, in order of first appearance.
pub fn found_languages_exec(lines: &Vec<Vec<char>>, fs: &Vec<Fence>) -> (r: Vec<String>)
    requires
        fences_match(fs@, lines@.map_values(|l: Vec<char>| l@)),
    ensures
        is_found_list(texts(r@), lines@.map_values(|l: Vec<char>| l@)),
{
    let ghost ls = lines@.map_values(|l: Vec<char>| l@);
    let ghost gfs = fences(ls);
    let mut r: Vec<String> = Vec::new();
    let mut k: usize = 0;
    while k < fs.len()
        invariant
            0 <= k <= fs@.len(),
            ls == lines@.map_values(|l: Vec<char>| l@),
            gfs == fences(ls),
            fences_match(fs@, ls),
            texts(r@) == distinct_langs(ls, gfs.take(k as int)),
        decreases fs@.len() - k,
    {
        assert(fs@[k as int].open_line as int == gfs[k as int].0);
        assert(gfs.take(k + 1).drop_last() =~= gfs.take(k as int));
        assert(gfs.take(k + 1).last() == gfs[k as int]);
        let lang = &fs[k].lang;
        let ghost before = texts(r@);
        let mut seen = false;
        let mut i: usize = 0;
        while i < r.len()
            invariant
                0 <= i <= r@.len(),
                before == texts(r@),
                seen == exists|j: int| 0 <= j < i && before[j] == lang@,
            decreases r@.len() - i,
        {
            assert(before[i as int] == r@[i as int]@);
            if vec_eq(&chars_of(r[i].as_str()), lang) {
                seen = true;
            }
            i = i + 1;
        }
        assert(seen == before.contains(lang@));
        if lang.len() > 0 && !seen {
            r.push(string_of(lang));
            assert(texts(r@) =~= before.push(lang@));
        }
        k = k + 1;
    }
    assert(gfs.take(fs@.len() as int) =~= gfs);
    proof {
        lemma_distinct_langs_distinct(ls, gfs);
        assert forall|i: int, j: int| 0 <= i < j < r@.len() implies r@[i]@ != r@[j]@ by {
            assert(texts(r@)[i] == r@[i]@ && texts(r@)[j] == r@[j]@);
        }
    }
    sort_texts(r)
}

proof fn lemma_distinct_langs_distinct(ls: Seq<Seq<char>>, fs: Seq<(int, int)>)
    ensures
        forall|i: int, j: int|
            0 <= i < j < distinct_langs(ls, fs).len() ==> distinct_langs(ls, fs)[i]
                != distinct_langs(ls, fs)[j],
    decreases fs.len(),
{
    if fs.len() > 0 {
        lemma_distinct_langs_distinct(ls, fs.drop_last());
        let r = distinct_langs(ls, fs.drop_last());
        let l = lang_of(ls[fs.last().0]);
        if l.len() > 0 && !r.contains(l) {
            assert forall|i: int, j: int| 0 <= i < j < r.push(l).len() implies r.push(l)[i] != r.push(l)[j] by {
                if j == r.len() {
                    assert(r.contains(r[i]));
                }
            }
        }
    }
}

/// The explanation given when the virtual document of `lang` is empty.
pub fn missing_language_message(lang: &str, found: &Vec<String>) -> (r: String)
    ensures
        r@ == missing_message(lang@, texts(found@)),
{
    if found.len() == 0 {
        return String::from_str("No code blocks found in this document");
    }
    let mut r = String::from_str("No '");
    r.append(lang);
    r.append("' code blocks found.\n\nFound: ");
    let joined = join_strings(found, ", ");
    r.append(joined.as_str());
    r.append(
        "\n\n**Note:** Code blocks nested inside other fences (like markdown examples) are not supported. Move the ",
    );
    r.append(lang);
    r.append(" code outside the markdown fence.");
    r
}

/// A name in double quotes.
pub open spec fn quote(n: Seq<char>) -> Seq<char> {
    "\""@ + n + "\""@
}

/// Server names quoted and joined by `, `.
pub open spec fn quoted_list(names: Seq<Seq<char>>) -> Seq<char> {
    join_with(names.map_values(|n: Seq<char>| quote(n)), ", "@)
}

/// The explanation given when no server can be found for `lang`.
pub open spec fn unsupported_message(c: Config, lang: Seq<char>) -> Seq<char> {
    match first_lang_index(c.language@, lang) {
        Some(i) => {
            let name = c.language@[i].name@;
            "**Language '"@ + name + "' is configured but has no LSP server.**\n\nTo add IDE support, add this to `$root/.languages.toml`:\n\n```toml\n[[language]]\nname = \""@
                + name + "\"\nlanguage-servers = ["@ + quoted_list(server_names(c.language@[i]))
                + "]\n```\n\nFind available LSPs at: https://langserver.org"@
        },
        None => "**Language '"@ + lang + "' is not configured.**\n\nTo add IDE support, add this to `$root/.languages.toml`:\n\n```toml\n[[language]]\nname = \""@
            + lang
            + "\"\nlanguage-servers = [\"lsp-name\"]\n```\n\nThen find and configure an LSP for "@
            + lang
            + " in the `[language-server]` section:\n\n```toml\n[language-server.lsp-name]\ncommand = \"lsp-binary\"\n```\n\nFind available LSPs at: https://langserver.org"@,
    }
}

/// The explanation given when no server can be found for `lang`.
pub fn unsupported_language_message(config: &Config, lang: &str) -> (r: String)
    ensures
        r@ == unsupported_message(*config, lang@),
{
    match find_lang_index(&config.language, lang) {
        Some(i) => {
            let l = &config.language[i];
            let names = l.get_server_names();
            let mut quoted: Vec<String> = Vec::new();
            let mut j: usize = 0;
            while j < names.len()
                invariant
                    0 <= j <= names@.len(),
                    names@.len() == server_names(*l).len(),
                    forall|b: int| 0 <= b < names@.len() ==> #[trigger] names@[b]@ == server_names(*l)[b],
                    quoted@.len() == j,
                    forall|b: int| 0 <= b < j ==> #[trigger] quoted@[b]@ == quote(server_names(*l)[b]),
                decreases names@.len() - j,
            {
                let mut q = String::from_str("\"");
                q.append(names[j].as_str());
                q.append("\"");
                assert(q@ == quote(server_names(*l)[j as int]));
                quoted.push(q);
                j = j + 1;
            }
            assert(texts(quoted@) =~= server_names(*l).map_values(
                |n: Seq<char>| quote(n),
            ));
            let mut r = String::from_str("**Language '");
            r.append(l.name.as_str());
            r.append(
                "' is configured but has no LSP server.**\n\nTo add IDE support, add this to `$root/.languages.toml`:\n\n```toml\n[[language]]\nname = \"",
            );
            r.append(l.name.as_str());
            r.append("\"\nlanguage-servers = [");
            r.append(join_strings(&quoted, ", ").as_str());
            r.append("]\n```\n\nFind available LSPs at: https://langserver.org");
            r
        },
        None => {
            let mut r = String::from_str("**Language '");
            r.append(lang);
            r.append(
                "' is not configured.**\n\nTo add IDE support, add this to `$root/.languages.toml`:\n\n```toml\n[[language]]\nname = \"",
            );
            r.append(lang);
            r.append("\"\nlanguage-servers = [\"lsp-name\"]\n```\n\nThen find and configure an LSP for ");
            r.append(lang);
            r.append(
                " in the `[language-server]` section:\n\n```toml\n[language-server.lsp-name]\ncommand = \"lsp-binary\"\n```\n\nFind available LSPs at: https://langserver.org",
            );
            r
        },
    }
}

} // verus!

verus! {

/// What the server does with a position request.
pub enum RequestPlan {
    /// Reply with null.
    Null,
    /// Reply with an explanatory hover holding this text.
    Hover(String),
    /// Forward to the child server of a language.
    Forward(ForwardPlan),
}

/// A request to forward, and all the child needs for it.
pub struct ForwardPlan {
    pub lang: String,
    pub command: String,
    pub args: Vec<String>,
    pub root_uri_base: String,
    pub virtual_uri: String,
    /// The virtual document's text.
    pub content: String,
    /// The virtual document's block map.
    pub mapper: PositionMapper,
    /// The request's parameters, in virtual coordinates.
    pub params: JsonValue,
    pub debug_path: String,
}

/// The fence of `fs` that holds `line`, if any (fences are disjoint, so there is at most one).
pub open spec fn enclosing(fs: Seq<(int, int)>, line: int) -> Option<int> {
    if exists|k: int| 0 <= k < fs.len() && encloses(#[trigger] fs[k], line) {
        Some(choose|k: int| 0 <= k < fs.len() && encloses(#[trigger] fs[k], line))
    } else {
        None
    }
}

/// `v` is the string `s`.
pub open spec fn is_str(v: JsonValue, s: Seq<char>) -> bool {
    v matches JsonValue::Str(t) && t@ == s
}

/// `v` is the non-negative integer `n`.
pub open spec fn is_uint(v: JsonValue, n: int) -> bool {
    v matches JsonValue::Number(JsonNumber::PosInt(m)) && m == n
}

/// `v` is `{"uri": uri}`.
pub open spec fn uri_object(v: JsonValue, uri: Seq<char>) -> bool {
    match v {
        JsonValue::Object(t) => t@.len() == 1 && t@[0].0@ == "uri"@ && is_str(t@[0].1, uri),
        _ => false,
    }
}

/// `v` is `{"line": l, "character": c}`.
pub open spec fn position_object(v: JsonValue, pos: (u32, u32)) -> bool {
    match v {
        JsonValue::Object(q) => {
            &&& q@.len() == 2
            &&& q@[0].0@ == "line"@
            &&& is_uint(q@[0].1, pos.0 as int)
            &&& q@[1].0@ == "character"@
            &&& is_uint(q@[1].1, pos.1 as int)
        },
        _ => false,
    }
}

/// `p` is `{"textDocument": {"uri": uri}, "position": {"line": l, "character": c}}`.
pub open spec fn position_params(p: JsonValue, uri: Seq<char>, pos: (u32, u32)) -> bool {
    match p {
        JsonValue::Object(fs) => {
            &&& fs@.len() == 2
            &&& fs@[0].0@ == "textDocument"@
            &&& uri_object(fs@[0].1, uri)
            &&& fs@[1].0@ == "position"@
            &&& position_object(fs@[1].1, pos)
        },
        _ => false,
    }
}

/// A position mapped into the virtual document, or unchanged where it maps nowhere.
pub open spec fn mapped_or_same(bs: Seq<CodeBlock>, line: u32, ch: u32) -> (u32, u32) {
    match with_col(to_virtual_line(bs, line as int), ch) {
        Some(p) => p,
        None => (line, ch),
    }
}

/// `f` forwards a request at (`line`, `ch`) of the document at `uri` to the server `c` of
/// `lang`.
pub open spec fn forward_ok(
    f: ForwardPlan,
    ls: Seq<Seq<char>>,
    lang: Seq<char>,
    c: LspConfig,
    uri: Seq<char>,
    line: u32,
    ch: u32,
) -> bool {
    &&& f.lang@ == lang
    &&& f.command@ == c.command@
    &&& f.args@ == c.args@
    &&& f.root_uri_base@ == root_base(uri)
    &&& f.virtual_uri@ == root_base(uri) + "/virtual."@ + lang
    &&& is_virtual_doc(VirtualDocument { content: f.content, blocks: f.mapper.blocks }, ls, lang)
    &&& f.debug_path@ == VIRTUAL_DOC_DEBUG_DIR@ + "/virtual."@ + lang
    &&& position_params(f.params, f.virtual_uri@, mapped_or_same(f.mapper.blocks@, line, ch))
}

/// The plan for a position request at (`line`, `ch`) of `doc` (the text of the document at
/// `uri`, whose path is `path`), given the configuration and the commands installed.
pub open spec fn plan_ok(
    r: RequestPlan,
    doc: Option<Seq<char>>,
    uri: Seq<char>,
    path: Seq<char>,
    line: u32,
    ch: u32,
    c: Config,
    installed: Seq<String>,
) -> bool {
    match doc {
        None => r is Null,
        Some(d) => {
            let ls = lines_of(d);
            let fs = fences(ls);
            match enclosing(fs, line as int) {
                None => r is Null,
                Some(k) => {
                    let lang = lang_of(ls[fs[k].0]);
                    if skips(doc_language(path), lang) {
                        r matches RequestPlan::Hover(m) && m@ == self_ref_message(lang)
                    } else if vtext(ls, target_fences(ls, lang)).len() == 0 {
                        r matches RequestPlan::Hover(m) && exists|f: Seq<Seq<char>>|
                            is_found_list(f, ls) && m@ == #[trigger] missing_message(lang, f)
                    } else {
                        match resolve(c, lang, installed) {
                            None => r matches RequestPlan::Hover(m) && m@ == unsupported_message(
                                c,
                                lang,
                            ),
                            Some(s) => r matches RequestPlan::Forward(f) && forward_ok(
                                f,
                                ls,
                                lang,
                                s,
                                uri,
                                line,
                                ch,
                            ),
                        }
                    }
                },
            }
        },
    }
}

fn str_value(s: &str) -> (r: JsonValue)
    ensures
        is_str(r, s@),
{
    JsonValue::Str(String::from_str(s))
}

fn uint_value(n: u32) -> (r: JsonValue)
    ensures
        is_uint(r, n as int),
{
    JsonValue::Number(JsonNumber::PosInt(n as u64))
}

/// `{"textDocument": {"uri": uri}, "position": {"line": line, "character": character}}`.
pub fn position_params_value(uri: &str, line: u32, character: u32) -> (r: JsonValue)
    ensures
        position_params(r, uri@, (line, character)),
{
    let mut td: Vec<(String, JsonValue)> = Vec::new();
    td.push((String::from_str("uri"), str_value(uri)));
    let mut pos: Vec<(String, JsonValue)> = Vec::new();
    pos.push((String::from_str("line"), uint_value(line)));
    pos.push((String::from_str("character"), uint_value(character)));
    let mut fs: Vec<(String, JsonValue)> = Vec::new();
    fs.push((String::from_str("textDocument"), JsonValue::Object(td)));
    fs.push((String::from_str("position"), JsonValue::Object(pos)));
    JsonValue::Object(fs)
}

proof fn lemma_enclosing_unique(ls: Seq<Seq<char>>, k: int, line: int)
    requires
        0 <= k < fences(ls).len(),
        encloses(fences(ls)[k], line),
    ensures
        enclosing(fences(ls), line) == Some(k),
{
    lemma_fences_ordered(ls);
    let fs = fences(ls);
    let c = choose|c: int| 0 <= c < fs.len() && encloses(#[trigger] fs[c], line);
    if c < k {
        assert(fs[c].1 < fs[k].0);
    } else if c > k {
        assert(fs[k].1 < fs[c].0);
    }
}

/// Decides what to do with a position request at (`line`, `character`) of the document at
/// `uri` (whose path is `path`), holding `doc` or nothing yet: reply null when there is no
/// document or no fence holds the line; explain instead of forwarding when the fence is of
/// the document's own language, when its virtual document is empty, or when no server is
/// configured and installed for its language; otherwise forward, in virtual coordinates.
pub fn plan_position_request(
    doc: Option<&str>,
    uri: &str,
    path: &str,
    line: u32,
    character: u32,
    config: &Config,
    installed: &Vec<String>,
) -> (r: RequestPlan)
    ensures
        plan_ok(
            r,
            match doc {
                Some(d) => Some(d@),
                None => None,
            },
            uri@,
            path@,
            line,
            character,
            *config,
            installed@,
        ),
{
    let d = match doc {
        Some(d) => d,
        None => return RequestPlan::Null,
    };
    let ghost ls = lines_of(d@);
    let ghost fs = fences(ls);
    let (lang, o, c) = match find_code_block_at_line(d, line as usize) {
        Some(t) => t,
        None => {
            assert(enclosing(fs, line as int) is None);
            return RequestPlan::Null;
        },
    };
    proof {
        let k = choose|k: int|
            0 <= k < fs.len() && #[trigger] fs[k] == (o as int, c as int) && encloses(fs[k], line as int)
                && lang@ == lang_of(ls[o as int]);
        lemma_enclosing_unique(ls, k, line as int);
    }
    let dl = get_document_language(path);
    let skip = match &dl {
        Some(s) => should_skip_language(Some(s.as_str()), lang.as_str()),
        None => should_skip_language(None, lang.as_str()),
    };
    if skip {
        return RequestPlan::Hover(self_referential_message(lang.as_str()));
    }
    let vdoc = build_virtual_document(d, lang.as_str());
    if vdoc.content.as_str().is_empty() {
        let text = chars_of(d);
        let lines = split_lines(&text);
        assert(lines@.map_values(|l: Vec<char>| l@) =~= ls);
        let sf = scan_fences(&lines);
        let found = found_languages_exec(&lines, &sf);
        let m = missing_language_message(lang.as_str(), &found);
        assert(is_found_list(texts(found@), ls) && m@ == missing_message(lang@, texts(found@)));
        return RequestPlan::Hover(m);
    }
    let (command, args) = match config.get_command_and_args(lang.as_str(), installed) {
        Some(p) => p,
        None => return RequestPlan::Hover(unsupported_language_message(config, lang.as_str())),
    };
    let base = extract_root_uri_base(uri);
    let virtual_uri = construct_virtual_uri(base, lang.as_str());
    let debug_path = construct_temp_vdoc_path(lang.as_str());
    let content = vdoc.content;
    let mapper = PositionMapper::new(vdoc.blocks);
    let (vl, vc) = match mapper.markdown_to_virtual(line, character) {
        Some(p) => p,
        None => (line, character),
    };
    let params = position_params_value(virtual_uri.as_str(), vl, vc);
    RequestPlan::Forward(
        ForwardPlan {
            lang,
            command,
            args,
            root_uri_base: String::from_str(base),
            virtual_uri,
            content,
            mapper,
            params,
            debug_path,
        },
    )
}

} // verus!

verus! {

/// Index of the first member of `fs` named `key`.
pub open spec fn key_index(fs: Seq<(String, JsonValue)>, key: Seq<char>) -> Option<int> {
    if exists|i: int| 0 <= i < fs.len() && #[trigger] fs[i].0@ == key {
        Some(
            choose|i: int|
                0 <= i < fs.len() && #[trigger] fs[i].0@ == key && forall|j: int|
                    0 <= j < i ==> (#[trigger] fs[j]).0@ != key,
        )
    } else {
        None
    }
}

/// The first member of `fs` named `key`.
pub fn key_index_exec(fs: &Vec<(String, JsonValue)>, key: &str) -> (r: Option<usize>)
    ensures
        r matches Some(i) ==> i < fs@.len() && key_index(fs@, key@) == Some(i as int),
        r is None ==> key_index(fs@, key@) is None,
{
    let kc = chars_of(key);
    let mut i: usize = 0;
    while i < fs.len()
        invariant
            0 <= i <= fs@.len(),
            kc@ == key@,
            forall|j: int| 0 <= j < i ==> (#[trigger] fs@[j]).0@ != key@,
        decreases fs@.len() - i,
    {
        if vec_eq(&chars_of(fs[i].0.as_str()), &kc) {
            let ghost gi = i as int;
            let ghost c = choose|c: int|
                0 <= c < fs@.len() && #[trigger] fs@[c].0@ == key@ && forall|j: int|
                    0 <= j < c ==> (#[trigger] fs@[j]).0@ != key@;
            assert(c == gi) by {
                if c < gi {
                    assert(fs@[c].0@ != key@);
                } else if c > gi {
                    assert(fs@[gi].0@ != key@);
                }
            }
            return Some(i);
        }
        i = i + 1;
    }
    None
}

/// `nv` is the object with members `gs` whose `uri` member, where it holds the virtual URI
/// `vuri`, now holds `uri`; any other `uri` is kept.
pub open spec fn object_uri_set(
    nv: JsonValue,
    gs: Seq<(String, JsonValue)>,
    vuri: Seq<char>,
    uri: Seq<char>,
) -> bool {
    match key_index(gs, "uri"@) {
        Some(u) => if is_str(gs[u].1, vuri) {
            match nv {
                JsonValue::Object(ngs) => {
                    &&& ngs@.len() == gs.len()
                    &&& forall|j: int| 0 <= j < gs.len() && j != u ==> #[trigger] ngs@[j] == gs[j]
                    &&& ngs@[u].0 == gs[u].0
                    &&& is_str(ngs@[u].1, uri)
                },
                _ => false,
            }
        } else {
            nv matches JsonValue::Object(ngs) && ngs@ == gs
        },
        None => nv matches JsonValue::Object(ngs) && ngs@ == gs,
    }
}

/// `nv` is `v` with the `uri` member of the object `v`, or of each object in the array `v`,
/// moved from the virtual URI `vuri` to `uri`.
pub open spec fn uri_replaced(nv: JsonValue, v: JsonValue, vuri: Seq<char>, uri: Seq<char>) -> bool {
    match v {
        JsonValue::Object(gs) => object_uri_set(nv, gs@, vuri, uri),
        JsonValue::Array(items) => match nv {
            JsonValue::Array(nitems) => {
                &&& nitems@.len() == items@.len()
                &&& forall|j: int|
                    0 <= j < items@.len() ==> match items@[j] {
                        JsonValue::Object(gs) => object_uri_set(#[trigger] nitems@[j], gs@, vuri, uri),
                        _ => nitems@[j] == items@[j],
                    }
            },
            _ => false,
        },
        _ => nv == v,
    }
}

/// Whether `v` is the string `s`.
fn is_str_exec(v: &JsonValue, s: &str) -> (r: bool)
    ensures
        r == is_str(*v, s@),
{
    match v {
        JsonValue::Str(t) => vec_eq(&chars_of(t.as_str()), &chars_of(s)),
        _ => false,
    }
}

fn set_uri(gs: Vec<(String, JsonValue)>, vuri: &str, uri: &str) -> (r: JsonValue)
    ensures
        object_uri_set(r, gs@, vuri@, uri@),
{
    let mut gs = gs;
    match key_index_exec(&gs, "uri") {
        Some(u) => {
            if !is_str_exec(&gs[u].1, vuri) {
                return JsonValue::Object(gs);
            }
            let ghost old_gs = gs@;
            let mut e = (String::new(), JsonValue::Null);
            gs.set_and_swap(u, &mut e);
            let (k, _v) = e;
            gs.set(u, (k, str_value(uri)));
            assert forall|j: int| 0 <= j < old_gs.len() && j != u implies #[trigger] gs@[j] == old_gs[j] by {}
            JsonValue::Object(gs)
        },
        None => JsonValue::Object(gs),
    }
}

/// Points the location `v` (or each location in the array `v`) that is in the virtual
/// document `vuri` at `uri`.
pub fn replace_uri(v: JsonValue, vuri: &str, uri: &str) -> (r: JsonValue)
    ensures
        uri_replaced(r, v, vuri@, uri@),
{
    match v {
        JsonValue::Object(gs) => set_uri(gs, vuri, uri),
        JsonValue::Array(items) => {
            let ghost orig = items@;
            let mut items = items;
            let mut i: usize = 0;
            while i < items.len()
                invariant
                    0 <= i <= items@.len(),
                    items@.len() == orig.len(),
                    forall|j: int| i <= j < orig.len() ==> #[trigger] items@[j] == orig[j],
                    forall|j: int|
                        0 <= j < i ==> match orig[j] {
                            JsonValue::Object(gs) => object_uri_set(#[trigger] items@[j], gs@, vuri@, uri@),
                            _ => items@[j] == orig[j],
                        },
                decreases items@.len() - i,
            {
                let mut e = JsonValue::Null;
                items.set_and_swap(i, &mut e);
                let ne = match e {
                    JsonValue::Object(gs) => set_uri(gs, vuri, uri),
                    other => other,
                };
                items.set(i, ne);
                i = i + 1;
            }
            JsonValue::Array(items)
        },
        other => other,
    }
}

/// `r` is the object with members `fs` whose member `i` had its virtual references mapped
/// and its locations in the virtual document `vuri` pointed at `uri`.
pub open spec fn member_finished(
    r: JsonValue,
    fs: Seq<(String, JsonValue)>,
    i: int,
    lang: Seq<char>,
    bs: Seq<CodeBlock>,
    fname: Seq<char>,
    vuri: Seq<char>,
    uri: Seq<char>,
) -> bool {
    match r {
        JsonValue::Object(nfs) => {
            &&& nfs@.len() == fs.len()
            &&& forall|j: int| 0 <= j < fs.len() && j != i ==> #[trigger] nfs@[j] == fs[j]
            &&& nfs@[i].0 == fs[i].0
            &&& exists|v2: JsonValue|
                refs_rewritten(v2, fs[i].1, lang, bs, fname) && #[trigger] uri_replaced(
                    nfs@[i].1,
                    v2,
                    vuri,
                    uri,
                )
        },
        _ => false,
    }
}

/// `r` is the reply `t1` whose `result` member (if any) had its virtual references mapped and
/// its locations in the virtual document `vuri` pointed at `uri`.
pub open spec fn result_finished(
    r: JsonValue,
    t1: JsonValue,
    lang: Seq<char>,
    bs: Seq<CodeBlock>,
    fname: Seq<char>,
    vuri: Seq<char>,
    uri: Seq<char>,
) -> bool {
    match t1 {
        JsonValue::Object(fs) => match key_index(fs@, "result"@) {
            Some(i) => member_finished(r, fs@, i, lang, bs, fname, vuri, uri),
            None => r == t1,
        },
        _ => r == t1,
    }
}

fn finish_member(
    fs: Vec<(String, JsonValue)>,
    i: usize,
    lang: &str,
    mapper: &PositionMapper,
    markdown_filename: &str,
    virtual_uri: &str,
    outer_uri: &str,
) -> (r: JsonValue)
    requires
        i < fs@.len(),
    ensures
        member_finished(
            r,
            fs@,
            i as int,
            lang@,
            mapper.blocks@,
            markdown_filename@,
            virtual_uri@,
            outer_uri@,
        ),
{
    let ghost old_fs = fs@;
    let mut fs = fs;
    let mut e = (String::new(), JsonValue::Null);
    fs.set_and_swap(i, &mut e);
    let (k, v) = e;
    let v2 = refs_rewritten_value(&v, lang, mapper, markdown_filename);
    let ghost g2 = v2;
    let v3 = replace_uri(v2, virtual_uri, outer_uri);
    fs.set(i, (k, v3));
    assert(uri_replaced(fs@[i as int].1, g2, virtual_uri@, outer_uri@));
    assert forall|j: int| 0 <= j < old_fs.len() && j != i implies #[trigger] fs@[j] == old_fs[j] by {}
    JsonValue::Object(fs)
}

/// Brings a child's reply back to the outer document: every position is mapped out of the
/// virtual document; in the `result`, references to the virtual document are rewritten to
/// `markdown_filename`, and locations in the virtual document `virtual_uri` point at
/// `outer_uri` (locations in other files are kept).
pub fn finish_reply(
    response: &JsonValue,
    lang: &str,
    mapper: &PositionMapper,
    markdown_filename: &str,
    virtual_uri: &str,
    outer_uri: &str,
) -> (r: JsonValue)
    ensures
        exists|t1: JsonValue|
            rewritten(t1, *response, mapper.blocks@, false) && #[trigger] result_finished(
                r,
                t1,
                lang@,
                mapper.blocks@,
                markdown_filename@,
                virtual_uri@,
                outer_uri@,
            ),
{
    let t1 = rewritten_value(response, mapper, false);
    let ghost g1 = t1;
    let r = match t1 {
        JsonValue::Object(fs) => match key_index_exec(&fs, "result") {
            Some(i) => finish_member(fs, i, lang, mapper, markdown_filename, virtual_uri, outer_uri),
            None => JsonValue::Object(fs),
        },
        other => other,
    };
    assert(result_finished(r, g1, lang@, mapper.blocks@, markdown_filename@, virtual_uri@, outer_uri@));
    r
}

/// `p` is `{"textDocument": {"uri": uri}}`.
pub open spec fn document_params(p: JsonValue, uri: Seq<char>) -> bool {
    match p {
        JsonValue::Object(fs) => fs@.len() == 1 && fs@[0].0@ == "textDocument"@ && uri_object(
            fs@[0].1,
            uri,
        ),
        _ => false,
    }
}

/// `{"textDocument": {"uri": uri}}`.
pub fn document_params_value(uri: &str) -> (r: JsonValue)
    ensures
        document_params(r, uri@),
{
    let mut td: Vec<(String, JsonValue)> = Vec::new();
    td.push((String::from_str("uri"), str_value(uri)));
    let mut fs: Vec<(String, JsonValue)> = Vec::new();
    fs.push((String::from_str("textDocument"), JsonValue::Object(td)));
    JsonValue::Object(fs)
}

/// The plan for a document-wide request (symbols, formatting): the language of a fence
/// opening at line 0, forwarded with the URI of that language's virtual document, or nothing.
pub open spec fn document_plan_ok(
    r: Option<ForwardPlan>,
    doc: Option<Seq<char>>,
    uri: Seq<char>,
    c: Config,
    installed: Seq<String>,
) -> bool {
    match doc {
        None => r is None,
        Some(d) => {
            let ls = lines_of(d);
            let fs = fences(ls);
            match enclosing(fs, 0) {
                None => r is None,
                Some(k) => {
                    let lang = lang_of(ls[fs[k].0]);
                    match resolve(c, lang, installed) {
                        None => r is None,
                        Some(s) => match r {
                            Some(f) => {
                                &&& f.lang@ == lang
                                &&& f.command@ == s.command@
                                &&& f.args@ == s.args@
                                &&& f.root_uri_base@ == root_base(uri)
                                &&& f.virtual_uri@ == root_base(uri) + "/virtual."@ + lang
                                &&& is_virtual_doc(
                                    VirtualDocument { content: f.content, blocks: f.mapper.blocks },
                                    ls,
                                    lang,
                                )
                                &&& f.debug_path@ == VIRTUAL_DOC_DEBUG_DIR@ + "/virtual."@ + lang
                                &&& document_params(f.params, f.virtual_uri@)
                            },
                            None => false,
                        },
                    }
                },
            }
        },
    }
}

/// Decides where a document-wide request goes: to the server of the language of the fence
/// that opens at line 0, if there is one with a configured and installed server.
pub fn plan_document_request(
    doc: Option<&str>,
    uri: &str,
    config: &Config,
    installed: &Vec<String>,
) -> (r: Option<ForwardPlan>)
    ensures
        document_plan_ok(
            r,
            match doc {
                Some(d) => Some(d@),
                None => None,
            },
            uri@,
            *config,
            installed@,
        ),
{
    let d = match doc {
        Some(d) => d,
        None => return None,
    };
    let ghost ls = lines_of(d@);
    let ghost fs = fences(ls);
    let (lang, o, c) = match find_code_block_at_line(d, 0) {
        Some(t) => t,
        None => {
            assert(enclosing(fs, 0) is None);
            return None;
        },
    };
    proof {
        let k = choose|k: int|
            0 <= k < fs.len() && #[trigger] fs[k] == (o as int, c as int) && encloses(fs[k], 0)
                && lang@ == lang_of(ls[o as int]);
        lemma_enclosing_unique(ls, k, 0);
    }
    let (command, args) = match config.get_command_and_args(lang.as_str(), installed) {
        Some(p) => p,
        None => return None,
    };
    let vdoc = build_virtual_document(d, lang.as_str());
    let base = extract_root_uri_base(uri);
    let virtual_uri = construct_virtual_uri(base, lang.as_str());
    let debug_path = construct_temp_vdoc_path(lang.as_str());
    let params = document_params_value(virtual_uri.as_str());
    Some(
        ForwardPlan {
            lang,
            command,
            args,
            root_uri_base: String::from_str(base),
            virtual_uri,
            content: vdoc.content,
            mapper: PositionMapper::new(vdoc.blocks),
            params,
            debug_path,
        },
    )
}

} // verus!

verus! {

/// The texts of some strings.
pub open spec fn texts(v: Seq<String>) -> Seq<Seq<char>> {
    v.map_values(|s: String| s@)
}

/// `a` sorts no later than `b`: character by character, a prefix first.
pub open spec fn text_le(a: Seq<char>, b: Seq<char>) -> bool
    decreases a.len(),
{
    if a.len() == 0 {
        true
    } else if b.len() == 0 {
        false
    } else if a[0] != b[0] {
        a[0] < b[0]
    } else {
        text_le(a.drop_first(), b.drop_first())
    }
}

/// `s` is in ascending order and holds each text once.
pub open spec fn sorted_distinct(s: Seq<Seq<char>>) -> bool {
    &&& forall|i: int, j: int| 0 <= i < j < s.len() ==> text_le(s[i], s[j])
    &&& forall|i: int, j: int| 0 <= i < j < s.len() ==> s[i] != s[j]
}

/// `f` lists the languages found in a document, each once, in ascending order.
pub open spec fn is_found_list(f: Seq<Seq<char>>, ls: Seq<Seq<char>>) -> bool {
    &&& sorted_distinct(f)
    &&& forall|y: Seq<char>| #[trigger] f.contains(y) <==> found_languages(ls).contains(y)
}

proof fn lemma_text_le_total(a: Seq<char>, b: Seq<char>)
    ensures
        text_le(a, b) || text_le(b, a),
    decreases a.len(),
{
    if a.len() > 0 && b.len() > 0 && a[0] == b[0] {
        lemma_text_le_total(a.drop_first(), b.drop_first());
    }
}

proof fn lemma_text_le_trans(a: Seq<char>, b: Seq<char>, c: Seq<char>)
    requires
        text_le(a, b),
        text_le(b, c),
    ensures
        text_le(a, c),
    decreases a.len(),
{
    if a.len() > 0 && b.len() > 0 && c.len() > 0 && a[0] == b[0] && b[0] == c[0] {
        lemma_text_le_trans(a.drop_first(), b.drop_first(), c.drop_first());
    }
}

/// Sorts texts that are each given once.
pub fn sort_texts(v: Vec<String>) -> (r: Vec<String>)
    requires
        forall|i: int, j: int| 0 <= i < j < v@.len() ==> v@[i]@ != v@[j]@,
    ensures
        sorted_distinct(texts(r@)),
        forall|y: Seq<char>| #[trigger] texts(r@).contains(y)
            <==> texts(v@).contains(y),
{
    let ghost vv = texts(v@);
    let mut r: Vec<String> = Vec::new();
    let mut i: usize = 0;
    while i < v.len()
        invariant
            0 <= i <= v@.len(),
            vv == texts(v@),
            forall|a: int, b: int| 0 <= a < b < v@.len() ==> v@[a]@ != v@[b]@,
            sorted_distinct(texts(r@)),
            forall|y: Seq<char>| #[trigger] texts(r@).contains(y)
                <==> vv.take(i as int).contains(y),
        decreases v@.len() - i,
    {
        let x = &v[i];
        let xc = chars_of(x.as_str());
        let ghost rv = texts(r@);
        let mut p: usize = 0;
        while p < r.len() && !text_lt_exec(&xc, &chars_of(r[p].as_str()))
            invariant
                0 <= p <= r@.len(),
                rv == texts(r@),
                xc@ == x@,
                forall|a: int| 0 <= a < p ==> text_le(#[trigger] rv[a], x@),
            decreases r@.len() - p,
        {
            proof {
                lemma_text_le_total(xc@, rv[p as int]);
            }
            p = p + 1;
        }
        proof {
            assert(!vv.take(i as int).contains(x@)) by {
                if vv.take(i as int).contains(x@) {
                    let a = choose|a: int| 0 <= a < vv.take(i as int).len() && #[trigger] vv.take(i as int)[a] == x@;
                    assert(v@[a]@ == v@[i as int]@);
                }
            }
            assert forall|a: int| p <= a < rv.len() implies text_le(x@, #[trigger] rv[a]) && !text_le(rv[a], x@) by {
                assert(!text_le(rv[p as int], x@) || x@ == rv[p as int]);
                if text_le(rv[a], x@) {
                    lemma_text_le_trans(rv[p as int], rv[a], x@);
                }
                lemma_text_le_total(x@, rv[a]);
            }
        }
        r.insert(p, x.clone());
        proof {
            let nv = texts(r@);
            assert(nv =~= rv.insert(p as int, x@));
            assert(vv.take(i + 1) =~= vv.take(i as int).push(x@));
            assert forall|a: int, b: int| 0 <= a < b < nv.len() implies text_le(nv[a], nv[b]) && nv[a] != nv[b] by {
                if b < p {
                } else if b == p {
                    assert(nv[a] == rv[a]);
                    assert(rv.contains(rv[a]));
                } else if a < p {
                    assert(nv[b] == rv[b - 1]);
                    lemma_text_le_trans(rv[a], x@, rv[b - 1]);
                    assert(rv.contains(rv[a]));
                } else if a == p {
                    assert(nv[b] == rv[b - 1]);
                    assert(rv.contains(rv[b - 1]));
                } else {
                    assert(nv[a] == rv[a - 1] && nv[b] == rv[b - 1]);
                }
            }
            assert(vv.take(i + 1)[i as int] == x@);
            assert forall|y: Seq<char>| #[trigger] nv.contains(y) implies vv.take(i + 1).contains(y) by {
                let a = choose|a: int| 0 <= a < nv.len() && #[trigger] nv[a] == y;
                if a == p {
                    assert(vv.take(i + 1)[i as int] == y);
                } else {
                    let b = if a < p { a } else { a - 1 };
                    assert(rv[b] == y);
                    assert(rv.contains(y));
                    assert(vv.take(i as int).contains(y));
                    let c = choose|c: int| 0 <= c < vv.take(i as int).len() && #[trigger] vv.take(i as int)[c] == y;
                    assert(vv.take(i + 1)[c] == y);
                }
            }
            assert forall|y: Seq<char>| #[trigger] vv.take(i + 1).contains(y) implies nv.contains(y) by {
                let a = choose|a: int| 0 <= a < vv.take(i + 1).len() && #[trigger] vv.take(i + 1)[a] == y;
                if a == i {
                    assert(nv[p as int] == y);
                } else {
                    assert(vv.take(i as int)[a] == y);
                    assert(vv.take(i as int).contains(y));
                    assert(rv.contains(y));
                    let c = choose|c: int| 0 <= c < rv.len() && #[trigger] rv[c] == y;
                    if c < p {
                        assert(nv[c] == y);
                    } else {
                        assert(nv[c + 1] == y);
                    }
                }
            }
        }
        i = i + 1;
    }
    assert(vv.take(i as int) =~= vv);
    r
}

/// Whether `a` sorts strictly before `b`.
pub fn text_lt_exec(a: &Vec<char>, b: &Vec<char>) -> (r: bool)
    ensures
        r == !text_le(b@, a@),
{
    let mut i: usize = 0;
    assert(a@.skip(0) =~= a@);
    assert(b@.skip(0) =~= b@);
    assert(a@.take(0) =~= b@.take(0));
    while i < a.len() && i < b.len() && a[i] == b[i]
        invariant
            0 <= i <= a@.len(),
            i <= b@.len(),
            a@.take(i as int) == b@.take(i as int),
            text_le(b@, a@) == text_le(b@.skip(i as int), a@.skip(i as int)),
        decreases a@.len() - i,
    {
        assert(b@.skip(i as int).drop_first() =~= b@.skip(i + 1));
        assert(a@.skip(i as int).drop_first() =~= a@.skip(i + 1));
        assert(a@.take(i + 1) =~= a@.take(i as int).push(a@[i as int]));
        assert(b@.take(i + 1) =~= b@.take(i as int).push(b@[i as int]));
        i = i + 1;
    }
    if i == b.len() {
        assert(b@.skip(i as int).len() == 0);
        false
    } else if i == a.len() {
        assert(a@.skip(i as int).len() == 0);
        true
    } else {
        assert(b@.skip(i as int)[0] == b@[i as int]);
        assert(a@.skip(i as int)[0] == a@[i as int]);
        a[i] < b[i]
    }
}

} // verus!
