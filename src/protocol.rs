use vstd::prelude::*;
use vstd::string::*;
use crate::config::{distinct_texts, has_text, has_text_exec};
use crate::json::{JsonNumber, JsonValue};
use crate::server::{is_str, key_index, key_index_exec};
use crate::text::chars_of;
use crate::transport::as_i64;

verus! {

broadcast use vstd::std_specs::vec::group_vec_axioms;

/// Member `i` of `fs` is `key` holding the string `s`.
pub open spec fn str_member(fs: Seq<(String, JsonValue)>, i: int, key: Seq<char>, s: Seq<char>) -> bool {
    fs[i].0@ == key && is_str(fs[i].1, s)
}

/// Member `i` of `fs` is `key` holding the integer `n`.
pub open spec fn int_member(fs: Seq<(String, JsonValue)>, i: int, key: Seq<char>, n: i64) -> bool {
    fs[i].0@ == key && as_i64(fs[i].1) == Some(n)
}

/// Member `i` of `fs` is `key` holding `v`.
pub open spec fn value_member(fs: Seq<(String, JsonValue)>, i: int, key: Seq<char>, v: JsonValue) -> bool {
    fs[i].0@ == key && fs[i].1 == v
}

fn int_value(n: i64) -> (r: JsonValue)
    ensures
        as_i64(r) == Some(n),
{
    if n >= 0 {
        JsonValue::Number(JsonNumber::PosInt(n as u64))
    } else {
        JsonValue::Number(JsonNumber::NegInt(n))
    }
}

fn member(key: &str, v: JsonValue) -> (r: (String, JsonValue))
    ensures
        r.0@ == key@,
        r.1 == v,
{
    (String::from_str(key), v)
}

fn str_member_value(key: &str, s: &str) -> (r: (String, JsonValue))
    ensures
        r.0@ == key@,
        is_str(r.1, s@),
{
    (String::from_str(key), JsonValue::Str(String::from_str(s)))
}

/// `{"jsonrpc": "2.0", "id": id, "method": method, "params": params}`.
pub fn request_message(id: i64, method: &str, params: JsonValue) -> (r: JsonValue)
    ensures
        r matches JsonValue::Object(fs) && fs@.len() == 4 && str_member(fs@, 0, "jsonrpc"@, "2.0"@)
            && int_member(fs@, 1, "id"@, id) && str_member(fs@, 2, "method"@, method@)
            && value_member(fs@, 3, "params"@, params),
{
    let mut fs: Vec<(String, JsonValue)> = Vec::new();
    fs.push(str_member_value("jsonrpc", "2.0"));
    fs.push(member("id", int_value(id)));
    fs.push(str_member_value("method", method));
    fs.push(member("params", params));
    JsonValue::Object(fs)
}

/// `{"jsonrpc": "2.0", "method": method, "params": params}`.
pub fn notification_message(method: &str, params: JsonValue) -> (r: JsonValue)
    ensures
        r matches JsonValue::Object(fs) && fs@.len() == 3 && str_member(fs@, 0, "jsonrpc"@, "2.0"@)
            && str_member(fs@, 1, "method"@, method@) && value_member(fs@, 2, "params"@, params),
{
    let mut fs: Vec<(String, JsonValue)> = Vec::new();
    fs.push(str_member_value("jsonrpc", "2.0"));
    fs.push(str_member_value("method", method));
    fs.push(member("params", params));
    JsonValue::Object(fs)
}

/// `v` is `{"uri": uri, "languageId": lang, "version": 1, "text": text}`.
pub open spec fn opened_document(v: JsonValue, uri: Seq<char>, lang: Seq<char>, text: Seq<char>) -> bool {
    match v {
        JsonValue::Object(fs) => {
            &&& fs@.len() == 4
            &&& str_member(fs@, 0, "uri"@, uri)
            &&& str_member(fs@, 1, "languageId"@, lang)
            &&& int_member(fs@, 2, "version"@, 1)
            &&& str_member(fs@, 3, "text"@, text)
        },
        _ => false,
    }
}

/// The parameters of `textDocument/didOpen` for the virtual document: version 1, the given
/// language id and text.
pub fn did_open_params(uri: &str, language_id: &str, content: &str) -> (r: JsonValue)
    ensures
        r matches JsonValue::Object(fs) && fs@.len() == 1 && fs@[0].0@ == "textDocument"@
            && opened_document(fs@[0].1, uri@, language_id@, content@),
{
    let mut td: Vec<(String, JsonValue)> = Vec::new();
    td.push(str_member_value("uri", uri));
    td.push(str_member_value("languageId", language_id));
    td.push(member("version", int_value(1)));
    td.push(str_member_value("text", content));
    let mut fs: Vec<(String, JsonValue)> = Vec::new();
    fs.push(member("textDocument", JsonValue::Object(td)));
    JsonValue::Object(fs)
}

/// `v` is `{"uri": uri, "version": version}`.
pub open spec fn versioned_document(v: JsonValue, uri: Seq<char>, version: i64) -> bool {
    match v {
        JsonValue::Object(fs) => fs@.len() == 2 && str_member(fs@, 0, "uri"@, uri) && int_member(
            fs@,
            1,
            "version"@,
            version,
        ),
        _ => false,
    }
}

/// `v` is `[{"text": text}]`.
pub open spec fn full_change(v: JsonValue, text: Seq<char>) -> bool {
    match v {
        JsonValue::Array(items) => items@.len() == 1 && match items@[0] {
            JsonValue::Object(fs) => fs@.len() == 1 && str_member(fs@, 0, "text"@, text),
            _ => false,
        },
        _ => false,
    }
}

/// The parameters of `textDocument/didChange`: one change that replaces the whole text.
pub fn did_change_params(uri: &str, version: i64, content: &str) -> (r: JsonValue)
    ensures
        r matches JsonValue::Object(fs) && fs@.len() == 2 && fs@[0].0@ == "textDocument"@
            && versioned_document(fs@[0].1, uri@, version) && fs@[1].0@ == "contentChanges"@
            && full_change(fs@[1].1, content@),
{
    let mut td: Vec<(String, JsonValue)> = Vec::new();
    td.push(str_member_value("uri", uri));
    td.push(member("version", int_value(version)));
    let mut change: Vec<(String, JsonValue)> = Vec::new();
    change.push(str_member_value("text", content));
    let mut changes: Vec<JsonValue> = Vec::new();
    changes.push(JsonValue::Object(change));
    let mut fs: Vec<(String, JsonValue)> = Vec::new();
    fs.push(member("textDocument", JsonValue::Object(td)));
    fs.push(member("contentChanges", JsonValue::Array(changes)));
    JsonValue::Object(fs)
}

/// `v` is `{"textDocument": {"synchronization": {"didSave": true}}}`.
pub open spec fn client_capabilities(v: JsonValue) -> bool {
    match v {
        JsonValue::Object(a) => a@.len() == 1 && a@[0].0@ == "textDocument"@ && match a@[0].1 {
            JsonValue::Object(b) => b@.len() == 1 && b@[0].0@ == "synchronization"@ && match b@[0].1 {
                JsonValue::Object(c) => c@.len() == 1 && value_member(c@, 0, "didSave"@, JsonValue::Bool(true)),
                _ => false,
            },
            _ => false,
        },
        _ => false,
    }
}

/// The parameters of `initialize`: the host's process id, the root URI, the declared client
/// capabilities, and the configured initialization options (an empty object where none).
pub fn initialize_params(process_id: u32, root_uri: &str, init_options: Option<JsonValue>) -> (r: JsonValue)
    ensures
        r matches JsonValue::Object(fs) && fs@.len() == 4 && int_member(fs@, 0, "processId"@, process_id as i64)
            && str_member(fs@, 1, "rootUri"@, root_uri@) && fs@[2].0@ == "capabilities"@
            && client_capabilities(fs@[2].1) && fs@[3].0@ == "initializationOptions"@ && match init_options {
            Some(o) => fs@[3].1 == o,
            None => fs@[3].1 matches JsonValue::Object(e) && e@.len() == 0,
        },
{
    let mut c: Vec<(String, JsonValue)> = Vec::new();
    c.push(member("didSave", JsonValue::Bool(true)));
    let mut b: Vec<(String, JsonValue)> = Vec::new();
    b.push(member("synchronization", JsonValue::Object(c)));
    let mut a: Vec<(String, JsonValue)> = Vec::new();
    a.push(member("textDocument", JsonValue::Object(b)));
    let opts = match init_options {
        Some(o) => o,
        None => JsonValue::Object(Vec::new()),
    };
    let mut fs: Vec<(String, JsonValue)> = Vec::new();
    fs.push(member("processId", int_value(process_id as i64)));
    fs.push(str_member_value("rootUri", root_uri));
    fs.push(member("capabilities", JsonValue::Object(a)));
    fs.push(member("initializationOptions", opts));
    JsonValue::Object(fs)
}

/// The counters of one child session: the id of its next request and the version of its
/// virtual document.
pub struct ChildCounters {
    pub next_id: i64,
    pub version: i64,
}

impl ChildCounters {
    /// A fresh session: request ids start at 1, and the document is opened at version 1.
    pub fn new() -> (r: Self)
        ensures
            r.next_id == 1,
            r.version == 1,
    {
        ChildCounters { next_id: 1, version: 1 }
    }

    /// Hands out the next request id.
    pub fn take_request_id(&mut self) -> (r: i64)
        requires
            old(self).next_id < i64::MAX,
        ensures
            r == old(self).next_id,
            final(self).next_id == old(self).next_id + 1,
            final(self).version == old(self).version,
    {
        let id = self.next_id;
        self.next_id = id + 1;
        id
    }

    /// Moves the document to its next version and returns it.
    pub fn bump_version(&mut self) -> (r: i64)
        requires
            old(self).version < i64::MAX,
        ensures
            r == old(self).version + 1,
            final(self).version == r,
            final(self).next_id == old(self).next_id,
    {
        self.version = self.version + 1;
        self.version
    }
}

/// The strings among `items`, in order.
pub open spec fn strings_of(items: Seq<JsonValue>) -> Seq<Seq<char>>
    decreases items.len(),
{
    if items.len() == 0 {
        seq![]
    } else {
        let rest = strings_of(items.drop_last());
        match items.last() {
            JsonValue::Str(s) => rest.push(s@),
            _ => rest,
        }
    }
}

/// The items of `capabilities.completionProvider.triggerCharacters`, where that is an array.
pub open spec fn trigger_items(caps: JsonValue) -> Option<Seq<JsonValue>> {
    match caps {
        JsonValue::Object(fs) => match key_index(fs@, "completionProvider"@) {
            Some(i) => match fs@[i].1 {
                JsonValue::Object(gs) => match key_index(gs@, "triggerCharacters"@) {
                    Some(j) => match gs@[j].1 {
                        JsonValue::Array(items) => Some(items@),
                        _ => None,
                    },
                    None => None,
                },
                _ => None,
            },
            None => None,
        },
        _ => None,
    }
}

/// The completion trigger characters that a child's capabilities declare: the strings of
/// `completionProvider.triggerCharacters`, where that is an array.
pub fn trigger_characters(caps: &JsonValue) -> (r: Option<Vec<String>>)
    ensures
        match trigger_items(*caps) {
            Some(items) => r matches Some(v) && v@.map_values(|s: String| s@) == strings_of(items),
            None => r is None,
        },
{
    let fs = match caps {
        JsonValue::Object(fs) => fs,
        _ => return None,
    };
    let i = match key_index_exec(fs, "completionProvider") {
        Some(i) => i,
        None => return None,
    };
    let gs = match &fs[i].1 {
        JsonValue::Object(gs) => gs,
        _ => return None,
    };
    let j = match key_index_exec(gs, "triggerCharacters") {
        Some(j) => j,
        None => return None,
    };
    let items = match &gs[j].1 {
        JsonValue::Array(items) => items,
        _ => return None,
    };
    let mut r: Vec<String> = Vec::new();
    let mut k: usize = 0;
    while k < items.len()
        invariant
            0 <= k <= items@.len(),
            r@.map_values(|s: String| s@) == strings_of(items@.take(k as int)),
        decreases items@.len() - k,
    {
        assert(items@.take(k + 1).drop_last() =~= items@.take(k as int));
        let ghost before = r@;
        match &items[k] {
            JsonValue::Str(s) => {
                r.push(s.clone());
                assert(r@.map_values(|s: String| s@) =~= before.map_values(|s: String| s@).push(s@));
            },
            _ => {},
        }
        k = k + 1;
    }
    assert(items@.take(k as int) =~= items@);
    Some(r)
}

/// `x` is one of the triggers of some child in `cache`.
pub open spec fn cached_trigger(cache: Seq<Vec<String>>, x: Seq<char>) -> bool {
    exists|a: int| 0 <= a < cache.len() && #[trigger] has_text(cache[a]@, x)
}

/// Every completion trigger learned from the children, each once.
pub fn all_completion_triggers(cache: &Vec<Vec<String>>) -> (r: Vec<String>)
    ensures
        distinct_texts(r@),
        forall|x: Seq<char>| #[trigger] has_text(r@, x) <==> cached_trigger(cache@, x),
{
    let mut r: Vec<String> = Vec::new();
    let mut a: usize = 0;
    while a < cache.len()
        invariant
            0 <= a <= cache@.len(),
            distinct_texts(r@),
            forall|x: Seq<char>| #[trigger] has_text(r@, x) <==> cached_trigger(cache@.take(a as int), x),
        decreases cache@.len() - a,
    {
        let list = &cache[a];
        let mut b: usize = 0;
        while b < list.len()
            invariant
                0 <= a < cache@.len(),
                *list == cache@[a as int],
                0 <= b <= list@.len(),
                distinct_texts(r@),
                forall|x: Seq<char>| #[trigger] has_text(r@, x) <==> (cached_trigger(cache@.take(a as int), x) || has_text(list@.take(b as int), x)),
            decreases list@.len() - b,
        {
            let c = chars_of(list[b].as_str());
            let ghost old_r = r@;
            proof { lemma_has_text_take(list@, b as int); }
            if !has_text_exec(&r, &c) {
                r.push(list[b].clone());
                proof { lemma_has_text_push(old_r, list@[b as int]); }
            }
            b = b + 1;
        }
        proof { lemma_cached_take(cache@, a as int); }
        assert(list@.take(b as int) =~= list@);
        a = a + 1;
    }
    assert(cache@.take(a as int) =~= cache@);
    r
}

proof fn lemma_has_text_take(l: Seq<String>, b: int)
    requires
        0 <= b < l.len(),
    ensures
        forall|x: Seq<char>| #[trigger] has_text(l.take(b + 1), x) <==> (has_text(l.take(b), x) || x == l[b]@),
{
    assert forall|x: Seq<char>| #[trigger] has_text(l.take(b + 1), x) <==> (has_text(l.take(b), x) || x == l[b]@) by {
        if has_text(l.take(b + 1), x) {
            let i = choose|i: int| 0 <= i < l.take(b + 1).len() && #[trigger] l.take(b + 1)[i]@ == x;
            if i < b {
                assert(l.take(b)[i]@ == x);
            }
        }
        if has_text(l.take(b), x) {
            let i = choose|i: int| 0 <= i < l.take(b).len() && #[trigger] l.take(b)[i]@ == x;
            assert(l.take(b + 1)[i]@ == x);
        }
        if x == l[b]@ {
            assert(l.take(b + 1)[b]@ == x);
        }
    }
}

proof fn lemma_has_text_push(r: Seq<String>, s: String)
    requires
        distinct_texts(r),
        !has_text(r, s@),
    ensures
        distinct_texts(r.push(s)),
        forall|x: Seq<char>| #[trigger] has_text(r.push(s), x) <==> (has_text(r, x) || x == s@),
{
    assert forall|x: Seq<char>| #[trigger] has_text(r.push(s), x) <==> (has_text(r, x) || x == s@) by {
        if has_text(r.push(s), x) {
            let i = choose|i: int| 0 <= i < r.push(s).len() && #[trigger] r.push(s)[i]@ == x;
            if i < r.len() {
                assert(r[i]@ == x);
            }
        }
        if has_text(r, x) {
            let i = choose|i: int| 0 <= i < r.len() && #[trigger] r[i]@ == x;
            assert(r.push(s)[i]@ == x);
        }
        if x == s@ {
            assert(r.push(s)[r.len() as int]@ == x);
        }
    }
    assert forall|a: int, b: int| 0 <= a < b < r.push(s).len() implies r.push(s)[a]@ != r.push(s)[b]@ by {
        if b == r.len() {
            assert(r[a]@ != s@);
        }
    }
}

proof fn lemma_cached_take(cache: Seq<Vec<String>>, a: int)
    requires
        0 <= a < cache.len(),
    ensures
        forall|x: Seq<char>| #[trigger] cached_trigger(cache.take(a + 1), x) <==> (cached_trigger(cache.take(a), x) || has_text(cache[a]@.take(cache[a]@.len() as int), x)),
{
    assert(cache[a]@.take(cache[a]@.len() as int) =~= cache[a]@);
    assert forall|x: Seq<char>| #[trigger] cached_trigger(cache.take(a + 1), x) <==> (cached_trigger(cache.take(a), x) || has_text(cache[a]@, x)) by {
        if cached_trigger(cache.take(a + 1), x) {
            let i = choose|i: int| 0 <= i < cache.take(a + 1).len() && #[trigger] has_text(cache.take(a + 1)[i]@, x);
            if i < a {
                assert(cache.take(a)[i] == cache[i]);
                assert(has_text(cache.take(a)[i]@, x));
            }
        }
        if cached_trigger(cache.take(a), x) {
            let i = choose|i: int| 0 <= i < cache.take(a).len() && #[trigger] has_text(cache.take(a)[i]@, x);
            assert(cache.take(a + 1)[i] == cache[i]);
            assert(has_text(cache.take(a + 1)[i]@, x));
        }
        if has_text(cache[a]@, x) {
            assert(cache.take(a + 1)[a] == cache[a]);
            assert(has_text(cache.take(a + 1)[a]@, x));
        }
    }
}

/// The triggers declared to the editor: all learned ones, or `" "` and `"."` while none are
/// known.
pub fn advertised_triggers(cache: &Vec<Vec<String>>) -> (r: Vec<String>)
    ensures
        distinct_texts(r@),
        (exists|x: Seq<char>| cached_trigger(cache@, x)) ==> forall|x: Seq<char>| #[trigger] has_text(r@, x) <==> cached_trigger(cache@, x),
        !(exists|x: Seq<char>| cached_trigger(cache@, x)) ==> r@.len() == 2 && r@[0]@ == " "@ && r@[1]@ == "."@,
{
    let all = all_completion_triggers(cache);
    if all.len() > 0 {
        assert(has_text(all@, all@[0]@));
        return all;
    }
    proof {
        assert forall|x: Seq<char>| !cached_trigger(cache@, x) by {
            if cached_trigger(cache@, x) {
                assert(has_text(all@, x));
            }
        }
        reveal_strlit(" ");
        reveal_strlit(".");
    }
    let mut r: Vec<String> = Vec::new();
    r.push(String::from_str(" "));
    r.push(String::from_str("."));
    proof {
        reveal_strlit(" ");
        reveal_strlit(".");
        assert(" "@[0] != "."@[0]);
    }
    assert(r@[0]@ != r@[1]@);
    r
}

} // verus!

verus! {

/// The steps of starting a child server.
pub enum InitStage {
    Spawn,
    Initialize,
    OpenDocument,
}

/// Starts child servers: spawn, `initialize` and `initialized`, then `didOpen` of the virtual
/// document. The steps run in the host; this type names their failures.
pub struct ChildLspInitializer;

impl ChildLspInitializer {
    /// The message reported when a step of starting the child for `lang` fails with `error`.
    pub fn failure_message(stage: InitStage, lang: &str, error: &str) -> (r: String)
        ensures
            r@ == match stage {
                InitStage::Spawn => "Failed to spawn child LSP for '"@,
                InitStage::Initialize => "Failed to initialize child LSP for '"@,
                InitStage::OpenDocument => "Failed to open virtual document for '"@,
            } + lang@ + "': "@ + error@,
    {
        let mut r = match stage {
            InitStage::Spawn => String::from_str("Failed to spawn child LSP for '"),
            InitStage::Initialize => String::from_str("Failed to initialize child LSP for '"),
            InitStage::OpenDocument => String::from_str("Failed to open virtual document for '"),
        };
        r.append(lang);
        r.append("': ");
        r.append(error);
        r
    }
}

} // verus!
