use vstd::prelude::*;
use vstd::string::*;
use crate::json::{copy_value, deep_eq, JsonValue};
use crate::text::chars_of;
use crate::references::prefix_at;
use crate::virtual_doc::vec_eq;

verus! {

broadcast use vstd::std_specs::vec::group_vec_axioms;

/// How to start one language server.
pub struct LspConfig {
    pub command: String,
    pub args: Vec<String>,
    /// Initialization options; `Null` where none are configured.
    pub config: JsonValue,
}

/// A language server named together with the features it should not serve.
pub struct LanguageServerRef {
    pub name: String,
    pub except_features: Vec<String>,
}

/// A language's server, by name alone or with options.
pub enum LanguageServerEntry {
    String(String),
    Object(LanguageServerRef),
}

/// A language and its servers, in order of preference.
pub struct LanguageConfig {
    pub name: String,
    pub language_servers: Vec<LanguageServerEntry>,
}

/// The name of the server an entry refers to.
pub open spec fn entry_name(e: LanguageServerEntry) -> Seq<char> {
    match e {
        LanguageServerEntry::String(s) => s@,
        LanguageServerEntry::Object(o) => o.name@,
    }
}

/// The server names of a language, in order.
pub open spec fn server_names(l: LanguageConfig) -> Seq<Seq<char>> {
    l.language_servers@.map_values(|e: LanguageServerEntry| entry_name(e))
}

/// Reads the server name out of an entry, whichever form it has.
pub trait LanguageServerEntryExt {
    spec fn server_name_spec(&self) -> Seq<char>;

    fn to_server_name(&self) -> (r: String)
        ensures
            r@ == self.server_name_spec(),
    ;
}

impl LanguageServerEntryExt for LanguageServerEntry {
    open spec fn server_name_spec(&self) -> Seq<char> {
        entry_name(*self)
    }

    fn to_server_name(&self) -> (r: String) {
        match self {
            LanguageServerEntry::String(s) => s.clone(),
            LanguageServerEntry::Object(obj) => obj.name.clone(),
        }
    }
}

impl LanguageConfig {
    /// The names of this language's servers, in order.
    pub fn get_server_names(&self) -> (r: Vec<String>)
        ensures
            r@.len() == self.language_servers@.len(),
            forall|i: int| 0 <= i < r@.len() ==> #[trigger] r@[i]@ == server_names(*self)[i],
    {
        let mut r: Vec<String> = Vec::new();
        let mut i: usize = 0;
        while i < self.language_servers.len()
            invariant
                0 <= i <= self.language_servers@.len(),
                r@.len() == i,
                forall|j: int| 0 <= j < i ==> #[trigger] r@[j]@ == server_names(*self)[j],
            decreases self.language_servers@.len() - i,
        {
            r.push(self.language_servers[i].to_server_name());
            i = i + 1;
        }
        r
    }
}

/// What `str::to_lowercase` returns for a string.
pub uninterp spec fn lower_of(s: Seq<char>) -> Seq<char>;

/// Relies on `str::to_lowercase`: the result depends on the characters alone.
#[verifier::external_body]
fn lowercase(s: &str) -> (r: String)
    ensures
        r@ == lower_of(s@),
{
    s.to_lowercase()
}

/// The lower-cased form of a text.
pub fn lowercase_text(s: &String) -> (r: String)
    ensures
        r@ == lower_of(s@),
{
    lowercase(s.as_str())
}

/// Documentation formats whose servers must never run as children: such a server would
/// start this server again.
pub open spec fn forbidden_formats() -> Seq<Seq<char>> {
    seq![
        "md"@,
        "markdown"@,
        "typst"@,
        "rst"@,
        "restructuredtext"@,
        "org"@,
        "asciidoc"@,
        "latex"@,
        "tex"@,
    ]
}

/// The forbidden documentation formats.
pub fn forbidden_formats_exec() -> (r: Vec<&'static str>)
    ensures
        r@.len() == forbidden_formats().len(),
        forall|i: int| 0 <= i < r@.len() ==> #[trigger] r@[i]@ == forbidden_formats()[i],
{
    let r = vec!["md", "markdown", "typst", "rst", "restructuredtext", "org", "asciidoc", "latex", "tex"];
    assert(r@.len() == 9);
    r
}

/// `t` occurs in `s`.
pub open spec fn contains_sub(s: Seq<char>, t: Seq<char>) -> bool {
    exists|i: int| 0 <= i && i + t.len() <= s.len() && #[trigger] s.subrange(i, i + t.len()) == t
}

/// A language name that, compared without regard to case, is a documentation format.
pub open spec fn names_doc_format(name: Seq<char>) -> bool {
    forbidden_formats().contains(lower_of(name))
}

/// `s` is the name of a server that some documentation-format language uses (never this
/// server itself).
pub open spec fn is_forbidden_lsp(langs: Seq<LanguageConfig>, s: Seq<char>) -> bool {
    &&& lower_of(s) != "literate-lsp"@
    &&& exists|i: int, j: int|
        0 <= i < langs.len() && names_doc_format(langs[i].name@) && 0 <= j < server_names(
            langs[i],
        ).len() && #[trigger] server_names(langs[i])[j] == s
}

/// Whether `t` occurs in `s`.
pub fn contains_sub_exec(s: &Vec<char>, t: &Vec<char>) -> (r: bool)
    ensures
        r == contains_sub(s@, t@),
{
    let n = s.len();
    let mut i: usize = 0;
    while i < n && t.len() <= n - i
        invariant
            n == s@.len(),
            0 <= i <= n,
            forall|k: int| 0 <= k < i ==> #[trigger] s@.subrange(k, k + t@.len()) != t@,
        decreases n - i,
    {
        if prefix_at(s, i, t) {
            let ghost k = i as int;
            assert(0 <= k && k + t@.len() <= s@.len() && s@.subrange(k, k + t@.len()) == t@);
            assert(contains_sub(s@, t@));
            return true;
        }
        i = i + 1;
    }
    if i == n && t.len() == 0 {
        let ghost k = i as int;
        assert(s@.subrange(k, k + t@.len()) =~= t@);
        assert(contains_sub(s@, t@));
        return true;
    }
    false
}

/// Whether `name` is one of the forbidden documentation formats.
pub fn is_doc_format_exec(name: &Vec<char>) -> (r: bool)
    ensures
        r == forbidden_formats().contains(name@),
{
    let fs = forbidden_formats_exec();
    let mut k: usize = 0;
    while k < fs.len()
        invariant
            0 <= k <= fs@.len(),
            fs@.len() == forbidden_formats().len(),
            forall|i: int| 0 <= i < fs@.len() ==> #[trigger] fs@[i]@ == forbidden_formats()[i],
            forall|i: int| 0 <= i < k ==> forbidden_formats()[i] != name@,
        decreases fs@.len() - k,
    {
        if vec_eq(&chars_of(fs[k]), name) {
            assert(forbidden_formats()[k as int] == name@);
            return true;
        }
        k = k + 1;
    }
    false
}

/// Whether a language name, compared without regard to case, is a documentation format.
pub fn names_doc_format_exec(name: &str) -> (r: bool)
    ensures
        r == names_doc_format(name@),
{
    let lower = lowercase(name);
    is_doc_format_exec(&chars_of(lower.as_str()))
}

/// The configuration that decides which child server runs for a language.
pub struct Config {
    pub language: Vec<LanguageConfig>,
    /// Server name to server, looked up by the first entry with the name.
    pub language_server: Vec<(String, LspConfig)>,
}

/// Each server name appears once.
pub open spec fn servers_unique(ps: Seq<(String, LspConfig)>) -> bool {
    forall|i: int, j: int| 0 <= i < j < ps.len() ==> ps[i].0@ != ps[j].0@
}

/// The server configured under `k`: the first entry with that name.
pub open spec fn lookup(ps: Seq<(String, LspConfig)>, k: Seq<char>) -> Option<LspConfig>
    decreases ps.len(),
{
    if ps.len() == 0 {
        None
    } else if ps[0].0@ == k {
        Some(ps[0].1)
    } else {
        lookup(ps.drop_first(), k)
    }
}

/// `x` was found among the servers of the languages before `i`, or of language `i` before
/// its entry `j`.
pub open spec fn forbidden_seen(langs: Seq<LanguageConfig>, x: Seq<char>, i: int, j: int) -> bool {
    &&& lower_of(x) != "literate-lsp"@
    &&& exists|a: int, b: int|
        0 <= a < langs.len() && (a < i || (a == i && b < j)) && names_doc_format(langs[a].name@)
            && 0 <= b < server_names(langs[a]).len() && #[trigger] server_names(langs[a])[b] == x
}

/// `name`, lower-cased, is a documentation format or the lower-cased name of a server that
/// one uses.
pub open spec fn forbidden_lower(langs: Seq<LanguageConfig>, lower: Seq<char>) -> bool {
    ||| forbidden_formats().contains(lower)
    ||| exists|x: Seq<char>| is_forbidden_lsp(langs, x) && #[trigger] lower_of(x) == lower
}

/// `r` holds each element once, as text.
pub open spec fn distinct_texts(r: Seq<String>) -> bool {
    forall|a: int, b: int| 0 <= a < b < r.len() ==> r[a]@ != r[b]@
}

/// `x` is the text of some element of `r`.
pub open spec fn has_text(r: Seq<String>, x: Seq<char>) -> bool {
    exists|a: int| 0 <= a < r.len() && #[trigger] r[a]@ == x
}

/// Whether some element of `r` has the text `x`.
pub fn has_text_exec(r: &Vec<String>, x: &Vec<char>) -> (b: bool)
    ensures
        b == has_text(r@, x@),
{
    let mut a: usize = 0;
    while a < r.len()
        invariant
            0 <= a <= r@.len(),
            forall|c: int| 0 <= c < a ==> r@[c]@ != x@,
        decreases r@.len() - a,
    {
        if vec_eq(&chars_of(r[a].as_str()), x) {
            return true;
        }
        a = a + 1;
    }
    false
}

proof fn lemma_seen_push(
    langs: Seq<LanguageConfig>,
    i: int,
    j: int,
    old_r: Seq<String>,
    name: String,
)
    requires
        0 <= i < langs.len(),
        0 <= j < server_names(langs[i]).len(),
        server_names(langs[i])[j] == name@,
        names_doc_format(langs[i].name@),
        lower_of(name@) != "literate-lsp"@,
        !has_text(old_r, name@),
        distinct_texts(old_r),
        forall|x: Seq<char>| #[trigger] has_text(old_r, x) <==> forbidden_seen(langs, x, i, j),
    ensures
        distinct_texts(old_r.push(name)),
        forall|x: Seq<char>|
            #[trigger] has_text(old_r.push(name), x) <==> forbidden_seen(langs, x, i, j + 1),
{
    let r = old_r.push(name);
    assert(r[old_r.len() as int] == name);
    assert forall|x: Seq<char>| has_text(r, x) implies #[trigger] forbidden_seen(
        langs,
        x,
        i,
        j + 1,
    ) by {
        let a = choose|a: int| 0 <= a < r.len() && #[trigger] r[a]@ == x;
        if a < old_r.len() {
            assert(old_r[a]@ == x);
            assert(has_text(old_r, x));
            assert(forbidden_seen(langs, x, i, j));
            let (a2, b2) = choose|a2: int, b2: int|
                0 <= a2 < langs.len() && (a2 < i || (a2 == i && b2 < j)) && names_doc_format(
                    langs[a2].name@,
                ) && 0 <= b2 < server_names(langs[a2]).len() && #[trigger] server_names(
                    langs[a2],
                )[b2] == x;
            assert(server_names(langs[a2])[b2] == x);
        } else {
            assert(server_names(langs[i])[j] == x);
        }
    }
    assert forall|x: Seq<char>| forbidden_seen(langs, x, i, j + 1) implies #[trigger] has_text(
        r,
        x,
    ) by {
        if forbidden_seen(langs, x, i, j) {
            assert(has_text(old_r, x));
            let a = choose|a: int| 0 <= a < old_r.len() && #[trigger] old_r[a]@ == x;
            assert(r[a]@ == x);
        } else {
            let (a, b) = choose|a: int, b: int|
                0 <= a < langs.len() && (a < i || (a == i && b < j + 1)) && names_doc_format(
                    langs[a].name@,
                ) && 0 <= b < server_names(langs[a]).len() && #[trigger] server_names(langs[a])[b]
                    == x;
            assert(a == i && b == j);
            assert(r[old_r.len() as int]@ == x);
        }
    }
    assert forall|a: int, b: int| 0 <= a < b < r.len() implies r[a]@ != r[b]@ by {
        if b == old_r.len() {
            assert(old_r[a]@ != name@);
        }
    }
}

proof fn lemma_seen_skip(langs: Seq<LanguageConfig>, i: int, j: int, r: Seq<String>)
    requires
        0 <= i < langs.len(),
        0 <= j < server_names(langs[i]).len(),
        !names_doc_format(langs[i].name@) || lower_of(server_names(langs[i])[j]) == "literate-lsp"@
            || has_text(r, server_names(langs[i])[j]),
        forall|x: Seq<char>| #[trigger] has_text(r, x) <==> forbidden_seen(langs, x, i, j),
    ensures
        forall|x: Seq<char>| #[trigger] has_text(r, x) <==> forbidden_seen(langs, x, i, j + 1),
{
    assert forall|x: Seq<char>| has_text(r, x) implies #[trigger] forbidden_seen(
        langs,
        x,
        i,
        j + 1,
    ) by {
        assert(forbidden_seen(langs, x, i, j));
        let (a, b) = choose|a: int, b: int|
            0 <= a < langs.len() && (a < i || (a == i && b < j)) && names_doc_format(
                langs[a].name@,
            ) && 0 <= b < server_names(langs[a]).len() && #[trigger] server_names(langs[a])[b]
                == x;
        assert(server_names(langs[a])[b] == x);
    }
    assert forall|x: Seq<char>| forbidden_seen(langs, x, i, j + 1) implies #[trigger] has_text(
        r,
        x,
    ) by {
        if !forbidden_seen(langs, x, i, j) {
            let (a, b) = choose|a: int, b: int|
                0 <= a < langs.len() && (a < i || (a == i && b < j + 1)) && names_doc_format(
                    langs[a].name@,
                ) && 0 <= b < server_names(langs[a]).len() && #[trigger] server_names(langs[a])[b]
                    == x;
            assert(a == i && b == j);
        }
    }
}

impl Config {
    /// The configuration's invariant: server names are unique, as in a table keyed by name.
    pub open spec fn wf(&self) -> bool {
        servers_unique(self.language_server@)
    }

    /// The servers that documentation-format languages use, each once; never this server
    /// (`literate-lsp`) itself.
    pub fn get_forbidden_lsps(&self) -> (r: Vec<String>)
        ensures
            distinct_texts(r@),
            forall|x: Seq<char>| #[trigger] has_text(r@, x) <==> is_forbidden_lsp(self.language@, x),
    {
        let langs = &self.language;
        let mut r: Vec<String> = Vec::new();
        let mut i: usize = 0;
        while i < langs.len()
            invariant
                0 <= i <= langs@.len(),
                distinct_texts(r@),
                forall|x: Seq<char>| #[trigger] has_text(r@, x) <==> forbidden_seen(langs@, x, i as int, 0),
            decreases langs@.len() - i,
        {
            let lang = &langs[i];
            let doc = names_doc_format_exec(lang.name.as_str());
            let names = lang.get_server_names();
            let mut j: usize = 0;
            while j < names.len()
                invariant
                    0 <= i < langs@.len(),
                    *lang == langs@[i as int],
                    doc == names_doc_format(lang.name@),
                    names@.len() == server_names(*lang).len(),
                    forall|b: int| 0 <= b < names@.len() ==> #[trigger] names@[b]@ == server_names(*lang)[b],
                    0 <= j <= names@.len(),
                    distinct_texts(r@),
                    forall|x: Seq<char>| #[trigger] has_text(r@, x) <==> forbidden_seen(langs@, x, i as int, j as int),
                decreases names@.len() - j,
            {
                let name = &names[j];
                let lower = lowercase(name.as_str());
                let self_server = vec_eq(&chars_of(lower.as_str()), &chars_of("literate-lsp"));
                let nc = chars_of(name.as_str());
                if doc && !self_server && !has_text_exec(&r, &nc) {
                    let ghost old_r = r@;
                    r.push(name.clone());
                    proof {
                        lemma_seen_push(langs@, i as int, j as int, old_r, *name);
                        assert(r@ == old_r.push(*name));
                    }
                } else {
                    proof {
                        lemma_seen_skip(langs@, i as int, j as int, r@);
                    }
                }
                j = j + 1;
            }
            assert forall|x: Seq<char>| forbidden_seen(langs@, x, i as int, j as int) <==> forbidden_seen(langs@, x, i + 1, 0) by {}
            i = i + 1;
        }
        assert forall|x: Seq<char>| forbidden_seen(langs@, x, i as int, 0) <==> is_forbidden_lsp(self.language@, x) by {}
        r
    }
}

/// A server that may run as a child: not forbidden, configured, with a command.
pub open spec fn usable(c: Config, name: Seq<char>) -> bool {
    &&& !forbidden_lower(c.language@, lower_of(name))
    &&& lookup(c.language_server@, name) matches Some(s) && s.command@.len() > 0
}

/// The commands of the usable servers among `names`, in order.
pub open spec fn candidate_commands(c: Config, names: Seq<Seq<char>>) -> Seq<Seq<char>>
    decreases names.len(),
{
    if names.len() == 0 {
        seq![]
    } else {
        let rest = candidate_commands(c, names.drop_first());
        if usable(c, names[0]) {
            seq![lookup(c.language_server@, names[0])->0.command@] + rest
        } else {
            rest
        }
    }
}

/// The first usable server among `names` whose command is installed.
pub open spec fn first_installed(c: Config, names: Seq<Seq<char>>, installed: Seq<String>) -> Option<
    LspConfig,
>
    decreases names.len(),
{
    if names.len() == 0 {
        None
    } else if usable(c, names[0]) && has_text(
        installed,
        lookup(c.language_server@, names[0])->0.command@,
    ) {
        lookup(c.language_server@, names[0])
    } else {
        first_installed(c, names.drop_first(), installed)
    }
}

/// The server chosen for `lang`: a server of that very name with a command; else the first
/// usable and installed server of the language `lang`.
pub open spec fn resolve(c: Config, lang: Seq<char>, installed: Seq<String>) -> Option<LspConfig> {
    match lookup(c.language_server@, lang) {
        Some(s) if s.command@.len() > 0 => Some(s),
        _ => match first_lang_index(c.language@, lang) {
            Some(i) => first_installed(c, server_names(c.language@[i]), installed),
            None => None,
        },
    }
}

/// The first entry of `ps` named `k`.
pub fn find_server(ps: &Vec<(String, LspConfig)>, k: &str) -> (r: Option<usize>)
    ensures
        match r {
            Some(i) => {
                &&& i < ps@.len()
                &&& ps@[i as int].0@ == k@
                &&& lookup(ps@, k@) == Some(ps@[i as int].1)
                &&& forall|j: int| 0 <= j < i ==> (#[trigger] ps@[j]).0@ != k@
            },
            None => {
                &&& lookup(ps@, k@) is None
                &&& forall|j: int| 0 <= j < ps@.len() ==> (#[trigger] ps@[j]).0@ != k@
            },
        },
{
    let kc = chars_of(k);
    let mut i: usize = 0;
    assert(ps@.skip(0) =~= ps@);
    while i < ps.len()
        invariant
            0 <= i <= ps@.len(),
            kc@ == k@,
            lookup(ps@, k@) == lookup(ps@.skip(i as int), k@),
            forall|j: int| 0 <= j < i ==> (#[trigger] ps@[j]).0@ != k@,
        decreases ps@.len() - i,
    {
        assert(ps@.skip(i as int)[0] == ps@[i as int]);
        assert(ps@.skip(i as int).drop_first() =~= ps@.skip(i + 1));
        if vec_eq(&chars_of(ps[i].0.as_str()), &kc) {
            return Some(i);
        }
        i = i + 1;
    }
    None
}

proof fn lemma_lookup_update(ps: Seq<(String, LspConfig)>, i: int, e: (String, LspConfig), k: Seq<char>)
    requires
        0 <= i < ps.len(),
        ps[i].0@ == e.0@,
        forall|j: int| 0 <= j < i ==> (#[trigger] ps[j]).0@ != e.0@,
    ensures
        lookup(ps.update(i, e), k) == if k == e.0@ {
            Some(e.1)
        } else {
            lookup(ps, k)
        },
    decreases i,
{
    let u = ps.update(i, e);
    if i > 0 {
        assert(u[0] == ps[0]);
        assert(u.drop_first() =~= ps.drop_first().update(i - 1, e));
        assert forall|j: int| 0 <= j < i - 1 implies (#[trigger] ps.drop_first()[j]).0@ != e.0@ by {
            assert(ps.drop_first()[j] == ps[j + 1]);
        }
        lemma_lookup_update(ps.drop_first(), i - 1, e, k);
        if ps[0].0@ != k {
            assert(lookup(u, k) == lookup(u.drop_first(), k));
            assert(lookup(ps, k) == lookup(ps.drop_first(), k));
        }
    } else {
        assert(u[0] == e);
        assert(u.drop_first() =~= ps.drop_first());
        if k != e.0@ {
            assert(lookup(u, k) == lookup(u.drop_first(), k));
            assert(lookup(ps, k) == lookup(ps.drop_first(), k));
        }
    }
}

proof fn lemma_lookup_push(ps: Seq<(String, LspConfig)>, e: (String, LspConfig), k: Seq<char>)
    ensures
        lookup(ps.push(e), k) == match lookup(ps, k) {
            Some(v) => Some(v),
            None => if e.0@ == k {
                Some(e.1)
            } else {
                None
            },
        },
    decreases ps.len(),
{
    let u = ps.push(e);
    if ps.len() > 0 {
        assert(u[0] == ps[0]);
        assert(u.drop_first() =~= ps.drop_first().push(e));
        lemma_lookup_push(ps.drop_first(), e, k);
        if ps[0].0@ != k {
            assert(lookup(u, k) == lookup(u.drop_first(), k));
            assert(lookup(ps, k) == lookup(ps.drop_first(), k));
        }
    } else {
        assert(u[0] == e);
        assert(u.drop_first() =~= Seq::<(String, LspConfig)>::empty());
        if e.0@ != k {
            assert(lookup(u, k) == lookup(u.drop_first(), k));
        }
    }
}

/// Puts `e` under its key: replaces the first entry with that key, or adds it.
pub fn insert_server(ps: &mut Vec<(String, LspConfig)>, e: (String, LspConfig))
    ensures
        forall|k: Seq<char>| #[trigger] lookup(final(ps)@, k) == if k == e.0@ {
            Some(e.1)
        } else {
            lookup(old(ps)@, k)
        },
        servers_unique(old(ps)@) ==> servers_unique(final(ps)@),
{
    match find_server(ps, e.0.as_str()) {
        Some(i) => {
            let ghost old_ps = ps@;
            let ghost e0 = e;
            ps.set(i, e);
            assert forall|a: int, b: int| 0 <= a < b < ps@.len() && servers_unique(old_ps) implies ps@[a].0@ != ps@[b].0@ by {
                assert(ps@[a].0@ == old_ps[a].0@ && ps@[b].0@ == old_ps[b].0@);
            }
            assert forall|k: Seq<char>| #[trigger] lookup(ps@, k) == if k == e0.0@ {
                Some(e0.1)
            } else {
                lookup(old_ps, k)
            } by {
                lemma_lookup_update(old_ps, i as int, e0, k);
            }
        },
        None => {
            let ghost old_ps = ps@;
            let ghost e0 = e;
            ps.push(e);
            assert forall|a: int, b: int| 0 <= a < b < ps@.len() && servers_unique(old_ps) implies ps@[a].0@ != ps@[b].0@ by {
                if b == old_ps.len() {
                    assert(old_ps[a].0@ != e0.0@);
                }
            }
            assert forall|k: Seq<char>| #[trigger] lookup(ps@, k) == if k == e0.0@ {
                Some(e0.1)
            } else {
                lookup(old_ps, k)
            } by {
                lemma_lookup_push(old_ps, e0, k);
            }
        },
    }
}

/// `langs` after merging in the language `o`: a language of the same name takes `o`'s
/// servers; otherwise `o` is added.
pub open spec fn merge_lang(langs: Seq<LanguageConfig>, o: LanguageConfig) -> Seq<LanguageConfig> {
    match first_lang_index(langs, o.name@) {
        Some(i) => langs.update(
            i,
            LanguageConfig { name: langs[i].name, language_servers: o.language_servers },
        ),
        None => langs.push(o),
    }
}

/// `langs` after merging in each of `others`, in order.
pub open spec fn merge_langs(langs: Seq<LanguageConfig>, others: Seq<LanguageConfig>) -> Seq<
    LanguageConfig,
>
    decreases others.len(),
{
    if others.len() == 0 {
        langs
    } else {
        merge_langs(merge_lang(langs, others[0]), others.drop_first())
    }
}

/// Index of the first language named `name`.
pub open spec fn first_lang_index(langs: Seq<LanguageConfig>, name: Seq<char>) -> Option<int> {
    if exists|i: int| 0 <= i < langs.len() && #[trigger] langs[i].name@ == name {
        Some(
            choose|i: int|
                0 <= i < langs.len() && #[trigger] langs[i].name@ == name && forall|j: int|
                    0 <= j < i ==> (#[trigger] langs[j]).name@ != name,
        )
    } else {
        None
    }
}

/// A server entry that filtering keeps: its lower-cased name is neither a documentation
/// format nor the name of a forbidden server.
pub open spec fn kept_server(langs: Seq<LanguageConfig>, key: Seq<char>) -> bool {
    !forbidden_formats().contains(lower_of(key)) && !is_forbidden_lsp(langs, lower_of(key))
}

fn find_lang(langs: &Vec<LanguageConfig>, name: &Vec<char>) -> (r: Option<usize>)
    ensures
        r matches Some(i) ==> i < langs@.len() && first_lang_index(langs@, name@) == Some(i as int),
        r is None ==> first_lang_index(langs@, name@) is None,
{
    let mut i: usize = 0;
    while i < langs.len()
        invariant
            0 <= i <= langs@.len(),
            forall|j: int| 0 <= j < i ==> (#[trigger] langs@[j]).name@ != name@,
        decreases langs@.len() - i,
    {
        if vec_eq(&chars_of(langs[i].name.as_str()), name) {
            let ghost gi = i as int;
            assert(langs@[gi].name@ == name@);
            let ghost c = choose|c: int|
                0 <= c < langs@.len() && #[trigger] langs@[c].name@ == name@ && forall|j: int|
                    0 <= j < c ==> (#[trigger] langs@[j]).name@ != name@;
            assert(c == gi) by {
                if c < gi {
                    assert(langs@[c].name@ != name@);
                } else if c > gi {
                    assert(langs@[gi].name@ != name@);
                }
            }
            return Some(i);
        }
        i = i + 1;
    }
    None
}

impl Config {
    /// Whether an already lower-cased name is forbidden as a child: a documentation format,
    /// or the lower-cased name of a server that one uses.
    pub fn is_lower_forbidden(&self, lower: &str) -> (r: bool)
        ensures
            r == forbidden_lower(self.language@, lower@),
    {
        if is_doc_format_exec(&chars_of(lower)) {
            return true;
        }
        let lc = chars_of(lower);
        let f = self.get_forbidden_lsps();
        let mut k: usize = 0;
        while k < f.len()
            invariant
                0 <= k <= f@.len(),
                lc@ == lower@,
                forall|x: Seq<char>| #[trigger] has_text(f@, x) <==> is_forbidden_lsp(self.language@, x),
                forall|c: int| 0 <= c < k ==> lower_of((#[trigger] f@[c])@) != lower@,
            decreases f@.len() - k,
        {
            let fl = lowercase(f[k].as_str());
            if vec_eq(&chars_of(fl.as_str()), &lc) {
                assert(has_text(f@, f@[k as int]@));
                return true;
            }
            k = k + 1;
        }
        assert forall|x: Seq<char>| is_forbidden_lsp(self.language@, x) implies #[trigger] lower_of(x) != lower@ by {
            assert(has_text(f@, x));
            let a = choose|a: int| 0 <= a < f@.len() && #[trigger] f@[a]@ == x;
            assert(lower_of(f@[a]@) != lower@);
        }
        false
    }

    /// Whether `name` is forbidden as a child server, compared without regard to case.
    pub fn is_format_forbidden(&self, name: &str) -> (r: bool)
        ensures
            r == forbidden_lower(self.language@, lower_of(name@)),
    {
        let lower = lowercase(name);
        self.is_lower_forbidden(lower.as_str())
    }

    /// Whether `lang`, compared without regard to case, is a documentation format.
    pub fn is_format_forbidden_static(lang: &str) -> (r: bool)
        ensures
            r == forbidden_formats().contains(lower_of(lang@)),
    {
        let lower = lowercase(lang);
        is_doc_format_exec(&chars_of(lower.as_str()))
    }

    /// Merges `other` into this configuration: its servers replace those of the same name,
    /// and each of its languages replaces the server list of the language of the same name,
    /// or is added.
    pub fn merge(&mut self, other: Config)
        ensures
            forall|k: Seq<char>| #[trigger] lookup(final(self).language_server@, k) == match lookup(other.language_server@, k) {
                Some(v) => Some(v),
                None => lookup(old(self).language_server@, k),
            },
            final(self).language@ == merge_langs(old(self).language@, other.language@),
            old(self).wf() ==> final(self).wf(),
    {
        let ghost ols = self.language_server@;
        let ghost other_ls = other.language_server@;
        let ghost other_langs = other.language@;
        let mut servers = other.language_server;
        let mut others = other.language;
        while servers.len() > 0
            invariant
                self.language@ == old(self).language@,
                servers@ == other_ls.take(servers@.len() as int),
                servers@.len() <= other_ls.len(),
                servers_unique(ols) ==> servers_unique(self.language_server@),
                forall|k: Seq<char>| #[trigger] lookup(self.language_server@, k) == match lookup(other_ls.skip(servers@.len() as int), k) {
                    Some(v) => Some(v),
                    None => lookup(ols, k),
                },
            decreases servers@.len(),
        {
            let ghost n = servers@.len() as int;
            let e = servers.pop().unwrap();
            assert(e == other_ls[n - 1]);
            assert(other_ls.skip(n - 1)[0] == e);
            assert(other_ls.skip(n - 1).drop_first() =~= other_ls.skip(n));
            assert(servers@ =~= other_ls.take(n - 1));
            insert_server(&mut self.language_server, e);
        }
        assert(other_ls.skip(0) =~= other_ls);
        let ghost start = self.language@;
        let ghost servers_done = self.language_server@;
        let ghost mut taken: int = 0;
        assert(other_langs.skip(0) =~= other_langs);
        while others.len() > 0
            invariant
                0 <= taken <= other_langs.len(),
                self.language_server@ == servers_done,
                servers_unique(ols) ==> servers_unique(servers_done),
                start == old(self).language@,
                others@ == other_langs.skip(taken),
                merge_langs(self.language@, others@) == merge_langs(start, other_langs),
                forall|k: Seq<char>| #[trigger] lookup(self.language_server@, k) == match lookup(other_ls, k) {
                    Some(v) => Some(v),
                    None => lookup(ols, k),
                },
            decreases others@.len(),
        {
            let ghost before = self.language@;
            let ghost rest = others@;
            let o = others.remove(0);
            assert(others@ =~= rest.drop_first());
            let oname = chars_of(o.name.as_str());
            match find_lang(&self.language, &oname) {
                Some(i) => {
                    let mut e = LanguageConfig { name: String::new(), language_servers: Vec::new() };
                    self.language.set_and_swap(i, &mut e);
                    assert(e == before[i as int]);
                    e.language_servers = o.language_servers;
                    assert(e == LanguageConfig { name: before[i as int].name, language_servers: rest[0].language_servers });
                    self.language.set(i, e);
                    assert(self.language@ == before.update(i as int, e));
                    assert(first_lang_index(before, rest[0].name@) == Some(i as int));
                    assert(self.language@ =~= merge_lang(before, rest[0]));
                },
                None => {
                    self.language.push(o);
                    assert(self.language@ =~= merge_lang(before, rest[0]));
                },
            }
            proof {
                taken = taken + 1;
            }
            assert(others@ =~= other_langs.skip(taken));
        }
        assert(merge_langs(self.language@, others@) == self.language@);
    }

    /// Whether filtering drops a server whose lower-cased name is `lower`: a documentation
    /// format, or the exact name of a forbidden server.
    pub fn drops_lower(&self, lower: &str) -> (r: bool)
        ensures
            r == (forbidden_formats().contains(lower@) || is_forbidden_lsp(self.language@, lower@)),
    {
        let lc = chars_of(lower);
        if is_doc_format_exec(&lc) {
            return true;
        }
        let forbidden = self.get_forbidden_lsps();
        has_text_exec(&forbidden, &lc)
    }

    /// Drops every server whose lower-cased name is a documentation format or the name of a
    /// forbidden server, so that no such server can be started as a child.
    pub fn filter_forbidden_formats(&mut self)
        ensures
            final(self).language@ == old(self).language@,
            forall|k: Seq<char>| #[trigger] lookup(final(self).language_server@, k) == if kept_server(old(self).language@, k) {
                lookup(old(self).language_server@, k)
            } else {
                None
            },
            old(self).wf() ==> final(self).wf(),
    {
        let ghost langs = self.language@;
        let mut rest: Vec<(String, LspConfig)> = Vec::new();
        std::mem::swap(&mut rest, &mut self.language_server);
        let ghost all = rest@;
        let ghost mut done: int = 0;
        assert(all.skip(0) =~= all);
        while rest.len() > 0
            invariant
                self.language@ == langs,
                0 <= done <= all.len(),
                rest@ == all.skip(done),
                forall|j: int|
                    #![trigger self.language_server@[j]]
                    0 <= j < self.language_server@.len() ==> exists|a: int|
                        0 <= a < done && #[trigger] all[a] == self.language_server@[j],
                servers_unique(all) ==> servers_unique(self.language_server@),
                forall|k: Seq<char>| #[trigger] lookup(self.language_server@, k) == if kept_server(langs, k) {
                    lookup(all.take(done), k)
                } else {
                    None
                },
            decreases rest@.len(),
        {
            let e = rest.remove(0);
            assert(e == all[done]);
            assert(all.take(done + 1) =~= all.take(done).push(e));
            let lower = lowercase(e.0.as_str());
            let drop = self.drops_lower(lower.as_str());
            let ghost before = self.language_server@;
            let ghost e0 = e;
            if !drop {
                self.language_server.push(e);
                assert(self.language_server@ == before.push(e0));
                assert forall|a: int, b: int| 0 <= a < b < self.language_server@.len() && servers_unique(all)
                    implies self.language_server@[a].0@ != self.language_server@[b].0@ by {
                    if b == before.len() {
                        let c = choose|c: int| 0 <= c < done && #[trigger] all[c] == before[a];
                        assert(all[c].0@ != all[done].0@);
                    }
                }
            }
            assert forall|j: int|
                #![trigger self.language_server@[j]]
                0 <= j < self.language_server@.len() implies exists|a: int|
                0 <= a < done + 1 && #[trigger] all[a] == self.language_server@[j] by {
                if j < before.len() {
                    let c = choose|c: int| 0 <= c < done && #[trigger] all[c] == before[j];
                    assert(all[c] == self.language_server@[j]);
                } else {
                    assert(all[done] == self.language_server@[j]);
                }
            }
            assert forall|k: Seq<char>| #[trigger] lookup(self.language_server@, k) == if kept_server(langs, k) {
                lookup(all.take(done + 1), k)
            } else {
                None
            } by {
                lemma_lookup_push(all.take(done), e0, k);
                if !drop {
                    lemma_lookup_push(before, e0, k);
                }
            }
            proof {
                done = done + 1;
            }
            assert(rest@ =~= all.skip(done));
        }
        assert(all.take(done) =~= all);
    }

    /// Whether a server named `name` is configured.
    pub fn has_server(&self, name: &str) -> (r: bool)
        ensures
            r == lookup(self.language_server@, name@) is Some,
    {
        find_server(&self.language_server, name).is_some()
    }

    /// The arguments of the server named `lang`, or none.
    pub fn get_args(&self, lang: &str) -> (r: Vec<String>)
        ensures
            r@ == match lookup(self.language_server@, lang@) {
                Some(c) => c.args@,
                None => Seq::<String>::empty(),
            },
    {
        match find_server(&self.language_server, lang) {
            Some(i) => copy_strings(&self.language_server[i].1.args),
            None => Vec::new(),
        }
    }

    /// The initialization options of the server named `lang`, where it has some.
    pub fn get_init_options(&self, lang: &str) -> (r: Option<JsonValue>)
        ensures
            match lookup(self.language_server@, lang@) {
                Some(c) => if c.config is Null {
                    r is None
                } else {
                    r matches Some(v) && deep_eq(c.config, v)
                },
                None => r is None,
            },
    {
        match find_server(&self.language_server, lang) {
            Some(i) => {
                let c = &self.language_server[i].1.config;
                if let JsonValue::Null = c {
                    None
                } else {
                    Some(copy_value(c))
                }
            },
            None => None,
        }
    }
}

/// A copy of a list of strings.
pub fn copy_strings(v: &Vec<String>) -> (r: Vec<String>)
    ensures
        r@ == v@,
{
    let mut r: Vec<String> = Vec::new();
    let mut i: usize = 0;
    while i < v.len()
        invariant
            0 <= i <= v@.len(),
            r@ == v@.take(i as int),
        decreases v@.len() - i,
    {
        r.push(v[i].clone());
        assert(v@.take(i + 1) =~= v@.take(i as int).push(v@[i as int]));
        i = i + 1;
    }
    assert(v@.take(i as int) =~= v@);
    r
}

/// The index of the first language named `name`.
pub fn find_lang_index(langs: &Vec<LanguageConfig>, name: &str) -> (r: Option<usize>)
    ensures
        r matches Some(i) ==> i < langs@.len() && first_lang_index(langs@, name@) == Some(i as int),
        r is None ==> first_lang_index(langs@, name@) is None,
{
    find_lang(langs, &chars_of(name))
}

/// The commands of the usable servers of language `lang`, in order.
pub open spec fn path_candidates_spec(c: Config, lang: Seq<char>) -> Seq<Seq<char>> {
    match first_lang_index(c.language@, lang) {
        Some(i) => candidate_commands(c, server_names(c.language@[i])),
        None => seq![],
    }
}

impl Config {
    /// Where `name` names a usable server: its entry.
    fn usable_index(&self, name: &str) -> (r: Option<usize>)
        ensures
            match r {
                Some(i) => usable(*self, name@) && i < self.language_server@.len() && lookup(
                    self.language_server@,
                    name@,
                ) == Some(self.language_server@[i as int].1),
                None => !usable(*self, name@),
            },
    {
        if self.is_format_forbidden(name) {
            return None;
        }
        match find_server(&self.language_server, name) {
            Some(i) => if !self.language_server[i].1.command.as_str().is_empty() {
                Some(i)
            } else {
                None
            },
            None => None,
        }
    }

    /// The commands of the usable servers of language `lang`, in order of preference: those
    /// whose presence on the search path decides which one runs.
    pub fn path_candidates(&self, lang: &str) -> (r: Vec<String>)
        ensures
            r@.len() == path_candidates_spec(*self, lang@).len(),
            forall|i: int| 0 <= i < r@.len() ==> #[trigger] r@[i]@ == path_candidates_spec(*self, lang@)[i],
    {
        let mut r: Vec<String> = Vec::new();
        let li = match find_lang(&self.language, &chars_of(lang)) {
            Some(li) => li,
            None => return r,
        };
        let names = self.language[li].get_server_names();
        let ghost ns = server_names(self.language@[li as int]);
        let mut j: usize = 0;
        assert(ns.skip(0) =~= ns);
        while j < names.len()
            invariant
                0 <= j <= names@.len(),
                names@.len() == ns.len(),
                forall|b: int| 0 <= b < names@.len() ==> #[trigger] names@[b]@ == ns[b],
                r@.map_values(|x: String| x@) + candidate_commands(*self, ns.skip(j as int))
                    == candidate_commands(*self, ns),
            decreases names@.len() - j,
        {
            assert(ns.skip(j as int)[0] == ns[j as int]);
            assert(ns.skip(j as int).drop_first() =~= ns.skip(j + 1));
            let ghost before = r@;
            match self.usable_index(names[j].as_str()) {
                Some(i) => {
                    r.push(self.language_server[i].1.command.clone());
                    assert(r@.map_values(|x: String| x@) =~= before.map_values(|x: String| x@).push(
                        lookup(self.language_server@, ns[j as int])->0.command@,
                    ));
                },
                None => {},
            }
            j = j + 1;
        }
        assert(ns.skip(j as int) =~= Seq::<Seq<char>>::empty());
        assert(r@.map_values(|x: String| x@) =~= path_candidates_spec(*self, lang@));
        assert forall|i: int| 0 <= i < r@.len() implies #[trigger] r@[i]@ == path_candidates_spec(*self, lang@)[i] by {
            assert(r@.map_values(|x: String| x@)[i] == r@[i]@);
        }
        r
    }

    /// The command and arguments of the server chosen for `lang` (see `resolve`), given the
    /// commands known to be installed on the search path.
    pub fn get_command_and_args(&self, lang: &str, installed: &Vec<String>) -> (r: Option<
        (String, Vec<String>),
    >)
        ensures
            match resolve(*self, lang@, installed@) {
                Some(c) => r matches Some((cmd, args)) && cmd@ == c.command@ && args@ == c.args@,
                None => r is None,
            },
    {
        if let Some(i) = find_server(&self.language_server, lang) {
            let c = &self.language_server[i].1;
            if !c.command.as_str().is_empty() {
                return Some((c.command.clone(), copy_strings(&c.args)));
            }
        }
        let li = match find_lang(&self.language, &chars_of(lang)) {
            Some(li) => li,
            None => return None,
        };
        let names = self.language[li].get_server_names();
        let ghost ns = server_names(self.language@[li as int]);
        let mut j: usize = 0;
        assert(ns.skip(0) =~= ns);
        assert(resolve(*self, lang@, installed@) == first_installed(*self, ns, installed@));
        while j < names.len()
            invariant
                0 <= j <= names@.len(),
                names@.len() == ns.len(),
                forall|b: int| 0 <= b < names@.len() ==> #[trigger] names@[b]@ == ns[b],
                first_installed(*self, ns.skip(j as int), installed@) == first_installed(*self, ns, installed@),
                resolve(*self, lang@, installed@) == first_installed(*self, ns, installed@),
            decreases names@.len() - j,
        {
            assert(ns.skip(j as int)[0] == ns[j as int]);
            assert(ns.skip(j as int).drop_first() =~= ns.skip(j + 1));
            if let Some(i) = self.usable_index(names[j].as_str()) {
                let c = &self.language_server[i].1;
                if has_text_exec(installed, &chars_of(c.command.as_str())) {
                    return Some((c.command.clone(), copy_strings(&c.args)));
                }
            }
            j = j + 1;
        }
        assert(ns.skip(j as int) =~= Seq::<Seq<char>>::empty());
        None
    }

    /// The command of the server chosen for `lang` (see `resolve`).
    pub fn get_command(&self, lang: &str, installed: &Vec<String>) -> (r: Option<String>)
        ensures
            match resolve(*self, lang@, installed@) {
                Some(c) => r matches Some(cmd) && cmd@ == c.command@,
                None => r is None,
            },
    {
        match self.get_command_and_args(lang, installed) {
            Some((cmd, _args)) => Some(cmd),
            None => None,
        }
    }
}

/// The names of the languages among `langs` that list the server `server`, in order; with
/// `docs_only`, only those that name a documentation format.
pub open spec fn users_spec(langs: Seq<LanguageConfig>, server: Seq<char>, docs_only: bool) -> Seq<
    Seq<char>,
>
    decreases langs.len(),
{
    if langs.len() == 0 {
        seq![]
    } else {
        let r = users_spec(langs.drop_last(), server, docs_only);
        let l = langs.last();
        if server_names(l).contains(server) && (!docs_only || names_doc_format(l.name@)) {
            r.push(l.name@)
        } else {
            r
        }
    }
}

/// The configured server names that contain `part`, in order.
pub open spec fn related_spec(ps: Seq<(String, LspConfig)>, part: Seq<char>) -> Seq<Seq<char>>
    decreases ps.len(),
{
    if ps.len() == 0 {
        seq![]
    } else {
        let r = related_spec(ps.drop_last(), part);
        if contains_sub(ps.last().0@, part) {
            r.push(ps.last().0@)
        } else {
            r
        }
    }
}

impl Config {
    /// The languages that list the server `server`, in order; with `docs_only`, only those
    /// that name a documentation format.
    pub fn languages_using(&self, server: &str, docs_only: bool) -> (r: Vec<String>)
        ensures
            r@.map_values(|x: String| x@) == users_spec(self.language@, server@, docs_only),
    {
        let sc = chars_of(server);
        let mut r: Vec<String> = Vec::new();
        let mut i: usize = 0;
        while i < self.language.len()
            invariant
                0 <= i <= self.language@.len(),
                sc@ == server@,
                r@.map_values(|x: String| x@) == users_spec(self.language@.take(i as int), server@, docs_only),
            decreases self.language@.len() - i,
        {
            let l = &self.language[i];
            assert(self.language@.take(i + 1).drop_last() =~= self.language@.take(i as int));
            assert(self.language@.take(i + 1).last() == *l);
            let names = l.get_server_names();
            let mut found = false;
            let mut j: usize = 0;
            while j < names.len()
                invariant
                    0 <= j <= names@.len(),
                    names@.len() == server_names(*l).len(),
                    forall|b: int| 0 <= b < names@.len() ==> #[trigger] names@[b]@ == server_names(*l)[b],
                    found == exists|b: int| 0 <= b < j && server_names(*l)[b] == sc@,
                decreases names@.len() - j,
            {
                if vec_eq(&chars_of(names[j].as_str()), &sc) {
                    found = true;
                }
                j = j + 1;
            }
            assert(found == server_names(*l).contains(server@));
            let keep = found && (!docs_only || names_doc_format_exec(l.name.as_str()));
            if keep {
                let ghost before = r@.map_values(|x: String| x@);
                r.push(l.name.clone());
                assert(r@.map_values(|x: String| x@) =~= before.push(l.name@));
            }
            i = i + 1;
        }
        assert(self.language@.take(i as int) =~= self.language@);
        r
    }

    /// The configured server names that contain `part`, in order.
    pub fn related_servers(&self, part: &str) -> (r: Vec<String>)
        ensures
            r@.map_values(|x: String| x@) == related_spec(self.language_server@, part@),
    {
        let pc = chars_of(part);
        let mut r: Vec<String> = Vec::new();
        let mut i: usize = 0;
        while i < self.language_server.len()
            invariant
                0 <= i <= self.language_server@.len(),
                pc@ == part@,
                r@.map_values(|x: String| x@) == related_spec(self.language_server@.take(i as int), part@),
            decreases self.language_server@.len() - i,
        {
            assert(self.language_server@.take(i + 1).drop_last() =~= self.language_server@.take(i as int));
            assert(self.language_server@.take(i + 1).last() == self.language_server@[i as int]);
            let name = &self.language_server[i].0;
            if contains_sub_exec(&chars_of(name.as_str()), &pc) {
                let ghost before = r@.map_values(|x: String| x@);
                r.push(name.clone());
                assert(r@.map_values(|x: String| x@) =~= before.push(name@));
            }
            i = i + 1;
        }
        assert(self.language_server@.take(i as int) =~= self.language_server@);
        r
    }

    /// The server configured under `name`.
    pub fn server_config(&self, name: &str) -> (r: Option<&LspConfig>)
        ensures
            match lookup(self.language_server@, name@) {
                Some(c) => r matches Some(x) && *x == c,
                None => r is None,
            },
    {
        match find_server(&self.language_server, name) {
            Some(i) => Some(&self.language_server[i].1),
            None => None,
        }
    }
}

/// The server name that a name given on the command line stands for: lower-cased, with
/// `md` standing for `marksman`.
pub fn resolve_lsp_name(name: &str) -> (r: String)
    ensures
        r@ == if lower_of(name@) == "md"@ {
            "marksman"@
        } else {
            lower_of(name@)
        },
{
    let lower = lowercase(name);
    lsp_name_for_lower(lower.as_str())
}

/// The server name for an already lower-cased name: `md` stands for `marksman`.
pub fn lsp_name_for_lower(lower: &str) -> (r: String)
    ensures
        r@ == if lower@ == "md"@ {
            "marksman"@
        } else {
            lower@
        },
{
    if vec_eq(&chars_of(lower), &chars_of("md")) {
        String::from_str("marksman")
    } else {
        String::from_str(lower)
    }
}

} // verus!
