use vstd::prelude::*;
use vstd::string::*;

verus! {

/// Directory of the debug copies of virtual documents.
pub const VIRTUAL_DOC_DEBUG_DIR: &'static str = "/tmp";

/// Index of the last `/` in `s`, or -1.
pub open spec fn last_slash(s: Seq<char>) -> int
    decreases s.len(),
{
    if s.len() == 0 {
        -1
    } else if s.last() == '/' {
        s.len() - 1
    } else {
        last_slash(s.drop_last())
    }
}

/// Everything before the last `/` of a URI (empty where it has none).
pub open spec fn root_base(s: Seq<char>) -> Seq<char> {
    if last_slash(s) < 0 {
        Seq::<char>::empty()
    } else {
        s.subrange(0, last_slash(s))
    }
}

/// The base of a URI: everything before its last `/` (empty where it has none).
pub fn extract_root_uri_base(uri_str: &str) -> (r: &str)
    ensures
        r@ == root_base(uri_str@),
{
    let n = uri_str.unicode_len();
    let mut i: usize = n;
    assert(uri_str@.take(n as int) =~= uri_str@);
    while i > 0
        invariant
            0 <= i <= n,
            n == uri_str@.len(),
            last_slash(uri_str@) == last_slash(uri_str@.take(i as int)),
        decreases i,
    {
        let c = uri_str.get_char(i - 1);
        assert(uri_str@.take(i as int).drop_last() =~= uri_str@.take(i - 1));
        if c == '/' {
            return uri_str.substring_char(0, i - 1);
        }
        i = i - 1;
    }
    uri_str.substring_char(0, 0)
}

/// The URI of the virtual document of `lang` beside the outer one.
pub fn construct_virtual_uri(root_uri_base: &str, lang: &str) -> (r: String)
    ensures
        r@ == root_uri_base@ + "/virtual."@ + lang@,
{
    let mut r = String::from_str(root_uri_base);
    r.append("/virtual.");
    r.append(lang);
    r
}

/// Where the debug copy of the virtual document of `lang` is written.
pub fn construct_temp_vdoc_path(lang: &str) -> (r: String)
    ensures
        r@ == VIRTUAL_DOC_DEBUG_DIR@ + "/virtual."@ + lang@,
{
    let mut r = String::from_str(VIRTUAL_DOC_DEBUG_DIR);
    r.append("/virtual.");
    r.append(lang);
    r
}

} // verus!
