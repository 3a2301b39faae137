//! The static-file server's verified core: its configuration record and the
//! mapping from a request path's extension to a content type.  The listener
//! and file I/O live outside the library.

use vstd::prelude::*;

verus! {

/// Configuration of the HTTP server that serves the client's static files.
pub struct HttpServer {
    pub addr: String,
    pub static_dir: String,
}

impl HttpServer {
    pub fn new(addr: &str, static_dir: String) -> (r: HttpServer)
        ensures
            r.addr@ == addr@,
            r.static_dir == static_dir,
    {
        HttpServer { addr: addr.to_owned(), static_dir }
    }
}

/// Index of the last `.` in `s`, or `-1` when `s` has none.
pub open spec fn last_dot(s: Seq<char>) -> int
    decreases s.len(),
{
    if s.len() == 0 {
        -1
    } else if s.last() == '.' {
        s.len() - 1
    } else {
        last_dot(s.drop_last())
    }
}

/// What follows the last `.` of `s`; empty when `s` has no `.`.
pub open spec fn extension_of(s: Seq<char>) -> Seq<char> {
    if last_dot(s) >= 0 {
        s.subrange(last_dot(s) + 1, s.len() as int)
    } else {
        Seq::empty()
    }
}

/// The content type served for a path, by its extension.
pub open spec fn content_type_for(s: Seq<char>) -> Seq<char> {
    let e = extension_of(s);
    if e == "html"@ {
        "text/html; charset=utf-8"@
    } else if e == "css"@ {
        "text/css; charset=utf-8"@
    } else if e == "js"@ {
        "application/javascript; charset=utf-8"@
    } else if e == "json"@ {
        "application/json"@
    } else if e == "png"@ {
        "image/png"@
    } else if e == "jpg"@ || e == "jpeg"@ {
        "image/jpeg"@
    } else if e == "svg"@ {
        "image/svg+xml"@
    } else {
        "text/plain"@
    }
}

/// A string with no `.` has no last dot.
proof fn lemma_last_dot_none(s: Seq<char>)
    requires
        forall|k: int| 0 <= k < s.len() ==> s[k] != '.',
    ensures
        last_dot(s) == -1,
    decreases s.len(),
{
    if s.len() > 0 {
        lemma_last_dot_none(s.drop_last());
    }
}

/// A `.` with no later `.` is the last dot.
proof fn lemma_last_dot_at(s: Seq<char>, d: int)
    requires
        0 <= d < s.len(),
        s[d] == '.',
        forall|k: int| d < k < s.len() ==> s[k] != '.',
    ensures
        last_dot(s) == d,
    decreases s.len(),
{
    if d < s.len() - 1 {
        lemma_last_dot_at(s.drop_last(), d);
    }
}

/// Whether the suffix of `path` starting at `from` equals `t`.
fn suffix_matches(path: &str, from: usize, t: &str) -> (b: bool)
    requires
        from <= path@.len(),
    ensures
        b == (path@.subrange(from as int, path@.len() as int) == t@),
{
    let n = path.unicode_len();
    let m = t.unicode_len();
    if n - from != m {
        proof {
            assert(path@.subrange(from as int, path@.len() as int).len() != t@.len());
        }
        return false;
    }
    let mut i: usize = 0;
    while i < m
        invariant
            i <= m,
            m == t@.len(),
            n == path@.len(),
            from + m == n,
            forall|k: int| 0 <= k < i ==> path@[from + k] == t@[k],
        decreases m - i,
    {
        let a = path.get_char(from + i);
        let b = t.get_char(i);
        if a != b {
            proof {
                assert(path@.subrange(from as int, path@.len() as int)[i as int] == path@[from + i]);
            }
            return false;
        }
        i = i + 1;
    }
    proof {
        assert(path@.subrange(from as int, path@.len() as int) =~= t@);
    }
    true
}

/// The content type a file at `path` is served with, decided by the
/// characters after the last `.` of the path.
pub fn get_content_type(path: &str) -> (r: &'static str)
    ensures
        r@ == content_type_for(path@),
{
    let n = path.unicode_len();
    let mut dot_idx: usize = 0;
    let mut has_dot = false;
    let mut i: usize = 0;
    while i < n
        invariant
            i <= n,
            n == path@.len(),
            has_dot ==> dot_idx < i && path@[dot_idx as int] == '.'
                && forall|k: int| dot_idx < k < i ==> path@[k] != '.',
            !has_dot ==> forall|k: int| 0 <= k < i ==> path@[k] != '.',
        decreases n - i,
    {
        if path.get_char(i) == '.' {
            dot_idx = i;
            has_dot = true;
        }
        i = i + 1;
    }
    if !has_dot {
        proof {
            lemma_last_dot_none(path@);
            reveal_strlit("html");
            reveal_strlit("css");
            reveal_strlit("js");
            reveal_strlit("json");
            reveal_strlit("png");
            reveal_strlit("jpg");
            reveal_strlit("jpeg");
            reveal_strlit("svg");
            assert(extension_of(path@) =~= Seq::<char>::empty());
            assert(extension_of(path@) != "html"@);
            assert(extension_of(path@) != "css"@);
            assert(extension_of(path@) != "js"@);
            assert(extension_of(path@) != "json"@);
            assert(extension_of(path@) != "png"@);
            assert(extension_of(path@) != "jpg"@);
            assert(extension_of(path@) != "jpeg"@);
            assert(extension_of(path@) != "svg"@);
            assert(content_type_for(path@) == "text/plain"@);
        }
        return "text/plain";
    }
    proof {
        lemma_last_dot_at(path@, dot_idx as int);
    }
    let from = dot_idx + 1;
    if suffix_matches(path, from, "html") {
        "text/html; charset=utf-8"
    } else if suffix_matches(path, from, "css") {
        "text/css; charset=utf-8"
    } else if suffix_matches(path, from, "js") {
        "application/javascript; charset=utf-8"
    } else if suffix_matches(path, from, "json") {
        "application/json"
    } else if suffix_matches(path, from, "png") {
        "image/png"
    } else if suffix_matches(path, from, "jpg") {
        "image/jpeg"
    } else if suffix_matches(path, from, "jpeg") {
        "image/jpeg"
    } else if suffix_matches(path, from, "svg") {
        "image/svg+xml"
    } else {
        "text/plain"
    }
}

} // verus!
