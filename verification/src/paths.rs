//! Path-segment operations used throughout the catalog and the client:
//! suffix tests, suffix stripping, prefix-relative paths and joining.
//! They operate on strings as sequences of characters; a `/` separates
//! path segments.

use vstd::prelude::*;
use vstd::string::StrSliceExecFns;
use vstd::string::StringExecFns;

verus! {

/// `s` ends with `suffix`.
pub open spec fn has_suffix(s: Seq<char>, suffix: Seq<char>) -> bool {
    s.len() >= suffix.len() && s.subrange(s.len() - suffix.len(), s.len() as int) == suffix
}

/// `s` with `suffix` removed from its end.
pub open spec fn strip_suffix_spec(s: Seq<char>, suffix: Seq<char>) -> Seq<char>
    recommends
        has_suffix(s, suffix),
{
    s.subrange(0, s.len() - suffix.len())
}

/// `s` names something strictly below the directory `root`: it starts with
/// `root`, a separator follows, and at least one character follows that.
pub open spec fn has_dir_prefix(s: Seq<char>, root: Seq<char>) -> bool {
    &&& s.len() > root.len() + 1
    &&& s.subrange(0, root.len() as int) == root
    &&& s[root.len() as int] == '/'
}

/// The part of `s` below the directory `root`.
pub open spec fn relative_part_spec(s: Seq<char>, root: Seq<char>) -> Seq<char>
    recommends
        has_dir_prefix(s, root),
{
    s.subrange(root.len() as int + 1, s.len() as int)
}

/// The suffix that marks a packaged folder bundle.
pub open spec fn archive_suffix_spec() -> Seq<char> {
    ".tar"@
}

/// The file-name suffix given to every packaged folder bundle.
pub fn archive_suffix() -> (r: &'static str)
    ensures
        r@ == archive_suffix_spec(),
{
    ".tar"
}

/// Does `s` end with `suffix`?
pub fn ends_with(s: &str, suffix: &str) -> (r: bool)
    ensures
        r == has_suffix(s@, suffix@),
{
    let n = s.unicode_len();
    let m = suffix.unicode_len();
    if n < m {
        return false;
    }
    let mut i: usize = 0;
    while i < m
        invariant
            m <= n,
            n == s@.len(),
            m == suffix@.len(),
            i <= m,
            forall|j: int| 0 <= j < i ==> s@[n - m + j] == suffix@[j],
        decreases m - i,
    {
        if s.get_char(n - m + i) != suffix.get_char(i) {
            assert(s@.subrange(n - m, n as int)[i as int] != suffix@[i as int]);
            return false;
        }
        i += 1;
    }
    assert(s@.subrange(n - m, n as int) =~= suffix@);
    true
}

/// Remove `suffix` from the end of `s`.
pub fn strip_suffix(s: &str, suffix: &str) -> (r: String)
    requires
        has_suffix(s@, suffix@),
    ensures
        r@ == strip_suffix_spec(s@, suffix@),
{
    let n = s.unicode_len();
    let m = suffix.unicode_len();
    let t = s.substring_char(0, n - m);
    String::from_str(t)
}

/// Append `suffix` to the end of `s`.
pub fn append_suffix(s: &str, suffix: &str) -> (r: String)
    ensures
        r@ == s@ + suffix@,
{
    String::from_str(s).concat(suffix)
}

/// `dir` and `name` joined with a separator.
pub fn join_path(dir: &str, name: &str) -> (r: String)
    ensures
        r@ == dir@ + "/"@ + name@,
{
    String::from_str(dir).concat("/").concat(name)
}

/// Does `path` start with `/`?
pub fn is_absolute(path: &str) -> (r: bool)
    ensures
        r == (path@.len() > 0 && path@[0] == '/'),
{
    if path.unicode_len() == 0 {
        return false;
    }
    path.get_char(0) == '/'
}

/// The path of `path` relative to the directory `root`, where `path` lies
/// strictly below `root`; `None` where it does not.
pub fn relative_to_root(root: &str, path: &str) -> (r: Option<String>)
    ensures
        r is Some <==> has_dir_prefix(path@, root@),
        r is Some ==> r->Some_0@ == relative_part_spec(path@, root@),
{
    let n = path.unicode_len();
    let m = root.unicode_len();
    if n <= m {
        return None;
    }
    if n - m == 1 {
        return None;
    }
    let mut i: usize = 0;
    while i < m
        invariant
            m + 1 < n,
            n == path@.len(),
            m == root@.len(),
            i <= m,
            forall|j: int| 0 <= j < i ==> path@[j] == root@[j],
        decreases m - i,
    {
        if path.get_char(i) != root.get_char(i) {
            assert(path@.subrange(0, m as int)[i as int] != root@[i as int]);
            return None;
        }
        i += 1;
    }
    if path.get_char(m) != '/' {
        return None;
    }
    assert(path@.subrange(0, m as int) =~= root@);
    let t = path.substring_char(m + 1, n);
    Some(String::from_str(t))
}

} // verus!
