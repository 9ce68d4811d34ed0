//! Path joining and parent directories, through `std::path`.
//!
//! What these return depends on the platform's separators and prefixes, so
//! only what holds on every platform is stated, and only for paths without a
//! Windows verbatim prefix (`\\?\`), under which the pushed path is
//! normalised.
use vstd::prelude::*;

verus! {

/// Whether a character separates path components on some platform.
pub open spec fn is_separator(c: char) -> bool {
    c == '/' || c == '\\'
}

/// Text with no separator and no drive colon.
pub open spec fn is_plain_text(s: Seq<char>) -> bool {
    forall|i: int| 0 <= i < s.len() ==> !is_separator(#[trigger] s[i]) && s[i] != ':'
}

/// A single path component with no special meaning: not empty, no
/// separator, no drive colon, and neither `.` nor `..`.
pub open spec fn is_segment(s: Seq<char>) -> bool {
    &&& s.len() > 0
    &&& is_plain_text(s)
    &&& s != seq!['.']
    &&& s != seq!['.', '.']
}

/// Whether `base` starts with a Windows verbatim prefix, `\\?\` (either
/// separator is counted, to be safe).
pub open spec fn has_verbatim_prefix(base: Seq<char>) -> bool {
    &&& base.len() >= 4
    &&& is_separator(base[0])
    &&& is_separator(base[1])
    &&& base[2] == '?'
    &&& is_separator(base[3])
}

/// `base` with `name` appended, with or without a separator in between.
pub open spec fn is_join_of(r: Seq<char>, base: Seq<char>, name: Seq<char>) -> bool {
    ||| r == base + name
    ||| r == base + seq!['/'] + name
    ||| r == base + seq!['\\'] + name
}

/// `Path::join` of a directory and a file name, as text.
///
/// Claims, for a name that is a single segment and a directory without a
/// verbatim prefix, that the result is the directory followed by the name,
/// with at most one separator between them; which separator (if any) depends
/// on the platform and is left unsaid. For other inputs nothing is claimed.
#[verifier::external_body]
pub(crate) fn path_join(base: &str, name: &str) -> (r: String)
    ensures
        is_segment(name@) && !has_verbatim_prefix(base@) ==> is_join_of(r@, base@, name@),
{
    std::path::Path::new(base).join(name).to_string_lossy().into_owned()
}

/// Whether `p[i..j]` is a whole `/`-delimited run of `p`.
pub open spec fn is_run(p: Seq<char>, i: int, j: int) -> bool {
    &&& 0 <= i <= j <= p.len()
    &&& (i == 0 || p[i - 1] == '/')
    &&& (j == p.len() || p[j] == '/')
    &&& forall|k: int| i <= k < j ==> p[k] != '/'
}

/// One or more segments joined by single `/`, such as `out/staging`.
pub open spec fn is_segments(p: Seq<char>) -> bool {
    forall|i: int, j: int| #[trigger] is_run(p, i, j) ==> is_segment(p.subrange(i, j))
}

/// A directory written with `/` only: segments joined by `/`, optionally
/// after a leading `/`, or the root `/` itself.
pub open spec fn is_dir_path(p: Seq<char>) -> bool {
    ||| is_segments(p)
    ||| p == seq!['/']
    ||| (p.len() > 1 && p[0] == '/' && is_segments(p.skip(1)))
}

/// Whether `path` is a directory `path[..k]` (see `is_dir_path`), a `/` at
/// `k`, and a final segment.
pub open spec fn cuts_at(path: Seq<char>, k: int) -> bool {
    &&& 0 <= k < path.len()
    &&& path[k] == '/'
    &&& is_dir_path(path.take(k))
    &&& is_segment(path.skip(k + 1))
}

/// Whether `path` is a directory written with `/` followed by a final segment.
pub open spec fn has_dir_and_name(path: Seq<char>) -> bool {
    exists|k: int| cuts_at(path, k)
}

/// The directory part of such a path: all before the last `/`.
pub open spec fn dir_part(path: Seq<char>) -> Seq<char> {
    path.take(choose|k: int| cuts_at(path, k))
}

/// `Path::parent`, as text.
///
/// Claims that a parent is a proper prefix of the path and that the empty
/// path has none; that a single segment such as `foo` has the empty path as
/// parent; and that a path written as a directory with `/` separators
/// (`foo/bar`, `/foo/bar`, `a/b/c`) followed by `/` and a final segment has
/// that directory as parent, the path "without its final component". Where
/// other paths are cut (with `\`, drive or UNC prefixes, `.` or `..`
/// components, doubled or trailing separators) depends on the platform and is
/// left unsaid.
#[verifier::external_body]
fn path_parent(path: &str) -> (r: Option<String>)
    ensures
        r matches Some(p) ==> p@.len() < path@.len() && path@.take(p@.len() as int) == p@,
        path@.len() == 0 ==> r is None,
        is_segment(path@) ==> r is Some && r->0@.len() == 0,
        has_dir_and_name(path@) ==> r is Some && r->0@ == dir_part(path@),
{
    std::path::Path::new(path).parent().map(|p| p.to_string_lossy().into_owned())
}

/// The directory that must exist before `path` is written: its parent, if it
/// has one. A bare file name has the current directory (the empty path) as
/// parent, and `dir/name` has `dir` for any directory `dir` written with `/`
/// separators (such as `out/staging` for `out/staging/samples.json`).
pub fn ensure_parent_dir(path: &str) -> (r: Option<String>)
    ensures
        r matches Some(p) ==> p@.len() < path@.len() && path@.take(p@.len() as int) == p@,
        path@.len() == 0 ==> r is None,
        is_segment(path@) ==> r is Some && r->0@.len() == 0,
        has_dir_and_name(path@) ==> r is Some && r->0@ == dir_part(path@),
        forall|k: int| #[trigger] cuts_at(path@, k) ==> r is Some && r->0@ == path@.take(k),
{
    let r = path_parent(path);
    proof {
        assert forall|k: int| #[trigger] cuts_at(path@, k) implies r is Some && r->0@ == path@.take(k) by {
            lemma_cut_unique(path@, k, choose|j: int| cuts_at(path@, j));
        }
    }
    r
}

/// A path has at most one place where it splits into a directory and a final
/// segment: the final segment holds no `/`.
pub proof fn lemma_cut_unique(path: Seq<char>, k1: int, k2: int)
    requires
        cuts_at(path, k1),
        cuts_at(path, k2),
    ensures
        k1 == k2,
{
    if k1 < k2 {
        assert(path.skip(k1 + 1)[k2 - k1 - 1] == path[k2]);
    } else if k2 < k1 {
        assert(path.skip(k2 + 1)[k1 - k2 - 1] == path[k1]);
    }
}

} // verus!
