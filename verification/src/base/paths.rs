//! File system paths as text (`/` separated).

use vstd::prelude::*;
use crate::text::{chars_of, push_all, string_of};

verus! {

/// `b` appended to `a` as `PathBuf::push` does on Unix: an absolute `b`
/// replaces `a`; otherwise a `/` goes between them unless `a` is empty or
/// already ends with one.
pub open spec fn join_spec(a: Seq<char>, b: Seq<char>) -> Seq<char> {
    if b.len() > 0 && b[0] == '/' {
        b
    } else if a.len() == 0 || a.last() == '/' {
        a + b
    } else {
        a + seq!['/'] + b
    }
}

/// `a` joined with `b` (see `join_spec`).
pub fn join_path(a: &str, b: &str) -> (r: String)
    ensures
        r@ == join_spec(a@, b@),
{
    let av = chars_of(a);
    let bv = chars_of(b);
    if bv.len() > 0 && bv[0] == '/' {
        return string_of(&bv);
    }
    let mut v = av;
    if !(v.len() == 0 || v[v.len() - 1] == '/') {
        v.push('/');
    }
    push_all(&mut v, &bv);
    string_of(&v)
}

/// What `Path::parent` gives for a path.
pub uninterp spec fn path_parent_of(p: Seq<char>) -> Option<Seq<char>>;

/// What `Path::file_name` gives for a path.
pub uninterp spec fn path_file_name_of(p: Seq<char>) -> Option<Seq<char>>;

/// A file name split at its last `.` into stem and extension, as
/// `Path::file_stem` and `Path::extension` document it: without a `.`, or
/// with a single leading `.` only, the whole name is the stem and there is
/// no extension.
pub open spec fn split_file_name(n: Seq<char>) -> (Seq<char>, Option<Seq<char>>) {
    if n == ".."@ {
        (n, None)
    } else {
        match crate::text::rfind_char(n, '.') {
            None => (n, None),
            Some(i) => if i == 0 { (n, None) } else { (n.take(i), Some(n.skip(i + 1))) },
        }
    }
}

/// What `Path::file_stem` gives for a path: the stem of its file name.
pub open spec fn path_stem_of(p: Seq<char>) -> Option<Seq<char>> {
    match path_file_name_of(p) {
        None => None,
        Some(n) => Some(split_file_name(n).0),
    }
}

/// What `Path::extension` gives for a path: the extension of its file name.
pub open spec fn path_ext_of(p: Seq<char>) -> Option<Seq<char>> {
    match path_file_name_of(p) {
        None => None,
        Some(n) => split_file_name(n).1,
    }
}

/// The path rebuilt from its components (`Path::components` collected).
pub uninterp spec fn path_norm_of(p: Seq<char>) -> Seq<char>;

/// Whether two paths have the same components (`Path == Path`).
pub uninterp spec fn path_eq(a: Seq<char>, b: Seq<char>) -> bool;

/// `Path::parent` of `p`; the result is only named.
#[verifier::external_body]
pub fn path_parent(p: &str) -> (r: Option<String>)
    ensures
        crate::error::opt_view(r) == path_parent_of(p@),
{
    match std::path::Path::new(p).parent() {
        Some(q) => Some(q.to_string_lossy().into_owned()),
        None => None,
    }
}

/// `Path::file_name` of `p`; the result is only named.
#[verifier::external_body]
pub fn path_file_name(p: &str) -> (r: Option<String>)
    ensures
        crate::error::opt_view(r) == path_file_name_of(p@),
{
    match std::path::Path::new(p).file_name() {
        Some(q) => Some(q.to_string_lossy().into_owned()),
        None => None,
    }
}

/// `Path::file_stem` of `p`: the part of the file name before its last
/// `.` (the whole name without a `.` or with only a leading one).
#[verifier::external_body]
pub fn path_file_stem(p: &str) -> (r: Option<String>)
    ensures
        crate::error::opt_view(r) == path_stem_of(p@),
{
    match std::path::Path::new(p).file_stem() {
        Some(q) => Some(q.to_string_lossy().into_owned()),
        None => None,
    }
}

/// `Path::extension` of `p`: the part of the file name after its last
/// `.`, none without a `.` or with only a leading one.
#[verifier::external_body]
pub fn path_extension(p: &str) -> (r: Option<String>)
    ensures
        crate::error::opt_view(r) == path_ext_of(p@),
{
    match std::path::Path::new(p).extension() {
        Some(q) => Some(q.to_string_lossy().into_owned()),
        None => None,
    }
}

/// `p` rebuilt from `Path::components` (separators normalised); the result
/// is only named.
#[verifier::external_body]
pub fn path_normalize(p: &str) -> (r: String)
    ensures
        r@ == path_norm_of(p@),
{
    std::path::Path::new(p).components().collect::<std::path::PathBuf>().to_string_lossy().into_owned()
}

/// `Path::new(a) == Path::new(b)` (component-wise comparison); the result
/// is only named.
#[verifier::external_body]
pub fn paths_equal(a: &str, b: &str) -> (r: bool)
    ensures
        r == path_eq(a@, b@),
{
    std::path::Path::new(a) == std::path::Path::new(b)
}

} // verus!
