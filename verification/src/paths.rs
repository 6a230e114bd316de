//! File paths, through `std::path::Path`.
//!
//! What `Path` makes of a string (its parent, its file name, its stem, its
//! extension, and when two paths are equal) is named here and used as it is;
//! the library states its own logic over these names.  `Path` splits at the
//! separators of the platform the library is built for, so each name stands
//! for that platform's reading of a path.
use vstd::prelude::*;

verus! {

/// The parent of path `p`, as `Path::parent` gives it.
pub uninterp spec fn parent_of_path(p: Seq<char>) -> Option<Seq<char>>;

/// The final component of path `p`, as `Path::file_name` gives it.
pub uninterp spec fn file_name_of_path(p: Seq<char>) -> Option<Seq<char>>;

/// The file name of `p` without its extension, as `Path::file_stem` gives it.
pub uninterp spec fn file_stem_of_path(p: Seq<char>) -> Option<Seq<char>>;

/// The extension of `p`, as `Path::extension` gives it.
pub uninterp spec fn extension_of_path(p: Seq<char>) -> Option<Seq<char>>;

/// Whether `Path` considers `a` and `b` the same path (component-wise).
pub uninterp spec fn same_path(a: Seq<char>, b: Seq<char>) -> bool;

pub open spec fn opt_chars(o: Option<String>) -> Option<Seq<char>> {
    match o {
        Some(s) => Some(s@),
        None => None,
    }
}

/// `Path::parent` of `p`, as a string.
#[verifier::external_body]
pub(crate) fn path_parent(p: &str) -> (res: Option<String>)
    ensures
        opt_chars(res) == parent_of_path(p@),
{
    std::path::Path::new(p).parent().map(|q| q.to_string_lossy().into_owned())
}

/// `Path::file_name` of `p`, as a string.
#[verifier::external_body]
pub(crate) fn path_file_name(p: &str) -> (res: Option<String>)
    ensures
        opt_chars(res) == file_name_of_path(p@),
{
    std::path::Path::new(p).file_name().map(|q| q.to_string_lossy().into_owned())
}

/// `Path::file_stem` of `p`, as a string.
#[verifier::external_body]
pub(crate) fn path_file_stem(p: &str) -> (res: Option<String>)
    ensures
        opt_chars(res) == file_stem_of_path(p@),
{
    std::path::Path::new(p).file_stem().map(|q| q.to_string_lossy().into_owned())
}

/// `Path::extension` of `p`, as a string.
#[verifier::external_body]
pub(crate) fn path_extension(p: &str) -> (res: Option<String>)
    ensures
        opt_chars(res) == extension_of_path(p@),
{
    std::path::Path::new(p).extension().map(|q| q.to_string_lossy().into_owned())
}

/// `Path` equality of `a` and `b`.
#[verifier::external_body]
pub(crate) fn paths_equal(a: &str, b: &str) -> (res: bool)
    ensures
        res == same_path(a@, b@),
{
    std::path::Path::new(a) == std::path::Path::new(b)
}

/// Two optional parents are equal as `Option<&Path>` compares them.
pub open spec fn same_parent(a: Option<Seq<char>>, b: Option<Seq<char>>) -> bool {
    match (a, b) {
        (Some(x), Some(y)) => same_path(x, y),
        (None, None) => true,
        _ => false,
    }
}

/// Whether two paths have the same parent directory.
pub fn same_parent_dir(a: &str, b: &str) -> (res: bool)
    ensures
        res == same_parent(parent_of_path(a@), parent_of_path(b@)),
{
    let pa = path_parent(a);
    let pb = path_parent(b);
    match (pa, pb) {
        (Some(x), Some(y)) => paths_equal(x.as_str(), y.as_str()),
        (None, None) => true,
        _ => false,
    }
}

} // verus!
