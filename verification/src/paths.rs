//! File-system paths, held as strings. The path arithmetic is std's
//! (`std::path::Path`) and pathdiff's; resolving a path against the disk is
//! `Path::canonicalize`.

use vstd::prelude::*;

verus! {

/// What `Path::parent` gives for a path.
pub uninterp spec fn spec_parent(p: Seq<char>) -> Option<Seq<char>>;

/// What `Path::join` gives for a base and a path.
pub uninterp spec fn spec_join(base: Seq<char>, p: Seq<char>) -> Seq<char>;

/// What `Path::extension` gives for a path.
pub uninterp spec fn spec_extension(p: Seq<char>) -> Option<Seq<char>>;

/// What `Path::file_name` gives for a path.
pub uninterp spec fn spec_file_name(p: Seq<char>) -> Option<Seq<char>>;

/// What `pathdiff::diff_paths` gives for a path and a base directory.
pub uninterp spec fn spec_diff_paths(p: Seq<char>, base: Seq<char>) -> Option<Seq<char>>;

/// `Path::parent`: the path without its last component. The contract
/// claims that the result is a function of the path alone, and that the
/// empty path has no parent, as std documents.
#[verifier::external_body]
pub(crate) fn path_parent(p: &str) -> (r: Option<String>)
    ensures
        r.deep_view() == spec_parent(p@),
        p@.len() == 0 ==> r is None,
{
    std::path::Path::new(p).parent().map(|q| q.to_string_lossy().into_owned())
}

/// `Path::join`: `p` appended to `base` (or `p` itself where it is
/// absolute). The contract claims only that the result is a function of the
/// two paths.
#[verifier::external_body]
pub(crate) fn path_join(base: &str, p: &str) -> (r: String)
    ensures
        r@ == spec_join(base@, p@),
{
    std::path::Path::new(base).join(p).to_string_lossy().into_owned()
}

/// `Path::extension`: the extension of the path's file name. The contract
/// claims only that the result is a function of the path.
#[verifier::external_body]
pub(crate) fn path_extension(p: &str) -> (r: Option<String>)
    ensures
        r.deep_view() == spec_extension(p@),
{
    std::path::Path::new(p).extension().and_then(|s| s.to_str()).map(|s| s.to_owned())
}

/// `Path::file_name`: the last component of the path. The contract claims
/// only that the result is a function of the path.
#[verifier::external_body]
pub(crate) fn path_file_name(p: &str) -> (r: Option<String>)
    ensures
        r.deep_view() == spec_file_name(p@),
{
    std::path::Path::new(p).file_name().and_then(|s| s.to_str()).map(|s| s.to_owned())
}

/// A path handed to `Path::canonicalize`, with what came back: the
/// absolute form of the path with symbolic links resolved, or the message
/// of the I/O error.
pub struct Resolution {
    pub path: String,
    pub outcome: Result<String, String>,
}

/// `Path::canonicalize` on `p`. The outcome depends on the disk, so the
/// contract claims nothing of it; it claims only that the record names the
/// path that was resolved.
#[verifier::external_body]
pub(crate) fn canonicalize(p: &str) -> (r: Resolution)
    ensures
        r.path@ == p@,
{
    let outcome = std::path::Path::new(p).canonicalize().map(|q| q.to_string_lossy().into_owned()).map_err(
        |e| e.to_string(),
    );
    Resolution { path: p.to_owned(), outcome }
}

/// `pathdiff::diff_paths`: `p` relative to the directory `base`, where one
/// can be formed. The contract claims only that the result is a function of
/// the two paths.
#[verifier::external_body]
pub(crate) fn diff_paths(p: &str, base: &str) -> (r: Option<String>)
    ensures
        r.deep_view() == spec_diff_paths(p@, base@),
{
    pathdiff::diff_paths(p, base).map(|q| q.to_string_lossy().into_owned())
}

} // verus!
