//! Path facts the library takes from std: the part of a path below a root,
//! and the last component of a path. Paths are held as strings.

use vstd::prelude::*;

verus! {

/// The view of an optional string.
pub open spec fn opt_view(o: Option<String>) -> Option<Seq<char>> {
    match o {
        Some(s) => Some(s@),
        None => None,
    }
}

/// What `Path::strip_prefix` gives for `path` below `root` (component-wise),
/// as a string; `None` when `root` is not a prefix of `path`.
pub uninterp spec fn spec_relative_path(path: Seq<char>, root: Seq<char>) -> Option<Seq<char>>;

/// What `Path::file_name` gives for `path`, as a string.
pub uninterp spec fn spec_file_name(path: Seq<char>) -> Option<Seq<char>>;

/// The part of `path` below `root`.
///
/// Trusted: calls `Path::strip_prefix` and converts the remaining path to a
/// string; the result depends on the two strings alone and is named, not
/// described.
#[verifier::external_body]
pub(crate) fn relative_path(path: &str, root: &str) -> (r: Option<String>)
    ensures
        opt_view(r) == spec_relative_path(path@, root@),
{
    match std::path::Path::new(path).strip_prefix(root) {
        Ok(rest) => Some(rest.to_string_lossy().into_owned()),
        Err(_) => None,
    }
}

/// The last component of `path`.
///
/// Trusted: calls `Path::file_name` and converts it to a string; the result
/// depends on the string alone and is named, not described.
#[verifier::external_body]
pub(crate) fn file_name(path: &str) -> (r: Option<String>)
    ensures
        opt_view(r) == spec_file_name(path@),
{
    match std::path::Path::new(path).file_name() {
        Some(name) => Some(name.to_string_lossy().into_owned()),
        None => None,
    }
}

} // verus!
