//! The directory of a file path.

use vstd::prelude::*;

verus! {

/// The path of the directory that holds `path`, where it has one: `path`
/// without its final component, as the platform's path rules give it.
pub uninterp spec fn path_parent(path: Seq<char>) -> Option<Seq<char>>;

/// Calls `std::path::Path::parent` on `path`: the path without its final
/// component, or nothing where `path` is empty or ends in a root. The result
/// is read off the text alone; it comes back as text again, which a part of
/// a path that was text always is.
#[verifier::external_body]
pub(crate) fn parent(path: &str) -> (r: Option<String>)
    ensures
        match r {
            Some(directory) => path_parent(path@) == Some(directory@),
            None => path_parent(path@) is None,
        },
{
    match std::path::Path::new(path).parent() {
        Some(directory) => directory.to_str().map(str::to_owned),
        None => None,
    }
}

} // verus!
