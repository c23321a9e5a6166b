//! The directories of a repository that hold a build definition.

use vstd::prelude::*;
use vstd::string::*;
use crate::order::{sort, sorted};
use crate::path::{parent, path_parent};
use crate::text::ends_with;

verus! {

/// The directories that hold a file called `Containerfile`, in
/// lexicographic order.
#[derive(Debug, Clone, PartialEq, Eq)]
pub struct Containerfile {
    pub paths: Vec<String>,
}

/// The directories of the files of `files` whose path ends with
/// `Containerfile`, in the order of the files; nothing where one of these
/// paths has no directory.
pub open spec fn build_directories(files: Seq<Seq<char>>) -> Option<Seq<Seq<char>>>
    decreases files.len(),
{
    if files.len() == 0 {
        Some(Seq::empty())
    } else {
        match build_directories(files.drop_last()) {
            None => None,
            Some(before) => if "Containerfile"@.is_suffix_of(files.last()) {
                match path_parent(files.last()) {
                    None => None,
                    Some(directory) => Some(before.push(directory)),
                }
            } else {
                Some(before)
            },
        }
    }
}

/// Files of which a leading part has a path without a directory have one.
pub proof fn lemma_build_directories_prefix(files: Seq<Seq<char>>, n: int)
    requires
        0 <= n <= files.len(),
        build_directories(files.take(n)) is None,
    ensures
        build_directories(files) is None,
    decreases files.len(),
{
    if n == files.len() {
        assert(files.take(n) =~= files);
    } else {
        assert(files.drop_last().take(n) =~= files.take(n));
        lemma_build_directories_prefix(files.drop_last(), n);
    }
}

impl Containerfile {
    /// The directories among `files` that hold a `Containerfile`.
    pub fn new(files: &Vec<String>) -> (r: Option<Self>)
        ensures
            match r {
                Some(found) => build_directories(files.deep_view()) matches Some(directories)
                    && found.paths.deep_view() == sorted(directories),
                None => build_directories(files.deep_view()) is None,
            },
    {
        let ghost all = files.deep_view();
        let mut paths: Vec<String> = Vec::new();
        let mut i: usize = 0;
        assert(paths.deep_view() =~= Seq::<Seq<char>>::empty());
        while i < files.len()
            invariant
                i <= files.len(),
                all == files.deep_view(),
                build_directories(all.take(i as int)) == Some(paths.deep_view()),
            decreases files.len() - i,
        {
            let ghost before = paths.deep_view();
            proof {
                assert(all[i as int] == files@[i as int]@);
                assert(all.take(i + 1).drop_last() =~= all.take(i as int));
                assert(all.take(i + 1).last() == files@[i as int]@);
            }
            if ends_with(files[i].as_str(), "Containerfile") {
                match parent(files[i].as_str()) {
                    Some(directory) => {
                        paths.push(directory);
                        assert(paths.deep_view() =~= before.push(directory@));
                    },
                    None => {
                        proof {
                            assert(build_directories(all.take(i + 1)) is None);
                            lemma_build_directories_prefix(all, i + 1);
                        }
                        return None;
                    },
                }
            }
            i += 1;
        }
        assert(all.take(i as int) =~= all);
        Some(Containerfile { paths: sort(paths) })
    }
}

} // verus!
