//! Listing the files below a path.

use vstd::prelude::*;
use vstd::string::*;

verus! {

/// What was found at a path: a file, a directory with what was found at each
/// of its entries, or neither.
#[derive(Debug, PartialEq, Eq)]
pub enum FileTree {
    File(String),
    Directory(Vec<FileTree>),
    Other,
}

pub struct FileUtil;

/// The files of the first `n` entries of the directory `tree`.
pub open spec fn files_below(tree: FileTree, n: nat) -> Seq<Seq<char>>
    decreases tree, n,
{
    match tree {
        FileTree::Directory(entries) => if 0 < n <= entries@.len() {
            files_below(tree, (n - 1) as nat) + files_of(entries@[n - 1])
        } else {
            Seq::empty()
        },
        _ => Seq::empty(),
    }
}

/// The paths of the files of `tree`: a file is its own path, a directory
/// gives the files of its entries one entry after the other, anything else
/// gives nothing.
pub open spec fn files_of(tree: FileTree) -> Seq<Seq<char>>
    decreases
        tree,
        match tree {
            FileTree::Directory(entries) => entries@.len() + 1,
            _ => 0,
        },
{
    match tree {
        FileTree::File(path) => seq![path@],
        FileTree::Directory(entries) => files_below(tree, entries@.len()),
        FileTree::Other => Seq::empty(),
    }
}

impl FileUtil {
    /// The paths of the files of `tree`, directories first descended into.
    pub fn list_files(tree: &FileTree) -> (r: Vec<String>)
        ensures
            r.deep_view() == files_of(*tree),
        decreases tree,
    {
        let mut files: Vec<String> = Vec::new();
        match tree {
            FileTree::File(path) => {
                files.push(path.clone());
                assert(files.deep_view() =~= seq![path@]);
            },
            FileTree::Directory(entries) => {
                let mut i: usize = 0;
                assert(files.deep_view() =~= files_below(*tree, 0));
                while i < entries.len()
                    invariant
                        i <= entries.len(),
                        *tree == FileTree::Directory(*entries),
                        files.deep_view() == files_below(*tree, i as nat),
                    decreases entries.len() - i,
                {
                    let ghost before = files.deep_view();
                    let mut found = FileUtil::list_files(&entries[i]);
                    let ghost added = found.deep_view();
                    files.append(&mut found);
                    assert(files.deep_view() =~= before + added);
                    i += 1;
                }
            },
            FileTree::Other => {
                assert(files.deep_view() =~= Seq::<Seq<char>>::empty());
            },
        }
        files
    }
}

} // verus!
