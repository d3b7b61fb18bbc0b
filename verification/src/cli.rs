//! What a run is asked to do, and which test files it covers.

use vstd::prelude::*;
use crate::scan::{entry_views, find_cli_tests, is_search_result, WalkEntry};
use crate::text::texts;

verus! {

/// What a run is asked to do.
#[derive(Debug, Clone, PartialEq, Eq)]
pub struct Args {
    /// The one file to test. Without it the test files are searched for.
    pub path: Option<String>,
    /// How many levels of directories the search goes down, at most.
    pub max_depth: u32,
    /// The directories in which to search.
    pub roots: Vec<String>,
    /// How many test files the search must find, at least.
    pub minimum_tests: u32,
    /// Directories whose content the tests get as their data.
    pub source_dir: Vec<String>,
    /// The directory in which the tests' own directories are made.
    pub test_dir: Option<String>,
    /// How many tests run at the same time.
    pub parallel: u16,
}

impl Args {
    /// The directories in which to search: those that were given, or the
    /// current directory where none was.
    pub fn search_roots(&self) -> (roots: Vec<String>)
        ensures
            texts(roots@) == if self.roots.len() == 0 {
                seq!["."@]
            } else {
                texts(self.roots@)
            },
    {
        if self.roots.len() == 0 {
            let mut roots: Vec<String> = Vec::new();
            roots.push(".".to_owned());
            assert(texts(roots@) =~= seq!["."@]);
            roots
        } else {
            let roots = self.roots.clone();
            assert(texts(roots@) =~= texts(self.roots@));
            roots
        }
    }
}

/// Decides which test files a run covers.
///
/// Where `args` names a file, that file alone is covered, and `entries` is
/// not looked at. Otherwise `entries` is what a walk over the directories to
/// search came across, and the test files among them are covered; the run
/// fails where they are fewer than `args` expects.
pub fn cli_test(args: &Args, entries: &Vec<WalkEntry>) -> (r: Result<Vec<String>, String>)
    ensures
        match args.path {
            Some(path) => r is Ok && texts(r->Ok_0@) == seq![path@],
            None => is_search_result(entry_views(entries@), args.minimum_tests as nat, r),
        },
{
    match &args.path {
        Some(path) => {
            let mut paths: Vec<String> = Vec::new();
            paths.push(path.clone());
            assert(texts(paths@) =~= seq![path@]);
            Ok(paths)
        },
        None => find_cli_tests(entries, args.minimum_tests),
    }
}

} // verus!
