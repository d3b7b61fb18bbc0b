//! Choosing the test files among what a walk over directories came across.
//!
//! The walk itself is the caller's: it hands over the entries in the order in
//! which it met them. Here they are told apart by path, so that a file that
//! the walk met twice is taken once, and those that are test files are kept.

use vstd::prelude::*;
use vstd::string::StringExecFns;
use crate::text::{decimal_of, ends_with, has_suffix, push_decimal, texts};

verus! {

/// One entry that a walk over a directory tree came across.
#[derive(Debug, Clone, PartialEq, Eq)]
pub struct WalkEntry {
    /// The path of the entry. Two entries with the same path are the same.
    pub path: String,
    /// The name of the entry, where it can be written as text.
    pub file_name: Option<String>,
    /// Whether the entry is a file.
    pub is_file: bool,
}

/// A [`WalkEntry`] as plain values.
pub struct WalkEntryView {
    pub path: Seq<char>,
    pub file_name: Option<Seq<char>>,
    pub is_file: bool,
}

impl View for WalkEntry {
    type V = WalkEntryView;

    open spec fn view(&self) -> WalkEntryView {
        WalkEntryView {
            path: self.path@,
            file_name: match self.file_name {
                Some(name) => Some(name@),
                None => None,
            },
            is_file: self.is_file,
        }
    }
}

/// What a list of entries holds.
pub open spec fn entry_views(entries: Seq<WalkEntry>) -> Seq<WalkEntryView> {
    Seq::new(entries.len(), |i: int| entries[i]@)
}

/// Whether an entry is a test file: a file whose name ends in `.clts`.
pub open spec fn is_test_file(entry: WalkEntryView) -> bool {
    entry.is_file && entry.file_name is Some && has_suffix(entry.file_name->Some_0, ".clts"@)
}

/// Whether the walk met the path of entry `i` before, at an entry with a
/// name. An entry whose name cannot be written as text is passed over as if
/// it had not been met.
pub open spec fn met_before(entries: Seq<WalkEntryView>, i: int) -> bool {
    exists|j: int| 0 <= j < i && entries[j].file_name is Some && #[trigger] entries[j].path == entries[i].path
}

/// The paths of the test files among `entries`, each once, in the order in
/// which the walk first met them.
pub open spec fn found_tests(entries: Seq<WalkEntryView>) -> Seq<Seq<char>>
    decreases entries.len(),
{
    if entries.len() == 0 {
        Seq::empty()
    } else {
        let rest = found_tests(entries.drop_last());
        if is_test_file(entries.last()) && !met_before(entries, entries.len() - 1) {
            rest.push(entries.last().path)
        } else {
            rest
        }
    }
}

/// Why a search that found too few test files fails.
pub open spec fn too_few_reason(minimum_tests: nat, found: nat) -> Seq<char> {
    "expected at least "@ + decimal_of(minimum_tests) + " test(s), got "@ + decimal_of(found)
}

/// Whether `r` is the outcome of a search among `entries` that expects at
/// least `minimum_tests` test files: the files found, or the reason of the
/// failure where they are too few.
pub open spec fn is_search_result(
    entries: Seq<WalkEntryView>,
    minimum_tests: nat,
    r: Result<Vec<String>, String>,
) -> bool {
    match r {
        Ok(paths) => texts(paths@) == found_tests(entries) && paths@.len() >= minimum_tests,
        Err(reason) => found_tests(entries).len() < minimum_tests && reason@ == too_few_reason(
            minimum_tests,
            found_tests(entries).len(),
        ),
    }
}

/// Whether the walk met the path of entry `i` before.
fn was_met_before(entries: &Vec<WalkEntry>, i: usize) -> (r: bool)
    requires
        i < entries.len(),
    ensures
        r == met_before(entry_views(entries@), i as int),
{
    let ghost views = entry_views(entries@);
    let mut j: usize = 0;
    while j < i
        invariant
            0 <= j <= i < entries.len(),
            views == entry_views(entries@),
            forall|k: int| 0 <= k < j ==> !(views[k].file_name is Some && #[trigger] views[k].path == views[i as int].path),
        decreases i - j,
    {
        if entries[j].file_name.is_some() && entries[j].path == entries[i].path {
            assert(views[j as int].file_name is Some && views[j as int].path == views[i as int].path);
            return true;
        }
        j += 1;
    }
    false
}

/// Chooses the test files among the entries of a walk.
///
/// Kept are the files whose name ends in `.clts`, each path once, in the
/// order of the walk. The search fails where fewer than `minimum_tests` are
/// found; with `minimum_tests` at 0 it never fails.
pub fn find_cli_tests(entries: &Vec<WalkEntry>, minimum_tests: u32) -> (r: Result<Vec<String>, String>)
    ensures
        is_search_result(entry_views(entries@), minimum_tests as nat, r),
{
    let ghost views = entry_views(entries@);
    let mut results: Vec<String> = Vec::new();
    let mut i: usize = 0;
    assert(views.take(0) =~= Seq::<WalkEntryView>::empty());
    assert(texts(results@) =~= Seq::<Seq<char>>::empty());
    while i < entries.len()
        invariant
            0 <= i <= entries.len(),
            views == entry_views(entries@),
            texts(results@) == found_tests(views.take(i as int)),
            results.len() <= i,
        decreases entries.len() - i,
    {
        let ghost upto = views.take(i + 1);
        assert(upto.drop_last() =~= views.take(i as int));
        assert(upto.last() == entries[i as int]@);
        proof {
            lemma_met_before_in_prefix(views, i as int);
        }
        let entry = &entries[i];
        let is_test = match &entry.file_name {
            Some(name) => entry.is_file && ends_with(name.as_str(), ".clts"),
            None => false,
        };
        if is_test && !was_met_before(entries, i) {
            let ghost before = texts(results@);
            results.push(entry.path.clone());
            assert(texts(results@) =~= before.push(entry.path@));
        }
        i += 1;
    }
    assert(views.take(entries.len() as int) =~= views);
    if results.len() < minimum_tests as usize {
        let mut reason = String::from_str("expected at least ");
        push_decimal(&mut reason, minimum_tests as usize);
        reason.append(" test(s), got ");
        push_decimal(&mut reason, results.len());
        return Err(reason);
    }
    Ok(results)
}

/// Whether a path was met before entry `i` does not depend on the entries
/// behind `i`.
proof fn lemma_met_before_in_prefix(entries: Seq<WalkEntryView>, i: int)
    requires
        0 <= i < entries.len(),
    ensures
        met_before(entries.take(i + 1), i) == met_before(entries, i),
{
    let upto = entries.take(i + 1);
    if met_before(entries, i) {
        let j = choose|j: int| 0 <= j < i && entries[j].file_name is Some && #[trigger] entries[j].path == entries[i].path;
        assert(upto[j].file_name is Some && upto[j].path == upto[i].path);
    }
    if met_before(upto, i) {
        let j = choose|j: int| 0 <= j < i && upto[j].file_name is Some && #[trigger] upto[j].path == upto[i].path;
        assert(entries[j].file_name is Some && entries[j].path == entries[i].path);
    }
}

/// Every path that was found is the path of a test file among the entries.
pub proof fn lemma_found_are_test_files(entries: Seq<WalkEntryView>, k: int)
    requires
        0 <= k < found_tests(entries).len(),
    ensures
        exists|i: int| 0 <= i < entries.len() && is_test_file(entries[i]) && #[trigger] entries[i].path == found_tests(entries)[k],
    decreases entries.len(),
{
    let front = entries.drop_last();
    if k < found_tests(front).len() {
        lemma_found_are_test_files(front, k);
        let i = choose|i: int| 0 <= i < front.len() && is_test_file(front[i]) && #[trigger] front[i].path == found_tests(front)[k];
        assert(is_test_file(entries[i]) && entries[i].path == found_tests(entries)[k]);
    } else {
        let i = entries.len() - 1;
        assert(is_test_file(entries[i]) && entries[i].path == found_tests(entries)[k]);
    }
}

/// No path is found twice, however often the walk met it.
pub proof fn lemma_found_are_distinct(entries: Seq<WalkEntryView>, a: int, b: int)
    requires
        0 <= a < b < found_tests(entries).len(),
    ensures
        found_tests(entries)[a] != found_tests(entries)[b],
    decreases entries.len(),
{
    let front = entries.drop_last();
    if b < found_tests(front).len() {
        lemma_found_are_distinct(front, a, b);
    } else {
        lemma_found_are_test_files(front, a);
        let i = choose|i: int| 0 <= i < front.len() && is_test_file(front[i]) && #[trigger] front[i].path == found_tests(front)[a];
        if found_tests(entries)[a] == found_tests(entries)[b] {
            assert(entries[i].file_name is Some && entries[i].path == entries[entries.len() - 1].path);
            assert(met_before(entries, entries.len() - 1));
        }
    }
}

} // verus!
