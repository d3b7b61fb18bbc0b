//! Which attribute was declared where: the record behind the rule that an
//! attribute stands at most once in a test case, and at most once in front of
//! the first.

use vstd::prelude::*;
use vstd::string::StringExecFns;
use crate::keyword::BlockType;

verus! {

/// Whether a kind of block was closed before, and where.
#[derive(Debug, PartialEq, Eq, Clone, Copy, Structural)]
pub enum SeenBefore {
    /// Not so far.
    Never,
    /// Yes, while another test case was the current one.
    BeforeThisCase,
    /// Yes, and no test case was opened since.
    ThisCase,
}

/// Why an attribute that stands twice in front of the first test case is
/// refused.
pub open spec fn seen_globally_reason(name: Seq<char>) -> Seq<char> {
    "encountered "@ + name + " more than once, must be unique"@
}

/// Why an attribute that stands twice in one test case is refused.
pub open spec fn seen_for_test_reason(name: Seq<char>) -> Seq<char> {
    "encountered "@ + name + " more than once in this testcase, must be unique per testcase"@
}

impl SeenBefore {
    /// Refuses an attribute of the whole file that was declared before. The
    /// reason names the attribute.
    pub fn fail_if_seen_globally(self, name: &str) -> (r: Result<(), String>)
        ensures
            r is Err <==> self != SeenBefore::Never,
            r matches Err(reason) ==> reason@ == seen_globally_reason(name@),
    {
        if self != SeenBefore::Never {
            let mut reason = String::from_str("encountered ");
            reason.append(name);
            reason.append(" more than once, must be unique");
            return Err(reason);
        }
        Ok(())
    }

    /// Refuses an attribute of a test case that was declared in the same
    /// test case before. The reason names the attribute.
    pub fn fail_if_seen_for_test(self, name: &str) -> (r: Result<(), String>)
        ensures
            r is Err <==> self == SeenBefore::ThisCase,
            r matches Err(reason) ==> reason@ == seen_for_test_reason(name@),
    {
        if self == SeenBefore::ThisCase {
            let mut reason = String::from_str("encountered ");
            reason.append(name);
            reason.append(" more than once in this testcase, must be unique per testcase");
            return Err(reason);
        }
        Ok(())
    }
}

/// For each kind of block, the number of test cases that were open when a
/// block of that kind was last closed.
pub struct SeenTable {
    test: Option<usize>,
    exit_code: Option<usize>,
    stdout: Option<usize>,
    stderr: Option<usize>,
}

impl SeenTable {
    spec fn slot(&self, kind: BlockType) -> Option<usize> {
        match kind {
            BlockType::Test => self.test,
            BlockType::ExitCode => self.exit_code,
            BlockType::Stdout => self.stdout,
            BlockType::Stderr => self.stderr,
        }
    }
}

impl View for SeenTable {
    type V = Map<BlockType, nat>;

    /// The kinds that were closed so far, each with the number of test cases
    /// that were open when it was last closed.
    closed spec fn view(&self) -> Map<BlockType, nat> {
        Map::new(
            |kind: BlockType| self.slot(kind) is Some,
            |kind: BlockType| self.slot(kind).unwrap() as nat,
        )
    }
}

/// What the record says of `kind` while `cur_case` test cases are open.
pub open spec fn seen_before(seen: Map<BlockType, nat>, kind: BlockType, cur_case: nat) -> SeenBefore {
    if !seen.dom().contains(kind) {
        SeenBefore::Never
    } else if seen[kind] == cur_case {
        SeenBefore::ThisCase
    } else {
        SeenBefore::BeforeThisCase
    }
}

impl SeenTable {
    /// The record of a file of which nothing was read yet.
    pub fn new() -> (seen: SeenTable)
        ensures
            seen@ == Map::<BlockType, nat>::empty(),
    {
        let seen = SeenTable { test: None, exit_code: None, stdout: None, stderr: None };
        assert(seen@ =~= Map::<BlockType, nat>::empty());
        seen
    }
}

/// Records that a block of `kind` is closed while `cur_case` test cases are
/// open, and says where a block of that kind was closed before.
pub fn register_seen(kind: BlockType, seen: &mut SeenTable, cur_case: usize) -> (before: SeenBefore)
    ensures
        before == seen_before(old(seen)@, kind, cur_case as nat),
        final(seen)@ == old(seen)@.insert(kind, cur_case as nat),
{
    let prev = match kind {
        BlockType::Test => seen.test,
        BlockType::ExitCode => seen.exit_code,
        BlockType::Stdout => seen.stdout,
        BlockType::Stderr => seen.stderr,
    };
    match kind {
        BlockType::Test => {
            seen.test = Some(cur_case);
        },
        BlockType::ExitCode => {
            seen.exit_code = Some(cur_case);
        },
        BlockType::Stdout => {
            seen.stdout = Some(cur_case);
        },
        BlockType::Stderr => {
            seen.stderr = Some(cur_case);
        },
    }
    assert(seen@ =~= old(seen)@.insert(kind, cur_case as nat));
    match prev {
        Some(case) => {
            if case == cur_case {
                SeenBefore::ThisCase
            } else {
                SeenBefore::BeforeThisCase
            }
        },
        None => SeenBefore::Never,
    }
}

/// The record is kept by kind and by test case. Once a block of `kind` is
/// recorded while `recorded` test cases are open, that kind counts as seen in
/// this case for as long as the number stays, and as seen before this case
/// once another case is open; for every other kind nothing has changed.
pub proof fn lemma_seen_is_scoped(seen: Map<BlockType, nat>, kind: BlockType, recorded: nat, now: nat)
    ensures
        seen_before(seen.insert(kind, recorded), kind, now) == if now == recorded {
            SeenBefore::ThisCase
        } else {
            SeenBefore::BeforeThisCase
        },
        forall|other: BlockType|
            other != kind ==> seen_before(seen.insert(kind, recorded), other, now) == seen_before(
                seen,
                other,
                now,
            ),
{
}

} // verus!
