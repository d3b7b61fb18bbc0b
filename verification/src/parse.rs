//! Reading a test-definition file.
//!
//! The file is read line by line. A keyword line opens a block; the lines
//! that follow, indented or empty, belong to it; the next keyword line, or
//! the end of the file, closes it. A closed block is checked against what was
//! declared before and stored: a `TEST` block as a new test case, any other
//! in the current test case, or for the whole file while there is no case.

use vstd::prelude::*;
use vstd::string::StringExecFns;
use crate::dedent::{
    combine_dedent, dedented, lemma_fragment_leads, min_indent, strip_all, strip_indent,
};
use crate::keyword::{
    continues_block, fragment_of, is_comment, is_comment_line, is_continuation, keyword_line,
    name_of, read_keyword_line, BlockType,
};
use crate::seen::{
    register_seen, seen_before, seen_for_test_reason, seen_globally_reason, SeenBefore, SeenTable,
};
use crate::text::{
    all_blank, are_blank_lines, decimal_of, lines_of, push_decimal, split_lines, texts,
};

verus! {

/// One command to test, with what is expected of it. An expectation that the
/// case does not declare is empty: the file's default then holds.
#[derive(Debug, Clone, PartialEq, Eq)]
pub struct TestCase {
    /// The command to run, with its arguments.
    pub cases: String,
    /// The exit code that is expected.
    pub exit_code: String,
    /// What is expected on standard output.
    pub out: String,
    /// What is expected on standard error.
    pub err: String,
}

/// What one test-definition file says.
#[derive(Debug, Clone, PartialEq, Eq)]
pub struct CliTest {
    /// The file that was read; it is named when the file is refused.
    pub path: String,
    /// The exit code expected of every case that declares none.
    pub exit_code: String,
    /// The standard output expected of every case that declares none.
    pub out: String,
    /// The standard error expected of every case that declares none.
    pub err: String,
    /// The test cases, in the order in which the file declares them.
    pub cases: Vec<TestCase>,
}

/// A [`TestCase`] as plain text.
pub struct TestCaseView {
    pub cases: Seq<char>,
    pub exit_code: Seq<char>,
    pub out: Seq<char>,
    pub err: Seq<char>,
}

/// A [`CliTest`] as plain text.
pub struct CliTestView {
    pub path: Seq<char>,
    pub exit_code: Seq<char>,
    pub out: Seq<char>,
    pub err: Seq<char>,
    pub cases: Seq<TestCaseView>,
}

impl View for TestCase {
    type V = TestCaseView;

    open spec fn view(&self) -> TestCaseView {
        TestCaseView {
            cases: self.cases@,
            exit_code: self.exit_code@,
            out: self.out@,
            err: self.err@,
        }
    }
}

impl View for CliTest {
    type V = CliTestView;

    open spec fn view(&self) -> CliTestView {
        CliTestView {
            path: self.path@,
            exit_code: self.exit_code@,
            out: self.out@,
            err: self.err@,
            cases: Seq::new(self.cases@.len(), |i: int| self.cases@[i]@),
        }
    }
}

/// Why text in front of the first keyword is refused.
pub open spec fn code_before_keyword_reason() -> Seq<char> {
    "encountered code before the first keyword; use a keyword like 'TEST' before embedding code"@
}

/// The test case that a `TEST` block with the given lines opens.
pub open spec fn opened_case(block: Seq<Seq<char>>) -> TestCaseView {
    TestCaseView {
        cases: dedented(block),
        exit_code: Seq::empty(),
        out: Seq::empty(),
        err: Seq::empty(),
    }
}

/// `case` with the attribute of the given kind set to `code`.
pub open spec fn case_with(case: TestCaseView, kind: BlockType, code: Seq<char>) -> TestCaseView {
    match kind {
        BlockType::Test => case,
        BlockType::ExitCode => TestCaseView { exit_code: code, ..case },
        BlockType::Stdout => TestCaseView { out: code, ..case },
        BlockType::Stderr => TestCaseView { err: code, ..case },
    }
}

/// `test` with the default of the given kind set to `code`.
pub open spec fn default_with(test: CliTestView, kind: BlockType, code: Seq<char>) -> CliTestView {
    match kind {
        BlockType::Test => test,
        BlockType::ExitCode => CliTestView { exit_code: code, ..test },
        BlockType::Stdout => CliTestView { out: code, ..test },
        BlockType::Stderr => CliTestView { err: code, ..test },
    }
}

/// What closing a block does to the file read so far.
///
/// `prev_keyword` is the keyword that opened the block, `None` for the lines
/// in front of the first keyword; `block` holds the lines; `before` says
/// where a block of this kind was closed before.
///
/// - In front of the first keyword only blank lines may stand.
/// - A `TEST` block becomes a new test case, the last one.
/// - An attribute goes to the last test case, unless that case has it
///   already. While there is no test case it becomes the file's default,
///   unless the file has that default already.
pub open spec fn store_block(
    test: CliTestView,
    prev_keyword: Option<BlockType>,
    block: Seq<Seq<char>>,
    before: SeenBefore,
) -> Result<CliTestView, Seq<char>> {
    match prev_keyword {
        None => if all_blank(block) {
            Ok(test)
        } else {
            Err(code_before_keyword_reason())
        },
        Some(BlockType::Test) => Ok(CliTestView { cases: test.cases.push(opened_case(block)), ..test }),
        Some(kind) => if test.cases.len() > 0 {
            if before == SeenBefore::ThisCase {
                Err(seen_for_test_reason(name_of(kind)))
            } else {
                Ok(
                    CliTestView {
                        cases: test.cases.update(
                            test.cases.len() - 1,
                            case_with(test.cases.last(), kind, dedented(block)),
                        ),
                        ..test
                    },
                )
            }
        } else {
            if before != SeenBefore::Never {
                Err(seen_globally_reason(name_of(kind)))
            } else {
                Ok(default_with(test, kind, dedented(block)))
            }
        },
    }
}

/// Sets the attribute of the given kind in the last test case.
fn set_in_last_case(test: &mut CliTest, kind: BlockType, code: String)
    requires
        old(test).cases.len() > 0,
    ensures
        final(test)@ == (CliTestView {
            cases: old(test)@.cases.update(
                old(test)@.cases.len() - 1,
                case_with(old(test)@.cases.last(), kind, code@),
            ),
            ..old(test)@
        }),
{
    let mut cur = test.cases.pop().unwrap();
    match kind {
        BlockType::Test => {},
        BlockType::ExitCode => {
            cur.exit_code = code;
        },
        BlockType::Stdout => {
            cur.out = code;
        },
        BlockType::Stderr => {
            cur.err = code;
        },
    }
    test.cases.push(cur);
    assert(test@.cases =~= old(test)@.cases.update(
        old(test)@.cases.len() - 1,
        case_with(old(test)@.cases.last(), kind, code@),
    ));
}

/// Sets the file's default of the given kind.
fn set_default(test: &mut CliTest, kind: BlockType, code: String)
    ensures
        final(test)@ == default_with(old(test)@, kind, code@),
{
    match kind {
        BlockType::Test => {},
        BlockType::ExitCode => {
            test.exit_code = code;
        },
        BlockType::Stdout => {
            test.out = code;
        },
        BlockType::Stderr => {
            test.err = code;
        },
    }
}

/// Closes a block: checks it against what was declared before, and stores
/// its dedented content in `test`.
///
/// `prev_keyword` is the keyword that opened the block, `None` for the lines
/// in front of the first keyword. Where the block is refused, `test` is left
/// as it was and the reason is returned.
pub fn handle_keyword(
    prev_keyword: Option<BlockType>,
    block: &Vec<String>,
    test: &mut CliTest,
    seen_before: SeenBefore,
) -> (r: Result<(), String>)
    ensures
        match r {
            Ok(()) => store_block(old(test)@, prev_keyword, texts(block@), seen_before) == Ok::<
                CliTestView,
                Seq<char>,
            >(final(test)@),
            Err(reason) => store_block(old(test)@, prev_keyword, texts(block@), seen_before)
                == Err::<CliTestView, Seq<char>>(reason@) && final(test)@ == old(test)@,
        },
{
    match prev_keyword {
        None => {
            if !are_blank_lines(block) {
                return Err(
                    String::from_str(
                        "encountered code before the first keyword; use a keyword like 'TEST' before embedding code",
                    ),
                );
            }
        },
        Some(BlockType::Test) => {
            let case = TestCase {
                cases: combine_dedent(block),
                exit_code: String::new(),
                out: String::new(),
                err: String::new(),
            };
            test.cases.push(case);
            assert(test@.cases =~= old(test)@.cases.push(opened_case(texts(block@))));
        },
        Some(kind) => {
            if test.cases.len() > 0 {
                match seen_before.fail_if_seen_for_test(kind.name()) {
                    Err(reason) => {
                        return Err(reason);
                    },
                    Ok(()) => {},
                }
                set_in_last_case(test, kind, combine_dedent(block));
            } else {
                match seen_before.fail_if_seen_globally(kind.name()) {
                    Err(reason) => {
                        return Err(reason);
                    },
                    Ok(()) => {},
                }
                set_default(test, kind, combine_dedent(block));
            }
        },
    }
    Ok(())
}

/// Where the reading of a file stands between two lines.
pub struct ParseState {
    /// What the closed blocks have declared so far.
    pub test: CliTest,
    /// The keyword that opened the block that is open, `None` in front of the
    /// first keyword.
    pub prev_keyword: Option<BlockType>,
    /// The lines of the block that is open.
    pub block: Vec<String>,
    /// Where each kind of block was last closed.
    pub seen: SeenTable,
}

/// A [`ParseState`] as plain values.
pub struct ParseStateView {
    pub test: CliTestView,
    pub prev_keyword: Option<BlockType>,
    pub block: Seq<Seq<char>>,
    pub seen: Map<BlockType, nat>,
}

impl View for ParseState {
    type V = ParseStateView;

    open spec fn view(&self) -> ParseStateView {
        ParseStateView {
            test: self.test@,
            prev_keyword: self.prev_keyword,
            block: texts(self.block@),
            seen: self.seen@,
        }
    }
}

/// The state in which the reading of the file at `path` begins.
pub open spec fn initial_state(path: Seq<char>) -> ParseStateView {
    ParseStateView {
        test: CliTestView {
            path,
            exit_code: Seq::empty(),
            out: Seq::empty(),
            err: Seq::empty(),
            cases: Seq::empty(),
        },
        prev_keyword: None,
        block: Seq::empty(),
        seen: Map::empty(),
    }
}

/// The state after the open block is closed: the block is stored, and its
/// kind is recorded with the number of test cases that were open. The block
/// itself is left in place.
pub open spec fn close_block(s: ParseStateView) -> Result<ParseStateView, Seq<char>> {
    let before = match s.prev_keyword {
        Some(kind) => seen_before(s.seen, kind, s.test.cases.len()),
        None => SeenBefore::Never,
    };
    let seen = match s.prev_keyword {
        Some(kind) => s.seen.insert(kind, s.test.cases.len()),
        None => s.seen,
    };
    match store_block(s.test, s.prev_keyword, s.block, before) {
        Ok(test) => Ok(ParseStateView { test, seen, ..s }),
        Err(reason) => Err(reason),
    }
}

/// The state after one more line, or the reason why the line is refused.
///
/// - A line that is empty or begins with a space or a tab is added to the
///   open block as it is.
/// - A line that begins with `#` changes nothing.
/// - Any other line must begin with a keyword. It closes the open block and
///   opens a new one, whose first line is what follows the keyword.
pub open spec fn step(s: ParseStateView, line: Seq<char>) -> Result<ParseStateView, Seq<char>> {
    if continues_block(line) {
        Ok(ParseStateView { block: s.block.push(line), ..s })
    } else if is_comment(line) {
        Ok(s)
    } else {
        match keyword_line(line) {
            Err(reason) => Err(reason),
            Ok((kind, fragment)) => match close_block(s) {
                Err(reason) => Err(reason),
                Ok(closed) => Ok(
                    ParseStateView { prev_keyword: Some(kind), block: seq![fragment], ..closed },
                ),
            },
        }
    }
}

/// Why a file without any keyword is refused.
pub open spec fn no_keyword_reason() -> Seq<char> {
    "found no keyword; a cli-test file needs at least one keyword like 'TEST'"@
}

/// What the file says once its last line is read: the open block is closed
/// like any other, and a file that never opened one is refused.
pub open spec fn finish(s: ParseStateView) -> Result<CliTestView, Seq<char>> {
    match close_block(s) {
        Err(reason) => Err(reason),
        Ok(closed) => if s.prev_keyword is None {
            Err(no_keyword_reason())
        } else {
            Ok(closed.test)
        },
    }
}

/// Why a file is refused, and at which line.
pub struct Failure {
    /// The number of the line, counted from 1.
    pub line: nat,
    /// What is wrong.
    pub reason: Seq<char>,
}

/// The state after all of `lines`, read in order from the state `s`, or the
/// first line that is refused with its reason.
pub open spec fn run(s: ParseStateView, lines: Seq<Seq<char>>) -> Result<ParseStateView, Failure>
    decreases lines.len(),
{
    if lines.len() == 0 {
        Ok(s)
    } else {
        match run(s, lines.drop_last()) {
            Err(failure) => Err(failure),
            Ok(before) => match step(before, lines.last()) {
                Ok(after) => Ok(after),
                Err(reason) => Err(Failure { line: lines.len(), reason }),
            },
        }
    }
}

/// The line that a fault found at the end of the file is reported at: the
/// last line, or line 1 of a file without lines.
pub open spec fn last_line(lines: Seq<Seq<char>>) -> nat {
    if lines.len() == 0 {
        1
    } else {
        lines.len()
    }
}

/// What a file with the given lines says, or why and where it is refused.
///
/// The lines are read in order; the first one that is refused ends the
/// reading. A fault that shows only when the last block is closed is reported
/// at the last line.
pub open spec fn parse_outcome(lines: Seq<Seq<char>>, path: Seq<char>) -> Result<CliTestView, Failure> {
    match run(initial_state(path), lines) {
        Err(failure) => Err(failure),
        Ok(s) => match finish(s) {
            Ok(test) => Ok(test),
            Err(reason) => Err(Failure { line: last_line(lines), reason }),
        },
    }
}

/// The text of the line with the given number, empty where the file has no
/// such line.
pub open spec fn line_text(lines: Seq<Seq<char>>, line: nat) -> Seq<char> {
    if 1 <= line <= lines.len() {
        lines[line - 1]
    } else {
        Seq::empty()
    }
}

/// The message for a fault: it names the file and the line, gives the reason
/// and quotes the line.
pub open spec fn failure_message(path: Seq<char>, lines: Seq<Seq<char>>, failure: Failure) -> Seq<char> {
    "parse error at "@ + path + ":"@ + decimal_of(failure.line) + ": "@ + failure.reason
        + " (in line '"@ + line_text(lines, failure.line) + "')"@
}

/// What reading the text `code` of the file at `path` gives: what the file
/// says, or the message for its first fault.
pub open spec fn parse_result(code: Seq<char>, path: Seq<char>) -> Result<CliTestView, Seq<char>> {
    match parse_outcome(lines_of(code), path) {
        Ok(test) => Ok(test),
        Err(failure) => Err(failure_message(path, lines_of(code), failure)),
    }
}

/// Whether `r` is what reading `code` gives.
pub open spec fn is_parse_of(code: Seq<char>, path: Seq<char>, r: Result<CliTest, String>) -> bool {
    match r {
        Ok(test) => parse_result(code, path) == Ok::<CliTestView, Seq<char>>(test@),
        Err(message) => parse_result(code, path) == Err::<CliTestView, Seq<char>>(message@),
    }
}

/// Why a file is refused, and at which line.
#[derive(Debug, Clone, PartialEq, Eq)]
pub struct ParseFailure {
    /// The number of the line, counted from 1.
    pub line: usize,
    /// What is wrong.
    pub reason: String,
}

impl View for ParseFailure {
    type V = Failure;

    open spec fn view(&self) -> Failure {
        Failure { line: self.line as nat, reason: self.reason@ }
    }
}

impl ParseState {
    /// The state in which the reading of the file at `path` begins.
    pub fn new(path: &str) -> (state: ParseState)
        ensures
            state@ == initial_state(path@),
    {
        let state = ParseState {
            test: CliTest {
                path: path.to_owned(),
                exit_code: String::new(),
                out: String::new(),
                err: String::new(),
                cases: Vec::new(),
            },
            prev_keyword: None,
            block: Vec::new(),
            seen: SeenTable::new(),
        };
        assert(state@.test.cases =~= Seq::<TestCaseView>::empty());
        assert(state@.block =~= Seq::<Seq<char>>::empty());
        state
    }

    /// Closes the open block: records its kind and stores it.
    fn close(&mut self) -> (r: Result<(), String>)
        ensures
            match r {
                Ok(()) => close_block(old(self)@) == Ok::<ParseStateView, Seq<char>>(final(self)@),
                Err(reason) => close_block(old(self)@) == Err::<ParseStateView, Seq<char>>(
                    reason@,
                ) && final(self)@ == (ParseStateView { seen: final(self)@.seen, ..old(self)@ }),
            },
    {
        let before = match self.prev_keyword {
            Some(kind) => register_seen(kind, &mut self.seen, self.test.cases.len()),
            None => SeenBefore::Never,
        };
        handle_keyword(self.prev_keyword, &self.block, &mut self.test, before)
    }

    /// Ends the reading: closes the last block and hands out what the file
    /// says. A file in which no keyword was found is refused.
    pub fn finish(self) -> (r: Result<CliTest, String>)
        ensures
            match r {
                Ok(test) => finish(self@) == Ok::<CliTestView, Seq<char>>(test@),
                Err(reason) => finish(self@) == Err::<CliTestView, Seq<char>>(reason@),
            },
    {
        let mut state = self;
        match state.close() {
            Err(reason) => {
                return Err(reason);
            },
            Ok(()) => {},
        }
        if state.prev_keyword.is_none() {
            return Err(
                String::from_str(
                    "found no keyword; a cli-test file needs at least one keyword like 'TEST'",
                ),
            );
        }
        Ok(state.test)
    }
}

/// Reads one more line of the file.
///
/// A continuation line is added to the open block and a comment is skipped.
/// A keyword line closes the open block, which is checked and stored, and
/// opens the next. Where the line is refused the reason is returned; what was
/// stored and the open block are then as they were, and only the record of
/// what was closed may have changed.
pub fn handle_line(line: &str, state: &mut ParseState) -> (r: Result<(), String>)
    ensures
        match r {
            Ok(()) => step(old(state)@, line@) == Ok::<ParseStateView, Seq<char>>(final(state)@),
            Err(reason) => step(old(state)@, line@) == Err::<ParseStateView, Seq<char>>(reason@)
                && final(state)@ == (ParseStateView { seen: final(state)@.seen, ..old(state)@ }),
        },
{
    if is_continuation(line) {
        state.block.push(line.to_owned());
        assert(state@.block =~= old(state)@.block.push(line@));
    } else if is_comment_line(line) {
    } else {
        let (kind, fragment) = match read_keyword_line(line) {
            Ok(opened) => opened,
            Err(reason) => {
                return Err(reason);
            },
        };
        match state.close() {
            Err(reason) => {
                return Err(reason);
            },
            Ok(()) => {},
        }
        state.prev_keyword = Some(kind);
        let mut block: Vec<String> = Vec::new();
        block.push(fragment);
        state.block = block;
        assert(state@.block =~= seq![fragment@]);
    }
    Ok(())
}

impl CliTest {
    /// Reads a test-definition file that is given line by line.
    ///
    /// Returns what the file says, or the first fault with the number of the
    /// line at which it was found.
    pub fn parse_lines(lines: &Vec<String>, path: &str) -> (r: Result<CliTest, ParseFailure>)
        ensures
            match r {
                Ok(test) => parse_outcome(texts(lines@), path@) == Ok::<CliTestView, Failure>(test@),
                Err(failure) => parse_outcome(texts(lines@), path@) == Err::<CliTestView, Failure>(
                    failure@,
                ),
            },
    {
        let ghost all = texts(lines@);
        let mut state = ParseState::new(path);
        let mut ix: usize = 0;
        assert(all.take(0) =~= Seq::<Seq<char>>::empty());
        while ix < lines.len()
            invariant
                0 <= ix <= lines.len(),
                all == texts(lines@),
                run(initial_state(path@), all.take(ix as int)) == Ok::<ParseStateView, Failure>(
                    state@,
                ),
            decreases lines.len() - ix,
        {
            assert(all.take(ix + 1).drop_last() =~= all.take(ix as int));
            assert(all.take(ix + 1).last() == lines[ix as int]@);
            match handle_line(lines[ix].as_str(), &mut state) {
                Err(reason) => {
                    proof {
                        lemma_run_stops(initial_state(path@), all, ix + 1);
                    }
                    return Err(ParseFailure { line: ix + 1, reason });
                },
                Ok(()) => {},
            }
            ix += 1;
        }
        assert(all.take(lines.len() as int) =~= all);
        match state.finish() {
            Ok(test) => Ok(test),
            Err(reason) => {
                let line = if lines.len() == 0 {
                    1
                } else {
                    lines.len()
                };
                Err(ParseFailure { line, reason })
            },
        }
    }

    /// Reads a test-definition file.
    ///
    /// `code` is the text of the file and `path` names it. Returns what the
    /// file says, or a message that names the file and the line of the first
    /// fault, gives the reason and quotes the line.
    pub fn parse(code: &str, path: &str) -> (r: Result<CliTest, String>)
        ensures
            is_parse_of(code@, path@, r),
    {
        let lines = split_lines(code);
        match CliTest::parse_lines(&lines, path) {
            Ok(test) => Ok(test),
            Err(failure) => Err(failure.message(path, &lines)),
        }
    }
}

impl ParseFailure {
    /// The message for this fault in the file at `path` with the given
    /// lines: `parse error at <path>:<line>: <reason> (in line '<text>')`.
    pub fn message(&self, path: &str, lines: &Vec<String>) -> (message: String)
        ensures
            message@ == failure_message(path@, texts(lines@), self@),
    {
        let mut message = String::from_str("parse error at ");
        message.append(path);
        message.append(":");
        push_decimal(&mut message, self.line);
        message.append(": ");
        message.append(self.reason.as_str());
        message.append(" (in line '");
        if 1 <= self.line && self.line <= lines.len() {
            message.append(lines[self.line - 1].as_str());
        } else {
            assert(message@ + Seq::<char>::empty() =~= message@);
        }
        message.append("')");
        message
    }
}

/// Once a line is refused, the lines behind it are not read: the fault of a
/// part of the file is the fault of the whole.
pub proof fn lemma_run_stops(s: ParseStateView, lines: Seq<Seq<char>>, upto: int)
    requires
        0 <= upto <= lines.len(),
        run(s, lines.take(upto)) is Err,
    ensures
        run(s, lines) == run(s, lines.take(upto)),
    decreases lines.len(),
{
    if upto == lines.len() {
        assert(lines.take(upto) =~= lines);
    } else {
        assert(lines.drop_last().take(upto) =~= lines.take(upto));
        lemma_run_stops(s, lines.drop_last(), upto);
    }
}

/// Reading is a function of the text: two readings of the same text under
/// the same path give the same test cases and defaults, or the same message.
pub proof fn lemma_parse_is_deterministic(
    code: Seq<char>,
    path: Seq<char>,
    first: Result<CliTest, String>,
    second: Result<CliTest, String>,
)
    requires
        is_parse_of(code, path, first),
        is_parse_of(code, path, second),
    ensures
        first is Ok <==> second is Ok,
        first is Ok ==> first->Ok_0@ == second->Ok_0@,
        first is Err ==> first->Err_0@ == second->Err_0@,
{
}

/// A fault found while the lines are read names the line that was refused:
/// the lines in front of it were read without fault, and it is that line
/// which the next step refuses, with the reason given.
pub proof fn lemma_run_fault_is_located(s: ParseStateView, lines: Seq<Seq<char>>)
    requires
        run(s, lines) is Err,
    ensures
        ({
            let failure = run(s, lines)->Err_0;
            &&& 1 <= failure.line <= lines.len()
            &&& run(s, lines.take(failure.line - 1)) is Ok
            &&& step(run(s, lines.take(failure.line - 1))->Ok_0, lines[failure.line - 1])
                == Err::<ParseStateView, Seq<char>>(failure.reason)
        }),
    decreases lines.len(),
{
    let front = lines.drop_last();
    if run(s, front) is Err {
        lemma_run_fault_is_located(s, front);
        let failure = run(s, front)->Err_0;
        assert(front.take(failure.line - 1) =~= lines.take(failure.line - 1));
    } else {
        assert(lines.take(lines.len() - 1) =~= front);
    }
}

/// The line number of a fault counts from 1 and names a line of the file,
/// and it is that line which the message quotes. Every line in front of it
/// was read without fault. Either it is the line that was refused, or the
/// file was read to its end and the fault showed when the last block was
/// closed: then the line is the last one. Only a file without lines has its
/// fault at a line 1 that does not exist.
pub proof fn lemma_failure_is_located(lines: Seq<Seq<char>>, path: Seq<char>)
    requires
        parse_outcome(lines, path) is Err,
    ensures
        ({
            let failure = parse_outcome(lines, path)->Err_0;
            let start = initial_state(path);
            &&& 1 <= failure.line
            &&& lines.len() > 0 ==> failure.line <= lines.len() && line_text(lines, failure.line)
                == lines[failure.line - 1]
            &&& lines.len() == 0 ==> failure.line == 1
            &&& run(start, lines.take(failure.line - 1)) is Ok
            &&& {
                ||| failure.line <= lines.len() && step(
                    run(start, lines.take(failure.line - 1))->Ok_0,
                    lines[failure.line - 1],
                ) == Err::<ParseStateView, Seq<char>>(failure.reason)
                ||| failure.line == last_line(lines) && run(start, lines) is Ok && finish(
                    run(start, lines)->Ok_0,
                ) == Err::<CliTestView, Seq<char>>(failure.reason)
            }
        }),
{
    let start = initial_state(path);
    if run(start, lines) is Err {
        lemma_run_fault_is_located(start, lines);
    } else {
        lemma_run_prefix_is_read(start, lines, last_line(lines) - 1);
    }
}

/// Where all lines are read without fault, so is every beginning of them.
pub proof fn lemma_run_prefix_is_read(s: ParseStateView, lines: Seq<Seq<char>>, upto: int)
    requires
        0 <= upto <= lines.len(),
        run(s, lines) is Ok,
    ensures
        run(s, lines.take(upto)) is Ok,
{
    if run(s, lines.take(upto)) is Err {
        lemma_run_stops(s, lines, upto);
    }
}

/// Whether the record of `s` fits its test cases: no kind of block was
/// closed with more test cases open than there are now.
pub open spec fn record_fits(s: ParseStateView) -> bool {
    forall|kind: BlockType| #[trigger]
        s.seen.dom().contains(kind) ==> s.seen[kind] <= s.test.cases.len()
}

/// Closing a block keeps the record fitting, and never takes a test case
/// away.
pub proof fn lemma_close_keeps_record(s: ParseStateView)
    requires
        record_fits(s),
        close_block(s) is Ok,
    ensures
        record_fits(close_block(s)->Ok_0),
        close_block(s)->Ok_0.test.cases.len() >= s.test.cases.len(),
{
}

/// The record fits in every state that reading reaches.
pub proof fn lemma_run_keeps_record(s: ParseStateView, lines: Seq<Seq<char>>)
    requires
        record_fits(s),
        run(s, lines) is Ok,
    ensures
        record_fits(run(s, lines)->Ok_0),
    decreases lines.len(),
{
    if lines.len() > 0 {
        lemma_run_keeps_record(s, lines.drop_last());
        let before = run(s, lines.drop_last())->Ok_0;
        let line = lines.last();
        if !continues_block(line) && !is_comment(line) {
            lemma_close_keeps_record(before);
        }
    }
}

/// An attribute stands at most once in a test case. While a test case is
/// open, closing a block of an attribute is refused if and only if a block of
/// the same attribute was closed since that test case was opened. Where it is
/// accepted, the next one in the same test case is refused.
pub proof fn lemma_attribute_once_per_case(s: ParseStateView, kind: BlockType)
    requires
        record_fits(s),
        s.prev_keyword == Some(kind),
        kind != BlockType::Test,
        s.test.cases.len() > 0,
    ensures
        close_block(s) is Err <==> s.seen.dom().contains(kind) && s.seen[kind]
            == s.test.cases.len(),
        close_block(s) is Err ==> close_block(s)->Err_0 == seen_for_test_reason(name_of(kind)),
        close_block(s) is Ok ==> ({
            let closed = close_block(s)->Ok_0;
            &&& closed.test.cases.len() == s.test.cases.len()
            &&& seen_before(closed.seen, kind, closed.test.cases.len()) == SeenBefore::ThisCase
        }),
{
}

/// In front of the first test case an attribute stands at most once: there,
/// closing a block of an attribute is refused if and only if a block of the
/// same attribute was closed before.
pub proof fn lemma_default_once_per_file(s: ParseStateView, kind: BlockType)
    requires
        s.prev_keyword == Some(kind),
        kind != BlockType::Test,
        s.test.cases.len() == 0,
    ensures
        close_block(s) is Err <==> s.seen.dom().contains(kind),
        close_block(s) is Err ==> close_block(s)->Err_0 == seen_globally_reason(name_of(kind)),
{
}

/// A new test case starts with no attribute declared: once a `TEST` block is
/// closed there is one more test case, and of no kind of block does the
/// record say that it was closed in this case.
pub proof fn lemma_new_case_allows_attributes(s: ParseStateView)
    requires
        record_fits(s),
        s.prev_keyword == Some(BlockType::Test),
    ensures
        close_block(s) is Ok,
        ({
            let closed = close_block(s)->Ok_0;
            &&& closed.test.cases.len() == s.test.cases.len() + 1
            &&& forall|kind: BlockType|
                seen_before(closed.seen, kind, closed.test.cases.len()) != SeenBefore::ThisCase
        }),
{
    let closed = close_block(s)->Ok_0;
    assert forall|kind: BlockType|
        seen_before(closed.seen, kind, closed.test.cases.len()) != SeenBefore::ThisCase by {
        if closed.seen.dom().contains(kind) && kind != BlockType::Test {
            assert(s.seen.dom().contains(kind));
        }
    }
}

/// What stands behind a keyword is the first line of the block that the
/// keyword opens, and stays so while the block grows. So it leads the
/// content of the block, stripped like every line: by the indent of the
/// lines below it, and by no more than it has itself.
pub proof fn lemma_fragment_stays_first(s: ParseStateView, line: Seq<char>, more: Seq<Seq<char>>)
    requires
        !continues_block(line),
        !is_comment(line),
        step(s, line) is Ok,
        forall|i: int| 0 <= i < more.len() ==> continues_block(#[trigger] more[i]) || is_comment(more[i]),
    ensures
        run(step(s, line)->Ok_0, more) is Ok,
        ({
            let opened = step(s, line)->Ok_0;
            let grown = run(opened, more)->Ok_0;
            let by = min_indent(grown.block) as int;
            &&& grown.prev_keyword == Some(keyword_line(line)->Ok_0.0)
            &&& grown.test == opened.test
            &&& grown.block.len() >= 1
            &&& grown.block[0] == fragment_of(line)
            &&& dedented(grown.block) == strip_indent(fragment_of(line), by) + strip_all(
                grown.block.drop_first(),
                by,
            ).flatten()
        }),
    decreases more.len(),
{
    let opened = step(s, line)->Ok_0;
    if more.len() > 0 {
        let front = more.drop_last();
        assert forall|i: int| 0 <= i < front.len() implies continues_block(#[trigger] front[i])
            || is_comment(front[i]) by {
            assert(front[i] == more[i]);
        }
        lemma_fragment_stays_first(s, line, front);
        let before = run(opened, front)->Ok_0;
        assert(continues_block(more.last()) || is_comment(more.last()));
    }
    lemma_fragment_leads(run(opened, more)->Ok_0.block);
}

/// Closing a block leaves the test cases that were there in their order, and
/// all but the last of them as they were: a block belongs to the last test
/// case or opens a new one.
pub proof fn lemma_close_keeps_earlier_cases(s: ParseStateView)
    requires
        close_block(s) is Ok,
    ensures
        ({
            let closed = close_block(s)->Ok_0;
            &&& closed.test.cases.len() == s.test.cases.len() + if s.prev_keyword == Some(
                BlockType::Test,
            ) {
                1int
            } else {
                0int
            }
            &&& closed.test.path == s.test.path
            &&& forall|i: int|
                0 <= i < s.test.cases.len() - 1 ==> #[trigger] closed.test.cases[i]
                    == s.test.cases[i]
            &&& s.prev_keyword == Some(BlockType::Test) && s.test.cases.len() > 0
                ==> closed.test.cases[s.test.cases.len() - 1] == s.test.cases.last()
        }),
{
}

/// Whether `line` is a keyword line that opens a test case.
pub open spec fn opens_case(line: Seq<char>) -> bool {
    &&& !continues_block(line)
    &&& !is_comment(line)
    &&& keyword_line(line) is Ok
    &&& keyword_line(line)->Ok_0.0 == BlockType::Test
}

/// How many of `lines` open a test case.
pub open spec fn case_count(lines: Seq<Seq<char>>) -> nat
    decreases lines.len(),
{
    if lines.len() == 0 {
        0
    } else {
        case_count(lines.drop_last()) + if opens_case(lines.last()) {
            1nat
        } else {
            0nat
        }
    }
}

/// While a file is read, the test cases that are stored, and the one that is
/// still open, are as many as the `TEST` lines read; and the path stays.
proof fn lemma_run_counts_cases(path: Seq<char>, lines: Seq<Seq<char>>)
    requires
        run(initial_state(path), lines) is Ok,
    ensures
        ({
            let s = run(initial_state(path), lines)->Ok_0;
            &&& s.test.path == path
            &&& s.test.cases.len() + if s.prev_keyword == Some(BlockType::Test) {
                1int
            } else {
                0int
            } == case_count(lines)
        }),
    decreases lines.len(),
{
    if lines.len() > 0 {
        lemma_run_counts_cases(path, lines.drop_last());
        let before = run(initial_state(path), lines.drop_last())->Ok_0;
        if !continues_block(lines.last()) && !is_comment(lines.last()) {
            lemma_close_keeps_earlier_cases(before);
        }
    }
}

/// A file that is accepted has one test case for each of its `TEST` lines,
/// and carries the path that it was read under.
pub proof fn lemma_one_case_per_test_line(lines: Seq<Seq<char>>, path: Seq<char>)
    requires
        parse_outcome(lines, path) is Ok,
    ensures
        parse_outcome(lines, path)->Ok_0.cases.len() == case_count(lines),
        parse_outcome(lines, path)->Ok_0.path == path,
{
    lemma_run_counts_cases(path, lines);
    lemma_close_keeps_earlier_cases(run(initial_state(path), lines)->Ok_0);
}

} // verus!
