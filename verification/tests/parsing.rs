use clitest::parse::{handle_keyword, handle_line, ParseFailure, ParseState};
use clitest::keyword::BlockType;
use clitest::seen::{register_seen, SeenBefore, SeenTable};
use clitest::text::split_lines;
use clitest::{CliTest, TestCase};

fn lines(text: &[&str]) -> Vec<String> {
    text.iter().map(|line| line.to_string()).collect()
}

fn failure(text: &[&str]) -> ParseFailure {
    CliTest::parse_lines(&lines(text), "t.clts").unwrap_err()
}

fn fields(case: &TestCase) -> (&str, &str, &str, &str) {
    (&case.cases, &case.exit_code, &case.out, &case.err)
}

#[test]
fn one_case_with_exit_code_and_output() {
    let test = CliTest::parse("TEST: echo hi\nEXIT_CODE: 0\nOUT:\n  hi\n", "demo.clts").unwrap();
    assert_eq!(test.path, "demo.clts");
    assert_eq!(test.cases.len(), 1);
    assert_eq!(test.cases[0].cases, "echo hi");
    assert_eq!(test.cases[0].exit_code, "0");
    assert_eq!(test.cases[0].out, "hi");
    assert_eq!(test.cases[0].err, "");
    assert_eq!(test.exit_code, "");
    assert_eq!(test.out, "");
    assert_eq!(test.err, "");
}

#[test]
fn two_cases_each_with_its_own_exit_code() {
    let code = "TEST: true\nEXIT_CODE: 0\nTEST: false\nEXIT_CODE: 1\n";
    let test = CliTest::parse(code, "two.clts").unwrap();
    assert_eq!(test.cases.len(), 2);
    assert_eq!(fields(&test.cases[0]), ("true", "0", "", ""));
    assert_eq!(fields(&test.cases[1]), ("false", "1", "", ""));
    assert_eq!(test.exit_code, "");
}

#[test]
fn code_before_the_first_keyword_is_refused() {
    let message = CliTest::parse("echo hi\nTEST: foo\n", "early.clts").unwrap_err();
    assert!(message.starts_with("parse error at early.clts:1: "));
    assert!(message.ends_with(" (in line 'echo hi')"));
    assert!(message.contains("embedded code should be indented"));
}

#[test]
fn indented_code_before_the_first_keyword_is_refused() {
    let fault = failure(&["  echo hi", "TEST: foo"]);
    assert_eq!(fault.line, 2);
    assert_eq!(
        fault.reason,
        "encountered code before the first keyword; use a keyword like 'TEST' before embedding code"
    );
}

#[test]
fn out_twice_in_one_case_is_refused() {
    let message = CliTest::parse("TEST: a\nOUT: x\nOUT: y\n", "twice.clts").unwrap_err();
    assert_eq!(
        message,
        "parse error at twice.clts:3: encountered OUT more than once in this testcase, must be unique per testcase (in line 'OUT: y')"
    );
}

#[test]
fn empty_file_is_refused() {
    let message = CliTest::parse("", "empty.clts").unwrap_err();
    assert_eq!(
        message,
        "parse error at empty.clts:1: found no keyword; a cli-test file needs at least one keyword like 'TEST' (in line '')"
    );
}

#[test]
fn file_without_keyword_is_refused() {
    let fault = failure(&["# only a comment", "", "   "]);
    assert_eq!(fault.line, 3);
    assert!(fault.reason.starts_with("found no keyword"));
}

#[test]
fn blank_lines_and_comments_may_stand_in_front() {
    let test = CliTest::parse("\n# a test\n  \t\n\nTEST: ls\n", "lead.clts").unwrap();
    assert_eq!(test.cases.len(), 1);
    assert_eq!(test.cases[0].cases, "ls");
}

#[test]
fn same_text_gives_the_same_result() {
    let code = "OUT: any\nTEST: a\n  b\nERR: e\nTEST: c\nEXIT_CODE: 2\n";
    let first = CliTest::parse(code, "same.clts").unwrap();
    let second = CliTest::parse(code, "same.clts").unwrap();
    assert_eq!(first.path, second.path);
    assert_eq!(first.exit_code, second.exit_code);
    assert_eq!(first.out, second.out);
    assert_eq!(first.err, second.err);
    assert_eq!(first.cases.len(), second.cases.len());
    for (a, b) in first.cases.iter().zip(second.cases.iter()) {
        assert_eq!(fields(a), fields(b));
    }
    assert_eq!(first, second);
    let bad = "TEST: a\nFOO: b\n";
    assert_eq!(CliTest::parse(bad, "same.clts"), CliTest::parse(bad, "same.clts"));
}

#[test]
fn fault_names_the_line_that_was_refused() {
    assert_eq!(failure(&["NOPE: x"]).line, 1);
    assert_eq!(failure(&["TEST: a", "NOPE: x"]).line, 2);
    assert_eq!(failure(&["", "# c", "TEST: a", "  b", "nope", "TEST: c"]).line, 5);
    assert_eq!(failure(&["TEST: a", "OUT: x", "OUT: y", "TEST: b"]).line, 4);
}

#[test]
fn fault_at_the_end_names_the_last_line() {
    let text = ["TEST: a", "ERR: x", "ERR: y", "  more", "# end"];
    let fault = failure(&text);
    assert_eq!(fault.line, 5);
    assert_eq!(
        fault.message("t.clts", &lines(&text)),
        "parse error at t.clts:5: encountered ERR more than once in this testcase, must be unique per testcase (in line '# end')"
    );
}

#[test]
fn line_numbers_beyond_nine_are_written_in_full() {
    let mut text = vec!["TEST: a"; 11];
    text.push("bad line");
    let message = CliTest::parse(&text.join("\n"), "long.clts").unwrap_err();
    assert!(message.starts_with("parse error at long.clts:12: found a line starting with 'BAD' "));
    let mut text = vec!["# c"; 1204];
    text.push("X: y");
    let message = CliTest::parse(&text.join("\n"), "long.clts").unwrap_err();
    assert!(message.starts_with("parse error at long.clts:1205: found unknown keyword 'X';"));
}

#[test]
fn message_quotes_the_line_as_it_stands() {
    let message = CliTest::parse("TEST: a\nfoo: some 'text' here\n", "q.clts").unwrap_err();
    assert_eq!(
        message,
        "parse error at q.clts:2: found unknown keyword 'FOO'; try one of ['TEST', 'EXIT_CODE', 'OUT', 'ERR'] if this is a cli-test keyword, or indent it if it is embedded code (in line 'foo: some 'text' here')"
    );
}

#[test]
fn fragment_is_the_first_line_of_the_block() {
    let test = CliTest::parse("TEST: echo one\n    two\n    three\n", "f.clts").unwrap();
    assert_eq!(test.cases[0].cases, "echo onetwothree");
    let test = CliTest::parse("TEST: echo\n      deep\n    flat\n", "f.clts").unwrap();
    assert_eq!(test.cases[0].cases, "echo  deepflat");
}

#[test]
fn attribute_once_in_every_case_is_accepted() {
    let code = "TEST: a\nOUT: 1\nERR: 1\nTEST: b\nOUT: 2\nERR: 2\nTEST: c\nOUT: 3\n";
    let test = CliTest::parse(code, "many.clts").unwrap();
    assert_eq!(test.cases.len(), 3);
    assert_eq!(fields(&test.cases[0]), ("a", "", "1", "1"));
    assert_eq!(fields(&test.cases[1]), ("b", "", "2", "2"));
    assert_eq!(fields(&test.cases[2]), ("c", "", "3", ""));
}

#[test]
fn attribute_twice_in_a_later_case_is_refused() {
    let fault = failure(&["TEST: a", "EXIT_CODE: 0", "TEST: b", "EXIT_CODE: 1", "EXIT_CODE: 2"]);
    assert_eq!(fault.line, 5);
    assert_eq!(
        fault.reason,
        "encountered EXIT_CODE more than once in this testcase, must be unique per testcase"
    );
}

#[test]
fn default_and_case_may_both_declare_an_attribute() {
    let test = CliTest::parse("EXIT_CODE: 0\nTEST: a\nEXIT_CODE: 1\n", "d.clts").unwrap();
    assert_eq!(test.exit_code, "0");
    assert_eq!(test.cases[0].exit_code, "1");
}

#[test]
fn defaults_go_to_the_file() {
    let code = "EXIT_CODE: 7\nOUT: o\nERR: e\nTEST: a\n";
    let test = CliTest::parse(code, "defaults.clts").unwrap();
    assert_eq!(test.exit_code, "7");
    assert_eq!(test.out, "o");
    assert_eq!(test.err, "e");
    assert_eq!(fields(&test.cases[0]), ("a", "", "", ""));
}

#[test]
fn default_twice_is_refused() {
    let fault = failure(&["OUT: a", "OUT: b", "TEST: c"]);
    assert_eq!(fault.line, 3);
    assert_eq!(fault.reason, "encountered OUT more than once, must be unique");
}

#[test]
fn file_with_defaults_only_has_no_case() {
    let test = CliTest::parse("EXIT_CODE: 0\n", "only.clts").unwrap();
    assert_eq!(test.exit_code, "0");
    assert!(test.cases.is_empty());
}

#[test]
fn comment_inside_a_block_is_no_part_of_it() {
    let test = CliTest::parse("TEST:\n  a\n# not this\n  b\n", "c.clts").unwrap();
    assert_eq!(test.cases[0].cases, "ab");
}

#[test]
fn indented_hash_is_content() {
    let test = CliTest::parse("OUT:\n  # kept\nTEST: a\n", "c.clts").unwrap();
    assert_eq!(test.out, "# kept");
}

#[test]
fn keywords_in_lower_case_are_read() {
    let test = CliTest::parse("test: a\nexit_code: 1\nout: o\nerr: e\n", "low.clts").unwrap();
    assert_eq!(fields(&test.cases[0]), ("a", "1", "o", "e"));
}

#[test]
fn line_endings_with_carriage_return_are_read() {
    let test = CliTest::parse("TEST: a\r\nOUT:\r\n  x\r\n  y\r\n", "crlf.clts").unwrap();
    assert_eq!(fields(&test.cases[0]), ("a", "", "xy", ""));
}

#[test]
fn lines_end_at_line_feeds() {
    assert_eq!(split_lines(""), Vec::<String>::new());
    assert_eq!(split_lines("a"), lines(&["a"]));
    assert_eq!(split_lines("a\n"), lines(&["a"]));
    assert_eq!(split_lines("a\nb"), lines(&["a", "b"]));
    assert_eq!(split_lines("\n"), lines(&[""]));
    assert_eq!(split_lines("\n\n"), lines(&["", ""]));
    assert_eq!(split_lines("a\n\nb\n"), lines(&["a", "", "b"]));
}

#[test]
fn carriage_return_goes_only_in_front_of_a_line_feed() {
    assert_eq!(split_lines("a\r\nb"), lines(&["a", "b"]));
    assert_eq!(split_lines("a\r"), lines(&["a\r"]));
    assert_eq!(split_lines("a\rb\n"), lines(&["a\rb"]));
    assert_eq!(split_lines("a\r\r\n"), lines(&["a\r"]));
    assert_eq!(split_lines("\r\n"), lines(&[""]));
}

#[test]
fn lines_are_split_as_the_standard_library_does() {
    for text in ["", "a", "a\n", "\n", "a\r\nb\r", "\r", "\r\n\r\n", "x\n\ny", "a\r\r\nb", "\u{e9}\n\u{1f600}"] {
        let expected: Vec<String> = text.lines().map(|line| line.to_string()).collect();
        assert_eq!(split_lines(text), expected);
    }
}

#[test]
fn state_begins_in_front_of_the_first_keyword() {
    let state = ParseState::new("s.clts");
    assert_eq!(state.test.path, "s.clts");
    assert_eq!(state.prev_keyword, None);
    assert!(state.block.is_empty());
    assert!(state.test.cases.is_empty());
}

#[test]
fn lines_move_the_state() {
    let mut state = ParseState::new("s.clts");
    assert_eq!(handle_line("", &mut state), Ok(()));
    assert_eq!(state.block, lines(&[""]));
    assert_eq!(handle_line("# note", &mut state), Ok(()));
    assert_eq!(state.block, lines(&[""]));
    assert_eq!(handle_line("TEST: run", &mut state), Ok(()));
    assert_eq!(state.prev_keyword, Some(BlockType::Test));
    assert_eq!(state.block, lines(&["run"]));
    assert!(state.test.cases.is_empty());
    assert_eq!(handle_line("   --flag", &mut state), Ok(()));
    assert_eq!(state.block, lines(&["run", "   --flag"]));
    assert_eq!(handle_line("OUT: ok", &mut state), Ok(()));
    assert_eq!(state.prev_keyword, Some(BlockType::Stdout));
    assert_eq!(state.block, lines(&["ok"]));
    assert_eq!(state.test.cases.len(), 1);
    assert_eq!(state.test.cases[0].cases, "run--flag");
    let test = state.finish().unwrap();
    assert_eq!(fields(&test.cases[0]), ("run--flag", "", "ok", ""));
}

#[test]
fn closing_a_block_stores_it() {
    let mut test = ParseState::new("k.clts").test;
    let block = lines(&["cmd", "  arg"]);
    assert_eq!(handle_keyword(Some(BlockType::Test), &block, &mut test, SeenBefore::Never), Ok(()));
    assert_eq!(fields(&test.cases[0]), ("cmdarg", "", "", ""));
    let block = lines(&["", "  boom"]);
    assert_eq!(
        handle_keyword(Some(BlockType::Stderr), &block, &mut test, SeenBefore::BeforeThisCase),
        Ok(())
    );
    assert_eq!(fields(&test.cases[0]), ("cmdarg", "", "", "boom"));
    assert!(handle_keyword(Some(BlockType::Stderr), &block, &mut test, SeenBefore::ThisCase).is_err());
    assert_eq!(fields(&test.cases[0]), ("cmdarg", "", "", "boom"));
}

#[test]
fn closing_the_lines_in_front_checks_that_they_are_blank() {
    let mut test = ParseState::new("k.clts").test;
    assert_eq!(handle_keyword(None, &lines(&["", "  ", "\t"]), &mut test, SeenBefore::Never), Ok(()));
    assert_eq!(handle_keyword(None, &lines(&[]), &mut test, SeenBefore::Never), Ok(()));
    assert!(handle_keyword(None, &lines(&["", "  x"]), &mut test, SeenBefore::Never).is_err());
    assert!(test.cases.is_empty());
}

#[test]
fn record_tells_this_case_from_earlier_ones() {
    let mut seen = SeenTable::new();
    assert_eq!(register_seen(BlockType::Stdout, &mut seen, 1), SeenBefore::Never);
    assert_eq!(register_seen(BlockType::Stdout, &mut seen, 1), SeenBefore::ThisCase);
    assert_eq!(register_seen(BlockType::Stderr, &mut seen, 1), SeenBefore::Never);
    assert_eq!(register_seen(BlockType::Stdout, &mut seen, 2), SeenBefore::BeforeThisCase);
    assert_eq!(register_seen(BlockType::Stdout, &mut seen, 2), SeenBefore::ThisCase);
    assert_eq!(register_seen(BlockType::Stderr, &mut seen, 3), SeenBefore::BeforeThisCase);
    assert_eq!(register_seen(BlockType::ExitCode, &mut seen, 3), SeenBefore::Never);
    assert_eq!(register_seen(BlockType::Test, &mut seen, 0), SeenBefore::Never);
}

#[test]
fn seen_before_decides_whether_an_attribute_is_refused() {
    assert_eq!(SeenBefore::Never.fail_if_seen_globally("OUT"), Ok(()));
    assert_eq!(
        SeenBefore::BeforeThisCase.fail_if_seen_globally("OUT"),
        Err("encountered OUT more than once, must be unique".to_string())
    );
    assert_eq!(
        SeenBefore::ThisCase.fail_if_seen_globally("ERR"),
        Err("encountered ERR more than once, must be unique".to_string())
    );
    assert_eq!(SeenBefore::Never.fail_if_seen_for_test("OUT"), Ok(()));
    assert_eq!(SeenBefore::BeforeThisCase.fail_if_seen_for_test("OUT"), Ok(()));
    assert_eq!(
        SeenBefore::ThisCase.fail_if_seen_for_test("EXIT_CODE"),
        Err("encountered EXIT_CODE more than once in this testcase, must be unique per testcase".to_string())
    );
}
