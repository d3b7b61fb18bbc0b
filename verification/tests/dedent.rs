use clitest::dedent::{char_indent, combine_dedent, count_indent};

fn block(lines: &[&str]) -> Vec<String> {
    lines.iter().map(|line| line.to_string()).collect()
}

#[test]
fn space_counts_one_and_tab_four() {
    assert_eq!(char_indent(' '), Some(1));
    assert_eq!(char_indent('\t'), Some(4));
    assert_eq!(char_indent('x'), None);
    assert_eq!(char_indent('\n'), None);
    assert_eq!(char_indent('\u{a0}'), None);
}

#[test]
fn indent_is_the_weight_of_the_leading_blanks() {
    assert_eq!(count_indent(""), 0);
    assert_eq!(count_indent("x"), 0);
    assert_eq!(count_indent("  x"), 2);
    assert_eq!(count_indent("\tx"), 4);
    assert_eq!(count_indent("\t x"), 5);
    assert_eq!(count_indent(" \t \tx y"), 10);
    assert_eq!(count_indent("   "), 3);
}

#[test]
fn indent_stops_at_the_first_other_character() {
    assert_eq!(count_indent("  x  "), 2);
    assert_eq!(count_indent("x\t\t"), 0);
    assert_eq!(count_indent(" \u{e9}  "), 1);
}

#[test]
fn single_line_is_stripped_by_its_own_indent() {
    assert_eq!(combine_dedent(&block(&["echo hi"])), "echo hi");
    assert_eq!(combine_dedent(&block(&["  echo hi"])), "echo hi");
    assert_eq!(combine_dedent(&block(&["\t echo"])), "echo");
    assert_eq!(combine_dedent(&block(&[""])), "");
}

#[test]
fn empty_block_has_empty_content() {
    assert_eq!(combine_dedent(&block(&[])), "");
}

#[test]
fn first_line_is_left_out_of_the_minimum() {
    assert_eq!(combine_dedent(&block(&["", "  hi"])), "hi");
    assert_eq!(combine_dedent(&block(&["", "    a", "  b"])), "  ab");
    assert_eq!(combine_dedent(&block(&["", "  a", "    b"])), "a  b");
}

#[test]
fn fragment_leads_the_content() {
    assert_eq!(combine_dedent(&block(&["echo", "    foo"])), "echofoo");
    assert_eq!(combine_dedent(&block(&["echo one", "  two", "   three"])), "echo onetwo three");
}

#[test]
fn fragment_is_stripped_like_the_other_lines() {
    assert_eq!(combine_dedent(&block(&["  echo", "    foo"])), "echofoo");
    assert_eq!(combine_dedent(&block(&["      echo", "    foo"])), "  echofoo");
}

#[test]
fn lines_are_joined_with_nothing_between() {
    assert_eq!(combine_dedent(&block(&["", "  a", "  b", "  c"])), "abc");
}

#[test]
fn empty_line_brings_the_minimum_to_zero() {
    assert_eq!(combine_dedent(&block(&["", "    a", "", "    b"])), "    a    b");
}

#[test]
fn blank_line_is_cut_once() {
    assert_eq!(combine_dedent(&block(&["", "  a", "      "])), "a    ");
    assert_eq!(combine_dedent(&block(&["", "    x", "  "])), "  x");
}

#[test]
fn deeper_line_keeps_what_is_beyond_the_minimum() {
    assert_eq!(combine_dedent(&block(&["", "  a", "    x"])), "a  x");
}

#[test]
fn tab_that_straddles_the_minimum_goes_whole() {
    assert_eq!(combine_dedent(&block(&["", "\tx", "  y"])), "xy");
    assert_eq!(combine_dedent(&block(&["", "\t y", "  z"])), " yz");
    assert_eq!(combine_dedent(&block(&["", " \tx", "  y"])), "xy");
}

#[test]
fn tabs_and_spaces_go_by_weight() {
    assert_eq!(combine_dedent(&block(&["", "\ta", "    b"])), "ab");
    assert_eq!(combine_dedent(&block(&["", "\t\ta", "    b"])), "\tab");
}

#[test]
fn dedent_leaves_nothing_to_dedent() {
    let lines = block(&["run", "      a", "    b", "\t  c"]);
    assert_eq!(combine_dedent(&lines), "run  ab  c");
    let stripped = block(&["run", "  a", "b", "  c"]);
    let least = stripped.iter().skip(1).map(|line| count_indent(line)).min();
    assert_eq!(least, Some(0));
    assert_eq!(combine_dedent(&stripped), "run  ab  c");
}

#[test]
fn content_beyond_ascii_is_kept() {
    assert_eq!(combine_dedent(&block(&["", "  \u{e9}t\u{e9}", "  \u{1f600}"])), "\u{e9}t\u{e9}\u{1f600}");
}
