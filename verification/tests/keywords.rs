use clitest::keyword::{
    is_comment_line, is_continuation, parse_keyword, read_keyword_line, split_keyword_line,
    BlockType, BLOCK_OPTIONS,
};

#[test]
fn all_variants_have_option() {
    assert_eq!(BlockType::variants().len(), BLOCK_OPTIONS.len())
}

#[test]
fn all_options_are_parseable() {
    for (option, kind) in BLOCK_OPTIONS.iter().zip(BlockType::variants()) {
        assert_eq!(BlockType::from_name(option), Some(kind));
        assert_eq!(kind.name(), *option);
        let token = format!("{}:", option);
        assert_eq!(parse_keyword(&token), Ok(kind));
        let line = format!("{}: x", option);
        assert_eq!(read_keyword_line(&line), Ok((kind, "x".to_string())));
    }
}

#[test]
fn variants_come_in_the_order_of_the_options() {
    assert_eq!(
        BlockType::variants(),
        vec![BlockType::Test, BlockType::ExitCode, BlockType::Stdout, BlockType::Stderr]
    );
    assert_eq!(BLOCK_OPTIONS, ["TEST", "EXIT_CODE", "OUT", "ERR"]);
}

#[test]
fn names_are_compared_as_they_stand() {
    assert_eq!(BlockType::from_name("TEST"), Some(BlockType::Test));
    assert_eq!(BlockType::from_name("test"), None);
    assert_eq!(BlockType::from_name("TEST:"), None);
    assert_eq!(BlockType::from_name(""), None);
    assert_eq!(BlockType::from_name("OUTPUT"), None);
}

#[test]
fn continuation_begins_with_space_or_tab_or_is_empty() {
    assert!(is_continuation(""));
    assert!(is_continuation(" x"));
    assert!(is_continuation("\tx"));
    assert!(is_continuation("   "));
    assert!(!is_continuation("x"));
    assert!(!is_continuation("#"));
    assert!(!is_continuation("\u{a0}x"));
    assert!(!is_continuation("\rx"));
}

#[test]
fn comment_begins_with_hash() {
    assert!(is_comment_line("# a comment"));
    assert!(is_comment_line("#"));
    assert!(!is_comment_line(""));
    assert!(!is_comment_line(" # indented"));
    assert!(!is_comment_line("TEST: #"));
}

#[test]
fn keyword_line_splits_at_the_first_space() {
    assert_eq!(split_keyword_line("TEST: echo hi"), ("TEST:".to_string(), "echo hi".to_string()));
    assert_eq!(split_keyword_line("OUT:"), ("OUT:".to_string(), "".to_string()));
    assert_eq!(split_keyword_line("OUT: "), ("OUT:".to_string(), "".to_string()));
    assert_eq!(split_keyword_line("OUT:  x"), ("OUT:".to_string(), " x".to_string()));
    assert_eq!(split_keyword_line("a\tb c"), ("a\tb".to_string(), "c".to_string()));
}

#[test]
fn keyword_is_read_without_regard_to_case() {
    assert_eq!(read_keyword_line("test: x"), Ok((BlockType::Test, "x".to_string())));
    assert_eq!(read_keyword_line("Exit_Code: 3"), Ok((BlockType::ExitCode, "3".to_string())));
    assert_eq!(read_keyword_line("out:"), Ok((BlockType::Stdout, "".to_string())));
    assert_eq!(read_keyword_line("eRR: e"), Ok((BlockType::Stderr, "e".to_string())));
}

#[test]
fn fragment_keeps_its_case() {
    assert_eq!(read_keyword_line("test: Echo Hi"), Ok((BlockType::Test, "Echo Hi".to_string())));
}

#[test]
fn token_given_to_parse_keyword_is_not_folded() {
    assert!(parse_keyword("test:").is_err());
    assert_eq!(parse_keyword("TEST:"), Ok(BlockType::Test));
}

#[test]
fn word_without_colon_is_refused() {
    let reason = parse_keyword("ECHO").unwrap_err();
    assert_eq!(
        reason,
        "found a line starting with 'ECHO' but not followed by a colon (:); cli-test keywords must be followed by a colon, and embedded code should be indented"
    );
    assert!(parse_keyword("").is_err());
    assert!(parse_keyword("TEST").is_err());
    assert!(parse_keyword("TEST:X").is_err());
}

#[test]
fn unknown_keyword_is_named_with_the_four_that_exist() {
    let reason = read_keyword_line("FOO: bar").unwrap_err();
    assert_eq!(
        reason,
        "found unknown keyword 'FOO'; try one of ['TEST', 'EXIT_CODE', 'OUT', 'ERR'] if this is a cli-test keyword, or indent it if it is embedded code"
    );
    for option in BLOCK_OPTIONS {
        assert!(reason.contains(option));
    }
}

#[test]
fn unknown_keyword_is_named_in_upper_case() {
    let reason = read_keyword_line("foo: bar").unwrap_err();
    assert!(reason.starts_with("found unknown keyword 'FOO';"));
}

#[test]
fn colon_alone_is_an_unknown_keyword() {
    let reason = parse_keyword(":").unwrap_err();
    assert!(reason.starts_with("found unknown keyword '';"));
}

#[test]
fn tab_behind_the_colon_does_not_end_the_word() {
    let reason = read_keyword_line("TEST:\tx").unwrap_err();
    assert!(reason.starts_with("found a line starting with 'TEST:\tX'"));
}
