//! The keywords that open a block, and how a line's first word is read.

use vstd::prelude::*;
use vstd::string::StringExecFns;
use crate::text::{chars_of, same_text, string_of};

verus! {

/// The kinds of block, one for each keyword.
#[derive(Clone, Copy, Debug, PartialEq, Eq, Structural)]
pub enum BlockType {
    /// `TEST`: opens a test case; the block is the command to run.
    Test,
    /// `EXIT_CODE`: the exit code that is expected.
    ExitCode,
    /// `OUT`: what is expected on standard output.
    Stdout,
    /// `ERR`: what is expected on standard error.
    Stderr,
}

/// The keywords, in the order of the variants of [`BlockType`].
pub const BLOCK_OPTIONS: [&'static str; 4] = ["TEST", "EXIT_CODE", "OUT", "ERR"];

/// The keyword that opens a block of the given kind.
pub open spec fn name_of(kind: BlockType) -> Seq<char> {
    match kind {
        BlockType::Test => "TEST"@,
        BlockType::ExitCode => "EXIT_CODE"@,
        BlockType::Stdout => "OUT"@,
        BlockType::Stderr => "ERR"@,
    }
}

/// The kind of block that `name` opens, if it is a keyword. Upper case only.
pub open spec fn kind_named(name: Seq<char>) -> Option<BlockType> {
    if name == name_of(BlockType::Test) {
        Some(BlockType::Test)
    } else if name == name_of(BlockType::ExitCode) {
        Some(BlockType::ExitCode)
    } else if name == name_of(BlockType::Stdout) {
        Some(BlockType::Stdout)
    } else if name == name_of(BlockType::Stderr) {
        Some(BlockType::Stderr)
    } else {
        None
    }
}

/// Every keyword names its own kind of block, so no two kinds share one.
pub proof fn lemma_names_are_distinct(kind: BlockType)
    ensures
        kind_named(name_of(kind)) == Some(kind),
{
    reveal_strlit("TEST");
    reveal_strlit("EXIT_CODE");
    reveal_strlit("OUT");
    reveal_strlit("ERR");
    assert("TEST"@.len() == 4 && "EXIT_CODE"@.len() == 9 && "OUT"@.len() == 3 && "ERR"@.len() == 3);
    assert("OUT"@[0] != "ERR"@[0]);
}

/// [`BLOCK_OPTIONS`] holds one keyword for each kind of block, in the order
/// of the variants.
pub proof fn lemma_options_name_the_variants()
    ensures
        BLOCK_OPTIONS@.len() == 4,
        BLOCK_OPTIONS@[0]@ == name_of(BlockType::Test),
        BLOCK_OPTIONS@[1]@ == name_of(BlockType::ExitCode),
        BLOCK_OPTIONS@[2]@ == name_of(BlockType::Stdout),
        BLOCK_OPTIONS@[3]@ == name_of(BlockType::Stderr),
{
}

impl BlockType {
    /// All kinds of block, in the order of [`BLOCK_OPTIONS`].
    pub fn variants() -> (all: Vec<BlockType>)
        ensures
            all@ == seq![
                BlockType::Test,
                BlockType::ExitCode,
                BlockType::Stdout,
                BlockType::Stderr,
            ],
    {
        let mut all: Vec<BlockType> = Vec::new();
        all.push(BlockType::Test);
        all.push(BlockType::ExitCode);
        all.push(BlockType::Stdout);
        all.push(BlockType::Stderr);
        assert(all@ =~= seq![
            BlockType::Test,
            BlockType::ExitCode,
            BlockType::Stdout,
            BlockType::Stderr,
        ]);
        all
    }

    /// The keyword that opens a block of this kind.
    pub fn name(self) -> (name: &'static str)
        ensures
            name@ == name_of(self),
    {
        match self {
            BlockType::Test => "TEST",
            BlockType::ExitCode => "EXIT_CODE",
            BlockType::Stdout => "OUT",
            BlockType::Stderr => "ERR",
        }
    }

    /// The kind of block that the keyword `name` opens. `name` is compared as
    /// it stands: a keyword in lower case is none.
    pub fn from_name(name: &str) -> (kind: Option<BlockType>)
        ensures
            kind == kind_named(name@),
    {
        if same_text(name, "TEST") {
            Some(BlockType::Test)
        } else if same_text(name, "EXIT_CODE") {
            Some(BlockType::ExitCode)
        } else if same_text(name, "OUT") {
            Some(BlockType::Stdout)
        } else if same_text(name, "ERR") {
            Some(BlockType::Stderr)
        } else {
            None
        }
    }
}

/// The upper-case form of a text, as the standard library's
/// `str::to_uppercase` gives it. Which characters change, and into what, is
/// laid down by Unicode and not stated here.
pub uninterp spec fn uppercase_of(s: Seq<char>) -> Seq<char>;

/// `str::to_uppercase` of the standard library. All that is claimed is that
/// the result depends on the characters of `s` alone.
#[verifier::external_body]
fn uppercase(s: &str) -> (upper: String)
    ensures
        upper@ == uppercase_of(s@),
{
    s.to_uppercase()
}

/// Whether `line` goes on with the block that is open: it is empty, or
/// begins with a space or a tab.
pub open spec fn continues_block(line: Seq<char>) -> bool {
    line.len() == 0 || line[0] == ' ' || line[0] == '\t'
}

/// Whether `line` is a comment: it begins with `#`.
pub open spec fn is_comment(line: Seq<char>) -> bool {
    line.len() > 0 && line[0] == '#'
}

/// Where the first space of `line` stands, or the length of `line` where it
/// holds no space.
pub open spec fn first_space(line: Seq<char>) -> int
    decreases line.len(),
{
    if line.len() == 0 || line[0] == ' ' {
        0
    } else {
        1 + first_space(line.drop_first())
    }
}

/// The first word of a keyword line: what stands before its first space.
pub open spec fn head_of(line: Seq<char>) -> Seq<char> {
    line.take(first_space(line))
}

/// What stands behind the first space of a keyword line; empty where the line
/// holds no space.
pub open spec fn fragment_of(line: Seq<char>) -> Seq<char> {
    if first_space(line) < line.len() {
        line.skip(first_space(line) + 1)
    } else {
        Seq::empty()
    }
}

/// A keyword line splits into its first word, which holds no space, and
/// what follows the first space: put together with that space between them
/// they are the line again. A line without a space is its first word.
pub proof fn lemma_keyword_line_splits(line: Seq<char>)
    ensures
        0 <= first_space(line) <= line.len(),
        forall|i: int| 0 <= i < head_of(line).len() ==> head_of(line)[i] != ' ',
        first_space(line) < line.len() ==> line[first_space(line)] == ' ',
        first_space(line) < line.len() ==> line == head_of(line) + seq![' '] + fragment_of(line),
        first_space(line) == line.len() ==> line == head_of(line) && fragment_of(line).len() == 0,
    decreases line.len(),
{
    if line.len() == 0 || line[0] == ' ' {
    } else {
        let rest = line.drop_first();
        lemma_keyword_line_splits(rest);
        assert forall|i: int| 0 <= i < head_of(line).len() implies head_of(line)[i] != ' ' by {
            if i > 0 {
                assert(head_of(line)[i] == head_of(rest)[i - 1]);
            }
        }
        if first_space(line) < line.len() {
            assert(line[first_space(line)] == rest[first_space(rest)]);
        }
    }
    if first_space(line) < line.len() {
        assert(line =~= head_of(line) + seq![' '] + fragment_of(line));
    } else {
        assert(line =~= head_of(line));
    }
}

/// Why a first word without a colon at its end is refused.
pub open spec fn missing_colon_reason(token: Seq<char>) -> Seq<char> {
    "found a line starting with '"@ + token
        + "' but not followed by a colon (:); cli-test keywords must be followed by a colon, and embedded code should be indented"@
}

/// The four keywords as the reasons list them.
pub open spec fn keywords_listed() -> Seq<char> {
    name_of(BlockType::Test) + "', '"@ + name_of(BlockType::ExitCode) + "', '"@ + name_of(
        BlockType::Stdout,
    ) + "', '"@ + name_of(BlockType::Stderr)
}

/// Why a first word that ends in a colon and is no keyword is refused.
pub open spec fn unknown_keyword_reason(name: Seq<char>) -> Seq<char> {
    "found unknown keyword '"@ + name + "'; try one of ['"@ + keywords_listed()
        + "'] if this is a cli-test keyword, or indent it if it is embedded code"@
}

/// What the first word of a keyword line, in upper case, stands for: the
/// kind of block that it opens, or the reason why it opens none.
pub open spec fn keyword_of(token: Seq<char>) -> Result<BlockType, Seq<char>> {
    if token.len() == 0 || token.last() != ':' {
        Err(missing_colon_reason(token))
    } else {
        match kind_named(token.drop_last()) {
            Some(kind) => Ok(kind),
            None => Err(unknown_keyword_reason(token.drop_last())),
        }
    }
}

/// What a keyword line says: the kind of block that it opens and the first
/// line of that block, or the reason why the line is refused. The keyword is
/// read without regard to case.
pub open spec fn keyword_line(line: Seq<char>) -> Result<(BlockType, Seq<char>), Seq<char>> {
    match keyword_of(uppercase_of(head_of(line))) {
        Ok(kind) => Ok((kind, fragment_of(line))),
        Err(reason) => Err(reason),
    }
}

/// Whether `line` goes on with the block that is open.
pub fn is_continuation(line: &str) -> (r: bool)
    ensures
        r == continues_block(line@),
{
    if line.is_empty() {
        return true;
    }
    let first = line.get_char(0);
    first == ' ' || first == '\t'
}

/// Whether `line` is a comment.
pub fn is_comment_line(line: &str) -> (r: bool)
    ensures
        r == is_comment(line@),
{
    if line.is_empty() {
        return false;
    }
    line.get_char(0) == '#'
}

/// Splits a line at its first space into the first word and what follows the
/// space.
pub fn split_keyword_line(line: &str) -> (parts: (String, String))
    ensures
        parts.0@ == head_of(line@),
        parts.1@ == fragment_of(line@),
{
    let chars = chars_of(line);
    let mut i: usize = 0;
    assert(chars@.skip(0) =~= chars@);
    while i < chars.len() && chars[i] != ' '
        invariant
            0 <= i <= chars.len(),
            first_space(chars@) == i + first_space(chars@.skip(i as int)),
        decreases chars.len() - i,
    {
        assert(chars@.skip(i as int).drop_first() =~= chars@.skip(i + 1));
        i += 1;
    }
    assert(first_space(chars@) == i);
    let head = string_of(&chars, 0, i);
    assert(chars@.subrange(0, i as int) =~= chars@.take(i as int));
    if i < chars.len() {
        let fragment = string_of(&chars, i + 1, chars.len());
        assert(chars@.subrange(i + 1, chars.len() as int) =~= chars@.skip(i + 1));
        (head, fragment)
    } else {
        (head, String::new())
    }
}

/// Reads the first word of a keyword line, given in upper case.
///
/// The word must end in a colon, and what stands before the colon must be one
/// of the four keywords. The reason of a refusal names the word.
pub fn parse_keyword(token: &str) -> (r: Result<BlockType, String>)
    ensures
        match r {
            Ok(kind) => keyword_of(token@) == Ok::<BlockType, Seq<char>>(kind),
            Err(reason) => keyword_of(token@) == Err::<BlockType, Seq<char>>(reason@),
        },
{
    let chars = chars_of(token);
    if chars.len() == 0 || chars[chars.len() - 1] != ':' {
        let mut reason = String::from_str("found a line starting with '");
        reason.append(token);
        reason.append(
            "' but not followed by a colon (:); cli-test keywords must be followed by a colon, and embedded code should be indented",
        );
        return Err(reason);
    }
    let name = string_of(&chars, 0, chars.len() - 1);
    assert(chars@.subrange(0, chars.len() - 1) =~= chars@.drop_last());
    match BlockType::from_name(name.as_str()) {
        Some(kind) => Ok(kind),
        None => {
            let mut reason = String::from_str("found unknown keyword '");
            reason.append(name.as_str());
            reason.append("'; try one of ['");
            reason.append(BlockType::Test.name());
            reason.append("', '");
            reason.append(BlockType::ExitCode.name());
            reason.append("', '");
            reason.append(BlockType::Stdout.name());
            reason.append("', '");
            reason.append(BlockType::Stderr.name());
            reason.append("'] if this is a cli-test keyword, or indent it if it is embedded code");
            assert(reason@ =~= unknown_keyword_reason(name@));
            Err(reason)
        },
    }
}

/// Reads a keyword line: a line that is neither a continuation nor a comment.
///
/// The first word is put into upper case and read by [`parse_keyword`]; what
/// follows the first space is the first line of the block that the keyword
/// opens.
pub fn read_keyword_line(line: &str) -> (r: Result<(BlockType, String), String>)
    ensures
        match r {
            Ok(opened) => keyword_line(line@) == Ok::<(BlockType, Seq<char>), Seq<char>>(
                (opened.0, opened.1@),
            ),
            Err(reason) => keyword_line(line@) == Err::<(BlockType, Seq<char>), Seq<char>>(
                reason@,
            ),
        },
{
    let (head, fragment) = split_keyword_line(line);
    let token = uppercase(head.as_str());
    match parse_keyword(token.as_str()) {
        Ok(kind) => Ok((kind, fragment)),
        Err(reason) => Err(reason),
    }
}

/// Whether `part` stands somewhere in `whole`.
pub open spec fn occurs_in(part: Seq<char>, whole: Seq<char>) -> bool {
    exists|before: Seq<char>, after: Seq<char>| whole == #[trigger] (before + part + after)
}

/// A first word that ends in a colon and is none of the keywords is refused,
/// and the reason names the word and lists all four keywords.
pub proof fn lemma_unknown_keyword_is_named(token: Seq<char>)
    requires
        token.len() > 0,
        token.last() == ':',
        kind_named(token.drop_last()) is None,
    ensures
        keyword_of(token) == Err::<BlockType, Seq<char>>(
            unknown_keyword_reason(token.drop_last()),
        ),
        occurs_in(token.drop_last(), unknown_keyword_reason(token.drop_last())),
        forall|kind: BlockType| occurs_in(name_of(kind), unknown_keyword_reason(token.drop_last())),
{
    let name = token.drop_last();
    let reason = unknown_keyword_reason(name);
    let open = "found unknown keyword '"@;
    let list = "'; try one of ['"@;
    let sep = "', '"@;
    let close = "'] if this is a cli-test keyword, or indent it if it is embedded code"@;
    let test = name_of(BlockType::Test);
    let exit = name_of(BlockType::ExitCode);
    let out = name_of(BlockType::Stdout);
    let err = name_of(BlockType::Stderr);
    assert(reason =~= open + name + (list + keywords_listed() + close));
    let lead = open + name + list;
    assert(reason =~= lead + test + (sep + exit + sep + out + sep + err + close));
    assert(reason =~= (lead + test + sep) + exit + (sep + out + sep + err + close));
    assert(reason =~= (lead + test + sep + exit + sep) + out + (sep + err + close));
    assert(reason =~= (lead + test + sep + exit + sep + out + sep) + err + close);
    assert forall|kind: BlockType| occurs_in(name_of(kind), reason) by {
        match kind {
            BlockType::Test => {},
            BlockType::ExitCode => {},
            BlockType::Stdout => {},
            BlockType::Stderr => {},
        }
    }
}

} // verus!
