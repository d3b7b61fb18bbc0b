//! Text as sequences of characters: moving between `str`, `String` and
//! characters, telling white space, splitting a text into lines, and writing
//! numbers.

use vstd::prelude::*;

verus! {

/// `String::push` of the standard library: the character is appended at the
/// end and nothing else changes.
pub assume_specification[ String::push ](s: &mut String, ch: char)
    ensures
        final(s)@ == old(s)@.push(ch),
;

/// What a list of strings holds: the characters of each, in order.
pub open spec fn texts(lines: Seq<String>) -> Seq<Seq<char>> {
    Seq::new(lines.len(), |i: int| lines[i]@)
}

/// The characters of `s`, in order.
pub fn chars_of(s: &str) -> (v: Vec<char>)
    ensures
        v@ == s@,
{
    broadcast use vstd::string::group_string_axioms;

    let mut v: Vec<char> = Vec::new();
    for c in it: s.chars()
        invariant
            it.seq() == s@,
            v@ == s@.take(it.index()),
    {
        assert(s@.take(it.index() + 1) =~= s@.take(it.index()).push(c));
        v.push(c);
    }
    assert(s@.take(s@.len() as int) =~= s@);
    v
}

/// Appends the characters `src[from..to]` to `out`.
pub(crate) fn push_range(out: &mut String, src: &Vec<char>, from: usize, to: usize)
    requires
        from <= to <= src.len(),
    ensures
        final(out)@ == old(out)@ + src@.subrange(from as int, to as int),
{
    let mut i: usize = from;
    while i < to
        invariant
            from <= i <= to <= src.len(),
            out@ == old(out)@ + src@.subrange(from as int, i as int),
        decreases to - i,
    {
        assert(src@.subrange(from as int, i + 1) =~= src@.subrange(from as int, i as int).push(
            src@[i as int],
        ));
        out.push(src[i]);
        i += 1;
    }
}

/// The string made of the characters `src[from..to]`.
pub(crate) fn string_of(src: &Vec<char>, from: usize, to: usize) -> (s: String)
    requires
        from <= to <= src.len(),
    ensures
        s@ == src@.subrange(from as int, to as int),
{
    let mut s = String::new();
    push_range(&mut s, src, from, to);
    s
}

/// Whether two character sequences are the same.
pub fn same_chars(a: &Vec<char>, b: &Vec<char>) -> (r: bool)
    ensures
        r == (a@ == b@),
{
    if a.len() != b.len() {
        return false;
    }
    let mut i: usize = 0;
    while i < a.len()
        invariant
            a.len() == b.len(),
            0 <= i <= a.len(),
            a@.take(i as int) == b@.take(i as int),
        decreases a.len() - i,
    {
        if a[i] != b[i] {
            assert(a@[i as int] != b@[i as int]);
            return false;
        }
        assert(a@.take(i + 1) =~= a@.take(i as int).push(a@[i as int]));
        assert(b@.take(i + 1) =~= b@.take(i as int).push(b@[i as int]));
        i += 1;
    }
    assert(a@ =~= a@.take(a.len() as int));
    assert(b@ =~= b@.take(b.len() as int));
    true
}

/// Whether two strings hold the same characters.
pub fn same_text(a: &str, b: &str) -> (r: bool)
    ensures
        r == (a@ == b@),
{
    let a_chars = chars_of(a);
    let b_chars = chars_of(b);
    same_chars(&a_chars, &b_chars)
}

/// Whether `c` is white space as Unicode defines it (the characters marked
/// White_Space).
pub open spec fn is_space_char(c: char) -> bool {
    let n = c as u32;
    ||| 0x09 <= n <= 0x0d
    ||| n == 0x20
    ||| n == 0x85
    ||| n == 0xa0
    ||| n == 0x1680
    ||| 0x2000 <= n <= 0x200a
    ||| n == 0x2028
    ||| n == 0x2029
    ||| n == 0x202f
    ||| n == 0x205f
    ||| n == 0x3000
}

/// Whether `line` holds nothing but white space.
pub open spec fn is_blank(line: Seq<char>) -> bool {
    forall|i: int| 0 <= i < line.len() ==> is_space_char(#[trigger] line[i])
}

/// Whether every line of `lines` is blank.
pub open spec fn all_blank(lines: Seq<Seq<char>>) -> bool {
    forall|i: int| 0 <= i < lines.len() ==> is_blank(#[trigger] lines[i])
}

/// Whether `c` is white space.
pub fn is_space(c: char) -> (r: bool)
    ensures
        r == is_space_char(c),
{
    let n: u32 = c as u32;
    (0x09 <= n && n <= 0x0d) || n == 0x20 || n == 0x85 || n == 0xa0 || n == 0x1680 || (0x2000 <= n
        && n <= 0x200a) || n == 0x2028 || n == 0x2029 || n == 0x202f || n == 0x205f || n == 0x3000
}

/// Whether `line` holds nothing but white space.
pub fn is_blank_line(line: &str) -> (r: bool)
    ensures
        r == is_blank(line@),
{
    let chars = chars_of(line);
    let mut i: usize = 0;
    while i < chars.len()
        invariant
            0 <= i <= chars.len(),
            chars@ == line@,
            forall|j: int| 0 <= j < i ==> is_space_char(#[trigger] chars@[j]),
        decreases chars.len() - i,
    {
        if !is_space(chars[i]) {
            return false;
        }
        i += 1;
    }
    true
}

/// Whether every line of `lines` is blank.
pub fn are_blank_lines(lines: &Vec<String>) -> (r: bool)
    ensures
        r == all_blank(texts(lines@)),
{
    let mut i: usize = 0;
    while i < lines.len()
        invariant
            0 <= i <= lines.len(),
            forall|j: int| 0 <= j < i ==> is_blank(#[trigger] texts(lines@)[j]),
        decreases lines.len() - i,
    {
        if !is_blank_line(lines[i].as_str()) {
            assert(!is_blank(texts(lines@)[i as int]));
            return false;
        }
        i += 1;
    }
    true
}

/// `line` without a carriage return at its end.
pub open spec fn without_cr(line: Seq<char>) -> Seq<char> {
    if line.len() > 0 && line.last() == '\r' {
        line.drop_last()
    } else {
        line
    }
}

/// The lines of `code` that are still to come when `cur` is what was read of
/// the current line.
pub open spec fn lines_from(code: Seq<char>, cur: Seq<char>) -> Seq<Seq<char>>
    decreases code.len(),
{
    if code.len() == 0 {
        if cur.len() == 0 {
            Seq::empty()
        } else {
            seq![cur]
        }
    } else if code[0] == '\n' {
        seq![without_cr(cur)] + lines_from(code.drop_first(), Seq::empty())
    } else {
        lines_from(code.drop_first(), cur.push(code[0]))
    }
}

/// The lines of a text.
///
/// A line ends at a line feed. The line feed is no part of the line, nor is a
/// carriage return that stands directly in front of it. What follows the last
/// line feed is a line too, unless it is empty, and is kept whole.
pub open spec fn lines_of(code: Seq<char>) -> Seq<Seq<char>> {
    lines_from(code, Seq::empty())
}

/// The lines of `code`, in order.
pub fn split_lines(code: &str) -> (lines: Vec<String>)
    ensures
        texts(lines@) == lines_of(code@),
{
    let chars = chars_of(code);
    let mut lines: Vec<String> = Vec::new();
    let mut start: usize = 0;
    let mut i: usize = 0;
    assert(chars@.skip(0) =~= chars@);
    assert(chars@.subrange(0, 0) =~= Seq::<char>::empty());
    assert(texts(lines@) =~= Seq::<Seq<char>>::empty());
    while i < chars.len()
        invariant
            0 <= start <= i <= chars.len(),
            chars@ == code@,
            texts(lines@) + lines_from(chars@.skip(i as int), chars@.subrange(start as int, i as int))
                == lines_of(code@),
        decreases chars.len() - i,
    {
        let ghost cur = chars@.subrange(start as int, i as int);
        assert(chars@.skip(i as int).drop_first() =~= chars@.skip(i + 1));
        if chars[i] == '\n' {
            let end: usize = if start < i && chars[i - 1] == '\r' {
                i - 1
            } else {
                i
            };
            assert(chars@.subrange(start as int, end as int) =~= without_cr(cur));
            let ghost before = texts(lines@);
            lines.push(string_of(&chars, start, end));
            assert(texts(lines@) =~= before.push(without_cr(cur)));
            start = i + 1;
            assert(chars@.subrange(i + 1, i + 1) =~= Seq::<char>::empty());
            assert(before + (seq![without_cr(cur)] + lines_from(
                chars@.skip(i + 1),
                Seq::<char>::empty(),
            )) =~= before.push(without_cr(cur)) + lines_from(
                chars@.skip(i + 1),
                Seq::<char>::empty(),
            ));
        } else {
            assert(chars@.subrange(start as int, i + 1) =~= cur.push(chars@[i as int]));
        }
        i += 1;
    }
    let ghost before = texts(lines@);
    if start < i {
        lines.push(string_of(&chars, start, i));
        assert(texts(lines@) =~= before.push(chars@.subrange(start as int, i as int)));
        assert(before + seq![chars@.subrange(start as int, i as int)] =~= before.push(
            chars@.subrange(start as int, i as int),
        ));
    } else {
        assert(before + Seq::<Seq<char>>::empty() =~= before);
    }
    lines
}

/// The character that stands for a digit.
pub open spec fn digit_char(d: nat) -> char {
    if d == 0 {
        '0'
    } else if d == 1 {
        '1'
    } else if d == 2 {
        '2'
    } else if d == 3 {
        '3'
    } else if d == 4 {
        '4'
    } else if d == 5 {
        '5'
    } else if d == 6 {
        '6'
    } else if d == 7 {
        '7'
    } else if d == 8 {
        '8'
    } else {
        '9'
    }
}

/// A number written in decimal digits, without leading zeros.
pub open spec fn decimal_of(n: nat) -> Seq<char>
    decreases n,
{
    if n < 10 {
        seq![digit_char(n)]
    } else {
        decimal_of(n / 10).push(digit_char(n % 10))
    }
}

/// The character that stands for the digit `d`.
fn digit(d: usize) -> (c: char)
    requires
        d < 10,
    ensures
        c == digit_char(d as nat),
{
    if d == 0 {
        '0'
    } else if d == 1 {
        '1'
    } else if d == 2 {
        '2'
    } else if d == 3 {
        '3'
    } else if d == 4 {
        '4'
    } else if d == 5 {
        '5'
    } else if d == 6 {
        '6'
    } else if d == 7 {
        '7'
    } else if d == 8 {
        '8'
    } else {
        '9'
    }
}

/// Appends `n`, written in decimal digits, to `out`.
pub fn push_decimal(out: &mut String, n: usize)
    ensures
        final(out)@ == old(out)@ + decimal_of(n as nat),
    decreases n,
{
    if n >= 10 {
        push_decimal(out, n / 10);
    }
    out.push(digit(n % 10));
    assert(out@ =~= old(out)@ + decimal_of(n as nat));
}

/// Whether `text` ends with `suffix`.
pub open spec fn has_suffix(text: Seq<char>, suffix: Seq<char>) -> bool {
    text.len() >= suffix.len() && text.skip(text.len() - suffix.len()) == suffix
}

/// Whether `text` ends with `suffix`.
pub fn ends_with(text: &str, suffix: &str) -> (r: bool)
    ensures
        r == has_suffix(text@, suffix@),
{
    let t = chars_of(text);
    let s = chars_of(suffix);
    if t.len() < s.len() {
        return false;
    }
    let shift: usize = t.len() - s.len();
    let ghost tail = t@.skip(shift as int);
    let mut i: usize = 0;
    while i < s.len()
        invariant
            0 <= i <= s.len(),
            shift + s.len() == t.len(),
            t@ == text@,
            s@ == suffix@,
            tail == t@.skip(shift as int),
            forall|j: int| 0 <= j < i ==> tail[j] == s@[j],
        decreases s.len() - i,
    {
        assert(tail[i as int] == t@[shift + i]);
        if t[shift + i] != s[i] {
            assert(tail[i as int] != s@[i as int]);
            return false;
        }
        i += 1;
    }
    assert(tail =~= s@);
    true
}

/// No line holds a line feed.
pub proof fn lemma_lines_hold_no_line_feed(code: Seq<char>, i: int)
    requires
        0 <= i < lines_of(code).len(),
    ensures
        !lines_of(code)[i].contains('\n'),
{
    lemma_lines_from_hold_no_line_feed(code, Seq::empty(), i);
}

/// No line that is still to come holds a line feed, if what was read of the
/// current line holds none.
proof fn lemma_lines_from_hold_no_line_feed(code: Seq<char>, cur: Seq<char>, i: int)
    requires
        !cur.contains('\n'),
        0 <= i < lines_from(code, cur).len(),
    ensures
        !lines_from(code, cur)[i].contains('\n'),
    decreases code.len(),
{
    if code.len() == 0 {
    } else if code[0] == '\n' {
        if i == 0 {
            let line = without_cr(cur);
            if line.contains('\n') {
                let k = choose|k: int| 0 <= k < line.len() && line[k] == '\n';
                assert(cur[k] == '\n');
            }
        } else {
            lemma_lines_from_hold_no_line_feed(code.drop_first(), Seq::empty(), i - 1);
        }
    } else {
        let next = cur.push(code[0]);
        if next.contains('\n') {
            let k = choose|k: int| 0 <= k < next.len() && next[k] == '\n';
            if k < cur.len() {
                assert(cur[k] == '\n');
            }
        }
        lemma_lines_from_hold_no_line_feed(code.drop_first(), next, i);
    }
}

} // verus!
