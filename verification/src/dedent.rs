//! Indentation of a block of lines, and its removal.
//!
//! A space counts 1 and a tab counts 4. The indent of a line is the sum over
//! its leading spaces and tabs. A block is dedented by the least indent among
//! its lines, the first line left out of the count: that line is what stood
//! behind the keyword's colon, and says nothing about how the block is laid
//! out.

use vstd::prelude::*;
use crate::text::{chars_of, push_range, texts};

verus! {

/// What one character adds to an indent: 1 for a space, 4 for a tab, and 0
/// for every character that ends the indent.
pub open spec fn char_weight(c: char) -> nat {
    if c == ' ' {
        1
    } else if c == '\t' {
        4
    } else {
        0
    }
}

/// The indent of a line: the summed weight of its leading spaces and tabs.
pub open spec fn indent_weight(line: Seq<char>) -> nat
    decreases line.len(),
{
    if line.len() == 0 || char_weight(line[0]) == 0 {
        0
    } else {
        char_weight(line[0]) + indent_weight(line.drop_first())
    }
}

/// The least indent among `lines`, and 0 where there is no line.
pub open spec fn least_weight(lines: Seq<Seq<char>>) -> nat
    decreases lines.len(),
{
    if lines.len() == 0 {
        0
    } else if lines.len() == 1 {
        indent_weight(lines[0])
    } else {
        let rest = least_weight(lines.drop_last());
        let w = indent_weight(lines.last());
        if w < rest {
            w
        } else {
            rest
        }
    }
}

/// The indent that a block is dedented by: the least indent among its lines
/// but the first, or the indent of its only line.
pub open spec fn min_indent(lines: Seq<Seq<char>>) -> nat {
    if lines.len() <= 1 {
        least_weight(lines)
    } else {
        least_weight(lines.drop_first())
    }
}

/// `line` without its leading spaces and tabs, as far as they are needed to
/// reach the weight `amount`. A tab that straddles `amount` is removed whole.
pub open spec fn strip_indent(line: Seq<char>, amount: int) -> Seq<char>
    decreases line.len(),
{
    if amount <= 0 || line.len() == 0 || char_weight(line[0]) == 0 {
        line
    } else {
        strip_indent(line.drop_first(), amount - char_weight(line[0]))
    }
}

/// Every line of `lines` stripped by `amount`.
pub open spec fn strip_all(lines: Seq<Seq<char>>, amount: int) -> Seq<Seq<char>> {
    Seq::new(lines.len(), |i: int| strip_indent(lines[i], amount))
}

/// The content of a block: its lines, each stripped by the block's
/// `min_indent`, joined with nothing between them.
pub open spec fn dedented(lines: Seq<Seq<char>>) -> Seq<char> {
    strip_all(lines, min_indent(lines) as int).flatten()
}

/// `least_weight` is the indent of one of the lines, and no line has less.
pub proof fn lemma_least_weight(lines: Seq<Seq<char>>)
    requires
        lines.len() > 0,
    ensures
        forall|i: int| 0 <= i < lines.len() ==> least_weight(lines) <= indent_weight(#[trigger] lines[i]),
        exists|i: int| 0 <= i < lines.len() && least_weight(lines) == indent_weight(#[trigger] lines[i]),
    decreases lines.len(),
{
    if lines.len() == 1 {
        assert(least_weight(lines) == indent_weight(lines[0]));
    } else {
        let front = lines.drop_last();
        lemma_least_weight(front);
        let j = choose|i: int| 0 <= i < front.len() && least_weight(front) == indent_weight(#[trigger] front[i]);
        assert(front[j] == lines[j]);
        assert forall|i: int| 0 <= i < lines.len() implies least_weight(lines) <= indent_weight(#[trigger] lines[i]) by {
            if i < front.len() {
                assert(front[i] == lines[i]);
            }
        }
        if indent_weight(lines.last()) < least_weight(front) {
            assert(least_weight(lines) == indent_weight(lines[lines.len() - 1]));
        } else {
            assert(least_weight(lines) == indent_weight(lines[j]));
        }
    }
}

/// A line that is stripped by at least its own indent has no indent left.
pub proof fn lemma_strip_clears(line: Seq<char>, amount: int)
    requires
        indent_weight(line) <= amount,
    ensures
        indent_weight(strip_indent(line, amount)) == 0,
    decreases line.len(),
{
    if amount <= 0 || line.len() == 0 || char_weight(line[0]) == 0 {
    } else {
        lemma_strip_clears(line.drop_first(), amount - char_weight(line[0]));
    }
}

/// A line without indent is left as it is.
pub proof fn lemma_strip_keeps_unindented(line: Seq<char>, amount: int)
    requires
        indent_weight(line) == 0,
    ensures
        strip_indent(line, amount) == line,
{
}

/// Dedenting leaves nothing to dedent: after every line has been stripped by
/// the block's `min_indent`, the `min_indent` of the result is zero.
pub proof fn lemma_dedent_is_idempotent(lines: Seq<Seq<char>>)
    ensures
        min_indent(strip_all(lines, min_indent(lines) as int)) == 0,
{
    let m = min_indent(lines) as int;
    let out = strip_all(lines, m);
    if lines.len() == 0 {
    } else if lines.len() == 1 {
        lemma_strip_clears(lines[0], m);
        assert(out[0] == strip_indent(lines[0], m));
    } else {
        let counted = lines.drop_first();
        lemma_least_weight(counted);
        let j = choose|i: int| 0 <= i < counted.len() && least_weight(counted) == indent_weight(#[trigger] counted[i]);
        assert(counted[j] == lines[j + 1]);
        lemma_strip_clears(lines[j + 1], m);
        let out_counted = out.drop_first();
        assert(out_counted[j] == out[j + 1]);
        assert(out[j + 1] == strip_indent(lines[j + 1], m));
        lemma_least_weight(out_counted);
        assert(least_weight(out_counted) <= indent_weight(out_counted[j]));
    }
}

/// What stood behind the keyword's colon leads the content. It is stripped
/// like every line, so where it begins with no space or tab it stands at the
/// front of the content exactly as it was written, whatever the indent of
/// the lines below it.
pub proof fn lemma_fragment_leads(lines: Seq<Seq<char>>)
    requires
        lines.len() > 0,
    ensures
        dedented(lines) == strip_indent(lines[0], min_indent(lines) as int) + strip_all(
            lines.drop_first(),
            min_indent(lines) as int,
        ).flatten(),
        indent_weight(lines[0]) == 0 ==> dedented(lines) == lines[0] + strip_all(
            lines.drop_first(),
            min_indent(lines) as int,
        ).flatten(),
{
    let m = min_indent(lines) as int;
    let out = strip_all(lines, m);
    assert(out.first() == strip_indent(lines[0], m));
    assert(out.drop_first() =~= strip_all(lines.drop_first(), m));
    if indent_weight(lines[0]) == 0 {
        lemma_strip_keeps_unindented(lines[0], m);
    }
}

/// The weight of `ch` in an indent, or `None` where `ch` ends the indent.
pub fn char_indent(ch: char) -> (r: Option<usize>)
    ensures
        r is Some <==> char_weight(ch) > 0,
        r matches Some(w) ==> w == char_weight(ch),
{
    if ch == ' ' {
        Some(1)
    } else if ch == '\t' {
        Some(4)
    } else {
        None
    }
}

/// The indent of `line`.
fn weight_of(line: &Vec<char>) -> (w: u128)
    ensures
        w == indent_weight(line@),
{
    let mut w: u128 = 0;
    let mut i: usize = 0;
    assert(line@.skip(0) =~= line@);
    while i < line.len()
        invariant
            0 <= i <= line.len(),
            w <= 4 * i,
            w + indent_weight(line@.skip(i as int)) == indent_weight(line@),
        decreases line.len() - i,
    {
        assert(line@.skip(i as int).drop_first() =~= line@.skip(i + 1));
        match char_indent(line[i]) {
            Some(k) => {
                w = w + k as u128;
                i += 1;
            },
            None => {
                return w;
            },
        }
    }
    w
}

/// The indent of `line`: 1 for each leading space and 4 for each leading tab,
/// up to the first character that is neither. The result is wide enough for
/// a line of any length.
pub fn count_indent(line: &str) -> (w: u128)
    ensures
        w == indent_weight(line@),
{
    let chars = chars_of(line);
    weight_of(&chars)
}

/// How many characters `strip_indent` takes from the front of `line`.
fn strip_point(line: &Vec<char>, amount: u128) -> (k: usize)
    ensures
        k <= line.len(),
        line@.skip(k as int) == strip_indent(line@, amount as int),
{
    let mut left: u128 = amount;
    let mut k: usize = 0;
    assert(line@.skip(0) =~= line@);
    while k < line.len() && left > 0
        invariant
            0 <= k <= line.len(),
            strip_indent(line@.skip(k as int), left as int) == strip_indent(line@, amount as int),
        decreases line.len() - k,
    {
        assert(line@.skip(k as int).drop_first() =~= line@.skip(k + 1));
        match char_indent(line[k]) {
            Some(w) => {
                let ghost rest = line@.skip(k + 1);
                assert(strip_indent(line@.skip(k as int), left as int) == strip_indent(
                    rest,
                    left - w,
                ));
                assert(left - w <= 0 ==> strip_indent(rest, left - w) == strip_indent(rest, 0));
                left = if w as u128 >= left {
                    0
                } else {
                    left - w as u128
                };
                k += 1;
            },
            None => {
                return k;
            },
        }
    }
    k
}

/// The characters of each line.
fn rows_of(lines: &Vec<String>) -> (rows: Vec<Vec<char>>)
    ensures
        rows.len() == lines.len(),
        forall|i: int| 0 <= i < rows.len() ==> (#[trigger] rows[i])@ == lines[i]@,
{
    let mut rows: Vec<Vec<char>> = Vec::new();
    let mut i: usize = 0;
    while i < lines.len()
        invariant
            0 <= i <= lines.len(),
            rows.len() == i,
            forall|j: int| 0 <= j < i ==> (#[trigger] rows[j])@ == lines[j]@,
        decreases lines.len() - i,
    {
        rows.push(chars_of(lines[i].as_str()));
        i += 1;
    }
    rows
}

/// The least indent among `rows[from..]`, which holds a line.
fn least_from(rows: &Vec<Vec<char>>, from: usize) -> (m: u128)
    requires
        from < rows.len(),
    ensures
        m == least_weight(Seq::new((rows.len() - from) as nat, |i: int| rows[from + i]@)),
{
    let ghost all = Seq::new((rows.len() - from) as nat, |i: int| rows[from + i]@);
    let mut m: u128 = weight_of(&rows[from]);
    let mut i: usize = from + 1;
    assert(all.take(1) =~= seq![rows[from as int]@]);
    while i < rows.len()
        invariant
            from < i <= rows.len(),
            all == Seq::new((rows.len() - from) as nat, |i: int| rows[from + i]@),
            m == least_weight(all.take(i - from)),
        decreases rows.len() - i,
    {
        let w = weight_of(&rows[i]);
        assert(all.take(i + 1 - from).drop_last() =~= all.take(i - from));
        assert(all.take(i + 1 - from).last() == rows[i as int]@);
        if w < m {
            m = w;
        }
        i += 1;
    }
    assert(all.take(rows.len() - from) =~= all);
    m
}

/// The content of a block: the lines of the block joined, each without the
/// indent that the block as a whole was written with.
///
/// The indent taken away is the least among the lines but the first, or that
/// of the only line. Nothing is put between the lines.
pub fn combine_dedent(lines: &Vec<String>) -> (code: String)
    ensures
        code@ == dedented(texts(lines@)),
{
    let rows = rows_of(lines);
    let ghost block = texts(lines@);
    assert(block =~= Seq::new(rows.len() as nat, |i: int| rows[i]@));
    let min: u128 = if rows.len() == 0 {
        0
    } else if rows.len() == 1 {
        assert(block.len() == 1);
        weight_of(&rows[0])
    } else {
        assert(block.drop_first() =~= Seq::new((rows.len() - 1) as nat, |i: int| rows[1 + i]@));
        least_from(&rows, 1)
    };
    assert(min == min_indent(block));
    let ghost out = strip_all(block, min as int);
    let mut code = String::new();
    let mut i: usize = 0;
    assert(out.take(0) =~= Seq::<Seq<char>>::empty());
    while i < rows.len()
        invariant
            0 <= i <= rows.len(),
            rows.len() == block.len(),
            forall|j: int| 0 <= j < rows.len() ==> (#[trigger] rows[j])@ == block[j],
            out == strip_all(block, min as int),
            code@ == out.take(i as int).flatten(),
        decreases rows.len() - i,
    {
        let k = strip_point(&rows[i], min);
        let ghost before = code@;
        push_range(&mut code, &rows[i], k, rows[i].len());
        proof {
            let row = rows[i as int]@;
            assert(row.subrange(k as int, row.len() as int) =~= row.skip(k as int));
            assert(out[i as int] == strip_indent(block[i as int], min as int));
            assert(out.take(i + 1) =~= out.take(i as int).push(out[i as int]));
            out.take(i as int).lemma_flatten_push(out[i as int]);
        }
        i += 1;
    }
    assert(out.take(rows.len() as int) =~= out);
    code
}

} // verus!
