//! Lists of texts: the lines of generated sources and the arguments of commands.

use vstd::prelude::*;
use crate::text;

verus! {

/// The texts of a list of strings.
pub open spec fn lines_view(lines: Seq<String>) -> Seq<Seq<char>> {
    lines.map_values(|s: String| s@)
}

/// The lines as one text, each with its line end.
pub open spec fn rendered(lines: Seq<Seq<char>>) -> Seq<char>
    decreases lines.len(),
{
    if lines.len() == 0 {
        ""@
    } else {
        rendered(lines.drop_last()) + lines.last() + "\n"@
    }
}

/// Joins lines to one text.
pub fn render(lines: &Vec<String>) -> (r: String)
    ensures
        r@ == rendered(lines_view(lines@)),
{
    let mut out = String::from_str("");
    let ghost all = lines_view(lines@);
    for i in 0..lines.len()
        invariant
            all == lines_view(lines@),
            out@ == rendered(all.take(i as int)),
    {
        out.append(lines[i].as_str());
        out.append("\n");
        assert(all.take(i + 1).drop_last() =~= all.take(i as int));
    }
    assert(all.take(lines@.len() as int) =~= all);
    out
}

/// Appends a line.
pub fn push(lines: &mut Vec<String>, line: String)
    ensures
        lines_view(final(lines)@) == lines_view(old(lines)@).push(line@),
{
    let ghost before = lines_view(lines@);
    lines.push(line);
    assert(lines_view(lines@) =~= before.push(line@));
}

/// Appends lines.
pub fn extend(lines: &mut Vec<String>, more: Vec<String>)
    ensures
        lines_view(final(lines)@) == lines_view(old(lines)@) + lines_view(more@),
{
    let mut more = more;
    let ghost start = lines_view(lines@);
    let ghost all = more@;
    lines.append(&mut more);
    assert(lines_view(lines@) =~= start + lines_view(all));
}

/// The texts of a list of string slices.
pub open spec fn strs_view(v: Seq<&'static str>) -> Seq<Seq<char>> {
    v.map_values(|s: &'static str| s@)
}

/// Appends texts.
pub fn push_all(lines: &mut Vec<String>, more: Vec<&'static str>)
    ensures
        lines_view(final(lines)@) == lines_view(old(lines)@) + strs_view(more@),
{
    let ghost start = lines_view(lines@);
    let ghost all = strs_view(more@);
    for i in 0..more.len()
        invariant
            all == strs_view(more@),
            lines_view(lines@) == start + all.take(i as int),
    {
        push(lines, more[i].to_owned());
        assert(lines_view(lines@) =~= start + all.take(i + 1));
    }
    assert(all.take(more@.len() as int) =~= all);
}

/// Appends copies of texts.
pub fn push_copies(lines: &mut Vec<String>, more: &Vec<String>)
    ensures
        lines_view(final(lines)@) == lines_view(old(lines)@) + lines_view(more@),
{
    let ghost start = lines_view(lines@);
    let ghost all = lines_view(more@);
    for i in 0..more.len()
        invariant
            all == lines_view(more@),
            lines_view(lines@) == start + all.take(i as int),
    {
        push(lines, more[i].clone());
        assert(lines_view(lines@) =~= start + all.take(i + 1));
    }
    assert(all.take(more@.len() as int) =~= all);
}

/// A line with one number in it.
pub open spec fn line1(a: Seq<char>, n: int, b: Seq<char>) -> Seq<char> {
    a + text::dec(n) + b
}

pub fn number_line(a: &str, n: u32, b: &str) -> (r: String)
    ensures
        r@ == line1(a@, n as int, b@),
{
    text::cat3(a, text::decimal_u32(n).as_str(), b)
}

/// A line with two numbers in it.
pub open spec fn line2(a: Seq<char>, n: int, b: Seq<char>, m: int, c: Seq<char>) -> Seq<char> {
    a + text::dec(n) + b + text::dec(m) + c
}

pub fn numbers_line(a: &str, n: u32, b: &str, m: u32, c: &str) -> (r: String)
    ensures
        r@ == line2(a@, n as int, b@, m as int, c@),
{
    text::cat5(a, text::decimal_u32(n).as_str(), b, text::decimal_u32(m).as_str(), c)
}

} // verus!
