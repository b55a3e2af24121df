//! Text building blocks used in messages and generated sources.

use vstd::prelude::*;
use crate::arith;

pub mod read;

verus! {

/// The character of the digit `d`, for `d < 16`.
pub open spec fn digit_char(d: int) -> char {
    if d < 10 {
        (48 + d) as char
    } else {
        (87 + d) as char
    }
}

/// `n` written in base `base` without leading zeros.
pub open spec fn digits(n: nat, base: nat) -> Seq<char>
    decreases n,
{
    if base < 2 || n < base {
        seq![digit_char(n as int)]
    } else {
        proof {
            vstd::arithmetic::div_mod::lemma_div_decreases(n as int, base as int);
        }
        digits(n / base, base).push(digit_char((n % base) as int))
    }
}

/// `n` in decimal.
pub open spec fn dec(n: int) -> Seq<char> {
    if n < 0 {
        "-"@ + digits((-n) as nat, 10)
    } else {
        digits(n as nat, 10)
    }
}

/// `n` in lower case hexadecimal.
pub open spec fn hex(n: int) -> Seq<char> {
    digits(n as nat, 16)
}

fn digit_text(d: u8) -> (s: &'static str)
    requires
        d < 16,
    ensures
        s@ =~= seq![digit_char(d as int)],
{
    proof {
        reveal_strlit("0");
        reveal_strlit("1");
        reveal_strlit("2");
        reveal_strlit("3");
        reveal_strlit("4");
        reveal_strlit("5");
        reveal_strlit("6");
        reveal_strlit("7");
        reveal_strlit("8");
        reveal_strlit("9");
        reveal_strlit("a");
        reveal_strlit("b");
        reveal_strlit("c");
        reveal_strlit("d");
        reveal_strlit("e");
        reveal_strlit("f");
    }
    match d {
        0 => "0",
        1 => "1",
        2 => "2",
        3 => "3",
        4 => "4",
        5 => "5",
        6 => "6",
        7 => "7",
        8 => "8",
        9 => "9",
        10 => "a",
        11 => "b",
        12 => "c",
        13 => "d",
        14 => "e",
        _ => "f",
    }
}

fn digits_text(n: u64, base: u64) -> (s: String)
    requires
        2 <= base <= 16,
    ensures
        s@ == digits(n as nat, base as nat),
    decreases n,
{
    if n < base {
        String::from_str(digit_text(n as u8))
    } else {
        proof {
            vstd::arithmetic::div_mod::lemma_div_decreases(n as int, base as int);
        }
        let mut s = digits_text(n / base, base);
        s.append(digit_text((n % base) as u8));
        assert(s@ =~= digits(n as nat / base as nat, base as nat).push(
            digit_char((n as nat % base as nat) as int),
        ));
        s
    }
}

/// Renders an unsigned number in decimal.
pub fn decimal(n: u64) -> (s: String)
    ensures
        s@ == dec(n as int),
{
    digits_text(n, 10)
}

/// Renders a length or an index in decimal.
pub fn decimal_usize(n: usize) -> (s: String)
    ensures
        s@ == dec(n as int),
{
    digits_text(n as u64, 10)
}

/// Renders a 32-bit number in decimal.
pub fn decimal_u32(n: u32) -> (s: String)
    ensures
        s@ == dec(n as int),
{
    digits_text(n as u64, 10)
}

/// Renders a signed number in decimal.
pub fn decimal_i64(n: i64) -> (s: String)
    ensures
        s@ == dec(n as int),
{
    if n < 0 {
        let m: u64 = if n == i64::MIN {
            0x8000_0000_0000_0000
        } else {
            (-n) as u64
        };
        String::from_str("-").concat(digits_text(m, 10).as_str())
    } else {
        digits_text(n as u64, 10)
    }
}

/// Renders a number in hexadecimal without prefix.
pub fn hexadecimal(n: u64) -> (s: String)
    ensures
        s@ == hex(n as int),
{
    digits_text(n, 16)
}

pub fn cat2(a: &str, b: &str) -> (s: String)
    ensures
        s@ == a@ + b@,
{
    String::from_str(a).concat(b)
}

pub fn cat3(a: &str, b: &str, c: &str) -> (s: String)
    ensures
        s@ == a@ + b@ + c@,
{
    String::from_str(a).concat(b).concat(c)
}

pub fn cat4(a: &str, b: &str, c: &str, d: &str) -> (s: String)
    ensures
        s@ == a@ + b@ + c@ + d@,
{
    String::from_str(a).concat(b).concat(c).concat(d)
}

pub fn cat5(a: &str, b: &str, c: &str, d: &str, e: &str) -> (s: String)
    ensures
        s@ == a@ + b@ + c@ + d@ + e@,
{
    String::from_str(a).concat(b).concat(c).concat(d).concat(e)
}

pub fn cat6(a: &str, b: &str, c: &str, d: &str, e: &str, f: &str) -> (s: String)
    ensures
        s@ == a@ + b@ + c@ + d@ + e@ + f@,
{
    String::from_str(a).concat(b).concat(c).concat(d).concat(e).concat(f)
}

pub fn cat7(a: &str, b: &str, c: &str, d: &str, e: &str, f: &str, g: &str) -> (s: String)
    ensures
        s@ == a@ + b@ + c@ + d@ + e@ + f@ + g@,
{
    String::from_str(a).concat(b).concat(c).concat(d).concat(e).concat(f).concat(g)
}

/// The elements of `v` in decimal, separated by `", "`, each followed by `suffix`.
pub open spec fn joined(v: Seq<int>, suffix: Seq<char>) -> Seq<char>
    decreases v.len(),
{
    if v.len() == 0 {
        ""@
    } else if v.len() == 1 {
        dec(v[0]) + suffix
    } else {
        joined(v.drop_last(), suffix) + ", "@ + dec(v.last()) + suffix
    }
}

/// A list in square brackets.
pub open spec fn list_text(v: Seq<int>) -> Seq<char> {
    "["@ + joined(v, ""@) + "]"@
}

pub open spec fn ints_u32(v: Seq<u32>) -> Seq<int> {
    v.map_values(|x: u32| x as int)
}

pub open spec fn ints_i64(v: Seq<i64>) -> Seq<int> {
    v.map_values(|x: i64| x as int)
}

fn push_item(out: &mut String, first: bool, item: &str, suffix: &str)
    ensures
        final(out)@ == if first {
            item@ + suffix@
        } else {
            old(out)@ + ", "@ + item@ + suffix@
        },
{
    if first {
        *out = cat2(item, suffix);
    } else {
        out.append(", ");
        out.append(item);
        out.append(suffix);
    }
}

proof fn lemma_joined_step(v: Seq<int>, i: int, suffix: Seq<char>)
    requires
        0 <= i < v.len(),
    ensures
        joined(v.take(i + 1), suffix) == if i == 0 {
            dec(v[0]) + suffix
        } else {
            joined(v.take(i), suffix) + ", "@ + dec(v[i]) + suffix
        },
{
    assert(v.take(i + 1).drop_last() =~= v.take(i));
}

/// Renders a shape as a bracketed list.
pub fn shape_text(v: &[usize]) -> (s: String)
    ensures
        s@ == list_text(arith::ints(v@)),
{
    let mut out = String::from_str("");
    for i in 0..v.len()
        invariant
            out@ == joined(arith::ints(v@).take(i as int), ""@),
    {
        push_item(&mut out, i == 0, decimal_usize(v[i]).as_str(), "");
        proof {
            lemma_joined_step(arith::ints(v@), i as int, ""@);
        }
    }
    assert(arith::ints(v@).take(v@.len() as int) =~= arith::ints(v@));
    cat3("[", out.as_str(), "]")
}

/// Renders a list of signed numbers as a bracketed list.
pub fn list_i64_text(v: &[i64]) -> (s: String)
    ensures
        s@ == list_text(ints_i64(v@)),
{
    let mut out = String::from_str("");
    for i in 0..v.len()
        invariant
            out@ == joined(ints_i64(v@).take(i as int), ""@),
    {
        push_item(&mut out, i == 0, decimal_i64(v[i]).as_str(), "");
        proof {
            lemma_joined_step(ints_i64(v@), i as int, ""@);
        }
    }
    assert(ints_i64(v@).take(v@.len() as int) =~= ints_i64(v@));
    cat3("[", out.as_str(), "]")
}

/// Renders words in decimal, separated by commas.
pub fn join_words(values: &[u32]) -> (s: String)
    ensures
        s@ == joined(ints_u32(values@), ""@),
{
    let mut out = String::from_str("");
    for i in 0..values.len()
        invariant
            out@ == joined(ints_u32(values@).take(i as int), ""@),
    {
        push_item(&mut out, i == 0, decimal_u32(values[i]).as_str(), "");
        proof {
            lemma_joined_step(ints_u32(values@), i as int, ""@);
        }
    }
    assert(ints_u32(values@).take(values@.len() as int) =~= ints_u32(values@));
    out
}

/// A C++ initializer list of unsigned words; an empty list is padded with one word.
pub open spec fn cpp_array(v: Seq<int>) -> Seq<char> {
    if v.len() == 0 {
        "{1u}"@
    } else {
        "{"@ + joined(v, "u"@) + "}"@
    }
}

pub fn cpp_u32_array(values: &[u32]) -> (s: String)
    ensures
        s@ == cpp_array(ints_u32(values@)),
{
    if values.len() == 0 {
        return String::from_str("{1u}");
    }
    let mut out = String::from_str("");
    for i in 0..values.len()
        invariant
            out@ == joined(ints_u32(values@).take(i as int), "u"@),
    {
        push_item(&mut out, i == 0, decimal_u32(values[i]).as_str(), "u");
        proof {
            lemma_joined_step(ints_u32(values@), i as int, "u"@);
        }
    }
    assert(ints_u32(values@).take(values@.len() as int) =~= ints_u32(values@));
    cat3("{", out.as_str(), "}")
}

/// `s` with every occurrence of `from`, found from left to right without
/// overlap, exchanged for `to`.
pub open spec fn replaced(s: Seq<char>, from: Seq<char>, to: Seq<char>) -> Seq<char>
    decreases s.len(),
{
    if from.len() == 0 || s.len() < from.len() {
        s
    } else if s.take(from.len() as int) == from {
        to + replaced(s.skip(from.len() as int), from, to)
    } else {
        seq![s[0]] + replaced(s.skip(1), from, to)
    }
}

/// The characters of a text.
pub(crate) fn chars_of(s: &str) -> (r: Vec<char>)
    ensures
        r@ == s@,
{
    broadcast use vstd::string::axiom_spec_iter;

    let mut out: Vec<char> = Vec::new();
    for c in it: s.chars()
        invariant
            it.seq() == s@,
            out@ == it.seq().take(it.index()),
    {
        out.push(c);
        assert(it.seq().take(it.index() + 1) =~= it.seq().take(it.index()).push(c));
    }
    assert(s@.take(s@.len() as int) =~= s@);
    out
}

fn found_at(s: &Vec<char>, from: &Vec<char>, at: usize) -> (r: bool)
    requires
        at + from@.len() <= s@.len(),
    ensures
        r == (s@.skip(at as int).take(from@.len() as int) == from@),
{
    let n: usize = s.len();
    let ghost part = s@.skip(at as int).take(from@.len() as int);
    for k in 0..from.len()
        invariant
            n == s@.len(),
            at + from@.len() <= n,
            part == s@.skip(at as int).take(from@.len() as int),
            forall|j: int| 0 <= j < k ==> part[j] == from@[j],
    {
        assert(part[k as int] == s@[at + k]);
        if s[at + k] != from[k] {
            return false;
        }
    }
    assert(part =~= from@);
    true
}

/// Exchanges the matches of `from`, found from left to right without overlap, for `to`.
pub(crate) fn replace_text(s: &str, from: &str, to: &str) -> (r: String)
    requires
        from@.len() > 0,
    ensures
        r@ == replaced(s@, from@, to@),
{
    let text = chars_of(s);
    let want = chars_of(from);
    let n: usize = text.len();
    let m: usize = want.len();
    let mut out = String::from_str("");
    let mut start: usize = 0;
    let mut i: usize = 0;
    proof {
        reveal_strlit("");
        assert(s@.skip(0) =~= s@);
        assert(out@ + s@.subrange(0, 0) + replaced(s@, from@, to@) =~= replaced(s@, from@, to@));
    }
    while i <= n && n - i >= m
        invariant
            text@ == s@,
            want@ == from@,
            n == s@.len(),
            m == from@.len(),
            m > 0,
            start <= i <= n,
            replaced(s@, from@, to@) == out@ + s@.subrange(start as int, i as int) + replaced(
                s@.skip(i as int),
                from@,
                to@,
            ),
        decreases n - i,
    {
        let ghost before = out@ + s@.subrange(start as int, i as int);
        let ghost tail = s@.skip(i as int);
        if found_at(&text, &want, i) {
            out.append(s.substring_char(start, i));
            out.append(to);
            i = i + m;
            start = i;
            proof {
                assert(tail.skip(m as int) =~= s@.skip(i as int));
                assert(out@ + s@.subrange(start as int, i as int) =~= before + to@);
                assert(before + (to@ + replaced(s@.skip(i as int), from@, to@)) =~= before + to@
                    + replaced(s@.skip(i as int), from@, to@));
            }
        } else {
            i = i + 1;
            proof {
                assert(tail.skip(1) =~= s@.skip(i as int));
                assert(out@ + s@.subrange(start as int, i as int) =~= before + seq![tail[0]]);
                assert(before + (seq![tail[0]] + replaced(s@.skip(i as int), from@, to@)) =~= before
                    + seq![tail[0]] + replaced(s@.skip(i as int), from@, to@));
            }
        }
    }
    let ghost end = out@;
    out.append(s.substring_char(start, n));
    proof {
        assert(end + s@.subrange(start as int, i as int) + s@.skip(i as int) =~= end + s@.subrange(
            start as int,
            n as int,
        ));
    }
    out
}

/// Whether two texts hold the same characters.
pub fn same_text(a: &str, b: &str) -> (r: bool)
    ensures
        r == (a@ == b@),
{
    a.to_owned() == b.to_owned()
}

/// An ASCII capital as a small letter; any other character as it is.
pub open spec fn lower_char(c: char) -> char {
    if 'A' <= c && c <= 'Z' {
        ((c as u32) + 32) as char
    } else {
        c
    }
}

fn small_letter(c: char) -> (s: &'static str)
    requires
        'A' <= c <= 'Z',
    ensures
        s@ == seq![lower_char(c)],
{
    proof {
        reveal_strlit("a");
        reveal_strlit("b");
        reveal_strlit("c");
        reveal_strlit("d");
        reveal_strlit("e");
        reveal_strlit("f");
        reveal_strlit("g");
        reveal_strlit("h");
        reveal_strlit("i");
        reveal_strlit("j");
        reveal_strlit("k");
        reveal_strlit("l");
        reveal_strlit("m");
        reveal_strlit("n");
        reveal_strlit("o");
        reveal_strlit("p");
        reveal_strlit("q");
        reveal_strlit("r");
        reveal_strlit("s");
        reveal_strlit("t");
        reveal_strlit("u");
        reveal_strlit("v");
        reveal_strlit("w");
        reveal_strlit("x");
        reveal_strlit("y");
        reveal_strlit("z");
    }
    let s: &'static str = match c {
        'A' => "a",
        'B' => "b",
        'C' => "c",
        'D' => "d",
        'E' => "e",
        'F' => "f",
        'G' => "g",
        'H' => "h",
        'I' => "i",
        'J' => "j",
        'K' => "k",
        'L' => "l",
        'M' => "m",
        'N' => "n",
        'O' => "o",
        'P' => "p",
        'Q' => "q",
        'R' => "r",
        'S' => "s",
        'T' => "t",
        'U' => "u",
        'V' => "v",
        'W' => "w",
        'X' => "x",
        'Y' => "y",
        _ => "z",
    };
    assert(s@ =~= seq![lower_char(c)]);
    s
}

/// `s` with small letters for the ASCII capitals.
pub open spec fn lowered(s: Seq<char>) -> Seq<char> {
    s.map_values(|c: char| lower_char(c))
}

/// Exchanges the ASCII capitals for small letters.
pub(crate) fn lower_text(s: &str) -> (r: String)
    ensures
        r@ == lowered(s@),
{
    let text = chars_of(s);
    let n: usize = text.len();
    let mut out = String::from_str("");
    let mut start: usize = 0;
    proof {
        reveal_strlit("");
        assert(out@ =~= lowered(s@.take(0)));
    }
    for i in 0..n
        invariant
            text@ == s@,
            n == s@.len(),
            start <= i,
            out@ == lowered(s@.take(start as int)),
            forall|j: int| start <= j < i ==> lower_char(#[trigger] s@[j]) == s@[j],
    {
        let c: char = text[i];
        if 'A' <= c && c <= 'Z' {
            out.append(s.substring_char(start, i));
            out.append(small_letter(c));
            assert(out@ =~= lowered(s@.take(i + 1)));
            start = i + 1;
        }
    }
    out.append(s.substring_char(start, n));
    assert(out@ =~= lowered(s@));
    out
}

/// Whether `char::is_whitespace` of the standard library says that a character is white
/// space.
pub uninterp spec fn is_white(c: char) -> bool;

/// The white space that settings and files have around their text.
pub open spec fn is_blank(c: char) -> bool {
    c == ' ' || c == '\t' || c == '\n' || c == '\r'
}

/// The characters of ASCII that are seen, none of which is white space.
pub open spec fn is_visible(c: char) -> bool {
    '!' <= c <= '~'
}

/// `char::is_whitespace` of the standard library: whether a character has the property
/// `White_Space` of Unicode. The blank, the tabulator and the ends of lines have it, and
/// no visible character of ASCII; of the others nothing is said.
#[verifier::external_body]
fn white(c: char) -> (r: bool)
    ensures
        r == is_white(c),
        is_blank(c) ==> r,
        is_visible(c) ==> !r,
{
    c.is_whitespace()
}

/// `s` without leading and trailing white space.
pub open spec fn trimmed(s: Seq<char>) -> Seq<char>
    decreases s.len(),
{
    if s.len() == 0 {
        s
    } else if is_white(s[0]) {
        trimmed(s.skip(1))
    } else if is_white(s.last()) {
        trimmed(s.drop_last())
    } else {
        s
    }
}

/// Whether `r` is `s` without something before and behind it: nothing that is
/// seen, and all of the usual white space.
pub open spec fn trims(s: Seq<char>, r: Seq<char>) -> bool {
    exists|a: int, b: int|
        {
            &&& 0 <= a <= b <= s.len()
            &&& #[trigger] s.subrange(a, b) == r
            &&& forall|i: int|
                0 <= i < a || b <= i < s.len() ==> !is_visible(#[trigger] s[i])
            &&& a < b ==> !is_blank(s[a]) && !is_blank(s[b - 1])
        }
}

/// Removes leading and trailing white space.
pub(crate) fn trim_text(s: &str) -> (r: String)
    ensures
        r@ == trimmed(s@),
        trims(s@, r@),
{
    let text = chars_of(s);
    let n: usize = text.len();
    let mut a: usize = 0;
    assert(s@.subrange(0, n as int) =~= s@);
    while a < n
        invariant
            text@ == s@,
            n == s@.len(),
            a <= n,
            trimmed(s@) == trimmed(s@.subrange(a as int, n as int)),
            forall|i: int| 0 <= i < a ==> !is_visible(#[trigger] s@[i]),
        ensures
            a < n ==> !is_white(s@[a as int]) && !is_blank(s@[a as int]),
        decreases n - a,
    {
        if !white(text[a]) {
            break ;
        }
        assert(s@.subrange(a as int, n as int).skip(1) =~= s@.subrange(a + 1, n as int));
        a = a + 1;
    }
    let mut b: usize = n;
    while b > a
        invariant
            text@ == s@,
            n == s@.len(),
            a <= b <= n,
            trimmed(s@) == trimmed(s@.subrange(a as int, b as int)),
            forall|i: int| 0 <= i < a || b <= i < n ==> !is_visible(#[trigger] s@[i]),
            a < n ==> !is_white(s@[a as int]) && !is_blank(s@[a as int]),
        ensures
            a < b ==> !is_white(s@[b - 1]) && !is_blank(s@[b - 1]),
        decreases b - a,
    {
        if !white(text[b - 1]) {
            break ;
        }
        assert(s@.subrange(a as int, b as int).drop_last() =~= s@.subrange(a as int, b - 1));
        b = b - 1;
    }
    let r = s.substring_char(a, b).to_owned();
    assert(r@ == s@.subrange(a as int, b as int));
    r
}

/// A text as the standard library's `Debug` shows it: in quotes, with escapes.
pub uninterp spec fn quoted(s: Seq<char>) -> Seq<char>;

/// The `Debug` form of a text. Which characters are escaped, and how, is left to
/// the standard library.
#[verifier::external_body]
pub(crate) fn quote_text(s: &str) -> (r: String)
    ensures
        r@ == quoted(s@),
{
    format!("{:?}", s)
}

} // verus!
