//! What can be read out of texts.

use vstd::prelude::*;
use crate::text;

verus! {

/// The number that a digit stands for.
pub open spec fn digit_value(c: char) -> int {
    if '0' <= c && c <= '9' {
        c as int - '0' as int
    } else {
        c as int - 'a' as int + 10
    }
}

/// The number that digits stand for, the most significant first.
pub open spec fn value(s: Seq<char>, base: int) -> int
    decreases s.len(),
{
    if s.len() == 0 {
        0
    } else {
        value(s.drop_last(), base) * base + digit_value(s.last())
    }
}

/// Whether a character is a digit.
pub open spec fn is_digit(c: char) -> bool {
    ('0' <= c && c <= '9') || ('a' <= c && c <= 'f')
}

/// A number written in digits reads back as the number, without a zero in front of it.
pub proof fn lemma_digits_read_back(n: nat, base: nat)
    requires
        2 <= base <= 16,
    ensures
        value(text::digits(n, base), base as int) == n,
        text::digits(n, base).len() > 0,
        forall|i: int|
            0 <= i < text::digits(n, base).len() ==> is_digit(#[trigger] text::digits(n, base)[i]),
        n > 0 ==> digit_value(text::digits(n, base)[0]) != 0,
    decreases n,
{
    let s = text::digits(n, base);
    if n < base {
        assert(s.drop_last() =~= Seq::<char>::empty());
        assert(value(s.drop_last(), base as int) == 0);
        assert(0 * base == 0);
    } else {
        vstd::arithmetic::div_mod::lemma_div_decreases(n as int, base as int);
        let front = text::digits(n / base, base);
        lemma_digits_read_back(n / base, base);
        assert(s.drop_last() =~= front);
        vstd::arithmetic::div_mod::lemma_fundamental_div_mod(n as int, base as int);
        assert((n / base) * base == base * (n / base)) by (nonlinear_arith);
        assert(n % base < base) by (nonlinear_arith)
            requires
                base > 0,
        ;
        assert(n / base > 0) by (nonlinear_arith)
            requires
                n >= base,
                base > 0,
        ;
        assert(s.last() == text::digit_char((n % base) as int));
        assert forall|i: int| 0 <= i < s.len() implies is_digit(#[trigger] s[i]) by {
            if i < front.len() {
                assert(s[i] == front[i]);
            }
        }
        assert(s[0] == front[0]);
    }
}

/// Different numbers are written differently, in decimal and in hexadecimal.
pub proof fn lemma_numbers_told_apart(a: nat, b: nat)
    ensures
        value(text::dec(a as int), 10) == a,
        value(text::hex(a as int), 16) == a,
        a != b ==> text::dec(a as int) != text::dec(b as int),
        a != b ==> text::hex(a as int) != text::hex(b as int),
{
    lemma_digits_read_back(a, 10);
    lemma_digits_read_back(b, 10);
    lemma_digits_read_back(a, 16);
    lemma_digits_read_back(b, 16);
}

/// Whether a text is a placeholder: at signs around it and none inside.
pub open spec fn is_placeholder(s: Seq<char>) -> bool {
    &&& s.len() >= 2
    &&& s[0] == '@'
    &&& s.last() == '@'
    &&& forall|i: int| 0 < i < s.len() - 1 ==> #[trigger] s[i] != '@'
}

/// A text that holds no at sign stays as it is when a placeholder is filled.
proof fn lemma_nothing_to_fill(s: Seq<char>, from: Seq<char>, to: Seq<char>)
    requires
        is_placeholder(from),
        forall|i: int| 0 <= i < s.len() ==> #[trigger] s[i] != '@',
    ensures
        text::replaced(s, from, to) == s,
    decreases s.len(),
{
    if s.len() >= from.len() {
        assert(s.take(from.len() as int)[0] == s[0]);
        lemma_nothing_to_fill(s.skip(1), from, to);
        assert(seq![s[0]] + s.skip(1) =~= s);
    }
}

/// A placeholder stays as it is from its second character on.
proof fn lemma_rest_kept(s: Seq<char>, from: Seq<char>, to: Seq<char>)
    requires
        is_placeholder(from),
        forall|i: int| 0 <= i < s.len() - 1 ==> #[trigger] s[i] != '@',
    ensures
        text::replaced(s, from, to) == s,
    decreases s.len(),
{
    if s.len() >= from.len() {
        assert(s.take(from.len() as int)[0] == s[0]);
        lemma_rest_kept(s.skip(1), from, to);
        assert(seq![s[0]] + s.skip(1) =~= s);
    }
}

/// Filling a placeholder leaves the others as they are, and fills its own.
proof fn lemma_filled_one(s: Seq<char>, from: Seq<char>, to: Seq<char>)
    requires
        is_placeholder(s),
        is_placeholder(from),
    ensures
        text::replaced(s, from, to) == if s == from {
            to
        } else {
            s
        },
{
    if s == from {
        assert(s.take(from.len() as int) =~= from);
        let rest = s.skip(from.len() as int);
        assert(rest =~= Seq::<char>::empty());
        assert(text::replaced(rest, from, to) == rest);
        assert(to + rest =~= to);
    } else if s.len() >= from.len() {
        let front = s.take(from.len() as int);
        if front == from {
            assert(front.last() == s[from.len() - 1]);
            assert(from.len() == s.len());
            assert(front =~= s);
        }
        lemma_rest_kept(s.skip(1), from, to);
        assert(seq![s[0]] + s.skip(1) =~= s);
    }
}

/// A text with the placeholders of a list filled, one after the other.
pub open spec fn filled(s: Seq<char>, list: Seq<(Seq<char>, int)>) -> Seq<char>
    decreases list.len(),
{
    if list.len() == 0 {
        s
    } else {
        text::replaced(
            filled(s, list.drop_last()),
            list.last().0,
            text::dec(list.last().1),
        )
    }
}

/// Whether all names of a list are placeholders, and none stands in it twice.
pub open spec fn are_placeholders(list: Seq<(Seq<char>, int)>) -> bool {
    &&& forall|i: int| 0 <= i < list.len() ==> is_placeholder((#[trigger] list[i]).0)
    &&& forall|i: int, j: int|
        0 <= i < j < list.len() ==> (#[trigger] list[i]).0 != (#[trigger] list[j]).0
}

/// Each placeholder of a list is filled with its own number.
pub proof fn lemma_filled(list: Seq<(Seq<char>, int)>, k: int)
    requires
        are_placeholders(list),
        0 <= k < list.len(),
        list[k].1 >= 0,
    ensures
        filled(list[k].0, list) == text::dec(list[k].1),
    decreases list.len(),
{
    let front = list.drop_last();
    let (s, n) = list[k];
    if k < list.len() - 1 {
        assert(are_placeholders(front)) by {
            assert forall|i: int| 0 <= i < front.len() implies is_placeholder(
                (#[trigger] front[i]).0,
            ) by {
                assert(front[i] == list[i]);
            }
            assert forall|i: int, j: int| 0 <= i < j < front.len() implies (#[trigger] front[i]).0
                != (#[trigger] front[j]).0 by {
                assert(front[i] == list[i] && front[j] == list[j]);
            }
        }
        lemma_filled(front, k);
        lemma_digits_read_back(n as nat, 10);
        lemma_nothing_to_fill(text::dec(n), list.last().0, text::dec(list.last().1));
    } else {
        lemma_kept(s, front);
        lemma_filled_one(s, s, text::dec(n));
    }
}

/// A placeholder that is not in a list stays as it is.
proof fn lemma_kept(s: Seq<char>, list: Seq<(Seq<char>, int)>)
    requires
        is_placeholder(s),
        forall|i: int|
            0 <= i < list.len() ==> is_placeholder((#[trigger] list[i]).0) && list[i].0 != s,
    ensures
        filled(s, list) == s,
    decreases list.len(),
{
    if list.len() > 0 {
        let front = list.drop_last();
        assert forall|i: int| 0 <= i < front.len() implies is_placeholder((#[trigger] front[i]).0)
            && front[i].0 != s by {
            assert(front[i] == list[i]);
        }
        lemma_kept(s, front);
        assert(list.last() == list[list.len() - 1]);
        lemma_filled_one(s, list.last().0, text::dec(list.last().1));
    }
}

} // verus!
