//! Rounding, products and checked arithmetic.

use vstd::prelude::*;
use vstd::arithmetic::div_mod::*;
use vstd::arithmetic::mul::*;

verus! {

/// `a / b` rounded up.
pub open spec fn ceil_div(a: int, b: int) -> int {
    (a + b - 1) / b
}

/// The smallest multiple of `b` that is at least `a`.
pub open spec fn round_up(a: int, b: int) -> int {
    ceil_div(a, b) * b
}

/// `ceil_div` is `a / b`, plus one where there is a remainder.
pub proof fn lemma_ceil_div(a: int, b: int)
    requires
        a >= 0,
        b > 0,
    ensures
        ceil_div(a, b) == a / b + (if a % b == 0 {
            0int
        } else {
            1int
        }),
        0 <= ceil_div(a, b) <= a,
        a > 0 ==> ceil_div(a, b) > 0,
{
    lemma_fundamental_div_mod(a, b);
    let q = a / b;
    let r = a % b;
    assert(0 <= r < b);
    assert(a + b - 1 == q * b + (r + b - 1)) by (nonlinear_arith)
        requires
            a == b * q + r,
    ;
    if r == 0 {
        lemma_fundamental_div_mod_converse(a + b - 1, b, q, b - 1);
    } else {
        assert(a + b - 1 == (q + 1) * b + (r - 1)) by (nonlinear_arith)
            requires
                a + b - 1 == q * b + (r + b - 1),
        ;
        lemma_fundamental_div_mod_converse(a + b - 1, b, q + 1, r - 1);
    }
    assert(q >= 0 && q + (if r == 0 {
        0int
    } else {
        1int
    }) <= a) by (nonlinear_arith)
        requires
            a == b * q + r,
            a >= 0,
            b > 0,
            0 <= r < b,
    ;
    if a > 0 && r == 0 {
        assert(q > 0) by (nonlinear_arith)
            requires
                a == b * q + r,
                a > 0,
                b > 0,
                r == 0,
        ;
    }
}

/// Rounding up gives the least multiple that is not smaller.
pub proof fn lemma_round_up(a: int, b: int)
    requires
        a >= 0,
        b > 0,
    ensures
        a <= round_up(a, b) < a + b,
        round_up(a, b) % b == 0,
        a % b == 0 ==> round_up(a, b) == a,
        forall|m: int| m >= a && #[trigger] (m % b) == 0 ==> m >= round_up(a, b),
{
    lemma_ceil_div(a, b);
    lemma_fundamental_div_mod(a, b);
    let c = ceil_div(a, b);
    let q = a / b;
    let r = a % b;
    if r == 0 {
        assert(c * b == a) by (nonlinear_arith)
            requires
                a == b * q + r,
                r == 0,
                c == q,
        ;
    } else {
        assert(a <= c * b < a + b) by (nonlinear_arith)
            requires
                a == b * q + r,
                c == q + 1,
                0 < r < b,
        ;
    }
    lemma_mod_multiples_basic(c, b);
    assert forall|m: int| m >= a && #[trigger] (m % b) == 0 implies m >= round_up(a, b) by {
        lemma_fundamental_div_mod(m, b);
        let k = m / b;
        assert(m >= c * b) by (nonlinear_arith)
            requires
                m == b * k + 0,
                m >= a,
                c * b < a + b,
                b > 0,
        ;
    }
}

/// Integer division rounding up.
pub fn div_ceil(a: usize, b: usize) -> (r: usize)
    requires
        b > 0,
    ensures
        r == ceil_div(a as int, b as int),
{
    proof {
        lemma_ceil_div(a as int, b as int);
    }
    if a % b == 0 {
        a / b
    } else {
        a / b + 1
    }
}

/// Integer division rounding up, on 64-bit words.
pub fn div_ceil_u64(a: u64, b: u64) -> (r: u64)
    requires
        b > 0,
    ensures
        r == ceil_div(a as int, b as int),
{
    proof {
        lemma_ceil_div(a as int, b as int);
    }
    if a % b == 0 {
        a / b
    } else {
        a / b + 1
    }
}

/// Rounds up to a multiple of `align`, if that is still a machine word.
pub fn checked_round_up(value: usize, align: usize) -> (r: Option<usize>)
    requires
        align > 0,
    ensures
        match r {
            Some(v) => v == round_up(value as int, align as int),
            None => round_up(value as int, align as int) > usize::MAX,
        },
{
    div_ceil(value, align).checked_mul(align)
}

/// The product of the elements of `s`.
pub open spec fn product(s: Seq<int>) -> int
    decreases s.len(),
{
    if s.len() == 0 {
        1
    } else {
        product(s.drop_last()) * s.last()
    }
}

/// `init * s[0] * ... * s[n - 1]`, or `None` where a partial product leaves the
/// range of a machine word.
pub open spec fn checked_product(init: int, s: Seq<int>) -> Option<int>
    decreases s.len(),
{
    if s.len() == 0 {
        Some(init)
    } else {
        match checked_product(init, s.drop_last()) {
            Some(p) => if p * s.last() <= usize::MAX {
                Some(p * s.last())
            } else {
                None
            },
            None => None,
        }
    }
}

/// A checked product that exists is the product.
pub proof fn lemma_checked_product(init: int, s: Seq<int>)
    requires
        checked_product(init, s) is Some,
    ensures
        checked_product(init, s) == Some(init * product(s)),
    decreases s.len(),
{
    if s.len() > 0 {
        lemma_checked_product(init, s.drop_last());
        assert(init * product(s.drop_last()) * s.last() == init * (product(s.drop_last())
            * s.last())) by {
            lemma_mul_is_associative(init, product(s.drop_last()), s.last());
        }
    }
}

/// The integers of a sequence of machine words.
pub open spec fn ints(v: Seq<usize>) -> Seq<int> {
    v.map_values(|x: usize| x as int)
}

/// Once a partial product has left the range, so has the whole product.
pub proof fn lemma_checked_product_prefix(init: int, s: Seq<int>, i: int)
    requires
        0 <= i <= s.len(),
        checked_product(init, s.take(i)) is None,
    ensures
        checked_product(init, s) is None,
    decreases s.len() - i,
{
    if i < s.len() {
        assert(s.take(i + 1).drop_last() =~= s.take(i));
        lemma_checked_product_prefix(init, s, i + 1);
    } else {
        assert(s.take(i) =~= s);
    }
}

/// Multiplies `init` by the first `n` elements of `dims`, watching for overflow.
pub fn checked_mul_all(init: usize, dims: &[usize], n: usize) -> (r: Option<usize>)
    requires
        n <= dims@.len(),
    ensures
        match r {
            Some(p) => checked_product(init as int, ints(dims@.take(n as int))) == Some(p as int),
            None => checked_product(init as int, ints(dims@.take(n as int))) is None,
        },
{
    let mut acc: usize = init;
    let ghost all = ints(dims@.take(n as int));
    for i in 0..n
        invariant
            n <= dims@.len(),
            all == ints(dims@.take(n as int)),
            checked_product(init as int, all.take(i as int)) == Some(acc as int),
    {
        assert(all.take(i + 1).drop_last() =~= all.take(i as int));
        assert(all.take(i + 1).last() == dims@[i as int]);
        match acc.checked_mul(dims[i]) {
            Some(p) => {
                acc = p;
            },
            None => {
                proof {
                    lemma_checked_product_prefix(init as int, all, i + 1);
                }
                return None;
            },
        }
    }
    assert(all.take(n as int) =~= all);
    Some(acc)
}

/// The larger of two numbers.
pub open spec fn max2(a: int, b: int) -> int {
    if a >= b {
        a
    } else {
        b
    }
}

/// The smaller of two numbers.
pub open spec fn min2(a: int, b: int) -> int {
    if a <= b {
        a
    } else {
        b
    }
}

pub fn max_usize(a: usize, b: usize) -> (r: usize)
    ensures
        r == max2(a as int, b as int),
{
    if a >= b {
        a
    } else {
        b
    }
}

pub fn min_usize(a: usize, b: usize) -> (r: usize)
    ensures
        r == min2(a as int, b as int),
{
    if a <= b {
        a
    } else {
        b
    }
}

/// Multiplication that stops at the largest word.
pub fn saturating_mul_usize(a: usize, b: usize) -> (r: usize)
    ensures
        r == min2(a * b, usize::MAX as int),
{
    match a.checked_mul(b) {
        Some(p) => p,
        None => usize::MAX,
    }
}

/// Multiplication that stops at the largest 64-bit word.
pub fn saturating_mul_u64(a: u64, b: u64) -> (r: u64)
    ensures
        r == min2(a * b, u64::MAX as int),
{
    match a.checked_mul(b) {
        Some(p) => p,
        None => u64::MAX,
    }
}

/// Whether `o` is the number `n`, or nothing because `n` is no machine word.
pub open spec fn counts(o: Option<usize>, n: int) -> bool {
    match o {
        Some(v) => v == n,
        None => n > usize::MAX,
    }
}

/// The sum of two numbers, where it is a machine word.
pub fn sum_word(
    a: Option<usize>,
    b: Option<usize>,
    Ghost(m): Ghost<int>,
    Ghost(n): Ghost<int>,
) -> (r: Option<usize>)
    requires
        0 <= m,
        0 <= n,
        counts(a, m),
        counts(b, n),
    ensures
        counts(r, m + n),
{
    match (a, b) {
        (Some(x), Some(y)) => x.checked_add(y),
        _ => None,
    }
}

/// The product of two numbers, where it is a machine word.
pub fn product_word(
    a: Option<usize>,
    b: Option<usize>,
    Ghost(m): Ghost<int>,
    Ghost(n): Ghost<int>,
) -> (r: Option<usize>)
    requires
        0 <= m,
        0 <= n,
        counts(a, m),
        counts(b, n),
    ensures
        counts(r, m * n),
        m * n >= 0,
{
    assert(m * n >= 0 && (m == 0 || n == 0 ==> m * n == 0) && (m > usize::MAX && n >= 1 ==> m * n
        > usize::MAX) && (n > usize::MAX && m >= 1 ==> m * n > usize::MAX)) by (nonlinear_arith)
        requires
            0 <= m,
            0 <= n,
    ;
    match (a, b) {
        (Some(x), Some(y)) => x.checked_mul(y),
        (Some(x), None) => if x == 0 {
            Some(0)
        } else {
            None
        },
        (None, Some(y)) => if y == 0 {
            Some(0)
        } else {
            None
        },
        (None, None) => None,
    }
}

/// Copies a slice of machine words.
pub fn copy_usizes(v: &[usize]) -> (r: Vec<usize>)
    ensures
        r@ == v@,
{
    let mut out: Vec<usize> = Vec::new();
    for i in 0..v.len()
        invariant
            out@ == v@.take(i as int),
    {
        out.push(v[i]);
        assert(v@.take(i + 1) =~= v@.take(i as int).push(v@[i as int]));
    }
    assert(v@.take(v@.len() as int) =~= v@);
    out
}

/// Whether two slices hold the same words.
pub fn same_usizes(a: &[usize], b: &[usize]) -> (r: bool)
    ensures
        r == (a@ == b@),
{
    if a.len() != b.len() {
        return false;
    }
    for i in 0..a.len()
        invariant
            a@.len() == b@.len(),
            forall|j: int| 0 <= j < i ==> a@[j] == b@[j],
    {
        if a[i] != b[i] {
            return false;
        }
    }
    assert(a@ =~= b@);
    true
}

/// Whether `v` holds `x`.
pub fn contains_usize(v: &[usize], x: usize) -> (r: bool)
    ensures
        r == v@.contains(x),
{
    for i in 0..v.len()
        invariant
            forall|j: int| 0 <= j < i ==> v@[j] != x,
    {
        if v[i] == x {
            assert(v@[i as int] == x);
            return true;
        }
    }
    false
}

} // verus!
