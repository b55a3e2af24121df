//! Bit patterns of floating point numbers, computed with integers.

use vstd::prelude::*;
use vstd::arithmetic::power2::*;

verus! {

/// How often `f` is doubled until it reaches `limit`.
pub open spec fn doublings(f: int, limit: int) -> nat
    decreases 2 * limit - f,
{
    if f <= 0 || f >= limit {
        0
    } else {
        doublings(2 * f, limit) + 1
    }
}

/// The bits of a single precision number of the given fields.
pub open spec fn single(sign: int, exponent: int, fraction: int) -> int {
    sign * 0x8000_0000 + exponent * 0x80_0000 + fraction
}

/// A single precision number with the value of the half precision number `h`.
pub open spec fn widened(h: int) -> int {
    let sign = h / 0x8000;
    let exponent = h / 0x400 % 32;
    let fraction = h % 0x400;
    if exponent == 31 {
        single(sign, 255, fraction * 0x2000)
    } else if exponent > 0 {
        single(sign, exponent + 112, fraction * 0x2000)
    } else if fraction == 0 {
        single(sign, 0, 0)
    } else {
        let n = doublings(fraction, 0x400);
        single(sign, 113 - n, (fraction * pow2(n) - 0x400) * 0x2000)
    }
}

/// The magnitude of a finite half precision number in units of `2^-149`.
pub open spec fn half_magnitude(h: int) -> int {
    let exponent = h / 0x400 % 32;
    let fraction = h % 0x400;
    if exponent == 0 {
        fraction * pow2(125)
    } else {
        (0x400 + fraction) * pow2((exponent + 124) as nat)
    }
}

/// The magnitude of a finite single precision number in units of `2^-149`.
pub open spec fn single_magnitude(s: int) -> int {
    let exponent = s / 0x80_0000 % 256;
    let fraction = s % 0x80_0000;
    if exponent == 0 {
        fraction
    } else {
        (0x80_0000 + fraction) * pow2((exponent - 1) as nat)
    }
}

/// Doubling `f` as often as told brings it to between `limit` and twice that.
proof fn lemma_doublings(f: int, limit: int)
    requires
        0 < f < 2 * limit,
    ensures
        limit <= f * pow2(doublings(f, limit)) < 2 * limit,
    decreases 2 * limit - f,
{
    lemma2_to64();
    if f >= limit {
        assert(f * pow2(0) == f) by (nonlinear_arith)
            requires
                pow2(0) == 1,
        ;
    } else {
        lemma_doublings(2 * f, limit);
        let n = doublings(2 * f, limit);
        lemma_pow2_unfold((n + 1) as nat);
        assert(f * (2 * pow2(n)) == 2 * f * pow2(n)) by (nonlinear_arith);
    }
}

/// Numbers that reach the limit after few doublings need few doublings.
proof fn lemma_doublings_bound(f: int, limit: int, n: nat)
    requires
        0 < f,
        limit <= f * pow2(n),
    ensures
        doublings(f, limit) <= n,
    decreases n,
{
    if f < limit {
        if n == 0 {
            lemma2_to64();
        } else {
            lemma_pow2_unfold(n);
            let p = pow2((n - 1) as nat) as int;
            assert(f * (2 * p) == (2 * f) * p) by (nonlinear_arith);
            lemma_doublings_bound(2 * f, limit, (n - 1) as nat);
        }
    }
}

/// Widening keeps the sign and the value of every finite number, and maps
/// infinities and other non-numbers to such.
pub proof fn lemma_widened(h: int)
    requires
        0 <= h < 0x1_0000,
    ensures
        0 <= widened(h) < 0x1_0000_0000,
        widened(h) / 0x8000_0000 == h / 0x8000,
        h / 0x400 % 32 < 31 ==> widened(h) / 0x80_0000 % 256 < 255 && single_magnitude(widened(h))
            == half_magnitude(h),
        h / 0x400 % 32 == 31 ==> widened(h) / 0x80_0000 % 256 == 255 && (widened(h) % 0x80_0000 == 0
            <==> h % 0x400 == 0),
{
    let sign = h / 0x8000;
    let exponent = h / 0x400 % 32;
    let fraction = h % 0x400;
    let w = widened(h);
    lemma2_to64();
    if exponent == 31 {
    } else if exponent > 0 {
        assert(w / 0x80_0000 % 256 == exponent + 112);
        assert(w % 0x80_0000 == fraction * 0x2000);
        let e = (exponent + 111) as nat;
        lemma_pow2_adds(13, e);
        let p = pow2(e) as int;
        assert((0x400 + fraction) * (0x2000 * p) == ((0x400 + fraction) * 0x2000) * p)
            by (nonlinear_arith);
    } else if fraction == 0 {
        assert(0 * pow2(125) == 0) by (nonlinear_arith);
    } else {
        lemma_doublings(fraction, 0x400);
        assert(fraction * 0x400 >= 0x400) by (nonlinear_arith)
            requires
                fraction >= 1,
        ;
        lemma_doublings_bound(fraction, 0x400, 10);
        let n = doublings(fraction, 0x400);
        let scaled = fraction * pow2(n);
        assert(w / 0x80_0000 % 256 == 113 - n);
        assert(w % 0x80_0000 == (scaled - 0x400) * 0x2000);
        let e = (112 - n) as nat;
        lemma_pow2_adds(n, e);
        lemma_pow2_adds(13, 112);
        let p = pow2(n) as int;
        let q = pow2(e) as int;
        assert((fraction * p * 0x2000) * q == fraction * (0x2000 * (p * q))) by (nonlinear_arith);
    }
}

/// Widens a half precision number to single precision.
pub fn f16_to_f32_bits(value: u16) -> (r: u32)
    ensures
        r == widened(value as int),
{
    proof {
        lemma_widened(value as int);
        lemma2_to64();
    }
    let sign: u32 = (value / 0x8000) as u32;
    let exponent: u32 = (value / 0x400 % 32) as u32;
    let fraction: u32 = (value % 0x400) as u32;
    if exponent == 31 {
        return sign * 0x8000_0000 + 255 * 0x80_0000 + fraction * 0x2000;
    }
    if exponent > 0 {
        return sign * 0x8000_0000 + (exponent + 112) * 0x80_0000 + fraction * 0x2000;
    }
    if fraction == 0 {
        return sign * 0x8000_0000;
    }
    let mut scaled: u32 = fraction;
    let mut n: u32 = 0;
    proof {
        assert(fraction * 0x400 >= 0x400) by (nonlinear_arith)
            requires
                fraction >= 1,
        ;
        lemma_doublings_bound(fraction as int, 0x400, 10);
        assert(fraction * pow2(0) == fraction) by (nonlinear_arith)
            requires
                pow2(0) == 1,
        ;
    }
    while scaled < 0x400
        invariant
            0 < scaled < 0x800,
            scaled == fraction * pow2(n as nat),
            doublings(scaled as int, 0x400) + n == doublings(fraction as int, 0x400),
            doublings(fraction as int, 0x400) <= 10,
        decreases 0x800 - scaled,
    {
        proof {
            lemma_pow2_unfold((n + 1) as nat);
            let p = pow2(n as nat) as int;
            assert(fraction * (2 * p) == 2 * (fraction * p)) by (nonlinear_arith);
        }
        scaled = scaled * 2;
        n = n + 1;
    }
    sign * 0x8000_0000 + (113 - n) * 0x80_0000 + (scaled - 0x400) * 0x2000
}

/// The integer nearest to `a / b`.
pub open spec fn nearest(a: int, b: int) -> int {
    (2 * a + b) / (2 * b)
}

/// The reciprocal of `significand * 2^(exponent - 150)`, where the significand
/// has its leading bit at position 23. No quotient lies half way between two
/// numbers, so the nearest number is the only rounding.
pub open spec fn reciprocal_of(sign: int, exponent: int, significand: int) -> int {
    let lead = if significand == 0x80_0000 {
        254 - exponent
    } else {
        253 - exponent
    };
    if lead >= 255 {
        single(sign, 255, 0)
    } else if lead > 0 {
        if significand == 0x80_0000 {
            single(sign, lead, 0)
        } else {
            single(sign, lead, nearest(0x8000_0000_0000, significand) - 0x80_0000)
        }
    } else if exponent == 253 {
        single(sign, 0, nearest(0x4000_0000_0000, significand))
    } else {
        single(sign, 0, nearest(0x2000_0000_0000, significand))
    }
}

/// The reciprocal of the single precision number `s`. Non-numbers stay, quieted.
pub open spec fn reciprocal(s: int) -> int {
    let sign = s / 0x8000_0000;
    let exponent = s / 0x80_0000 % 256;
    let fraction = s % 0x80_0000;
    if exponent == 255 && fraction != 0 {
        if fraction < 0x40_0000 {
            s + 0x40_0000
        } else {
            s
        }
    } else if exponent == 255 {
        single(sign, 0, 0)
    } else if exponent > 0 {
        reciprocal_of(sign, exponent, 0x80_0000 + fraction)
    } else if fraction == 0 {
        single(sign, 255, 0)
    } else {
        let n = doublings(fraction, 0x80_0000);
        reciprocal_of(sign, 1 - n, fraction * pow2(n))
    }
}

/// How far the product of the magnitudes of two finite numbers is from one, in units
/// of `2^-298`.
pub open spec fn product_error(s: int, t: int) -> int {
    let d = single_magnitude(s) * single_magnitude(t) - pow2(298);
    if d < 0 {
        -d
    } else {
        d
    }
}

/// How far `x * b` is from `a`.
spec fn miss(x: int, b: int, a: int) -> int {
    if x * b < a {
        a - x * b
    } else {
        x * b - a
    }
}

/// An odd number that divides a power of two is one.
proof fn lemma_odd_divisor(b: int, q: int, n: nat)
    requires
        b * (2 * q + 1) == pow2(n),
        b > 0,
    ensures
        q == 0,
    decreases n,
{
    if n == 0 {
        lemma2_to64();
        assert(q == 0) by (nonlinear_arith)
            requires
                b * (2 * q + 1) == 1,
                b > 0,
        ;
    } else {
        lemma_pow2_unfold(n);
        let p = pow2((n - 1) as nat) as int;
        assert(b == 2 * (p - b * q)) by (nonlinear_arith)
            requires
                b * (2 * q + 1) == 2 * p,
        ;
        let half = p - b * q;
        assert(half * (2 * q + 1) == p) by (nonlinear_arith)
            requires
                b == 2 * half,
                b * (2 * q + 1) == 2 * p,
        ;
        lemma_odd_divisor(half, q, (n - 1) as nat);
    }
}

/// The nearest integer to a quotient misses by less than any other one, where the
/// dividend is a power of two and the quotient is not half way to the next integer.
proof fn lemma_nearest(k: nat, b: int, j: int)
    requires
        0 < b < pow2(k),
    ensures
        j != nearest(pow2(k) as int, b) ==> miss(nearest(pow2(k) as int, b), b, pow2(k) as int)
            < miss(j, b, pow2(k) as int),
{
    let a = pow2(k) as int;
    let q = nearest(a, b);
    let rest = (2 * a + b) % (2 * b);
    assert(2 * a + b == q * (2 * b) + rest && 0 <= rest < 2 * b) by {
        vstd::arithmetic::div_mod::lemma_fundamental_div_mod(2 * a + b, 2 * b);
        vstd::arithmetic::div_mod::lemma_mod_bound(2 * a + b, 2 * b);
        vstd::arithmetic::mul::lemma_mul_is_commutative(2 * b, q);
    }
    assert(q * (2 * b) == 2 * (q * b)) by (nonlinear_arith);
    assert(q >= 1) by (nonlinear_arith)
        requires
            2 * a + b == q * (2 * b) + rest,
            rest < 2 * b,
            0 < b < a,
    ;
    // The quotient is not half way between two integers.
    if rest == 0 {
        lemma_pow2_unfold((k + 1) as nat);
        assert(b * (2 * (q - 1) + 1) == 2 * a) by (nonlinear_arith)
            requires
                2 * a + b == 2 * (q * b),
        ;
        lemma_odd_divisor(b, q - 1, (k + 1) as nat);
        assert(false) by (nonlinear_arith)
            requires
                q == 1,
                2 * a + b == 2 * (q * b),
                0 < b < a,
        ;
    }
    if j > q {
        assert(j * b >= q * b + b) by (nonlinear_arith)
            requires
                j >= q + 1,
                b > 0,
        ;
    }
    if j < q {
        assert(j * b <= q * b - b) by (nonlinear_arith)
            requires
                j <= q - 1,
                b > 0,
        ;
    }
}

/// A number whose exponent is at least `lead` is a multiple of the spacing there, and
/// any other number lies below all of those.
proof fn lemma_spacing(t: int, lead: int) -> (j: int)
    requires
        t >= 0,
        t / 0x80_0000 % 256 < 255,
        1 <= lead <= 254,
    ensures
        single_magnitude(t) == j * pow2((lead - 1) as nat) || single_magnitude(t) < 0x80_0000
            * pow2((lead - 1) as nat),
        single_magnitude(t) >= 0,
{
    let e = t / 0x80_0000 % 256;
    let f = t % 0x80_0000;
    let u = pow2((lead - 1) as nat) as int;
    lemma_pow2_pos((lead - 1) as nat);
    if e == 0 {
        assert(0x80_0000 * u >= 0x80_0000) by (nonlinear_arith)
            requires
                u >= 1,
        ;
        0
    } else {
        let m = 0x80_0000 + f;
        let v = pow2((e - 1) as nat) as int;
        lemma_pow2_pos((e - 1) as nat);
        assert(m * v >= 0) by (nonlinear_arith)
            requires
                m >= 0,
                v >= 0,
        ;
        if e >= lead {
            let w = pow2((e - lead) as nat) as int;
            lemma_pow2_adds((e - lead) as nat, (lead - 1) as nat);
            assert(m * (w * u) == (m * w) * u) by (nonlinear_arith);
            m * w
        } else {
            lemma_pow2_unfold(e as nat);
            if e < lead - 1 {
                lemma_pow2_strictly_increases(e as nat, (lead - 1) as nat);
            }
            assert(m * v < 0x80_0000 * u) by (nonlinear_arith)
                requires
                    m < 2 * 0x80_0000,
                    2 * v <= u,
                    v >= 1,
            ;
            0
        }
    }
}

/// The law of the reciprocal for a significand, with `2^(299 - exponent)` in the place of
/// one.
proof fn lemma_reciprocal_of(sign: int, exponent: int, significand: int, t: int)
    requires
        0 <= sign <= 1,
        -22 <= exponent <= 254,
        0x80_0000 <= significand < 0x100_0000,
        t >= 0,
        t / 0x80_0000 % 256 < 255,
    ensures
        ({
            let r = reciprocal_of(sign, exponent, significand);
            let one = pow2((299 - exponent) as nat) as int;
            &&& 0 <= r < 0x1_0000_0000
            &&& r / 0x8000_0000 == sign
            &&& r / 0x80_0000 % 256 == 255 ==> r % 0x80_0000 == 0
            &&& r / 0x80_0000 % 256 == 255 <==> significand * (0x1ff_ffff * pow2(252)) <= one
            &&& r / 0x80_0000 % 256 < 255 && single_magnitude(t) != single_magnitude(r) ==> miss(
                single_magnitude(r),
                significand,
                one,
            ) < miss(single_magnitude(t), significand, one)
        }),
{
    let r = reciprocal_of(sign, exponent, significand);
    let b = significand;
    let one = pow2((299 - exponent) as nat) as int;
    let exact = b == 0x80_0000;
    let lead = if exact {
        254 - exponent
    } else {
        253 - exponent
    };
    let big = single_magnitude(t);
    lemma2_to64();
    lemma_pow2_adds(23, 24);
    lemma_pow2_adds(22, 24);
    lemma_pow2_adds(22, 23);
    lemma_overflow(exponent, b);
    if lead >= 255 {
        assert(r / 0x80_0000 % 256 == 255);
    } else if lead > 0 {
        let u = pow2((lead - 1) as nat) as int;
        let j = lemma_spacing(t, lead);
        lemma_pow2_pos((lead - 1) as nat);
        if exact {
            assert(r / 0x80_0000 % 256 == lead && r % 0x80_0000 == 0);
            lemma_pow2_adds(46, (lead - 1) as nat);
            assert(one == 0x4000_0000_0000 * u);
            assert((0x80_0000 * u) * b == one) by (nonlinear_arith)
                requires
                    one == 0x4000_0000_0000 * u,
                    b == 0x80_0000,
            ;
            if big != 0x80_0000 * u {
                assert(big * b != one) by (nonlinear_arith)
                    requires
                        big != 0x80_0000 * u,
                        (0x80_0000 * u) * b == one,
                        b > 0,
                ;
            }
        } else {
            let a = 0x8000_0000_0000;
            let q = nearest(a, b);
            assert(0x80_0000 <= q < 0x100_0000) by (nonlinear_arith)
                requires
                    q == (2 * 0x8000_0000_0000int + b) / (2 * b),
                    0x80_0000 < b < 0x100_0000,
            ;
            assert(r / 0x80_0000 % 256 == lead && r % 0x80_0000 == q - 0x80_0000);
            assert(single_magnitude(r) == q * u);
            lemma_pow2_adds(47, (lead - 1) as nat);
            assert(one == a * u);
            lemma_scaled_miss(q, b, a, u);
            lemma_scaled_miss(0x80_0000, b, a, u);
            lemma_nearest(47, b, 0x80_0000);
            if big < 0x80_0000 * u {
                assert(big * b < (0x80_0000 * u) * b) by (nonlinear_arith)
                    requires
                        big < 0x80_0000 * u,
                        b > 0,
                ;
                assert((0x80_0000 * u) * b < one) by (nonlinear_arith)
                    requires
                        one == 0x8000_0000_0000 * u,
                        0 < b < 0x100_0000,
                        u > 0,
                ;
                if q != 0x80_0000 {
                    assert(miss(q, b, a) * u <= miss(0x80_0000, b, a) * u) by (nonlinear_arith)
                        requires
                            miss(q, b, a) < miss(0x80_0000, b, a),
                            u > 0,
                    ;
                }
            } else {
                lemma_scaled_miss(j, b, a, u);
                lemma_nearest(47, b, j);
                if j != q {
                    assert(miss(q, b, a) * u < miss(j, b, a) * u) by (nonlinear_arith)
                        requires
                            miss(q, b, a) < miss(j, b, a),
                            u > 0,
                    ;
                }
            }
        }
    } else if exponent == 253 {
        let q = nearest(0x4000_0000_0000, b);
        assert(0 <= q < 0x80_0000) by (nonlinear_arith)
            requires
                q == (2 * 0x4000_0000_0000int + b) / (2 * b),
                0x80_0000 < b < 0x100_0000,
        ;
        assert(r / 0x80_0000 % 256 == 0 && r % 0x80_0000 == q);
        lemma_nearest(46, b, big);
    } else {
        let q = nearest(0x2000_0000_0000, b);
        assert(0 <= q < 0x80_0000) by (nonlinear_arith)
            requires
                q == (2 * 0x2000_0000_0000int + b) / (2 * b),
                0x80_0000 <= b < 0x100_0000,
        ;
        assert(r / 0x80_0000 % 256 == 0 && r % 0x80_0000 == q);
        lemma_nearest(45, b, big);
    }
}

proof fn lemma_scaled_miss(x: int, b: int, a: int, u: int)
    requires
        u > 0,
    ensures
        miss(x * u, b, a * u) == miss(x, b, a) * u,
{
    assert((x * u) * b == (x * b) * u) by (nonlinear_arith);
    assert(x * b < a ==> (x * b) * u < a * u) by (nonlinear_arith)
        requires
            u > 0,
    ;
    assert(x * b >= a ==> (x * b) * u >= a * u) by (nonlinear_arith)
        requires
            u > 0,
    ;
    assert((a - x * b) * u == a * u - (x * b) * u) by (nonlinear_arith);
    assert((x * b - a) * u == (x * b) * u - a * u) by (nonlinear_arith);
}

/// When the reciprocal is beyond all numbers.
proof fn lemma_overflow(exponent: int, b: int)
    requires
        -22 <= exponent <= 254,
        0x80_0000 <= b < 0x100_0000,
    ensures
        ({
            let lead = if b == 0x80_0000 {
                254 - exponent
            } else {
                253 - exponent
            };
            lead >= 255 <==> b * (0x1ff_ffff * pow2(252)) <= pow2((299 - exponent) as nat)
        }),
{
    let one = pow2((299 - exponent) as nat) as int;
    let c = pow2(252) as int;
    lemma2_to64();
    lemma_pow2_pos(252);
    lemma_pow2_adds(23, 24);
    lemma_pow2_adds(24, 24);
    lemma_pow2_adds(24, 25);
    lemma_pow2_adds(47, 252);
    lemma_pow2_adds(48, 252);
    lemma_pow2_adds(49, 252);
    assert(pow2(299) == 0x8000_0000_0000 * c);
    assert(pow2(300) == 0x1_0000_0000_0000 * c);
    assert(pow2(301) == 0x2_0000_0000_0000 * c);
    if 299 - exponent > 301 {
        lemma_pow2_strictly_increases(301, (299 - exponent) as nat);
    }
    if 299 - exponent < 299 {
        lemma_pow2_strictly_increases((299 - exponent) as nat, 299);
    }
    assert(b * (0x1ff_ffff * c) == (b * 0x1ff_ffff) * c) by (nonlinear_arith);
    assert((b * 0x1ff_ffff) * c < 0x2_0000_0000_0000 * c) by (nonlinear_arith)
        requires
            b < 0x100_0000,
            c > 0,
    ;
    if b == 0x80_0000 {
        assert((b * 0x1ff_ffff) * c <= 0x1_0000_0000_0000 * c) by (nonlinear_arith)
            requires
                b == 0x80_0000,
                c > 0,
        ;
        assert((b * 0x1ff_ffff) * c > 0x8000_0000_0000 * c) by (nonlinear_arith)
            requires
                b == 0x80_0000,
                c > 0,
        ;
    } else {
        assert((b * 0x1ff_ffff) * c > 0x1_0000_0000_0000 * c) by (nonlinear_arith)
            requires
                b >= 0x80_0001,
                c > 0,
        ;
    }
}

/// The reciprocal of a finite number other than zero has its sign. It is infinite
/// exactly if the true quotient is as near to the power of two behind the largest number
/// as to that number, or nearer; else it is the number that is nearest to the quotient, and
/// there is no other one as near.
pub proof fn lemma_reciprocal(s: int, t: int)
    requires
        0 <= s < 0x1_0000_0000,
        s / 0x80_0000 % 256 < 255,
        single_magnitude(s) > 0,
        0 <= t < 0x1_0000_0000,
        t / 0x80_0000 % 256 < 255,
    ensures
        0 <= reciprocal(s) < 0x1_0000_0000,
        reciprocal(s) / 0x8000_0000 == s / 0x8000_0000,
        reciprocal(s) / 0x80_0000 % 256 == 255 ==> reciprocal(s) % 0x80_0000 == 0,
        reciprocal(s) / 0x80_0000 % 256 == 255 <==> single_magnitude(s) * (0x1ff_ffff * pow2(252))
            <= pow2(298),
        reciprocal(s) / 0x80_0000 % 256 < 255 && single_magnitude(t) != single_magnitude(
            reciprocal(s),
        ) ==> product_error(s, reciprocal(s)) < product_error(s, t),
{
    let sign = s / 0x8000_0000;
    let exponent = s / 0x80_0000 % 256;
    let fraction = s % 0x80_0000;
    let m = single_magnitude(s);
    let r = reciprocal(s);
    lemma2_to64();
    // `m * 2^n` is the significand times `2^x`.
    let (n, x, b): (nat, nat, int) = if exponent > 0 {
        (0, (exponent - 1) as nat, 0x80_0000 + fraction)
    } else {
        (doublings(fraction, 0x80_0000), 0, fraction * pow2(doublings(fraction, 0x80_0000)))
    };
    if exponent == 0 {
        lemma_doublings(fraction, 0x80_0000);
        assert(fraction * 0x80_0000 >= 0x80_0000) by (nonlinear_arith)
            requires
                fraction >= 1,
        ;
        lemma_doublings_bound(fraction, 0x80_0000, 23);
    }
    let p = pow2(n) as int;
    let w = pow2(x) as int;
    lemma_pow2_pos(n);
    lemma_pow2_pos(x);
    assert(m * p == b * w) by (nonlinear_arith)
        requires
            exponent > 0 ==> p == 1 && m == b * w,
            exponent == 0 ==> w == 1 && b == m * p,
            exponent >= 0,
    ;
    let e = x + 1 - n;
    let one = pow2((299 - e) as nat) as int;
    lemma_pow2_adds(298, n);
    lemma_pow2_adds((299 - e) as nat, x);
    let unit = pow2(298) as int;
    assert(unit * p == one * w);
    lemma_reciprocal_of(sign, e, b, t);
    let limit = 0x1ff_ffff * pow2(252);
    assert(m * limit <= unit <==> b * limit <= one) by (nonlinear_arith)
        requires
            m * p == b * w,
            unit * p == one * w,
            p > 0,
            w > 0,
    ;
    if r / 0x80_0000 % 256 < 255 {
        lemma_error_scaled(m, single_magnitude(r), unit, p, b, one, w);
        lemma_error_scaled(m, single_magnitude(t), unit, p, b, one, w);
        let near = product_error(s, r);
        let far = product_error(s, t);
        let a0 = miss(single_magnitude(r), b, one);
        let a1 = miss(single_magnitude(t), b, one);
        if single_magnitude(t) != single_magnitude(r) {
            assert(near < far) by (nonlinear_arith)
                requires
                    near * p == a0 * w,
                    far * p == a1 * w,
                    a0 < a1,
                    p > 0,
                    w > 0,
            ;
        }
    }
}

/// The error of a product, scaled in two ways.
proof fn lemma_error_scaled(m: int, y: int, unit: int, p: int, b: int, one: int, w: int)
    requires
        m * p == b * w,
        unit * p == one * w,
        p > 0,
        w > 0,
    ensures
        miss(m, y, unit) * p == miss(y, b, one) * w,
{
    assert((m * y) * p == (y * b) * w) by (nonlinear_arith)
        requires
            m * p == b * w,
    ;
    let f = m * y;
    let g = y * b;
    assert(f < unit <==> g < one) by (nonlinear_arith)
        requires
            f * p == g * w,
            unit * p == one * w,
            p > 0,
            w > 0,
    ;
    assert((unit - f) * p == unit * p - f * p) by (nonlinear_arith);
    assert((one - g) * w == one * w - g * w) by (nonlinear_arith);
    assert((f - unit) * p == f * p - unit * p) by (nonlinear_arith);
    assert((g - one) * w == g * w - one * w) by (nonlinear_arith);
}

fn nearest_quotient(a: u64, b: u64) -> (r: u64)
    requires
        0x80_0000 <= b < 0x100_0000,
        a <= 0x8000_0000_0000,
    ensures
        r == nearest(a as int, b as int),
{
    (2 * a + b) / (2 * b)
}

fn reciprocal_parts(sign: u32, exponent: i32, significand: u32) -> (r: u32)
    requires
        sign <= 1,
        -30 <= exponent <= 254,
        0x80_0000 <= significand < 0x100_0000,
    ensures
        r == reciprocal_of(sign as int, exponent as int, significand as int),
{
    let exact: bool = significand == 0x80_0000;
    let lead: i32 = if exact {
        254 - exponent
    } else {
        253 - exponent
    };
    let base: u32 = sign * 0x8000_0000;
    if lead >= 255 {
        return base + 255 * 0x80_0000;
    }
    if lead > 0 {
        if exact {
            return base + (lead as u32) * 0x80_0000;
        }
        let q: u64 = nearest_quotient(0x8000_0000_0000, significand as u64);
        assert(0x80_0000 <= q < 0x100_0000) by (nonlinear_arith)
            requires
                q == (2 * 0x8000_0000_0000int + significand) / (2 * significand as int),
                0x80_0000 < significand < 0x100_0000,
        ;
        return base + (lead as u32) * 0x80_0000 + (q - 0x80_0000) as u32;
    }
    if exponent == 253 {
        let q: u64 = nearest_quotient(0x4000_0000_0000, significand as u64);
        assert(0 <= q < 0x80_0000) by (nonlinear_arith)
            requires
                q == (2 * 0x4000_0000_0000int + significand) / (2 * significand as int),
                0x80_0000 < significand < 0x100_0000,
        ;
        return base + q as u32;
    }
    let q: u64 = nearest_quotient(0x2000_0000_0000, significand as u64);
    assert(0 <= q < 0x80_0000) by (nonlinear_arith)
        requires
            q == (2 * 0x2000_0000_0000int + significand) / (2 * significand as int),
            0x80_0000 <= significand < 0x100_0000,
    ;
    base + q as u32
}

/// The bits of the reciprocal of a single precision number.
pub fn reciprocal_bits(bits: u32) -> (r: u32)
    ensures
        r == reciprocal(bits as int),
{
    let sign: u32 = bits / 0x8000_0000;
    let exponent: u32 = bits / 0x80_0000 % 256;
    let fraction: u32 = bits % 0x80_0000;
    if exponent == 255 {
        if fraction == 0 {
            return sign * 0x8000_0000;
        }
        if fraction < 0x40_0000 {
            return bits + 0x40_0000;
        }
        return bits;
    }
    if exponent > 0 {
        return reciprocal_parts(sign, exponent as i32, 0x80_0000 + fraction);
    }
    if fraction == 0 {
        return sign * 0x8000_0000 + 255 * 0x80_0000;
    }
    let mut scaled: u32 = fraction;
    let mut n: i32 = 0;
    proof {
        lemma2_to64();
        assert(fraction * 0x80_0000 >= 0x80_0000) by (nonlinear_arith)
            requires
                fraction >= 1,
        ;
        lemma_doublings_bound(fraction as int, 0x80_0000, 23);
        assert(fraction * pow2(0) == fraction) by (nonlinear_arith)
            requires
                pow2(0) == 1,
        ;
    }
    while scaled < 0x80_0000
        invariant
            0 < scaled < 0x100_0000,
            0 <= n,
            scaled == fraction * pow2(n as nat),
            doublings(scaled as int, 0x80_0000) + n == doublings(fraction as int, 0x80_0000),
            doublings(fraction as int, 0x80_0000) <= 23,
        decreases 0x100_0000 - scaled,
    {
        proof {
            lemma_pow2_unfold((n + 1) as nat);
            let p = pow2(n as nat) as int;
            assert(fraction * (2 * p) == 2 * (fraction * p)) by (nonlinear_arith);
        }
        scaled = scaled * 2;
        n = n + 1;
    }
    reciprocal_parts(sign, 1 - n, scaled)
}

} // verus!
