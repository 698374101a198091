//! How far apart two binary64 numbers are.
//!
//! A number is a whole number of the smallest steps that there are, so the exact difference
//! of two numbers is a difference of whole numbers, and the rounded one follows from it.
use vstd::arithmetic::power2::{
    lemma2_to64, lemma2_to64_rest, lemma_pow2_adds, lemma_pow2_pos, lemma_pow2_strictly_increases,
    lemma_pow2_unfold, pow2,
};
use vstd::prelude::*;

use crate::binary64::{Real, SIGN};

verus! {

/// The number of fractions between a power of two and the next.
pub const FRACTIONS: u64 = 0x10_0000_0000_0000;

/// How many steps of 2^-1074 a magnitude stands for. An infinity stands for what would come
/// after the largest number.
pub open spec fn size(magnitude: int) -> int {
    if magnitude < FRACTIONS {
        magnitude
    } else {
        (FRACTIONS + magnitude % FRACTIONS as int) * pow2((magnitude / FRACTIONS as int - 1) as nat)
    }
}

/// The number, in steps of 2^-1074.
pub open spec fn steps(r: Real) -> int {
    if r.bits < SIGN {
        size(r.magnitude())
    } else {
        -size(r.magnitude())
    }
}

/// `high - low < span` in binary64, of finite numbers with `low` no larger than `high`: the
/// exact difference is nearer to the number before `span` than to `span`; halfway between
/// them it goes to the one whose last bit is zero.
pub open spec fn short_of(low: Real, high: Real, span: Real) -> bool {
    let twice = 2 * (steps(high) - steps(low));
    let between = steps(span) + size(span.magnitude() - 1);
    &&& !span.nan()
    &&& span.rank() > 0
    &&& twice < between || (twice == between && span.bits % 2 == 1)
}

/// The next magnitude stands for more.
proof fn lemma_size_grows_by_one(m: int)
    requires
        0 <= m < SIGN,
    ensures
        size(m) < size(m + 1),
{
    lemma2_to64();
    let f = FRACTIONS as int;
    let e = m / f;
    if m + 1 < f {
    } else if m + 1 == f {
        assert(size(m + 1) == f * pow2(0));
    } else if (m + 1) / f == e {
        let p = pow2((e - 1) as nat) as int;
        lemma_pow2_pos((e - 1) as nat);
        assert((m + 1) % f == m % f + 1);
        assert((f + m % f) * p < (f + m % f + 1) * p) by (nonlinear_arith)
            requires
                p > 0,
        ;
    } else {
        let p = pow2((e - 1) as nat) as int;
        lemma_pow2_pos((e - 1) as nat);
        lemma_pow2_unfold(e as nat);
        assert((m + 1) / f == e + 1 && (m + 1) % f == 0 && m % f == f - 1);
        assert((f + (f - 1)) * p < f * (2 * p)) by (nonlinear_arith)
            requires
                p > 0,
        ;
    }
}

proof fn lemma_size_grows(a: int, b: int)
    requires
        0 <= a <= b <= SIGN,
    ensures
        size(a) <= size(b),
        a < b ==> size(a) < size(b),
        size(a) >= 0,
    decreases b - a,
{
    if a < b {
        lemma_size_grows(a, b - 1);
        lemma_size_grows_by_one(b - 1);
    } else {
        lemma_pow2_pos((a / FRACTIONS as int - 1) as nat);
        if a >= FRACTIONS {
            let p = pow2((a / FRACTIONS as int - 1) as nat) as int;
            let k = FRACTIONS + a % FRACTIONS as int;
            assert(k * p >= 0) by (nonlinear_arith)
                requires
                    k >= 0,
                    p > 0,
            ;
        }
    }
}

/// Numbers are in the order of the steps that they stand for.
pub proof fn law_steps_follow_the_order(a: Real, b: Real)
    ensures
        a.rank() < b.rank() <==> steps(a) < steps(b),
        a.rank() == b.rank() <==> steps(a) == steps(b),
{
    let (x, y) = (a.magnitude(), b.magnitude());
    lemma_size_grows(0, x);
    lemma_size_grows(0, y);
    if x <= y {
        lemma_size_grows(x, y);
    } else {
        lemma_size_grows(y, x);
    }
}

/// What is no shorter than a span lies between two different numbers, and stays no shorter
/// where it grows.
pub proof fn law_longer_is_not_shorter(low: Real, high: Real, lower: Real, higher: Real, span: Real)
    requires
        span.rank() > 0,
        !span.nan(),
        !short_of(low, high, span),
        lower.rank() <= low.rank(),
        high.rank() <= higher.rank(),
    ensures
        low.rank() < high.rank(),
        !short_of(lower, higher, span),
{
    law_steps_follow_the_order(lower, low);
    law_steps_follow_the_order(high, higher);
    law_steps_follow_the_order(low, high);
    lemma_size_grows(0, span.magnitude() - 1);
    lemma_size_grows(span.magnitude() - 1, span.magnitude());
}

/// A whole number times a power of two.
#[derive(Clone, Copy)]
struct Scaled {
    whole: i64,
    power: u32,
}

spec fn worth(s: Scaled) -> int {
    s.whole * pow2(s.power as nat)
}

/// The whole number has no more than 56 bits.
spec fn slim(s: Scaled) -> bool {
    -0x100_0000_0000_0000 < s.whole < 0x100_0000_0000_0000
}

spec fn sign(n: int) -> int {
    if n < 0 {
        -1
    } else if n == 0 {
        0
    } else {
        1
    }
}

fn sign_of(n: i128) -> (r: i8)
    ensures
        r == sign(n as int),
{
    if n < 0 {
        -1
    } else if n == 0 {
        0
    } else {
        1
    }
}

fn power_of_two(k: u32) -> (r: i128)
    requires
        k <= 60,
    ensures
        r == pow2(k as nat),
        1 <= r <= 0x1000_0000_0000_0000,
{
    let mut r: i128 = 1;
    let mut i: u32 = 0;
    proof {
        lemma2_to64();
        lemma2_to64_rest();
    }
    while i < k
        invariant
            i <= k <= 60,
            r == pow2(i as nat),
            pow2(60) == 0x1000_0000_0000_0000,
            r >= 1,
        decreases k - i,
    {
        proof {
            lemma_pow2_unfold((i + 1) as nat);
            lemma_pow2_strictly_increases(i as nat, k as nat);
            if k < 60 {
                lemma_pow2_strictly_increases(k as nat, 60);
            }
        }
        r = r * 2;
        i += 1;
    }
    proof {
        if k < 60 {
            lemma_pow2_strictly_increases(k as nat, 60);
        }
    }
    r
}

/// A factor that is more than nothing leaves the sign alone.
proof fn lemma_sign_of_product(n: int, p: int)
    requires
        p > 0,
    ensures
        sign(n * p) == sign(n),
{
    assert(n < 0 ==> n * p < 0) by (nonlinear_arith)
        requires
            p > 0,
    ;
    assert(n > 0 ==> n * p > 0) by (nonlinear_arith)
        requires
            p > 0,
    ;
}

/// What is large and scaled up decides, beside what is small.
proof fn lemma_the_large_decides(n: int, p: int, small: int)
    requires
        n != 0,
        p > 0,
        n >= 0x200_0000_0000_0000 || n <= -0x200_0000_0000_0000 || p > 0x200_0000_0000_0000,
        -0x200_0000_0000_0000 < small < 0x200_0000_0000_0000,
    ensures
        sign(n * p + small) == sign(n),
{
    let big = 0x200_0000_0000_0000int;
    assert(n > 0 ==> n * p >= big) by (nonlinear_arith)
        requires
            p > 0,
            n >= big || n <= -big || p > big,
    ;
    assert(n < 0 ==> n * p <= -big) by (nonlinear_arith)
        requires
            p > 0,
            n >= big || n <= -big || p > big,
    ;
}

/// The sign of a number scaled up, and another.
fn sign_of_two(n: i128, power: u32, small: i64) -> (r: i8)
    requires
        -0x4000_0000_0000_0000_0000_0000_0000_0000 < n < 0x4000_0000_0000_0000_0000_0000_0000_0000,
        -0x100_0000_0000_0000 < small < 0x100_0000_0000_0000,
    ensures
        r == sign(n * pow2(power as nat) + small),
{
    proof {
        lemma_pow2_pos(power as nat);
        lemma2_to64();
        lemma2_to64_rest();
    }
    if n == 0 {
        return sign_of(small as i128);
    }
    if n >= 0x200_0000_0000_0000 || n <= -0x200_0000_0000_0000 || power > 60 {
        proof {
            if power > 60 {
                lemma_pow2_strictly_increases(60, power as nat);
            }
            lemma_the_large_decides(n as int, pow2(power as nat) as int, small as int);
        }
        return sign_of(n);
    }
    let p: i128 = power_of_two(power);
    assert(-0x200_0000_0000_0000 * 0x1000_0000_0000_0000 <= n * p <= 0x200_0000_0000_0000
        * 0x1000_0000_0000_0000) by (nonlinear_arith)
        requires
            -0x200_0000_0000_0000 < n < 0x200_0000_0000_0000,
            1 <= p <= 0x1000_0000_0000_0000,
    ;
    sign_of(n * p + small as i128)
}

/// The sign of a sum, the largest power first.
fn sign_in_order(a: Scaled, b: Scaled, c: Scaled) -> (r: i8)
    requires
        slim(a),
        slim(b),
        slim(c),
        a.power >= b.power >= c.power,
    ensures
        r == sign(worth(a) + worth(b) + worth(c)),
{
    let up: u32 = a.power - b.power;
    let over: u32 = b.power - c.power;
    let ghost pc = pow2(c.power as nat) as int;
    let ghost po = pow2(over as nat) as int;
    let ghost pu = pow2(up as nat) as int;
    proof {
        lemma2_to64();
        lemma2_to64_rest();
        lemma_pow2_pos(c.power as nat);
        lemma_pow2_pos(over as nat);
        lemma_pow2_pos(up as nat);
        lemma_pow2_adds(c.power as nat, over as nat);
        lemma_pow2_adds(b.power as nat, up as nat);
        // All three have the smallest power as a factor.
        let inner = (a.whole * pu + b.whole) * po + c.whole;
        assert(worth(a) + worth(b) + worth(c) == inner * pc) by (nonlinear_arith)
            requires
                worth(a) == a.whole * (pc * po * pu),
                worth(b) == b.whole * (pc * po),
                worth(c) == c.whole * pc,
                inner == (a.whole * pu + b.whole) * po + c.whole,
        ;
        lemma_sign_of_product(inner, pc);
    }
    if a.whole != 0 && up > 60 {
        proof {
            lemma_pow2_strictly_increases(60, up as nat);
            let n = a.whole * pu + b.whole;
            lemma_the_large_decides(a.whole as int, pu, b.whole as int);
            assert(n >= 0x200_0000_0000_0000 || n <= -0x200_0000_0000_0000) by (nonlinear_arith)
                requires
                    n == a.whole * pu + b.whole,
                    a.whole != 0,
                    pu > 0x1000_0000_0000_0000,
                    -0x100_0000_0000_0000 < b.whole < 0x100_0000_0000_0000,
            ;
            lemma_the_large_decides(n, po, c.whole as int);
        }
        return sign_of(a.whole as i128);
    }
    let n: i128 = if a.whole == 0 {
        assert(a.whole * pu == 0) by (nonlinear_arith)
            requires
                a.whole == 0,
        ;
        b.whole as i128
    } else {
        let p: i128 = power_of_two(up);
        let w: i128 = a.whole as i128;
        assert(-0x100_0000_0000_0000 * 0x1000_0000_0000_0000 <= w * p <= 0x100_0000_0000_0000
            * 0x1000_0000_0000_0000) by (nonlinear_arith)
            requires
                -0x100_0000_0000_0000 < w < 0x100_0000_0000_0000,
                1 <= p <= 0x1000_0000_0000_0000,
        ;
        w * p + b.whole as i128
    };
    sign_of_two(n, over, c.whole)
}

/// The sign of a sum.
fn sign_of_sum(a: Scaled, b: Scaled, c: Scaled) -> (r: i8)
    requires
        slim(a),
        slim(b),
        slim(c),
    ensures
        r == sign(worth(a) + worth(b) + worth(c)),
{
    if a.power >= b.power {
        if b.power >= c.power {
            sign_in_order(a, b, c)
        } else if a.power >= c.power {
            sign_in_order(a, c, b)
        } else {
            sign_in_order(c, a, b)
        }
    } else if a.power >= c.power {
        sign_in_order(b, a, c)
    } else if b.power >= c.power {
        sign_in_order(b, c, a)
    } else {
        sign_in_order(c, b, a)
    }
}

/// What a magnitude stands for.
fn scaled(magnitude: u64) -> (r: Scaled)
    requires
        magnitude <= SIGN,
    ensures
        worth(r) == size(magnitude as int),
        0 <= r.whole < 2 * FRACTIONS,
        r.power == if magnitude < FRACTIONS {
            0
        } else {
            magnitude as int / FRACTIONS as int - 1
        },
{
    proof {
        lemma2_to64();
    }
    if magnitude < FRACTIONS {
        let r: Scaled = Scaled { whole: magnitude as i64, power: 0 };
        assert(worth(r) == magnitude) by (nonlinear_arith)
            requires
                worth(r) == magnitude * pow2(0),
                pow2(0) == 1,
        ;
        r
    } else {
        Scaled {
            whole: (FRACTIONS + magnitude % FRACTIONS) as i64,
            power: (magnitude / FRACTIONS - 1) as u32,
        }
    }
}

/// Twice a number, or twice its opposite.
fn doubled(r: Real, opposite: bool) -> (s: Scaled)
    ensures
        slim(s),
        worth(s) == 2 * if opposite {
            -steps(r)
        } else {
            steps(r)
        },
{
    let negative: bool = r.bits >= SIGN;
    let s: Scaled = scaled(
        if negative {
            r.bits - SIGN
        } else {
            r.bits
        },
    );
    let ghost p = pow2(s.power as nat) as int;
    assert((2 * s.whole) * p == 2 * (s.whole * p) && (-2 * s.whole) * p == -2 * (s.whole * p))
        by (nonlinear_arith);
    if negative != opposite {
        Scaled { whole: -2 * s.whole, power: s.power }
    } else {
        Scaled { whole: 2 * s.whole, power: s.power }
    }
}

/// A magnitude and the one before it, together, and that taken away.
fn less_both(magnitude: u64) -> (s: Scaled)
    requires
        0 < magnitude <= SIGN,
    ensures
        slim(s),
        worth(s) == -(size(magnitude as int) + size(magnitude - 1)),
{
    let m: Scaled = scaled(magnitude);
    let n: Scaled = scaled(magnitude - 1);
    let ghost p = pow2(m.power as nat) as int;
    let ghost q = pow2(n.power as nat) as int;
    if m.power == n.power {
        assert((-(m.whole + n.whole)) * p == -(m.whole * p + n.whole * p)) by (nonlinear_arith);
        Scaled { whole: -(m.whole + n.whole), power: m.power }
    } else {
        proof {
            assert(m.power == n.power + 1);
            lemma_pow2_unfold(m.power as nat);
        }
        assert((-(2 * m.whole + n.whole)) * q == -(m.whole * (2 * q) + n.whole * q))
            by (nonlinear_arith);
        Scaled { whole: -(2 * m.whole + n.whole), power: n.power }
    }
}

/// Whether `high - low < span`.
pub fn is_short_of(low: Real, high: Real, span: Real) -> (r: bool)
    ensures
        r == short_of(low, high, span),
{
    if span.is_nan() || span.bits == 0 || span.bits >= SIGN {
        return false;
    }
    let s: i8 = sign_of_sum(doubled(high, false), doubled(low, true), less_both(span.bits));
    s < 0 || (s == 0 && span.bits % 2 == 1)
}

/// The steps that a magnitude stands for: the smallest numbers are whole steps one after the
/// other, and a number of the next power of two is twice the number below it.
pub proof fn law_steps_double_with_the_power(m: int)
    requires
        0 <= m,
    ensures
        m < 0x20_0000_0000_0000 ==> size(m) == m,
        m >= 0x10_0000_0000_0000 ==> size(m + 0x10_0000_0000_0000) == 2 * size(m),
{
    lemma2_to64();
    let f = FRACTIONS as int;
    if f <= m {
        let e = m / f;
        assert((m + f) / f == e + 1 && (m + f) % f == m % f);
        lemma_pow2_unfold(e as nat);
        let p = pow2((e - 1) as nat) as int;
        assert((f + m % f) * (2 * p) == 2 * ((f + m % f) * p)) by (nonlinear_arith);
        if m < 2 * f {
            assert(e == 1 && m % f == m - f);
            assert((f + m % f) * pow2(0) == m) by (nonlinear_arith)
                requires
                    pow2(0) == 1,
                    m % f == m - f,
            ;
        }
    }
}

/// Whether a difference is short of a span: it is where the span is more than it by more than
/// half a step of the span, it is not where it reaches the span, and in between it goes to the
/// nearer number, or to the even one.
pub proof fn law_what_is_nearer_decides(low: Real, high: Real, span: Real)
    requires
        !span.nan(),
        span.rank() > 0,
    ensures
        ({
            let d = steps(high) - steps(low);
            let s = steps(span);
            let t = steps(Real { bits: (span.bits - 1) as u64 });
            &&& t < s
            &&& d >= s ==> !short_of(low, high, span)
            &&& d <= t ==> short_of(low, high, span)
            &&& t < d < s && d - t < s - d ==> short_of(low, high, span)
            &&& t < d < s && d - t > s - d ==> !short_of(low, high, span)
            &&& t < d < s && d - t == s - d ==> short_of(low, high, span) == (span.bits % 2 == 1)
        }),
{
    let b = Real { bits: (span.bits - 1) as u64 };
    law_steps_follow_the_order(b, span);
    assert(b.magnitude() == span.magnitude() - 1);
}

} // verus!
