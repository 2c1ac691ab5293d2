//! Quotients as a binary64 processor rounds them, and their rendering with one decimal.
//!
//! Durations are shown in seconds or minutes with one decimal, after divisions that round to 53
//! significant bits. The rounding decides some ties, so it is carried out exactly.

use crate::text::{decimal, wide_decimal_text};
use vstd::prelude::*;

verus! {

/// The number `significand * mul / den`.
#[derive(Clone, Copy, Debug, PartialEq, Eq)]
pub struct Rounded {
    pub significand: u64,
    pub mul: u128,
    pub den: u128,
}

/// `n / d` rounded to a whole number, ties to the even one.
pub open spec fn nearest(n: nat, d: nat) -> nat {
    let q = n / d;
    let r = n % d;
    if 2 * r < d || 2 * r == d && q % 2 == 0 {
        q
    } else {
        q + 1
    }
}

/// The power of two that brings `n / d` to at least 53 bits, times `den`.
pub open spec fn widened(n: nat, d: nat, den: nat) -> nat
    decreases d * 0x20_0000_0000_0000 - n,
{
    if n == 0 || n >= d * 0x10_0000_0000_0000 {
        den
    } else {
        widened(2 * n, d, 2 * den)
    }
}

/// The power of two that brings `n / d` to at most 53 bits, times `mul`.
pub open spec fn narrowed(n: nat, d: nat, mul: nat) -> nat
    decreases n - d * 0x10_0000_0000_0000,
{
    if d == 0 || n < d * 0x20_0000_0000_0000 {
        mul
    } else {
        narrowed(n, 2 * d, 2 * mul)
    }
}

/// The significand, the factor and the divisor of `n / d` rounded to 53 bits, ties to even.
pub open spec fn rounded(n: nat, d: nat) -> (nat, nat, nat) {
    let den = widened(n, d, 1);
    let mul = narrowed(n * den, d, 1);
    (nearest(n * den, d * mul), mul, den)
}

/// A rounded number divided by `c` and rounded again.
pub open spec fn divided(x: (nat, nat, nat), c: nat) -> (nat, nat, nat) {
    let q = rounded(x.0, c);
    (q.0, q.1 * x.1, q.2 * x.2)
}

/// How many tenths a rounded number has, ties to even.
pub open spec fn tenths(x: (nat, nat, nat)) -> nat {
    nearest(10 * (x.0 * x.1), x.2)
}

/// A number of tenths with one decimal.
pub open spec fn one_decimal(t: nat) -> Seq<char> {
    decimal(t / 10) + "."@ + decimal(t % 10)
}

impl Rounded {
    pub open spec fn parts(self) -> (nat, nat, nat) {
        (self.significand as nat, self.mul as nat, self.den as nat)
    }
}

fn nearest_quotient(n: u128, d: u128) -> (q: u128)
    requires
        0 < d <= 0x1000_0000_0000_0000_0000_0000_0000,
        n <= 0x1000_0000_0000_0000_0000_0000_0000,
    ensures
        q == nearest(n as nat, d as nat),
        q <= n / d + 1,
{
    let q: u128 = n / d;
    let r: u128 = n % d;
    proof {
        assert(q <= n) by (nonlinear_arith)
            requires
                q == n / d,
                d > 0,
        ;
    }
    if 2 * r < d || 2 * r == d && q % 2 == 0 {
        q
    } else {
        q + 1
    }
}

/// `n / d` rounded to 53 bits.
fn quotient(n: u64, d: u64) -> (x: Rounded)
    requires
        0 < d <= 0x1_0000_0000,
    ensures
        x.parts() == rounded(n as nat, d as nat),
        x.significand <= 0x20_0000_0000_0000,
        x.significand == 0 <==> n == 0,
        x.significand != 0 ==> x.significand >= 0x10_0000_0000_0000,
        1 <= x.mul <= 0x1000,
        1 <= x.den,
        x.den <= d * 0x20_0000_0000_0000,
        n >= 0x10_0000_0000_0000 ==> x.den <= 2 * d,
        n == 0 ==> x.den == 1,
{
    let mut a: u128 = n as u128;
    let mut den: u128 = 1;
    let b: u128 = d as u128;
    proof {
        assert(n * 1 == n);
        assert(b * 0x10_0000_0000_0000 <= 0x1_0000_0000 * 0x10_0000_0000_0000) by (nonlinear_arith)
            requires
                b <= 0x1_0000_0000,
        ;
    }
    while a != 0 && a < b * 0x10_0000_0000_0000
        invariant
            b == d,
            0 < b <= 0x1_0000_0000,
            b * 0x10_0000_0000_0000 <= 0x1_0000_0000 * 0x10_0000_0000_0000,
            a == n * den,
            den >= 1,
            a <= 0xffff_ffff_ffff_ffff || a < b * 0x20_0000_0000_0000,
            den == 1 || a < b * 0x20_0000_0000_0000,
            widened(a as nat, b as nat, den as nat) == widened(n as nat, d as nat, 1),
        decreases b * 0x20_0000_0000_0000 - a,
    {
        proof {
            assert(den <= a) by (nonlinear_arith)
                requires
                    a == n * den,
                    a != 0,
                    den >= 1,
            ;
            assert(2 * a == n * (2 * den)) by (nonlinear_arith)
                requires
                    a == n * den,
            ;
        }
        a = 2 * a;
        den = 2 * den;
    }
    proof {
        if a != 0 {
            assert(den <= a) by (nonlinear_arith)
                requires
                    a == n * den,
                    a != 0,
                    den >= 1,
            ;
            assert(den <= d * 0x20_0000_0000_0000);
            if n >= 0x10_0000_0000_0000 && den > 1 {
                assert(den <= 2 * d) by (nonlinear_arith)
                    requires
                        n * den < d * 0x20_0000_0000_0000,
                        n >= 0x10_0000_0000_0000,
                ;
            }
        } else {
            assert(n == 0) by (nonlinear_arith)
                requires
                    0 == n * den,
                    den >= 1,
            ;
        }
    }
    let mut c: u128 = b;
    let mut mul: u128 = 1;
    proof {
        assert(d * 1 == d);
    }
    while a >= c * 0x20_0000_0000_0000
        invariant
            b == d,
            0 < b <= c,
            a <= 0xffff_ffff_ffff_ffff || a < b * 0x20_0000_0000_0000,
            b * 0x10_0000_0000_0000 <= 0x1_0000_0000 * 0x10_0000_0000_0000,
            c == d * mul,
            mul >= 1,
            c == b || c * 0x10_0000_0000_0000 <= a,
            c <= 0x1_0000_0000,
            narrowed(a as nat, c as nat, mul as nat) == narrowed(a as nat, d as nat, 1),
        decreases a - c * 0x10_0000_0000_0000,
    {
        proof {
            assert(2 * c == d * (2 * mul)) by (nonlinear_arith)
                requires
                    c == d * mul,
            ;
            assert(mul <= c) by (nonlinear_arith)
                requires
                    c == d * mul,
                    d > 0,
            ;
            assert(b * 0x20_0000_0000_0000 <= c * 0x20_0000_0000_0000) by (nonlinear_arith)
                requires
                    b <= c,
            ;
        }
        c = 2 * c;
        mul = 2 * mul;
    }
    proof {
        assert(mul <= c) by (nonlinear_arith)
            requires
                c == d * mul,
                d > 0,
        ;
        assert(mul <= 0x1000) by (nonlinear_arith)
            requires
                c == d * mul,
                d > 0,
                mul == 1 || c * 0x10_0000_0000_0000 <= 0xffff_ffff_ffff_ffff,
        ;
        if n != 0 {
            assert(a >= c * 0x10_0000_0000_0000);
            assert(a / c >= 0x10_0000_0000_0000) by (nonlinear_arith)
                requires
                    a >= c * 0x10_0000_0000_0000,
                    c > 0,
            ;
        } else {
            assert(a == 0);
            assert(0nat / (c as nat) == 0) by (nonlinear_arith)
                requires
                    c > 0,
            ;
        }
        assert(a / c < 0x20_0000_0000_0000) by (nonlinear_arith)
            requires
                a < c * 0x20_0000_0000_0000,
                c > 0,
        ;
    }
    let m: u128 = nearest_quotient(a, c);
    Rounded { significand: m as u64, mul, den }
}

/// A rounded number divided by `c`, rounded again.
fn divide(x: Rounded, c: u64) -> (y: Rounded)
    requires
        0 < c <= 0x1_0000_0000,
        x.significand == 0 || 0x10_0000_0000_0000 <= x.significand <= 0x20_0000_0000_0000,
        1 <= x.mul <= 0x10_0000_0000,
        1 <= x.den,
        x.den * (2 * c) <= 0x1000_0000_0000_0000_0000_0000_0000,
    ensures
        y.parts() == divided(x.parts(), c as nat),
        y.significand <= 0x20_0000_0000_0000,
        y.significand == 0 || y.significand >= 0x10_0000_0000_0000,
        1 <= y.mul,
        y.mul <= x.mul * 0x1000,
        1 <= y.den,
        y.den <= x.den * (2 * c),
{
    let q = quotient(x.significand, c);
    proof {
        assert(1 <= q.den * x.den <= x.den * (2 * c)) by (nonlinear_arith)
            requires
                1 <= q.den <= 2 * c,
                1 <= x.den,
        ;
        assert(1 <= q.mul * x.mul <= 0x1000 * x.mul) by (nonlinear_arith)
            requires
                1 <= q.mul <= 0x1000,
                1 <= x.mul,
        ;
    }
    Rounded { significand: q.significand, mul: q.mul * x.mul, den: q.den * x.den }
}

/// The text of a rounded number with one decimal.
fn one_decimal_text(x: Rounded) -> (s: String)
    requires
        x.significand <= 0x20_0000_0000_0000,
        1 <= x.mul <= 0x1_0000_0000_0000,
        1 <= x.den <= 0x1000_0000_0000_0000_0000_0000_0000,
    ensures
        s@ == one_decimal(tenths(x.parts())),
{
    proof {
        assert(x.significand * x.mul <= 0x20_0000_0000_0000 * 0x1_0000_0000_0000) by (nonlinear_arith)
            requires
                x.significand <= 0x20_0000_0000_0000,
                1 <= x.mul <= 0x1_0000_0000_0000,
        ;
    }
    let n: u128 = 10 * (x.significand as u128 * x.mul);
    proof {
        assert(n / x.den <= n) by (nonlinear_arith)
            requires
                x.den > 0,
        ;
    }
    let t: u128 = nearest_quotient(n, x.den);
    let mut s = wide_decimal_text(t / 10);
    s.append(".");
    s.append(wide_decimal_text(t % 10).as_str());
    s
}

/// Milliseconds in seconds, as rounded.
pub open spec fn seconds_of(ms: nat) -> (nat, nat, nat) {
    divided(rounded(ms, 1), 1000)
}

/// Whether a rounded number is below `limit`.
pub open spec fn below(x: (nat, nat, nat), limit: nat) -> bool {
    x.0 * x.1 < limit * x.2
}

/// A duration: a dash where there is none, else seconds, or minutes from one minute on, with one
/// decimal.
pub open spec fn duration_text(ms: nat) -> Seq<char> {
    if ms == 0 {
        "—"@
    } else if below(seconds_of(ms), 60) {
        one_decimal(tenths(seconds_of(ms))) + "s"@
    } else {
        one_decimal(tenths(divided(seconds_of(ms), 60))) + "min"@
    }
}

/// The text of a duration in milliseconds, such as `3.5s` or `1.2min`.
pub fn format_duration(ms: u64) -> (s: String)
    ensures
        s@ == duration_text(ms as nat),
{
    if ms == 0 {
        return String::from_str("—");
    }
    let secs = divide(quotient(ms, 1), 1000);
    proof {
        assert(secs.significand * secs.mul <= 0x20_0000_0000_0000 * 0x1_0000_0000_0000) by (nonlinear_arith)
            requires
                secs.significand <= 0x20_0000_0000_0000,
                1 <= secs.mul <= 0x1_0000_0000_0000,
        ;
    }
    if secs.significand as u128 * secs.mul < 60 * secs.den {
        let mut s = one_decimal_text(secs);
        s.append("s");
        s
    } else {
        let mut s = one_decimal_text(divide(secs, 60));
        s.append("min");
        s
    }
}

/// The mean of durations in milliseconds, in seconds with one decimal.
pub open spec fn mean_seconds(total_ms: nat, count: nat) -> Seq<char> {
    let total = rounded(total_ms, 1);
    one_decimal(tenths(divided(divided(total, count), 1000)))
}

/// The text of the mean of durations in milliseconds, in seconds with one decimal.
pub fn mean_seconds_text(total_ms: u64, count: u32) -> (s: String)
    requires
        count > 0,
    ensures
        s@ == mean_seconds(total_ms as nat, count as nat),
{
    let total = quotient(total_ms, 1);
    proof {
        assert(total.den * (2 * count) <= 0x20_0000_0000_0000 * (2 * 0x1_0000_0000)) by (nonlinear_arith)
            requires
                1 <= total.den <= 0x20_0000_0000_0000,
                0 < count <= 0x1_0000_0000,
        ;
    }
    one_decimal_text(divide(divide(total, count as u64), 1000))
}

} // verus!
