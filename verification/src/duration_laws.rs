//! How close shown durations are to the durations themselves.

use crate::binary64::{below, divided, duration_text, mean_seconds, narrowed, nearest, one_decimal, rounded, seconds_of, tenths, widened};
use crate::counting_laws::{lemma_digits_stand_for_numbers, read_digits};
use crate::text::decimal;
use vstd::prelude::*;

verus! {

proof fn lemma_nearest(n: nat, d: nat)
    requires
        d > 0,
    ensures
        -d <= 2 * (nearest(n, d) * d - n) <= d,
        nearest(n, d) >= n / d,
{
    let q = n / d;
    let r = n % d;
    vstd::arithmetic::div_mod::lemma_fundamental_div_mod(n as int, d as int);
    assert(0 <= r < d) by (nonlinear_arith)
        requires
            d > 0,
            r == n % d,
    ;
    assert(d * q == q * d) by (nonlinear_arith);
    assert((q + 1) * d == q * d + d) by (nonlinear_arith);
}

proof fn lemma_widened(n: nat, d: nat, k: nat)
    requires
        n > 0,
        d > 0,
        k > 0,
    ensures
        n * widened(n, d, k) >= k * (d * 0x10_0000_0000_0000),
        widened(n, d, k) >= k,
    decreases d * 0x20_0000_0000_0000 - n,
{
    let limit = d * 0x10_0000_0000_0000;
    if n >= limit {
        assert(n * k >= k * limit) by (nonlinear_arith)
            requires
                n >= limit,
        ;
    } else {
        lemma_widened(2 * n, d, 2 * k);
        let w = widened(n, d, k);
        assert(n * w >= k * limit) by (nonlinear_arith)
            requires
                (2 * n) * w >= (2 * k) * limit,
        ;
    }
}

proof fn lemma_narrowed(n: nat, d: nat, k: nat)
    requires
        d > 0,
        k > 0,
        n >= d * 0x10_0000_0000_0000,
    ensures
        n * k >= narrowed(n, d, k) * (d * 0x10_0000_0000_0000),
        narrowed(n, d, k) >= k,
    decreases n - d * 0x10_0000_0000_0000,
{
    let limit = d * 0x10_0000_0000_0000;
    if n < d * 0x20_0000_0000_0000 {
        assert(n * k >= k * limit) by (nonlinear_arith)
            requires
                n >= limit,
        ;
    } else {
        lemma_narrowed(n, 2 * d, 2 * k);
        let m = narrowed(n, d, k);
        assert(n * k >= m * limit) by (nonlinear_arith)
            requires
                n * (2 * k) >= m * (2 * limit),
        ;
    }
}

/// A rounded quotient is off by at most one part in two to the 53rd.
proof fn lemma_rounded(n: nat, d: nat)
    requires
        n > 0,
        d > 0,
    ensures
        ({
            let (s, m, e) = rounded(n, d);
            let v = s * m * d;
            &&& s >= 0x10_0000_0000_0000 && m >= 1 && e >= 1
            &&& -v <= 0x20_0000_0000_0000 * (v - n * e) <= v
        }),
{
    let e = widened(n, d, 1);
    lemma_widened(n, d, 1);
    let a = n * e;
    let m = narrowed(a, d, 1);
    lemma_narrowed(a, d, 1);
    let b = d * m;
    assert(b > 0) by (nonlinear_arith)
        requires
            b == d * m,
            d > 0,
            m >= 1,
    ;
    let s = nearest(a, b);
    lemma_nearest(a, b);
    assert(a >= 0x10_0000_0000_0000 * b) by (nonlinear_arith)
        requires
            a * 1 >= m * (d * 0x10_0000_0000_0000),
            b == d * m,
    ;
    assert(a / b >= 0x10_0000_0000_0000) by (nonlinear_arith)
        requires
            a >= 0x10_0000_0000_0000 * b,
            b > 0,
    ;
    let v = s * m * d;
    assert(v == s * b) by (nonlinear_arith)
        requires
            v == s * m * d,
            b == d * m,
    ;
    assert(s * b >= 0x10_0000_0000_0000 * b) by (nonlinear_arith)
        requires
            s >= 0x10_0000_0000_0000,
    ;
}

/// A number `x.0 * x.1 / x.2` is `n / c`, but for `k` parts in two to the 53rd.
spec fn close(x: (nat, nat, nat), n: int, c: int, k: int) -> bool {
    let v = c * (x.0 * x.1);
    &&& x.0 > 0 && x.1 > 0 && x.2 > 0
    &&& -(k * v) <= 0x20_0000_0000_0000 * (v - n * x.2) <= k * v
}

proof fn lemma_close_start(n: nat)
    requires
        n > 0,
    ensures
        close(rounded(n, 1), n as int, 1, 1),
{
    lemma_rounded(n, 1);
}

proof fn lemma_close_divided(x: (nat, nat, nat), n: int, c: int, k: int, by: nat)
    requires
        close(x, n, c, k),
        c > 0,
        k >= 0,
        by > 0,
    ensures
        close(divided(x, by), n, c * by, 2 * k + 1),
{
    let big = 0x20_0000_0000_0000int;
    let (s, m, e) = x;
    let (s2, m2, e2) = rounded(s, by);
    lemma_rounded(s, by);
    let y = divided(x, by);
    let w = (s2 * m2 * by) as int;
    let u = (s * e2) as int;
    assert(-w <= big * (w - u) <= w);
    let v = c * (s * m);
    let cm = c * m;
    let err1 = w - u;
    let err2 = v - n * e;
    let total = c * by * (s2 * (m2 * m));
    assert(total == cm * w) by (nonlinear_arith)
        requires
            total == c * by * (s2 * (m2 * m)),
            cm == c * m,
            w == s2 * m2 * by,
    ;
    assert(e2 * v == cm * u) by (nonlinear_arith)
        requires
            v == c * (s * m),
            cm == c * m,
            u == s * e2,
    ;
    assert(n * (e2 * e) == e2 * v - e2 * err2) by (nonlinear_arith)
        requires
            err2 == v - n * e,
    ;
    let gap = total - n * (e2 * e);
    assert(gap == cm * err1 + e2 * err2) by (nonlinear_arith)
        requires
            gap == total - n * (e2 * e),
            total == cm * w,
            n * (e2 * e) == e2 * v - e2 * err2,
            e2 * v == cm * u,
            err1 == w - u,
    ;
    assert(cm > 0) by (nonlinear_arith)
        requires
            cm == c * m,
            c > 0,
            m > 0,
    ;
    assert(w > 0) by (nonlinear_arith)
        requires
            w == s2 * m2 * by,
            s2 > 0,
            m2 > 0,
            by > 0,
    ;
    assert(u <= 2 * w);
    assert(-(cm * w) <= big * (cm * err1) <= cm * w) by (nonlinear_arith)
        requires
            -w <= big * err1 <= w,
            cm > 0,
    ;
    assert(-(k * (e2 * v)) <= big * (e2 * err2) <= k * (e2 * v)) by (nonlinear_arith)
        requires
            -(k * v) <= big * err2 <= k * v,
            e2 > 0,
    ;
    assert(e2 * v <= 2 * total) by (nonlinear_arith)
        requires
            e2 * v == cm * u,
            u <= 2 * w,
            total == cm * w,
            cm > 0,
    ;
    assert(k * (e2 * v) <= k * (2 * total)) by (nonlinear_arith)
        requires
            e2 * v <= 2 * total,
            k >= 0,
    ;
    assert(big * gap == big * (cm * err1) + big * (e2 * err2)) by (nonlinear_arith)
        requires
            gap == cm * err1 + e2 * err2,
    ;
    assert((2 * k + 1) * total == k * (2 * total) + total) by (nonlinear_arith);
    assert(m2 * m > 0 && e2 * e > 0) by (nonlinear_arith)
        requires
            m2 > 0,
            m > 0,
            e2 > 0,
            e > 0,
    ;
    assert(y == (s2, m2 * m, e2 * e));
}

/// A shown tenth is off by at most half of one.
proof fn lemma_tenths_close(x: (nat, nat, nat), n: int, c: int, k: int)
    requires
        close(x, n, c, k),
        0 < c,
        0 <= k <= 16,
        0 < n <= 0x400_0000_0000,
    ensures
        -c <= 2 * (c * tenths(x) - 10 * n) <= c,
{
    let big = 0x20_0000_0000_0000int;
    let (s, m, e) = x;
    let v = s * m;
    let t = tenths(x);
    lemma_nearest(10 * v, e);
    let half = t * e - 10 * v;
    assert(-e <= 2 * half <= e);
    let off = c * v - n * e;
    let all = c * v;
    assert(all > 0) by (nonlinear_arith)
        requires
            all == c * v,
            v == s * m,
            s > 0,
            m > 0,
            c > 0,
    ;
    assert(k * all <= 16 * all) by (nonlinear_arith)
        requires
            0 <= k <= 16,
            all > 0,
    ;
    assert(all <= 2 * (n * e));
    assert(n * e <= 0x400_0000_0000 * e) by (nonlinear_arith)
        requires
            n <= 0x400_0000_0000,
            e > 0,
    ;
    assert(-e < 20 * off < e);
    let gap = c * t - 10 * n;
    assert(gap * e == c * half + 10 * off) by (nonlinear_arith)
        requires
            gap == c * t - 10 * n,
            half == t * e - 10 * v,
            off == c * v - n * e,
    ;
    assert(-(c * e) <= 2 * (c * half) <= c * e) by (nonlinear_arith)
        requires
            -e <= 2 * half <= e,
            c > 0,
    ;
    assert(-(c * e) - e < 2 * (gap * e) < c * e + e);
    assert(2 * gap < c + 1) by (nonlinear_arith)
        requires
            2 * (gap * e) < c * e + e,
            e > 0,
    ;
    assert(2 * gap > -c - 1) by (nonlinear_arith)
        requires
            2 * (gap * e) > -(c * e) - e,
            e > 0,
    ;
}

/// A number of tenths is written with one digit behind the point.
pub proof fn lemma_one_decimal(t: nat)
    ensures
        ({
            let s = one_decimal(t);
            &&& s.len() >= 3
            &&& s[s.len() - 2] == '.'
            &&& 10 * read_digits(s.take(s.len() - 2)) + read_digits(s.skip(s.len() - 1)) == t
        }),
{
    let a = decimal(t / 10);
    let b = decimal(t % 10);
    let s = one_decimal(t);
    lemma_digits_stand_for_numbers(t / 10);
    lemma_digits_stand_for_numbers(t % 10);
    reveal_strlit(".");
    assert("."@.len() == 1 && "."@[0] == '.');
    assert(b.len() == 1);
    assert(s.take(s.len() - 2) =~= a);
    assert(s.skip(s.len() - 1) =~= b);
}

/// A duration of up to a hundred years is shown in seconds below a minute and in minutes above, with one decimal, as
/// near as one decimal can be. No duration is a dash.
pub proof fn lemma_durations_shown(ms: nat) -> (t: nat)
    requires
        ms <= 0x400_0000_0000,
        ms != 60_000,
    ensures
        ms == 0 ==> duration_text(ms) == "—"@,
        0 < ms < 60_000 ==> duration_text(ms) == one_decimal(t) + "s"@ && -50 <= 100 * t - ms <= 50,
        ms > 60_000 ==> duration_text(ms) == one_decimal(t) + "min"@ && -3000 <= 6000 * t - ms <= 3000,
{
    if ms == 0 {
        0
    } else {
        let x = seconds_of(ms);
        lemma_close_start(ms);
        lemma_close_divided(rounded(ms, 1), ms as int, 1, 1, 1000);
        assert(close(x, ms as int, 1000, 3));
        let v = x.0 * x.1;
        let e = x.2;
        assert(v > 0) by (nonlinear_arith)
            requires
                v == x.0 * x.1,
                x.0 > 0,
                x.1 > 0,
        ;
        assert(ms * e <= 0x400_0000_0000 * e) by (nonlinear_arith)
            requires
                ms <= 0x400_0000_0000,
        ;
        assert(1000 * v <= 2 * (ms * e));
        assert(-e < 2 * (1000 * v - ms * e) < e);
        if ms < 60_000 {
            assert(ms * e <= 59_999 * e) by (nonlinear_arith)
                requires
                    ms <= 59_999,
            ;
            assert(below(x, 60));
            lemma_tenths_close(x, ms as int, 1000, 3);
            tenths(x)
        } else {
            assert(ms * e >= 60_001 * e) by (nonlinear_arith)
                requires
                    ms >= 60_001,
            ;
            assert(!below(x, 60));
            lemma_close_divided(x, ms as int, 1000, 3, 60);
            lemma_tenths_close(divided(x, 60), ms as int, 60_000, 7);
            tenths(divided(x, 60))
        }
    }
}

/// The mean of durations of up to a hundred years together is shown in seconds with one decimal, as near as one
/// decimal can be.
pub proof fn lemma_means_shown(total_ms: nat, count: nat) -> (t: nat)
    requires
        0 < total_ms <= 0x400_0000_0000,
        0 < count,
    ensures
        mean_seconds(total_ms, count) == one_decimal(t),
        -(50 * count) <= 100 * count * t - total_ms <= 50 * count,
{
    let x0 = rounded(total_ms, 1);
    lemma_close_start(total_ms);
    lemma_close_divided(x0, total_ms as int, 1, 1, count);
    let x1 = divided(x0, count);
    assert(1 * count == count);
    lemma_close_divided(x1, total_ms as int, count as int, 3, 1000);
    let x2 = divided(x1, 1000);
    let c = count * 1000;
    lemma_tenths_close(x2, total_ms as int, c as int, 7);
    let t = tenths(x2);
    assert(c * t == 10 * (100 * count * t)) by (nonlinear_arith)
        requires
            c == count * 1000,
    ;
    t
}

} // verus!
