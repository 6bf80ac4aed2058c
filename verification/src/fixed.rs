//! Fixed-point scalar arithmetic for the noise field.
//!
//! Every continuous quantity (coordinate, gradient component, noise value)
//! is an integer counted in steps of `1 / SCALE`, so the whole evaluator
//! works on exact integers.

use vstd::prelude::*;
use vstd::arithmetic::div_mod::{lemma_div_is_ordered, lemma_div_multiples_vanish};

verus! {

/// Number of fixed-point steps per lattice unit.
pub const SCALE: i64 = 1024;

/// Magnitude bound on the interpolation operands; keeps every intermediate
/// product comfortably inside `i64`.
pub const VALUE_LIMIT: i64 = 0x1000_0000;

/// Division that rounds toward zero, as the executable code computes it
/// (unsigned division applied to the magnitude).
pub open spec fn spec_div_trunc(v: int, d: int) -> int {
    if v >= 0 {
        v / d
    } else {
        -((-v) / d)
    }
}

/// Linear interpolation `a + w * (b - a) / SCALE` with the division taken
/// on a non-negative numerator, so the result never leaves `[a, b]`.
pub open spec fn spec_lerp(a: int, b: int, w: int) -> int {
    if b >= a {
        a + (w * (b - a)) / (SCALE as int)
    } else {
        a - (w * (a - b)) / (SCALE as int)
    }
}

/// Numerator of the cubic easing curve: `t^2 (3 SCALE - 2t)`.
pub open spec fn cubic_numer(t: int) -> int {
    t * t * (3 * SCALE - 2 * t)
}

/// Numerator of the quintic easing curve:
/// `t^3 (6 t^2 - 15 SCALE t + 10 SCALE^2)`.
pub open spec fn quintic_numer(t: int) -> int {
    t * t * t * (6 * (t * t) - 15 * SCALE * t + 10 * (SCALE * SCALE))
}

/// Cubic easing `t^2 (3 - 2t)` scaled so that both domain and range are
/// `[0, SCALE]`.
pub open spec fn spec_ease_cubic(t: int) -> int {
    cubic_numer(t) / ((SCALE * SCALE) as int)
}

/// Quintic easing `t^3 (t (6t - 15) + 10)` scaled so that both domain and
/// range are `[0, SCALE]`.
pub open spec fn spec_ease_quintic(t: int) -> int {
    quintic_numer(t) / ((SCALE * SCALE * SCALE * SCALE) as int)
}

/// Truncating division of `v` by a positive divisor `d`.
pub fn div_trunc(v: i64, d: i64) -> (r: i64)
    requires
        1 <= d,
        -0x4000_0000_0000_0000 <= v <= 0x4000_0000_0000_0000,
    ensures
        r == spec_div_trunc(v as int, d as int),
        v >= 0 ==> 0 <= r <= v,
        v < 0 ==> v <= r <= 0,
{
    if v >= 0 {
        let q: u64 = (v as u64) / (d as u64);
        proof {
            lemma_nonneg_div_bounds(v as int, d as int);
        }
        q as i64
    } else {
        let m: i64 = -v;
        let q: u64 = (m as u64) / (d as u64);
        proof {
            lemma_nonneg_div_bounds(m as int, d as int);
        }
        -(q as i64)
    }
}

/// A quotient by a positive divisor is no larger than a non-negative
/// dividend.
proof fn lemma_nonneg_div_bounds(v: int, d: int)
    requires
        0 <= v,
        1 <= d,
    ensures
        0 <= v / d <= v,
{
    lemma_div_is_ordered(0, v, d);
    assert(v <= v * d) by (nonlinear_arith)
        requires 0 <= v && 1 <= d;
    lemma_div_is_ordered(v, v * d, d);
    lemma_div_multiples_vanish(v, d);
    assert(v * d == d * v) by (nonlinear_arith);
}

/// Linear interpolation between `a` and `b` with fixed-point weight `w`.
pub fn lerp(a: i64, b: i64, w: i64) -> (r: i64)
    requires
        0 <= w <= SCALE,
        -VALUE_LIMIT <= a <= VALUE_LIMIT,
        -VALUE_LIMIT <= b <= VALUE_LIMIT,
    ensures
        r == spec_lerp(a as int, b as int, w as int),
        a <= b ==> a <= r <= b,
        b <= a ==> b <= r <= a,
{
    if b >= a {
        let diff: i64 = b - a;
        proof {
            lemma_lerp_step(a as int, b as int, w as int, diff as int);
        }
        let q: u64 = ((w as u64) * (diff as u64)) / (SCALE as u64);
        a + (q as i64)
    } else {
        let diff: i64 = a - b;
        proof {
            lemma_lerp_step(b as int, a as int, w as int, diff as int);
        }
        let q: u64 = ((w as u64) * (diff as u64)) / (SCALE as u64);
        a - (q as i64)
    }
}

/// The interpolation increment `w * diff / SCALE` stays within `[0, diff]`
/// for weights in `[0, SCALE]`.
proof fn lemma_lerp_step(lo: int, hi: int, w: int, diff: int)
    requires
        0 <= w <= SCALE,
        diff == hi - lo,
        0 <= diff,
    ensures
        0 <= (w * diff) / (SCALE as int) <= diff,
        0 <= w * diff <= SCALE * diff,
{
    assert(0 <= w * diff <= SCALE * diff) by (nonlinear_arith)
        requires 0 <= w <= SCALE && 0 <= diff;
    lemma_div_is_ordered(0, w * diff, SCALE as int);
    lemma_div_is_ordered(w * diff, (SCALE as int) * diff, SCALE as int);
    lemma_div_multiples_vanish(diff, SCALE as int);
}

/// Cubic easing curve on `[0, SCALE]`.
pub fn ease_cubic(t: i64) -> (r: i64)
    requires
        0 <= t <= SCALE,
    ensures
        r == spec_ease_cubic(t as int),
        0 <= r <= SCALE,
{
    proof {
        lemma_cubic_numerator_bounds(t as int);
    }
    let num: i64 = t * t * (3 * SCALE - 2 * t);
    let q: u64 = (num as u64) / ((SCALE * SCALE) as u64);
    proof {
        lemma_div_is_ordered(0, num as int, (SCALE * SCALE) as int);
        lemma_div_is_ordered(
            num as int,
            (SCALE * SCALE) as int * (SCALE as int),
            (SCALE * SCALE) as int,
        );
        lemma_div_multiples_vanish(SCALE as int, (SCALE * SCALE) as int);
    }
    q as i64
}

/// The cubic numerator `t^2 (3 SCALE - 2t)` lies in `[0, SCALE^3]` on the
/// easing domain.
proof fn lemma_cubic_numerator_bounds(t: int)
    requires
        0 <= t <= SCALE,
    ensures
        0 <= t * t <= 0x10_0000,
        0 <= t * t * (3 * SCALE - 2 * t),
        t * t * (3 * SCALE - 2 * t) <= (SCALE * SCALE) as int * (SCALE as int),
{
    let s = SCALE as int;
    assert(0 <= t * t <= 0x10_0000) by (nonlinear_arith)
        requires 0 <= t <= 1024;
    assert(0 <= t * t * (3 * s - 2 * t)) by (nonlinear_arith)
        requires 0 <= t <= s;
    assert(s * s * s - t * t * (3 * s - 2 * t) == (s - t) * (s - t) * (s + 2 * t))
        by (nonlinear_arith);
    assert((s - t) * (s - t) * (s + 2 * t) >= 0) by (nonlinear_arith)
        requires 0 <= t <= s;
}

/// Quintic easing curve on `[0, SCALE]`.
pub fn ease_quintic(t: i64) -> (r: i64)
    requires
        0 <= t <= SCALE,
    ensures
        r == spec_ease_quintic(t as int),
        0 <= r <= SCALE,
{
    proof {
        lemma_quintic_numerator_bounds(t as int);
    }
    let cube: i64 = t * t * t;
    let poly: i64 = 6 * (t * t) - 15 * SCALE * t + 10 * (SCALE * SCALE);
    let num: i64 = cube * poly;
    let d: u64 = ((SCALE * SCALE) as u64) * ((SCALE * SCALE) as u64);
    let q: u64 = (num as u64) / d;
    proof {
        let s = SCALE as int;
        let s4 = s * s * s * s;
        lemma_div_is_ordered(0, num as int, s4);
        lemma_div_is_ordered(num as int, s4 * s, s4);
        lemma_div_multiples_vanish(s, s4);
    }
    q as i64
}

/// The quintic numerator `t^3 (6t^2 - 15 SCALE t + 10 SCALE^2)` lies in
/// `[0, SCALE^5]` on the easing domain, and its factors are small enough
/// for 64-bit arithmetic.
proof fn lemma_quintic_numerator_bounds(t: int)
    requires
        0 <= t <= SCALE,
    ensures
        0 <= t * t <= 0x10_0000,
        0 <= t * t * t <= 0x4000_0000,
        0 <= 6 * (t * t) - 15 * SCALE * t + 10 * (SCALE * SCALE) <= 0x1000_0000,
        0 <= t * t * t * (6 * (t * t) - 15 * SCALE * t + 10 * (SCALE * SCALE)),
        t * t * t * (6 * (t * t) - 15 * SCALE * t + 10 * (SCALE * SCALE))
            <= (SCALE * SCALE) as int * (SCALE * SCALE) as int * (SCALE as int),
{
    let s = SCALE as int;
    assert(0 <= t * t <= 0x10_0000 && 0 <= t * t * t <= 0x4000_0000) by (nonlinear_arith)
        requires 0 <= t <= 1024;
    assert(8 * (6 * (t * t) - 15 * s * t + 10 * s * s)
        == 3 * (4 * t - 5 * s) * (4 * t - 5 * s) + 5 * s * s) by (nonlinear_arith);
    assert(3 * (4 * t - 5 * s) * (4 * t - 5 * s) + 5 * s * s >= 0) by (nonlinear_arith);
    assert(6 * (t * t) - 15 * s * t + 10 * s * s <= 0x1000_0000) by (nonlinear_arith)
        requires 0 <= t <= 1024 && s == 1024;
    assert(0 <= t * t * t * (6 * (t * t) - 15 * s * t + 10 * s * s)) by (nonlinear_arith)
        requires 0 <= t * t * t && 0 <= 6 * (t * t) - 15 * s * t + 10 * s * s;
    assert(s * s * s * s * s - t * t * t * (6 * (t * t) - 15 * s * t + 10 * s * s)
        == (s - t) * (s - t) * (s - t) * (s * s + 3 * s * t + 6 * (t * t)))
        by (nonlinear_arith)
        requires s == 1024;
    assert((s - t) * (s - t) * (s - t) * (s * s + 3 * s * t + 6 * (t * t)) >= 0)
        by (nonlinear_arith)
        requires 0 <= t <= s;
}

/// Interpolating between equal endpoints returns that endpoint, whatever
/// the weight.
pub proof fn lemma_lerp_same(a: int, w: int)
    ensures
        spec_lerp(a, a, w) == a,
{
    assert(w * (a - a) == 0) by (nonlinear_arith);
    assert(0int / (SCALE as int) == 0);
}

/// Interpolating with weight `0` returns the first endpoint.
pub proof fn lemma_lerp_zero_weight(a: int, b: int)
    ensures
        spec_lerp(a, b, 0) == a,
{
    assert(0 * (b - a) == 0) by (nonlinear_arith);
    assert(0 * (a - b) == 0) by (nonlinear_arith);
    assert(0int / (SCALE as int) == 0);
}

/// Interpolating with the full weight `SCALE` returns the second endpoint.
pub proof fn lemma_lerp_full_weight(a: int, b: int)
    ensures
        spec_lerp(a, b, SCALE as int) == b,
{
    let s = SCALE as int;
    if b >= a {
        lemma_div_multiples_vanish(b - a, s);
    } else {
        lemma_div_multiples_vanish(a - b, s);
    }
}

/// Both easing curves fix the endpoints of the unit interval exactly.
pub proof fn lemma_ease_endpoints()
    ensures
        spec_ease_cubic(0) == 0,
        spec_ease_cubic(SCALE as int) == SCALE,
        spec_ease_quintic(0) == 0,
        spec_ease_quintic(SCALE as int) == SCALE,
{
    let s = SCALE as int;
    assert(s == 1024);
    assert(cubic_numer(0) == 0 * 0 * (3 * s - 2 * 0));
    assert(quintic_numer(0) == 0 * 0 * 0 * (6 * (0 * 0) - 15 * s * 0 + 10 * (s * s)));
    assert(0 * 0 * (3 * s - 2 * 0) == 0) by (nonlinear_arith);
    assert(0 * 0 * 0 * (6 * (0 * 0) - 15 * s * 0 + 10 * (s * s)) == 0) by (nonlinear_arith);
    assert(cubic_numer(s) == (s * s) * s);
    assert(quintic_numer(s) == (s * s * s * s) * s);
    lemma_div_multiples_vanish(s, s * s);
    lemma_div_multiples_vanish(s, s * s * s * s);
    assert(0int / (s * s) == 0);
    assert(0int / (s * s * s * s) == 0);
}

/// The cubic easing curve is non-decreasing on `[0, SCALE]`.
pub proof fn lemma_ease_cubic_monotonic(t1: int, t2: int)
    requires
        0 <= t1 <= t2 <= SCALE,
    ensures
        spec_ease_cubic(t1) <= spec_ease_cubic(t2),
{
    let s = SCALE as int;
    let n1 = cubic_numer(t1);
    let n2 = cubic_numer(t2);
    assert(n1 == t1 * t1 * (3 * s - 2 * t1));
    assert(n2 == t2 * t2 * (3 * s - 2 * t2));
    assert(n2 - n1 == (t2 - t1) * (3 * s * (t1 + t2) - 2 * (t1 * t1 + t1 * t2 + t2 * t2)))
        by (nonlinear_arith)
        requires
            n1 == t1 * t1 * (3 * s - 2 * t1),
            n2 == t2 * t2 * (3 * s - 2 * t2);
    assert(3 * s * (t1 + t2) - 2 * (t1 * t1 + t1 * t2 + t2 * t2) >= 0) by (nonlinear_arith)
        requires 0 <= t1 <= t2 <= s;
    assert((t2 - t1) * (3 * s * (t1 + t2) - 2 * (t1 * t1 + t1 * t2 + t2 * t2)) >= 0)
        by (nonlinear_arith)
        requires t2 - t1 >= 0 && 3 * s * (t1 + t2) - 2 * (t1 * t1 + t1 * t2 + t2 * t2) >= 0;
    lemma_div_is_ordered(n1, n2, s * s);
}

/// One unit step never decreases the quintic numerator: the step equals
/// `30 a^2 + 30 a b + 10 b^2 - 20 a - 15 b + 6` for `a = t (SCALE - t)` and
/// `b = SCALE - 2t`, a quadratic form whose minimum over the reals is `1/6`.
proof fn lemma_quintic_numer_step(t: int)
    ensures
        quintic_numer(t) <= quintic_numer(t + 1),
{
    let s = SCALE as int;
    let a = t * (s - t);
    let b = s - 2 * t;
    let d = 30 * (a * a) + 30 * (a * b) + 10 * (b * b) - 20 * a - 15 * b + 6;
    let f0 = quintic_numer(t);
    let f1 = quintic_numer(t + 1);
    assert(f0 == t * t * t * (6 * (t * t) - 15 * s * t + 10 * (s * s)));
    assert(f1 == (t + 1) * (t + 1) * (t + 1)
        * (6 * ((t + 1) * (t + 1)) - 15 * s * (t + 1) + 10 * (s * s)));
    assert(f1 - f0 == d) by (nonlinear_arith)
        requires
            s == 1024,
            a == t * (s - t),
            b == s - 2 * t,
            d == 30 * (a * a) + 30 * (a * b) + 10 * (b * b) - 20 * a - 15 * b + 6,
            f0 == t * t * t * (6 * (t * t) - 15 * s * t + 10 * (s * s)),
            f1 == (t + 1) * (t + 1) * (t + 1)
                * (6 * ((t + 1) * (t + 1)) - 15 * s * (t + 1) + 10 * (s * s));
    assert(6 * d == 1 + 5 * ((6 * a + 3 * b - 2) * (6 * a + 3 * b - 2))
        + 15 * ((b - 1) * (b - 1))) by (nonlinear_arith)
        requires d == 30 * (a * a) + 30 * (a * b) + 10 * (b * b) - 20 * a - 15 * b + 6;
    assert((6 * a + 3 * b - 2) * (6 * a + 3 * b - 2) >= 0) by (nonlinear_arith);
    assert((b - 1) * (b - 1) >= 0) by (nonlinear_arith);
}

/// The quintic numerator is non-decreasing, by induction over unit steps.
proof fn lemma_quintic_numer_monotonic(t1: int, t2: int)
    requires
        t1 <= t2,
    ensures
        quintic_numer(t1) <= quintic_numer(t2),
    decreases t2 - t1,
{
    if t1 < t2 {
        lemma_quintic_numer_monotonic(t1, t2 - 1);
        lemma_quintic_numer_step(t2 - 1);
    }
}

/// The quintic easing curve is non-decreasing on `[0, SCALE]`.
pub proof fn lemma_ease_quintic_monotonic(t1: int, t2: int)
    requires
        0 <= t1 <= t2 <= SCALE,
    ensures
        spec_ease_quintic(t1) <= spec_ease_quintic(t2),
{
    let s = SCALE as int;
    lemma_quintic_numer_monotonic(t1, t2);
    lemma_div_is_ordered(quintic_numer(t1), quintic_numer(t2), s * s * s * s);
}

} // verus!
