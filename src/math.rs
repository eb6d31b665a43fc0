use vstd::prelude::*;
use vstd::arithmetic::div_mod::*;
use vstd::arithmetic::mul::*;

verus! {

pub open spec fn abs(v: int) -> int {
    if v < 0 { -v } else { v }
}

pub open spec fn min(a: int, b: int) -> int {
    if a <= b { a } else { b }
}

pub open spec fn max(a: int, b: int) -> int {
    if a >= b { a } else { b }
}

pub open spec fn clamp(v: int, lo: int, hi: int) -> int {
    if v < lo { lo } else if v > hi { hi } else { v }
}

/// Quotient of `n` by `d`, rounded toward zero (the rounding of Rust's `/`).
pub open spec fn div_toward_zero(n: int, d: int) -> int {
    let q = abs(n) / abs(d);
    if (n < 0) == (d < 0) { q } else { -q }
}

/// The straight line through `(x1, y1)` and `(x2, y2)`, evaluated at `x`.
pub open spec fn interpolate(x: int, x1: int, x2: int, y1: int, y2: int) -> int {
    y1 + div_toward_zero((x - x1) * (y2 - y1), x2 - x1)
}

/// `interpolate`, held inside the range spanned by `y1` and `y2`.
pub open spec fn clipped_interpolate(x: int, x1: int, x2: int, y1: int, y2: int) -> int {
    clamp(interpolate(x, x1, x2, y1, y2), min(y1, y2), max(y1, y2))
}

/// Magnitude of a difference of two `i64` values.
fn abs_diff(a: i64, b: i64) -> (r: u128)
    ensures
        r == abs(a - b),
        r <= 0xffff_ffff_ffff_ffff,
{
    if a >= b {
        (a as i128 - b as i128) as u128
    } else {
        (b as i128 - a as i128) as u128
    }
}

/// The offset from `y1` that `interpolate` adds, as a sign and a magnitude.
fn interpolation_offset(x: i64, x1: i64, x2: i64, y1: i64, y2: i64) -> (r: (bool, u128))
    requires
        x1 != x2,
    ensures
        div_toward_zero((x - x1) * (y2 - y1), x2 - x1) == if r.0 { -(r.1 as int) } else { r.1 as int },
        r.0 ==> r.1 > 0,
{
    let a = abs_diff(x, x1);
    let b = abs_diff(y2, y1);
    let d = abs_diff(x2, x1);
    proof {
        lemma_mul_upper_bound(a as int, 0xffff_ffff_ffff_ffff, b as int, 0xffff_ffff_ffff_ffff);
        assert(0xffff_ffff_ffff_ffffint * 0xffff_ffff_ffff_ffffint
            <= 0xffff_ffff_ffff_ffff_ffff_ffff_ffff_ffffint) by (nonlinear_arith);
    }
    let n = a * b;
    let q = n / d;
    let n_negative = (x < x1) != (y2 < y1);
    let negative = n_negative != (x2 < x1);
    proof {
        let ni = (x - x1) * (y2 - y1);
        assert(abs(ni) == a * b) by (nonlinear_arith)
            requires a == abs(x - x1), b == abs(y2 - y1), ni == (x - x1) * (y2 - y1);
        if n == 0 {
            assert(q == 0);
        } else {
            assert(a > 0 && b > 0) by (nonlinear_arith) requires n == a * b, n != 0;
            assert((ni < 0) == n_negative) by (nonlinear_arith)
                requires ni == (x - x1) * (y2 - y1), a == abs(x - x1), b == abs(y2 - y1),
                    a > 0, b > 0, n_negative == ((x < x1) != (y2 < y1));
        }
    }
    if q == 0 {
        (false, 0)
    } else {
        (negative, q)
    }
}

/// Linear interpolation through `(x1, y1)` and `(x2, y2)`, at `x`.
pub fn interpolation(x: i64, x1: i64, x2: i64, y1: i64, y2: i64) -> (r: i64)
    requires
        x1 != x2,
        i64::MIN <= interpolate(x as int, x1 as int, x2 as int, y1 as int, y2 as int) <= i64::MAX,
    ensures
        r == interpolate(x as int, x1 as int, x2 as int, y1 as int, y2 as int),
{
    let (negative, q) = interpolation_offset(x, x1, x2, y1, y2);
    let q = q as i128;
    if negative {
        (y1 as i128 - q) as i64
    } else {
        (y1 as i128 + q) as i64
    }
}

/// Linear interpolation through `(x1, y1)` and `(x2, y2)`, at `x`, held
/// between `y1` and `y2`.
pub fn clipped_interpolation(x: i64, x1: i64, x2: i64, y1: i64, y2: i64) -> (r: i64)
    requires
        x1 != x2,
    ensures
        r == clipped_interpolate(x as int, x1 as int, x2 as int, y1 as int, y2 as int),
{
    let (negative, q) = interpolation_offset(x, x1, x2, y1, y2);
    // Past this magnitude every offset lands outside the clipping range.
    let cap: u128 = 0x2_0000_0000_0000_0000;
    let q = if q > cap { cap as i128 } else { q as i128 };
    let y = if negative { y1 as i128 - q } else { y1 as i128 + q };
    let lower = if y1 <= y2 { y1 } else { y2 };
    let upper = if y1 <= y2 { y2 } else { y1 };
    if y < lower as i128 {
        lower
    } else if y > upper as i128 {
        upper
    } else {
        y as i64
    }
}

/// Interpolation passes through both of its points, and hits the midpoint of
/// `y1` and `y2` halfway between `x1` and `x2` (wherever both midpoints are
/// whole numbers).
pub proof fn lemma_interpolation_endpoints_and_midpoint(x1: int, x2: int, y1: int, y2: int)
    requires
        x1 != x2,
    ensures
        interpolate(x1, x1, x2, y1, y2) == y1,
        interpolate(x2, x1, x2, y1, y2) == y2,
        (x1 + x2) % 2 == 0 && (y1 + y2) % 2 == 0 ==>
            interpolate((x1 + x2) / 2, x1, x2, y1, y2) == (y1 + y2) / 2,
{
    let d = x2 - x1;
    let e = y2 - y1;
    assert(abs(0 * e) / abs(d) == 0) by (nonlinear_arith) requires d != 0;
    assert(abs(d * e) == abs(d) * abs(e)) by (nonlinear_arith);
    lemma_mul_is_commutative(abs(d), abs(e));
    lemma_div_by_multiple(abs(e), abs(d));
    assert((d * e < 0) == ((d < 0) != (e < 0)) || e == 0) by (nonlinear_arith) requires d != 0;
    if (x1 + x2) % 2 == 0 && (y1 + y2) % 2 == 0 {
        let h = d / 2;
        let k = e / 2;
        assert(d == 2 * h && e == 2 * k && (x1 + x2) / 2 - x1 == h);
        assert(abs(h * e) == abs(d) * abs(k)) by (nonlinear_arith)
            requires d == 2 * h, e == 2 * k;
        lemma_mul_is_commutative(abs(d), abs(k));
        lemma_div_by_multiple(abs(k), abs(d));
        assert((h * e < 0) == ((d < 0) != (k < 0)) || k == 0) by (nonlinear_arith)
            requires d == 2 * h, e == 2 * k, d != 0;
        assert(y1 + k == (y1 + y2) / 2);
    }
}

/// Clipped interpolation never leaves the range between `y1` and `y2`, however
/// far `x` lies outside `[x1, x2]`.
pub proof fn lemma_clipped_interpolation_in_range(x: int, x1: int, x2: int, y1: int, y2: int)
    requires
        x1 != x2,
    ensures
        min(y1, y2) <= clipped_interpolate(x, x1, x2, y1, y2) <= max(y1, y2),
{
}

/// The integer square root: the largest `r` with `r * r <= s`.
pub open spec fn int_sqrt(s: nat) -> nat
    decreases s,
{
    if s == 0 {
        0
    } else {
        let r = int_sqrt((s - 1) as nat);
        if (r + 1) * (r + 1) <= s { r + 1 } else { r }
    }
}

pub proof fn lemma_int_sqrt_bounds(s: nat)
    ensures
        int_sqrt(s) * int_sqrt(s) <= s,
        s < (int_sqrt(s) + 1) * (int_sqrt(s) + 1),
    decreases s,
{
    if s > 0 {
        let p = (s - 1) as nat;
        lemma_int_sqrt_bounds(p);
        let r = int_sqrt(p);
        assert(int_sqrt(s) == if (r + 1) * (r + 1) <= s { r + 1 } else { r });
        let t = int_sqrt(s);
        if (r + 1) * (r + 1) <= s {
            assert(s < (r + 2) * (r + 2)) by (nonlinear_arith)
                requires s - 1 < (r + 1) * (r + 1), r >= 0;
            assert(t == r + 1);
            assert(t * t <= s);
            assert((t + 1) * (t + 1) == (r + 2) * (r + 2));
            assert(s < (int_sqrt(s) + 1) * (int_sqrt(s) + 1));
        } else {
            assert(t == r);
            assert(t * t <= s);
            assert(s < (t + 1) * (t + 1));
            assert(s < (int_sqrt(s) + 1) * (int_sqrt(s) + 1));
        }
    } else {
        assert(int_sqrt(s) == 0);
        assert((0 + 1) * (0 + 1) == 1) by (nonlinear_arith);
    }
}

/// Only one value lies between the square roots' bounds.
pub proof fn lemma_int_sqrt_unique(s: nat, r: nat)
    requires
        r * r <= s,
        s < (r + 1) * (r + 1),
    ensures
        int_sqrt(s) == r,
{
    lemma_int_sqrt_bounds(s);
    let t = int_sqrt(s);
    if t < r {
        assert((t + 1) * (t + 1) <= r * r) by (nonlinear_arith) requires t + 1 <= r, t >= 0;
    } else if t > r {
        assert((r + 1) * (r + 1) <= t * t) by (nonlinear_arith) requires r + 1 <= t, r >= 0;
    }
}

/// A coordinate never exceeds the integer square root of a sum of squares
/// that holds it.
pub proof fn lemma_int_sqrt_covers(a: int, b: int)
    ensures
        abs(a) <= int_sqrt((a * a + b * b) as nat),
{
    assert(a * a + b * b >= 0) by (nonlinear_arith);
    let s = (a * a + b * b) as nat;
    lemma_int_sqrt_bounds(s);
    let t = int_sqrt(s);
    if abs(a) > t {
        assert((t + 1) * (t + 1) <= abs(a) * abs(a)) by (nonlinear_arith)
            requires abs(a) >= t + 1, t >= 0;
        assert(abs(a) * abs(a) == a * a) by (nonlinear_arith);
        assert(b * b >= 0) by (nonlinear_arith);
    }
}

/// The integer square root of `s`, by bisection.
pub fn isqrt(s: u64) -> (r: u64)
    ensures
        r == int_sqrt(s as nat),
{
    let mut lo: u64 = 0;
    let mut hi: u64 = 0x1_0000_0000;
    proof {
        assert(0x1_0000_0000int * 0x1_0000_0000int > 0xffff_ffff_ffff_ffffint) by (nonlinear_arith);
    }
    while hi - lo > 1
        invariant
            lo < hi <= 0x1_0000_0000,
            lo * lo <= s,
            s < hi * hi,
        decreases hi - lo,
    {
        let mid = lo + (hi - lo) / 2;
        proof {
            assert(mid * mid <= 0xffff_ffff_ffff_ffff) by (nonlinear_arith)
                requires mid < 0x1_0000_0000;
        }
        if mid * mid <= s {
            lo = mid;
        } else {
            hi = mid;
        }
    }
    proof {
        lemma_int_sqrt_unique(s as nat, lo as nat);
    }
    lo
}

/// `n / d`, rounded toward zero.
pub fn div_trunc(n: i64, d: i64) -> (r: i64)
    requires
        d > 0,
        n > i64::MIN,
    ensures
        r == div_toward_zero(n as int, d as int),
        abs(r as int) <= abs(n as int),
{
    proof {
        lemma_div_is_ordered_by_denominator(abs(n as int), 1, d as int);
    }
    if n >= 0 {
        ((n as u64) / (d as u64)) as i64
    } else {
        -(((-n) as u64 / d as u64) as i64)
    }
}

/// A quotient rounded toward zero is within `b` of zero once `|n| <= b * d`.
pub proof fn lemma_div_toward_zero_bound(n: int, d: int, b: int)
    requires
        d > 0,
        abs(n) <= b * d,
    ensures
        abs(div_toward_zero(n, d)) <= b,
{
    assert(b >= 0) by (nonlinear_arith) requires d > 0, abs(n) <= b * d, abs(n) >= 0;
    lemma_div_is_ordered(abs(n), b * d, d);
    lemma_div_by_multiple(b, d);
}

/// Wraps a coordinate onto the circle of the given extent (Euclidean remainder).
pub fn wrap(p: i64, extent: i64) -> (r: i64)
    requires
        extent > 0,
    ensures
        r == (p as int) % (extent as int),
        0 <= r < extent,
{
    if p >= 0 {
        ((p as u64) % (extent as u64)) as i64
    } else {
        let a: i128 = -(p as i128);
        let m = ((a as u128) % (extent as u128)) as i64;
        proof {
            let e = extent as int;
            let q = (a as int) / e;
            lemma_fundamental_div_mod(a as int, e);
            if m == 0 {
                assert(p == (-q) * e) by (nonlinear_arith) requires a == q * e + 0, p == -a;
                lemma_fundamental_div_mod_converse_mod(p as int, e, -q, 0);
            } else {
                assert(p == (-q - 1) * e + (e - m)) by (nonlinear_arith)
                    requires a == q * e + m, p == -a;
                lemma_fundamental_div_mod_converse_mod(p as int, e, -q - 1, e - m);
            }
        }
        if m == 0 {
            0
        } else {
            extent - m
        }
    }
}

/// A coordinate that overshoots by at most one extent on either side comes
/// back inside `[0, extent)`, shifted by exactly one extent.
pub proof fn lemma_wrap_single_overflow(p: int, extent: int)
    requires
        extent > 0,
        -extent <= p < 2 * extent,
    ensures
        0 <= p % extent < extent,
        p < 0 ==> p % extent == p + extent,
        0 <= p < extent ==> p % extent == p,
        p >= extent ==> p % extent == p - extent,
{
    if p < 0 {
        lemma_fundamental_div_mod_converse_mod(p, extent, -1, p + extent);
    } else if p < extent {
        lemma_fundamental_div_mod_converse_mod(p, extent, 0, p);
    } else {
        lemma_fundamental_div_mod_converse_mod(p, extent, 1, p - extent);
    }
    lemma_mod_bound(p, extent);
}

} // verus!
