//! Fixed-point arithmetic shared by the whole engine.
//!
//! Every quantity of the simulation (a coordinate, a velocity component, a
//! duration, a dimensionless factor) is a signed integer counting millionths:
//! `UNIT` stands for one pixel, one pixel per second, one second, or the
//! factor one. Quotients are rounded toward zero, square roots downward.

use vstd::prelude::*;
use vstd::arithmetic::div_mod::lemma_fundamental_div_mod_converse;

verus! {

/// The fixed-point representation of the number one.
pub const UNIT: i64 = 1_000_000;

/// The largest magnitude that a coordinate, a velocity component or a
/// configuration constant may have: two to the power of forty, which is
/// more than a million units. It is the largest power of two for which the
/// products that a collision needs still fit into 128 bits.
pub const LIMIT: i64 = 0x100_0000_0000;

/// `v` lies in the closed range from `-LIMIT` to `LIMIT`.
pub open spec fn within_limit(v: int) -> bool {
    -LIMIT <= v <= LIMIT
}

/// The magnitude of `v`.
pub open spec fn magnitude(v: int) -> int {
    if v >= 0 {
        v
    } else {
        -v
    }
}

/// The quotient of `a` by a positive `b`, rounded toward zero.
pub open spec fn div_toward_zero(a: int, b: int) -> int {
    if a >= 0 {
        a / b
    } else {
        -((-a) / b)
    }
}

/// The fixed-point product of `a` and `b`.
pub open spec fn scaled(a: int, b: int) -> int {
    div_toward_zero(a * b, UNIT as int)
}

/// `v` moved to the nearest value within the limit.
pub open spec fn saturated(v: int) -> int {
    if v > LIMIT {
        LIMIT as int
    } else if v < -LIMIT {
        -LIMIT
    } else {
        v
    }
}

/// `r` is the integer square root of `n`: the largest integer whose square
/// does not exceed `n`.
pub open spec fn is_int_sqrt(n: int, r: int) -> bool {
    0 <= r && r * r <= n < (r + 1) * (r + 1)
}

/// The integer square root of a natural number.
pub open spec fn int_sqrt(n: int) -> int {
    choose|r: int| is_int_sqrt(n, r)
}

/// Every natural number has an integer square root.
pub proof fn lemma_int_sqrt_exists(n: int)
    requires
        n >= 0,
    ensures
        is_int_sqrt(n, int_sqrt(n)),
    decreases n,
{
    if n == 0 {
        assert(is_int_sqrt(0, 0));
    } else {
        lemma_int_sqrt_exists(n - 1);
        let r = int_sqrt(n - 1);
        if (r + 1) * (r + 1) <= n {
            assert((r + 1) * (r + 1) < (r + 2) * (r + 2)) by (nonlinear_arith)
                requires
                    r >= 0,
            ;
            assert(is_int_sqrt(n, r + 1));
        } else {
            assert(is_int_sqrt(n, r));
        }
    }
}

/// A number has only one integer square root.
pub proof fn lemma_int_sqrt_unique(n: int, r: int)
    requires
        is_int_sqrt(n, r),
    ensures
        int_sqrt(n) == r,
{
    let s = int_sqrt(n);
    assert(is_int_sqrt(n, s));
    assert(s == r) by (nonlinear_arith)
        requires
            0 <= r,
            0 <= s,
            r * r <= n < (r + 1) * (r + 1),
            s * s <= n < (s + 1) * (s + 1),
    ;
}

/// The root of a number lies below `d` exactly when the number lies below
/// the square of `d`.
pub proof fn lemma_int_sqrt_below(n: int, d: int)
    requires
        0 <= n,
        0 <= d,
    ensures
        int_sqrt(n) < d <==> n < d * d,
{
    lemma_int_sqrt_exists(n);
    let r = int_sqrt(n);
    assert(r < d <==> n < d * d) by (nonlinear_arith)
        requires
            0 <= r,
            0 <= d,
            r * r <= n < (r + 1) * (r + 1),
    ;
}

/// A product is bounded by the product of the bounds of its factors.
pub proof fn lemma_product_bound(a: int, b: int, ma: int, mb: int)
    requires
        -ma <= a <= ma,
        -mb <= b <= mb,
    ensures
        -(ma * mb) <= a * b <= ma * mb,
{
    assert(-(ma * mb) <= a * b <= ma * mb) by (nonlinear_arith)
        requires
            -ma <= a <= ma,
            -mb <= b <= mb,
    ;
}

/// Rounding toward zero never takes a quotient away from zero, and is odd.
pub proof fn lemma_div_toward_zero_bound(a: int, b: int, m: int)
    requires
        b >= 1,
        -m <= a <= m,
    ensures
        -m <= div_toward_zero(a, b) <= m,
        div_toward_zero(-a, b) == -div_toward_zero(a, b),
        a >= 0 ==> 0 <= div_toward_zero(a, b),
        a <= 0 ==> div_toward_zero(a, b) <= 0,
{
    if a >= 0 {
        assert(0 <= a / b <= a) by (nonlinear_arith)
            requires
                a >= 0,
                b >= 1,
        ;
    } else {
        assert(0 <= (-a) / b <= -a) by (nonlinear_arith)
            requires
                a < 0,
                b >= 1,
        ;
    }
}

/// Rounding toward zero keeps the order of the quotients.
pub proof fn lemma_div_toward_zero_monotonic(a: int, c: int, b: int)
    requires
        b >= 1,
        a <= c,
    ensures
        div_toward_zero(a, b) <= div_toward_zero(c, b),
{
    if a >= 0 {
        assert(a / b <= c / b) by (nonlinear_arith)
            requires
                0 <= a <= c,
                b >= 1,
        ;
    } else if c >= 0 {
        lemma_div_toward_zero_bound(a, b, -a);
        lemma_div_toward_zero_bound(c, b, c);
    } else {
        assert((-c) / b <= (-a) / b) by (nonlinear_arith)
            requires
                0 <= -c <= -a,
                b >= 1,
        ;
    }
}

/// Rounding toward zero changes a quotient by less than one: what is left
/// of `a` after the quotient has been taken `b` times is less than `b`.
pub proof fn lemma_div_toward_zero_remainder(a: int, b: int)
    requires
        b >= 1,
    ensures
        -b < a - div_toward_zero(a, b) * b < b,
{
    if a >= 0 {
        assert(0 <= a - (a / b) * b < b) by (nonlinear_arith)
            requires
                a >= 0,
                b >= 1,
        ;
    } else {
        assert(0 <= (-a) - ((-a) / b) * b < b && (-((-a) / b)) * b == -(((-a) / b) * b))
            by (nonlinear_arith)
            requires
                a < 0,
                b >= 1,
        ;
    }
}

/// Dividing a multiple of `b` by `b` is exact.
pub proof fn lemma_div_toward_zero_exact(k: int, b: int)
    requires
        b >= 1,
    ensures
        div_toward_zero(k * b, b) == k,
{
    if k >= 0 {
        assert(k * b >= 0 && (k * b) / b == k) by (nonlinear_arith)
            requires
                k >= 0,
                b >= 1,
        ;
    } else {
        assert(k * b < 0 && (-(k * b)) / b == -k) by (nonlinear_arith)
            requires
                k < 0,
                b >= 1,
        ;
    }
}

/// The quotient of `a` by `b`, rounded toward zero.
pub fn div_trunc(a: i128, b: i128) -> (q: i128)
    requires
        b >= 1,
    ensures
        q == div_toward_zero(a as int, b as int),
{
    proof {
        lemma_div_toward_zero_bound(a as int, b as int, if a >= 0 { a as int } else { -a });
    }
    a / b
}

/// The fixed-point product of `a` and `b`.
pub fn scale(a: i64, b: i64) -> (r: i128)
    ensures
        r == scaled(a as int, b as int),
{
    proof {
        lemma_product_bound(
            a as int,
            b as int,
            0x8000_0000_0000_0000,
            0x8000_0000_0000_0000,
        );
    }
    let wide: i128 = (a as i128) * (b as i128);
    div_trunc(wide, UNIT as i128)
}

/// `v` moved to the nearest value within the limit.
pub fn saturate(v: i128) -> (r: i64)
    ensures
        r == saturated(v as int),
        within_limit(r as int),
{
    if v > LIMIT as i128 {
        LIMIT
    } else if v < -(LIMIT as i128) {
        -LIMIT
    } else {
        v as i64
    }
}

/// The coordinate `x` carried into a span of the given positive `width`: the
/// remainder of the Euclidean division of `x` by `width`. A point that left
/// through one edge comes back in at the opposite one.
pub fn wrap_coordinate(x: i128, width: i64) -> (r: i64)
    requires
        width >= 1,
    ensures
        r == (x as int) % (width as int),
        0 <= r < width,
        x == width ==> r == 0,
{
    let m: i128 = x % (width as i128);
    proof {
        let w = width as int;
        if x < 0 {
            let q = (-x) / w;
            let r0 = (-x) % w;
            assert(-x == q * w + r0 && 0 <= r0 < w) by (nonlinear_arith)
                requires
                    q == (-x) / w,
                    r0 == (-x) % w,
                    w > 0,
            ;
            if r0 == 0 {
                assert(x == (-q) * w + 0) by (nonlinear_arith)
                    requires
                        -x == q * w + r0,
                        r0 == 0,
                ;
                lemma_fundamental_div_mod_converse(x as int, w, -q, 0);
            } else {
                assert(x == (-q - 1) * w + (w - r0)) by (nonlinear_arith)
                    requires
                        -x == q * w + r0,
                ;
                lemma_fundamental_div_mod_converse(x as int, w, -q - 1, w - r0);
            }
        } else {
            assert(0 <= (x as int) % w < w) by (nonlinear_arith)
                requires
                    w > 0,
            ;
        }
        if x == width {
            lemma_fundamental_div_mod_converse(x as int, w, 1, 0);
        }
    }
    if m < 0 {
        (m + width as i128) as i64
    } else {
        m as i64
    }
}

/// The integer square root of `n`.
pub fn isqrt(n: u128) -> (r: u64)
    ensures
        is_int_sqrt(n as int, r as int),
        r == int_sqrt(n as int),
{
    let mut lo: u128 = 0;
    let mut hi: u128 = 0x1_0000_0000_0000_0000;
    assert(hi * hi > u128::MAX) by (nonlinear_arith)
        requires
            hi == 0x1_0000_0000_0000_0000,
    ;
    while hi - lo > 1
        invariant
            lo < hi <= 0x1_0000_0000_0000_0000,
            lo * lo <= n < hi * hi,
        decreases hi - lo,
    {
        let mid: u128 = lo + (hi - lo) / 2;
        assert(mid * mid <= u128::MAX) by (nonlinear_arith)
            requires
                0 <= mid <= 0xffff_ffff_ffff_ffff,
        ;
        if mid * mid <= n {
            lo = mid;
        } else {
            hi = mid;
        }
    }
    proof {
        lemma_int_sqrt_unique(n as int, lo as int);
    }
    lo as u64
}

} // verus!
