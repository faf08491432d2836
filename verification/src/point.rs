//! The simulated particle and the geometry of a pair of particles.

use vstd::prelude::*;
use crate::fixed::{
    div_toward_zero, div_trunc, int_sqrt, isqrt, lemma_div_toward_zero_bound,
    lemma_div_toward_zero_exact, lemma_div_toward_zero_monotonic,
    lemma_div_toward_zero_remainder, lemma_int_sqrt_exists,
    lemma_product_bound, magnitude, within_limit, LIMIT, UNIT,
};

verus! {

/// A place on the screen, in fixed-point representation.
#[derive(Copy, Clone, Debug, PartialEq, Eq, Structural)]
pub struct Position {
    pub x: i64,
    pub y: i64,
}

/// A particle: a position in screen coordinates and a velocity, all four in
/// fixed-point representation.
#[derive(Copy, Clone, Debug, PartialEq, Eq, Structural)]
pub struct Point {
    pub x: i64,
    pub y: i64,
    pub xv: i64,
    pub yv: i64,
}

/// The square of the length of the vector `(dx, dy)`.
pub open spec fn norm2(dx: int, dy: int) -> int {
    dx * dx + dy * dy
}

/// The length of the vector `(dx, dy)`, rounded down.
pub open spec fn norm(dx: int, dy: int) -> int {
    int_sqrt(norm2(dx, dy))
}

/// The vector `(dx, dy)` stretched or shrunk to the given length; the zero
/// vector has no direction and stays as it is.
pub open spec fn directed(dx: int, dy: int, length: int) -> (int, int) {
    let d = norm(dx, dy);
    if d == 0 {
        (0, 0)
    } else {
        (div_toward_zero(dx * length, d), div_toward_zero(dy * length, d))
    }
}

/// The part of the velocity of `p` relative to `q` that lies along the line
/// from `p` to `q`. Two points at one place have no such line, and the
/// result is zero.
pub open spec fn normal_exchange(p: Point, q: Point) -> (int, int) {
    let dx = q.x - p.x;
    let dy = q.y - p.y;
    let along = (p.xv - q.xv) * dx + (p.yv - q.yv) * dy;
    if norm2(dx, dy) == 0 {
        (0, 0)
    } else {
        (div_toward_zero(along * dx, norm2(dx, dy)), div_toward_zero(along * dy, norm2(dx, dy)))
    }
}

/// The exchange between `p` and `q` leaves every component of the two
/// velocities within the limit.
pub open spec fn can_exchange(p: Point, q: Point) -> bool {
    let j = normal_exchange(p, q);
    &&& within_limit(p.xv - j.0)
    &&& within_limit(p.yv - j.1)
    &&& within_limit(q.xv + j.0)
    &&& within_limit(q.yv + j.1)
}

/// The two points after an elastic collision between equal masses: the parts
/// of their velocities along the line that joins them change places, the parts
/// across it stay, and so do the positions. Where the exchange would take a
/// component of a velocity beyond the limit, the collision does not take
/// place, and both points keep their velocities.
pub open spec fn collided(p: Point, q: Point) -> (Point, Point) {
    let j = normal_exchange(p, q);
    if can_exchange(p, q) {
        (
            Point { x: p.x, y: p.y, xv: (p.xv - j.0) as i64, yv: (p.yv - j.1) as i64 },
            Point { x: q.x, y: q.y, xv: (q.xv + j.0) as i64, yv: (q.yv + j.1) as i64 },
        )
    } else {
        (p, q)
    }
}

/// No component of a vector is longer than the vector itself, so bringing a
/// vector to a length gives components no longer than that length.
pub proof fn lemma_directed_bound(dx: int, dy: int, length: int)
    ensures
        magnitude(directed(dx, dy, length).0) <= magnitude(length),
        magnitude(directed(dx, dy, length).1) <= magnitude(length),
{
    let d = norm(dx, dy);
    assert(norm2(dx, dy) >= 0) by (nonlinear_arith)
        requires
            norm2(dx, dy) == dx * dx + dy * dy,
    ;
    lemma_int_sqrt_exists(norm2(dx, dy));
    if d != 0 {
        assert(-d <= dx <= d && -d <= dy <= d) by (nonlinear_arith)
            requires
                d >= 0,
                dx * dx + dy * dy < (d + 1) * (d + 1),
        ;
        let m = magnitude(length);
        assert(-(m * d) <= dx * length <= m * d && -(m * d) <= dy * length <= m * d)
            by (nonlinear_arith)
            requires
                -d <= dx <= d,
                -d <= dy <= d,
                -m <= length <= m,
        ;
        lemma_div_toward_zero_exact(m, d);
        lemma_div_toward_zero_exact(-m, d);
        assert((-m) * d == -(m * d)) by (nonlinear_arith);
        lemma_div_toward_zero_monotonic(-(m * d), dx * length, d);
        lemma_div_toward_zero_monotonic(dx * length, m * d, d);
        lemma_div_toward_zero_monotonic(-(m * d), dy * length, d);
        lemma_div_toward_zero_monotonic(dy * length, m * d, d);
    }
}

/// The vector `(dx, dy)` brought to the given length.
pub fn direct(dx: i64, dy: i64, length: i64) -> (v: (i64, i64))
    requires
        -2 * LIMIT <= dx <= 2 * LIMIT,
        -2 * LIMIT <= dy <= 2 * LIMIT,
        i64::MIN < length,
    ensures
        v.0 == directed(dx as int, dy as int, length as int).0,
        v.1 == directed(dx as int, dy as int, length as int).1,
{
    proof {
        lemma_product_bound(dx as int, dx as int, 0x200_0000_0000, 0x200_0000_0000);
        lemma_product_bound(dy as int, dy as int, 0x200_0000_0000, 0x200_0000_0000);
        lemma_product_bound(dx as int, length as int, 0x200_0000_0000, 0x8000_0000_0000_0000);
        lemma_product_bound(dy as int, length as int, 0x200_0000_0000, 0x8000_0000_0000_0000);
        assert(dx * dx >= 0 && dy * dy >= 0) by (nonlinear_arith);
        lemma_directed_bound(dx as int, dy as int, length as int);
    }
    let wide_x: i128 = dx as i128;
    let wide_y: i128 = dy as i128;
    let square: i128 = wide_x * wide_x + wide_y * wide_y;
    let d: u64 = isqrt(square as u128);
    if d == 0 {
        (0, 0)
    } else {
        (
            div_trunc(wide_x * (length as i128), d as i128) as i64,
            div_trunc(wide_y * (length as i128), d as i128) as i64,
        )
    }
}

impl Point {
    /// The position lies within the limit, and so does the velocity.
    pub open spec fn wf(&self) -> bool {
        &&& within_limit(self.x as int)
        &&& within_limit(self.y as int)
        &&& within_limit(self.xv as int)
        &&& within_limit(self.yv as int)
    }

    /// Where the point is.
    pub open spec fn position(&self) -> Position {
        Position { x: self.x, y: self.y }
    }

    /// The square of the speed.
    pub open spec fn speed2(&self) -> int {
        norm2(self.xv as int, self.yv as int)
    }

    /// Whether the point is well formed.
    pub fn is_valid(&self) -> (ok: bool)
        ensures
            ok == self.wf(),
    {
        -LIMIT <= self.x && self.x <= LIMIT && -LIMIT <= self.y && self.y <= LIMIT
            && -LIMIT <= self.xv && self.xv <= LIMIT && -LIMIT <= self.yv
            && self.yv <= LIMIT
    }

    /// The distance between two points, rounded down.
    pub fn distance(p: &Point, q: &Point) -> (d: i64)
        requires
            p.wf(),
            q.wf(),
        ensures
            d == norm(q.x - p.x, q.y - p.y),
            0 <= d <= 4 * LIMIT,
    {
        let dx: i128 = (q.x - p.x) as i128;
        let dy: i128 = (q.y - p.y) as i128;
        proof {
            lemma_product_bound(dx as int, dx as int, 0x200_0000_0000, 0x200_0000_0000);
            lemma_product_bound(dy as int, dy as int, 0x200_0000_0000, 0x200_0000_0000);
            assert(dx * dx >= 0 && dy * dy >= 0) by (nonlinear_arith);
        }
        let square: i128 = dx * dx + dy * dy;
        let d: u64 = isqrt(square as u128);
        proof {
            assert(d <= 4 * LIMIT) by (nonlinear_arith)
                requires
                    d * d <= square,
                    square <= 0x8_0000_0000_0000_0000_0000,
                    LIMIT == 0x100_0000_0000,
                    d >= 0,
            ;
        }
        d as i64
    }

    /// The vector of length one that points from this point to the other,
    /// held in the position of a point at rest; the zero vector if the two
    /// are at one place.
    pub fn direction_to(&self, other: &Point) -> (unit: Point)
        requires
            self.wf(),
            other.wf(),
        ensures
            unit.x == directed(other.x - self.x, other.y - self.y, UNIT as int).0,
            unit.y == directed(other.x - self.x, other.y - self.y, UNIT as int).1,
            unit.xv == 0,
            unit.yv == 0,
            unit.wf(),
    {
        proof {
            lemma_directed_bound(other.x - self.x, other.y - self.y, UNIT as int);
        }
        let v = direct(other.x - self.x, other.y - self.y, UNIT);
        Point { x: v.0, y: v.1, xv: 0, yv: 0 }
    }

    /// The difference of two points, component by component.
    pub fn sub(&self, other: &Point) -> (r: Point)
        requires
            self.wf(),
            other.wf(),
        ensures
            r.x == self.x - other.x,
            r.y == self.y - other.y,
            r.xv == self.xv - other.xv,
            r.yv == self.yv - other.yv,
    {
        Point {
            x: self.x - other.x,
            y: self.y - other.y,
            xv: self.xv - other.xv,
            yv: self.yv - other.yv,
        }
    }

    /// An elastic collision between two points of equal mass. Two points at
    /// one place are left as they are, and so are two points so fast that
    /// the exchange would take a velocity beyond the limit.
    pub fn elastic_collision(p: &mut Point, q: &mut Point)
        requires
            old(p).wf(),
            old(q).wf(),
        ensures
            *final(p) == collided(*old(p), *old(q)).0,
            *final(q) == collided(*old(p), *old(q)).1,
            final(p).wf(),
            final(q).wf(),
    {
        let dx: i128 = (q.x - p.x) as i128;
        let dy: i128 = (q.y - p.y) as i128;
        let dvx: i128 = (p.xv - q.xv) as i128;
        let dvy: i128 = (p.yv - q.yv) as i128;
        proof {
            lemma_product_bound(dx as int, dx as int, 0x200_0000_0000, 0x200_0000_0000);
            lemma_product_bound(dy as int, dy as int, 0x200_0000_0000, 0x200_0000_0000);
            lemma_product_bound(dvx as int, dx as int, 0x200_0000_0000, 0x200_0000_0000);
            lemma_product_bound(dvy as int, dy as int, 0x200_0000_0000, 0x200_0000_0000);
            assert(dx * dx >= 0 && dy * dy >= 0) by (nonlinear_arith);
        }
        let square: i128 = dx * dx + dy * dy;
        if square != 0 {
            let along: i128 = dvx * dx + dvy * dy;
            proof {
                lemma_product_bound(
                    along as int,
                    dx as int,
                    0x8_0000_0000_0000_0000_0000,
                    0x200_0000_0000,
                );
                lemma_product_bound(
                    along as int,
                    dy as int,
                    0x8_0000_0000_0000_0000_0000,
                    0x200_0000_0000,
                );
            }
            let jx: i128 = div_trunc(along * dx, square);
            let jy: i128 = div_trunc(along * dy, square);
            proof {
                lemma_div_toward_zero_bound(
                    along * dx,
                    square as int,
                    0x1000_0000_0000_0000_0000_0000_0000_0000,
                );
                lemma_div_toward_zero_bound(
                    along * dy,
                    square as int,
                    0x1000_0000_0000_0000_0000_0000_0000_0000,
                );
            }
            let pxv: i128 = p.xv as i128 - jx;
            let pyv: i128 = p.yv as i128 - jy;
            let qxv: i128 = q.xv as i128 + jx;
            let qyv: i128 = q.yv as i128 + jy;
            let limit: i128 = LIMIT as i128;
            if -limit <= pxv && pxv <= limit && -limit <= pyv && pyv <= limit && -limit <= qxv
                && qxv <= limit && -limit <= qyv && qyv <= limit {
                p.xv = pxv as i64;
                p.yv = pyv as i64;
                q.xv = qxv as i64;
                q.yv = qyv as i64;
            }
        }
    }
}

/// In a head-on collision the two points exchange their velocities, so the
/// two speeds are the same two speeds after it as before. A collision is
/// head-on when the velocity of one point relative to the other lies along
/// the line that joins them, as it does whenever neither point moves across
/// that line.
pub proof fn lemma_head_on_collision_exchanges_velocities(p: Point, q: Point)
    requires
        p.wf(),
        q.wf(),
        p.x != q.x || p.y != q.y,
        (p.xv - q.xv) * (q.y - p.y) == (p.yv - q.yv) * (q.x - p.x),
    ensures
        collided(p, q).0 == (Point { x: p.x, y: p.y, xv: q.xv, yv: q.yv }),
        collided(p, q).1 == (Point { x: q.x, y: q.y, xv: p.xv, yv: p.yv }),
        collided(p, q).0.speed2() == q.speed2(),
        collided(p, q).1.speed2() == p.speed2(),
{
    let dx = q.x - p.x;
    let dy = q.y - p.y;
    let dvx = p.xv - q.xv;
    let dvy = p.yv - q.yv;
    let along = dvx * dx + dvy * dy;
    let square = norm2(dx, dy);
    assert(square >= 1) by (nonlinear_arith)
        requires
            square == dx * dx + dy * dy,
            dx != 0 || dy != 0,
    ;
    assert(along * dx == dvx * square) by (nonlinear_arith)
        requires
            along == dvx * dx + dvy * dy,
            square == dx * dx + dy * dy,
            dvx * dy == dvy * dx,
    ;
    assert(along * dy == dvy * square) by (nonlinear_arith)
        requires
            along == dvx * dx + dvy * dy,
            square == dx * dx + dy * dy,
            dvx * dy == dvy * dx,
    ;
    lemma_div_toward_zero_exact(dvx, square);
    lemma_div_toward_zero_exact(dvy, square);
}

/// A collision does not depend on which of the two points is named first.
pub proof fn lemma_collision_is_symmetric(p: Point, q: Point)
    ensures
        collided(q, p).0 == collided(p, q).1,
        collided(q, p).1 == collided(p, q).0,
{
    let dx = q.x - p.x;
    let dy = q.y - p.y;
    let along = (p.xv - q.xv) * dx + (p.yv - q.yv) * dy;
    let back = (q.xv - p.xv) * (p.x - q.x) + (q.yv - p.yv) * (p.y - q.y);
    assert(back == along) by (nonlinear_arith)
        requires
            along == (p.xv - q.xv) * dx + (p.yv - q.yv) * dy,
            back == (q.xv - p.xv) * (p.x - q.x) + (q.yv - p.yv) * (p.y - q.y),
            dx == q.x - p.x,
            dy == q.y - p.y,
    ;
    assert(norm2(p.x - q.x, p.y - q.y) == norm2(dx, dy) && norm2(dx, dy) >= 0)
        by (nonlinear_arith)
        requires
            dx == q.x - p.x,
            dy == q.y - p.y,
            norm2(dx, dy) == dx * dx + dy * dy,
            norm2(p.x - q.x, p.y - q.y) == (p.x - q.x) * (p.x - q.x) + (p.y - q.y) * (p.y - q.y),
    ;
    if norm2(dx, dy) != 0 {
        assert(along * (p.x - q.x) == -(along * dx) && along * (p.y - q.y) == -(along * dy))
            by (nonlinear_arith)
            requires
                dx == q.x - p.x,
                dy == q.y - p.y,
        ;
        lemma_div_toward_zero_bound(along * dx, norm2(dx, dy), magnitude(along * dx));
        lemma_div_toward_zero_bound(along * dy, norm2(dx, dy), magnitude(along * dy));
    }
}

/// The velocity that a collision moves from one point to the other is no
/// larger, in either component, than the two components of the velocity of
/// the one point relative to the other taken together.
pub proof fn lemma_exchange_is_bounded(p: Point, q: Point)
    ensures
        magnitude(normal_exchange(p, q).0) <= magnitude(p.xv - q.xv) + magnitude(p.yv - q.yv),
        magnitude(normal_exchange(p, q).1) <= magnitude(p.xv - q.xv) + magnitude(p.yv - q.yv),
{
    let dx = q.x - p.x;
    let dy = q.y - p.y;
    let dvx = p.xv - q.xv;
    let dvy = p.yv - q.yv;
    let along = dvx * dx + dvy * dy;
    let square = norm2(dx, dy);
    let s = magnitude(dvx) + magnitude(dvy);
    assert(square >= 0 && -square <= dx * dy <= square && dx * dx <= square && dy * dy <= square
        && dx * dx >= 0 && dy * dy >= 0) by (nonlinear_arith)
        requires
            square == dx * dx + dy * dy,
    ;
    if square != 0 {
        lemma_product_bound(dvx, dx * dx, magnitude(dvx), square);
        lemma_product_bound(dvy, dx * dy, magnitude(dvy), square);
        lemma_product_bound(dvx, dx * dy, magnitude(dvx), square);
        lemma_product_bound(dvy, dy * dy, magnitude(dvy), square);
        assert(along * dx == dvx * (dx * dx) + dvy * (dx * dy) && along * dy == dvx * (dx * dy)
            + dvy * (dy * dy) && s * square == magnitude(dvx) * square + magnitude(dvy) * square
            && (-s) * square == -(s * square)) by (nonlinear_arith)
            requires
                along == dvx * dx + dvy * dy,
                s == magnitude(dvx) + magnitude(dvy),
        ;
        lemma_div_toward_zero_exact(s, square);
        lemma_div_toward_zero_exact(-s, square);
        lemma_div_toward_zero_monotonic((-s) * square, along * dx, square);
        lemma_div_toward_zero_monotonic(along * dx, s * square, square);
        lemma_div_toward_zero_monotonic((-s) * square, along * dy, square);
        lemma_div_toward_zero_monotonic(along * dy, s * square, square);
    }
}

/// Between two points that are slow enough, the collision always takes
/// place: it is enough that five times each component of the two velocities
/// lies within the limit.
pub proof fn lemma_slow_points_exchange(p: Point, q: Point)
    requires
        within_limit(5 * p.xv),
        within_limit(5 * p.yv),
        within_limit(5 * q.xv),
        within_limit(5 * q.yv),
    ensures
        can_exchange(p, q),
{
    lemma_exchange_is_bounded(p, q);
}

proof fn lemma_scaled_squares(a: int, x: int, y: int)
    ensures
        (a * x) * (a * x) + (a * y) * (a * y) == (a * a) * (x * x + y * y),
{
    assert((a * x) * (a * x) == (a * a) * (x * x)) by (nonlinear_arith);
    assert((a * y) * (a * y) == (a * a) * (y * y)) by (nonlinear_arith);
    assert((a * a) * (x * x + y * y) == (a * a) * (x * x) + (a * a) * (y * y))
        by (nonlinear_arith);
}

proof fn lemma_scaled_products(a: int, d: int, x: int, y: int, v: int, w: int)
    ensures
        (a * x) * (d * v) + (a * y) * (d * w) == (a * d) * (v * x + w * y),
{
    assert((a * x) * (d * v) == (a * d) * (v * x)) by (nonlinear_arith);
    assert((a * y) * (d * w) == (a * d) * (w * y)) by (nonlinear_arith);
    assert((a * d) * (v * x + w * y) == (a * d) * (v * x) + (a * d) * (w * y))
        by (nonlinear_arith);
}

proof fn lemma_rounded_square(j: int, d: int, v: int, u: int, r: int)
    requires
        r == u - j * d,
    ensures
        d * d * (j * (j - v)) == u * (u - d * v) - r * (2 * u - d * v) + r * r,
{
    let t = j * d;
    let z = d * v;
    assert(d * d * (j * (j - v)) == t * (t - z)) by (nonlinear_arith)
        requires
            t == j * d,
            z == d * v,
    ;
    assert(t * (t - z) == u * (u - z) - r * (2 * u - z) + r * r) by (nonlinear_arith)
        requires
            r == u - t,
    ;
}

proof fn lemma_mirrored(v: int, w: int, x: int, y: int)
    ensures
        2 * ((v * x + w * y) * x) - (x * x + y * y) * v == v * (x * x - y * y) + w * (2 * (x * y)),
        2 * ((v * x + w * y) * y) - (x * x + y * y) * w == v * (2 * (x * y)) - w * (x * x - y * y),
{
    assert((v * x + w * y) * x == v * (x * x) + w * (x * y)) by (nonlinear_arith);
    assert((v * x + w * y) * y == v * (x * y) + w * (y * y)) by (nonlinear_arith);
    assert((x * x + y * y) * v == v * (x * x) + v * (y * y)) by (nonlinear_arith);
    assert((x * x + y * y) * w == w * (x * x) + w * (y * y)) by (nonlinear_arith);
    assert(v * (x * x - y * y) == v * (x * x) - v * (y * y)) by (nonlinear_arith);
    assert(w * (x * x - y * y) == w * (x * x) - w * (y * y)) by (nonlinear_arith);
    assert(w * (2 * (x * y)) == 2 * (w * (x * y))) by (nonlinear_arith);
    assert(v * (2 * (x * y)) == 2 * (v * (x * y))) by (nonlinear_arith);
}

/// A collision keeps the sum of the squares of the two speeds, up to the
/// rounding of the velocity that it moves from one point to the other: each
/// component of that velocity is rounded by less than one, and so the sum
/// changes by no more than four, and four times the two components of the
/// velocity of the one point relative to the other.
pub proof fn lemma_collision_keeps_energy(p: Point, q: Point)
    ensures
        magnitude(
            collided(p, q).0.speed2() + collided(p, q).1.speed2() - (p.speed2() + q.speed2()),
        ) <= 4 + 4 * (magnitude(p.xv - q.xv) + magnitude(p.yv - q.yv)),
{
    let dx = q.x - p.x;
    let dy = q.y - p.y;
    let dvx = p.xv - q.xv;
    let dvy = p.yv - q.yv;
    let along = dvx * dx + dvy * dy;
    let square = norm2(dx, dy);
    let s = magnitude(dvx) + magnitude(dvy);
    let jx = normal_exchange(p, q).0;
    let jy = normal_exchange(p, q).1;
    let change = collided(p, q).0.speed2() + collided(p, q).1.speed2() - (p.speed2()
        + q.speed2());
    if can_exchange(p, q) {
        let half = jx * (jx - dvx) + jy * (jy - dvy);
        assert(change == 2 * half) by (nonlinear_arith)
            requires
                change == (p.xv - jx) * (p.xv - jx) + (p.yv - jy) * (p.yv - jy) + (q.xv + jx) * (q.xv
                    + jx) + (q.yv + jy) * (q.yv + jy) - (p.xv * p.xv + p.yv * p.yv + q.xv * q.xv + q.yv
                    * q.yv),
                half == jx * (jx - dvx) + jy * (jy - dvy),
                dvx == p.xv - q.xv,
                dvy == p.yv - q.yv,
        ;
        assert(square >= 0) by (nonlinear_arith)
            requires
                square == dx * dx + dy * dy,
        ;
        if square != 0 {
            let ux = along * dx;
            let uy = along * dy;
            lemma_div_toward_zero_remainder(ux, square);
            lemma_div_toward_zero_remainder(uy, square);
            let rx = ux - jx * square;
            let ry = uy - jy * square;
            let wx = 2 * ux - square * dvx;
            let wy = 2 * uy - square * dvy;
            // the exact exchange would keep the sum
            assert(ux * (ux - square * dvx) + uy * (uy - square * dvy) == 0) by {
                lemma_scaled_squares(along, dx, dy);
                lemma_scaled_products(along, square, dx, dy, dvx, dvy);
                assert(ux * (ux - square * dvx) == ux * ux - ux * (square * dvx))
                    by (nonlinear_arith);
                assert(uy * (uy - square * dvy) == uy * uy - uy * (square * dvy))
                    by (nonlinear_arith);
                assert((along * along) * square == (along * square) * along) by (nonlinear_arith);
            }
            // what the rounding adds
            lemma_rounded_square(jx, square, dvx, ux, rx);
            lemma_rounded_square(jy, square, dvy, uy, ry);
            assert(square * square * half == rx * rx + ry * ry - rx * wx - ry * wy) by {
                assert(square * square * half == square * square * (jx * (jx - dvx)) + square
                    * square * (jy * (jy - dvy))) by (nonlinear_arith)
                    requires
                        half == jx * (jx - dvx) + jy * (jy - dvy),
                ;
            }
            // the bounds of its parts
            let c = dx * dx - dy * dy;
            let e = 2 * (dx * dy);
            assert(-square <= c <= square && -square <= e <= square) by (nonlinear_arith)
                requires
                    square == dx * dx + dy * dy,
                    c == dx * dx - dy * dy,
                    e == 2 * (dx * dy),
            ;
            assert(wx == dvx * c + dvy * e && wy == dvx * e - dvy * c) by {
                lemma_mirrored(dvx, dvy, dx, dy);
            }
            lemma_product_bound(dvx, c, magnitude(dvx), square);
            lemma_product_bound(dvy, e, magnitude(dvy), square);
            lemma_product_bound(dvx, e, magnitude(dvx), square);
            lemma_product_bound(dvy, c, magnitude(dvy), square);
            let m = s * square;
            assert(m == magnitude(dvx) * square + magnitude(dvy) * square && m >= 0)
                by (nonlinear_arith)
                requires
                    m == s * square,
                    s == magnitude(dvx) + magnitude(dvy),
                    magnitude(dvx) >= 0,
                    magnitude(dvy) >= 0,
                    square >= 0,
            ;
            lemma_product_bound(rx, wx, square, m);
            lemma_product_bound(ry, wy, square, m);
            lemma_product_bound(rx, rx, square, square);
            lemma_product_bound(ry, ry, square, square);
            assert(-(2 + 2 * s) <= half <= 2 + 2 * s) by (nonlinear_arith)
                requires
                    square >= 1,
                    s >= 0,
                    m == s * square,
                    -(2 * (square * square) + 2 * (square * m)) <= square * square * half <= 2 * (
                    square * square) + 2 * (square * m),
            ;
        }
    }
}

/// A collision moves velocity from one point to the other: the sum of the
/// two velocities is the same after it as before.
pub proof fn lemma_collision_keeps_total_velocity(p: Point, q: Point)
    ensures
        collided(p, q).0.xv + collided(p, q).1.xv == p.xv + q.xv,
        collided(p, q).0.yv + collided(p, q).1.yv == p.yv + q.yv,
{
}

} // verus!
