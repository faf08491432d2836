//! The motion of the points from one frame to the next.
//!
//! A frame moves each point by its velocity, lets gravity and the cursor act
//! on the velocity, damps it, and carries the point back into the viewport
//! where it has left it.

use vstd::prelude::*;
use crate::config::{Config, Damping, Viewport};
use crate::fixed::{
    div_toward_zero, div_trunc, lemma_div_toward_zero_bound, lemma_int_sqrt_below,
    lemma_product_bound, magnitude, saturate, saturated, scale, scaled, wrap_coordinate, LIMIT,
    UNIT,
};
use crate::point::{direct, directed, lemma_directed_bound, norm, norm2, Point, Position};

verus! {

/// The duration, a sixtieth of a second, that a host may let stand in for
/// a measured duration that is not positive.
pub const DEFAULT_DT: i64 = 16_667;

/// A measured duration made fit for a steady motion: a duration that is not
/// positive is replaced by the default, any other is kept.
pub open spec fn steady_dt(dt: int) -> int {
    if dt <= 0 {
        DEFAULT_DT as int
    } else {
        dt
    }
}

/// The way that a point of velocity `v` covers in the time `dt`.
pub open spec fn displacement(v: int, dt: int, position_scale: int) -> int {
    div_toward_zero(v * dt * position_scale, UNIT * UNIT)
}

/// The velocity that gravity adds in the time `dt`.
pub open spec fn gravity_gain(gravity: Option<i64>, dt: int) -> int {
    match gravity {
        Some(g) => scaled(g as int, dt),
        None => 0,
    }
}

/// The velocity that the cursor adds to a point at `(x, y)`: it points away
/// from the cursor and has the length of the repulsion strength, if the point
/// is closer to the cursor than the repulsion radius; without a cursor, out
/// of its reach, or right under it, nothing is added.
pub open spec fn repulsion(x: int, y: int, cursor: Option<Position>, config: Config) -> (int, int) {
    match cursor {
        Some(c) => if norm(x - c.x, y - c.y) < config.repulsion_radius {
            directed(x - c.x, y - c.y, config.repulsion_strength as int)
        } else {
            (0, 0)
        },
        None => (0, 0),
    }
}

/// A velocity component after damping.
pub open spec fn damped(v: int, damping: Damping) -> int {
    match damping {
        Damping::Conditional { threshold, factor } => if magnitude(v) > threshold {
            scaled(v, factor as int)
        } else {
            v
        },
        Damping::Constant { factor } => scaled(v, factor as int),
    }
}

/// The point `p` one frame of duration `dt` later. In this order: the point
/// moves by its velocity; gravity and the cursor, seen from the new position,
/// change the velocity, which is kept within the limit; the velocity is
/// damped; the position is carried into the viewport.
pub open spec fn advanced(
    p: Point,
    cursor: Option<Position>,
    viewport: Viewport,
    dt: int,
    config: Config,
) -> Point {
    let x = p.x + displacement(p.xv as int, dt, config.position_scale as int);
    let y = p.y + displacement(p.yv as int, dt, config.position_scale as int);
    let push = repulsion(x, y, cursor, config);
    Point {
        x: (x % (viewport.width as int)) as i64,
        y: (y % (viewport.height as int)) as i64,
        xv: damped(saturated(p.xv + push.0), config.damping) as i64,
        yv: damped(
            saturated(p.yv + gravity_gain(config.gravity, dt) + push.1),
            config.damping,
        ) as i64,
    }
}

/// `p` lies in the viewport.
pub open spec fn inside(p: Point, viewport: Viewport) -> bool {
    &&& 0 <= p.x < viewport.width
    &&& 0 <= p.y < viewport.height
}

/// A factor between zero and one does not take a number away from zero.
pub proof fn lemma_scaled_bound(v: int, factor: int, m: int)
    requires
        -m <= v <= m,
        0 <= factor <= UNIT,
    ensures
        -m <= scaled(v, factor) <= m,
{
    if v >= 0 {
        assert(0 <= v * factor <= m * UNIT && (v * factor) / (UNIT as int) <= m)
            by (nonlinear_arith)
            requires
                0 <= v <= m,
                0 <= factor <= UNIT,
                UNIT == 1_000_000,
        ;
    } else {
        assert(0 <= -(v * factor) <= m * UNIT && (-(v * factor)) / (UNIT as int) <= m
            && 0 <= (-(v * factor)) / (UNIT as int)) by (nonlinear_arith)
            requires
                -m <= v < 0,
                0 <= factor <= UNIT,
                UNIT == 1_000_000,
        ;
    }
}

/// A measured duration made fit for a steady motion. The motion itself
/// takes every duration as it comes: a host that does not trust a reading
/// of zero or less replaces it with this function before it asks for the
/// motion.
pub fn clamp_dt(dt: i64) -> (t: i64)
    ensures
        t == steady_dt(dt as int),
        t > 0,
{
    if dt <= 0 {
        DEFAULT_DT
    } else {
        dt
    }
}

/// The way that a point of velocity `v` covers in the time `dt`.
fn displace(v: i64, dt: i64, position_scale: i64) -> (r: i128)
    requires
        -LIMIT <= v <= LIMIT,
        -LIMIT <= dt <= LIMIT,
        0 <= position_scale <= LIMIT,
    ensures
        r == displacement(v as int, dt as int, position_scale as int),
        -0x100_0000_0000_0000_0000_0000_0000_0000 <= r <= 0x100_0000_0000_0000_0000_0000_0000_0000,
{
    proof {
        lemma_product_bound(v as int, dt as int, 0x100_0000_0000, 0x100_0000_0000);
        lemma_product_bound(
            v * dt,
            position_scale as int,
            0x1_0000_0000_0000_0000_0000,
            0x100_0000_0000,
        );
        lemma_div_toward_zero_bound(
            v * dt * position_scale,
            UNIT * UNIT,
            0x100_0000_0000_0000_0000_0000_0000_0000,
        );
    }
    let product: i128 = (v as i128) * (dt as i128) * (position_scale as i128);
    div_trunc(product, (UNIT as i128) * (UNIT as i128))
}

/// The velocity that the cursor adds to a point at `(x, y)`.
fn repel(x: i128, y: i128, cursor: Option<Position>, config: &Config) -> (push: (i64, i64))
    requires
        config.wf(),
        -0x400_0000_0000_0000_0000_0000_0000_0000 <= x <= 0x400_0000_0000_0000_0000_0000_0000_0000,
        -0x400_0000_0000_0000_0000_0000_0000_0000 <= y <= 0x400_0000_0000_0000_0000_0000_0000_0000,
    ensures
        push.0 == repulsion(x as int, y as int, cursor, *config).0,
        push.1 == repulsion(x as int, y as int, cursor, *config).1,
        -LIMIT <= push.0 <= LIMIT,
        -LIMIT <= push.1 <= LIMIT,
{
    match cursor {
        Some(c) => {
            let dx: i128 = x - c.x as i128;
            let dy: i128 = y - c.y as i128;
            let reach: i128 = config.repulsion_radius as i128;
            proof {
                assert(dx * dx >= 0 && dy * dy >= 0) by (nonlinear_arith);
                lemma_int_sqrt_below(norm2(dx as int, dy as int), reach as int);
            }
            if -reach < dx && dx < reach && -reach < dy && dy < reach {
                proof {
                    lemma_product_bound(dx as int, dx as int, 0x100_0000_0000, 0x100_0000_0000);
                    lemma_product_bound(dy as int, dy as int, 0x100_0000_0000, 0x100_0000_0000);
                    lemma_product_bound(
                        reach as int,
                        reach as int,
                        0x100_0000_0000,
                        0x100_0000_0000,
                    );
                }
                if dx * dx + dy * dy < reach * reach {
                    proof {
                        lemma_directed_bound(
                            dx as int,
                            dy as int,
                            config.repulsion_strength as int,
                        );
                    }
                    direct(dx as i64, dy as i64, config.repulsion_strength)
                } else {
                    (0, 0)
                }
            } else {
                proof {
                    assert(dx * dx + dy * dy >= reach * reach) by (nonlinear_arith)
                        requires
                            reach >= 0,
                            dx <= -reach || dx >= reach || dy <= -reach || dy >= reach,
                    ;
                }
                (0, 0)
            }
        },
        None => (0, 0),
    }
}

/// A velocity component after damping.
fn damp(v: i64, damping: &Damping) -> (r: i64)
    requires
        -LIMIT <= v <= LIMIT,
        0 <= damping.factor() <= UNIT,
    ensures
        r == damped(v as int, *damping),
        -LIMIT <= r <= LIMIT,
{
    match damping {
        Damping::Conditional { threshold, factor } => {
            if v > *threshold || (v as i128) < -(*threshold as i128) {
                proof {
                    lemma_scaled_bound(v as int, *factor as int, LIMIT as int);
                }
                scale(v, *factor) as i64
            } else {
                v
            }
        },
        Damping::Constant { factor } => {
            proof {
                lemma_scaled_bound(v as int, *factor as int, LIMIT as int);
            }
            scale(v, *factor) as i64
        },
    }
}

/// One point, one frame of duration `dt` later. The duration is taken as
/// it is: with a duration of zero the point stays where it is and gravity
/// adds nothing, while the cursor and the damping act as in any frame; with
/// a negative duration the point moves backward.
pub fn advance_point(
    p: &Point,
    cursor: Option<Position>,
    viewport: &Viewport,
    dt: i64,
    config: &Config,
) -> (r: Point)
    requires
        p.wf(),
        viewport.wf(),
        config.wf(),
        -LIMIT <= dt <= LIMIT,
    ensures
        r == advanced(*p, cursor, *viewport, dt as int, *config),
        r.wf(),
        inside(r, *viewport),
{
    let x: i128 = p.x as i128 + displace(p.xv, dt, config.position_scale);
    let y: i128 = p.y as i128 + displace(p.yv, dt, config.position_scale);
    let push = repel(x, y, cursor, config);
    let gain: i128 = match config.gravity {
        Some(g) => {
            proof {
                lemma_product_bound(g as int, dt as int, 0x100_0000_0000, 0x100_0000_0000);
                lemma_div_toward_zero_bound(g * dt, UNIT as int, 0x1_0000_0000_0000_0000_0000);
            }
            scale(g, dt)
        },
        None => 0,
    };
    let xv: i64 = saturate(p.xv as i128 + push.0 as i128);
    let yv: i64 = saturate(p.yv as i128 + gain + push.1 as i128);
    Point {
        x: wrap_coordinate(x, viewport.width),
        y: wrap_coordinate(y, viewport.height),
        xv: damp(xv, &config.damping),
        yv: damp(yv, &config.damping),
    }
}

/// Moves every point one frame on, by the duration that the host measured,
/// be it positive, zero or negative. Only a duration beyond the limit,
/// which is more than twelve days, is cut back to the limit: up to there the
/// products of a velocity, a duration and the position scale fit into 128
/// bits. Afterwards every point lies in the viewport.
pub fn advance(
    points: &mut Vec<Point>,
    cursor: Option<Position>,
    viewport: &Viewport,
    dt: i64,
    config: &Config,
)
    requires
        forall|i: int| 0 <= i < old(points).len() ==> (#[trigger] old(points)[i]).wf(),
        viewport.wf(),
        config.wf(),
    ensures
        final(points).len() == old(points).len(),
        forall|i: int|
            0 <= i < final(points).len() ==> #[trigger] final(points)[i] == advanced(
                old(points)[i],
                cursor,
                *viewport,
                saturated(dt as int),
                *config,
            ),
        forall|i: int| 0 <= i < final(points).len() ==> (#[trigger] final(points)[i]).wf(),
        forall|i: int| 0 <= i < final(points).len() ==> inside(#[trigger] final(points)[i], *viewport),
{
    let step: i64 = saturate(dt as i128);
    let mut i: usize = 0;
    while i < points.len()
        invariant
            viewport.wf(),
            config.wf(),
            -LIMIT <= step <= LIMIT,
            step == saturated(dt as int),
            i <= points.len(),
            points.len() == old(points).len(),
            forall|k: int| i <= k < points.len() ==> #[trigger] points[k] == old(points)[k],
            forall|k: int| 0 <= k < old(points).len() ==> (#[trigger] old(points)[k]).wf(),
            forall|k: int|
                0 <= k < i ==> #[trigger] points[k] == advanced(
                    old(points)[k],
                    cursor,
                    *viewport,
                    step as int,
                    *config,
                ),
            forall|k: int| 0 <= k < i ==> (#[trigger] points[k]).wf(),
            forall|k: int| 0 <= k < i ==> inside(#[trigger] points[k], *viewport),
        decreases points.len() - i,
    {
        let p: Point = points[i];
        let moved: Point = advance_point(&p, cursor, viewport, step, config);
        points.set(i, moved);
        i = i + 1;
    }
}

} // verus!
