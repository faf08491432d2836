//! What becomes of the pairs that the sweep found: a line between two points
//! that are close in the plane, and a collision between two that touch.

use vstd::prelude::*;
use crate::config::Config;
use crate::fixed::{
    div_toward_zero, div_trunc, lemma_div_toward_zero_exact, lemma_product_bound, LIMIT, UNIT,
};
use crate::point::{collided, norm, Point, Position};

verus! {

/// A line to be drawn between two points, and how opaque it is: `UNIT` for
/// fully opaque, zero for invisible.
#[derive(Copy, Clone, Debug, PartialEq, Eq, Structural)]
pub struct Connection {
    pub start: Position,
    pub end: Position,
    pub opacity: i64,
}

/// The opacity of the line between two points at the given distance: it
/// falls in a straight line from one, where the points coincide, to zero at
/// the interaction distance.
pub open spec fn opacity_at(distance: int, interaction_distance: int) -> int {
    div_toward_zero((interaction_distance - distance) * UNIT, interaction_distance)
}

/// The opacity is one at distance zero and zero at the interaction distance.
/// Between the two it is the point on the straight line through these two
/// values, rounded down, and so it never grows with the distance.
pub proof fn lemma_opacity_falls_linearly(distance: int, farther: int, interaction_distance: int)
    requires
        0 < interaction_distance,
        0 <= distance <= farther <= interaction_distance,
    ensures
        opacity_at(0, interaction_distance) == UNIT,
        opacity_at(interaction_distance, interaction_distance) == 0,
        opacity_at(distance, interaction_distance) * interaction_distance <= (interaction_distance
            - distance) * UNIT,
        (interaction_distance - distance) * UNIT < (opacity_at(distance, interaction_distance) + 1)
            * interaction_distance,
        0 <= opacity_at(farther, interaction_distance) <= opacity_at(
            distance,
            interaction_distance,
        ) <= UNIT,
{
    let d = interaction_distance;
    let u = UNIT as int;
    lemma_div_toward_zero_exact(u, d);
    assert((d - 0) * u == u * d) by (nonlinear_arith);
    lemma_div_toward_zero_exact(0, d);
    assert((d - d) * u == 0 * d) by (nonlinear_arith);
    let a = (d - distance) * u;
    let b = (d - farther) * u;
    assert(0 <= b <= a <= d * u) by (nonlinear_arith)
        requires
            a == (d - distance) * u,
            b == (d - farther) * u,
            0 <= distance <= farther <= d,
            u > 0,
    ;
    assert((a / d) * d <= a < (a / d + 1) * d && 0 <= b / d <= a / d <= u) by (nonlinear_arith)
        requires
            0 <= b <= a <= d * u,
            d > 0,
    ;
}

/// The opacity of the line between two points at the given distance.
pub fn connection_opacity(distance: i64, interaction_distance: i64) -> (opacity: i64)
    requires
        0 < interaction_distance <= LIMIT,
        0 <= distance <= interaction_distance,
    ensures
        opacity == opacity_at(distance as int, interaction_distance as int),
        0 <= opacity <= UNIT,
{
    proof {
        lemma_opacity_falls_linearly(
            distance as int,
            distance as int,
            interaction_distance as int,
        );
        lemma_product_bound(
            interaction_distance - distance,
            UNIT as int,
            0x100_0000_0000,
            1_000_000,
        );
    }
    let span: i128 = (interaction_distance - distance) as i128;
    div_trunc(span * (UNIT as i128), interaction_distance as i128) as i64
}

/// The distance between two points in the plane, rounded down.
pub open spec fn gap(p: Point, q: Point) -> int {
    norm(q.x - p.x, q.y - p.y)
}

/// The line between `p` and `q`, if they are closer to each other than the
/// interaction distance.
pub open spec fn connection_of(p: Point, q: Point, config: Config) -> Option<Connection> {
    if gap(p, q) < config.interaction_distance {
        Some(
            Connection {
                start: p.position(),
                end: q.position(),
                opacity: opacity_at(gap(p, q), config.interaction_distance as int) as i64,
            },
        )
    } else {
        None
    }
}

/// `p` and `q` collide: collisions are switched on, and the two are closer
/// to each other than the collision radius.
pub open spec fn collides(p: Point, q: Point, config: Config) -> bool {
    config.collision_radius is Some && gap(p, q) < config.collision_radius->0
}

/// Every pair holds two different indices into a sequence of length `n`.
pub open spec fn valid_pairs(pairs: Seq<(usize, usize)>, n: int) -> bool {
    forall|k: int|
        0 <= k < pairs.len() ==> {
            &&& (#[trigger] pairs[k]).0 < n
            &&& pairs[k].1 < n
            &&& pairs[k].0 != pairs[k].1
        }
}

/// The smaller index of a pair.
pub open spec fn lower(pair: (usize, usize)) -> int {
    if pair.0 < pair.1 {
        pair.0 as int
    } else {
        pair.1 as int
    }
}

/// The larger index of a pair.
pub open spec fn upper(pair: (usize, usize)) -> int {
    if pair.0 < pair.1 {
        pair.1 as int
    } else {
        pair.0 as int
    }
}

/// The lines between the points of the pairs, in the order of the pairs.
/// Each line starts at the point with the smaller index.
pub open spec fn connections_of(
    points: Seq<Point>,
    pairs: Seq<(usize, usize)>,
    config: Config,
) -> Seq<Connection>
    decreases pairs.len(),
{
    if pairs.len() == 0 {
        Seq::empty()
    } else {
        let earlier = connections_of(points, pairs.drop_last(), config);
        let pair = pairs.last();
        match connection_of(points[lower(pair)], points[upper(pair)], config) {
            Some(c) => earlier.push(c),
            None => earlier,
        }
    }
}

/// The points after the collisions of the pairs, taken one pair after the
/// other: a later pair meets the velocities that the earlier ones left.
pub open spec fn resolved(
    points: Seq<Point>,
    pairs: Seq<(usize, usize)>,
    config: Config,
) -> Seq<Point>
    decreases pairs.len(),
{
    if pairs.len() == 0 {
        points
    } else {
        let earlier = resolved(points, pairs.drop_last(), config);
        let pair = pairs.last();
        if collides(earlier[lower(pair)], earlier[upper(pair)], config) {
            let after = collided(earlier[lower(pair)], earlier[upper(pair)]);
            earlier.update(lower(pair), after.0).update(upper(pair), after.1)
        } else {
            earlier
        }
    }
}

/// Two points of one sequence, both open to change at once: first the one
/// with the smaller index, then the one with the larger. The sequence is
/// split in two at the larger index, so that each point lies in a part of
/// its own.
pub fn get_two_mut(slice: &mut [Point], idx1: usize, idx2: usize) -> (two: (&mut Point, &mut Point))
    requires
        idx1 != idx2,
        idx1 < old(slice).len(),
        idx2 < old(slice).len(),
    ensures
        *two.0 == old(slice)[lower((idx1, idx2))],
        *two.1 == old(slice)[upper((idx1, idx2))],
        final(slice)@ == old(slice)@.update(lower((idx1, idx2)), *final(two.0)).update(
            upper((idx1, idx2)),
            *final(two.1),
        ),
{
    let (first, second) = if idx1 < idx2 {
        (idx1, idx2)
    } else {
        (idx2, idx1)
    };
    let (head, tail) = slice.split_at_mut(second);
    (&mut head[first], &mut tail[0])
}

/// Resolves the pairs in their order. A pair of points that are closer to
/// each other than the interaction distance gives a connection; a pair
/// closer than the collision radius collides. The distances are those in the
/// plane: the sweep looked at the x axis only.
pub fn resolve(points: &mut Vec<Point>, pairs: &Vec<(usize, usize)>, config: &Config) -> (connections:
    Vec<Connection>)
    requires
        config.wf(),
        forall|i: int| 0 <= i < old(points).len() ==> (#[trigger] old(points)[i]).wf(),
        valid_pairs(pairs@, old(points).len() as int),
    ensures
        connections@ == connections_of(old(points)@, pairs@, *config),
        final(points)@ == resolved(old(points)@, pairs@, *config),
        final(points).len() == old(points).len(),
        forall|i: int| 0 <= i < final(points).len() ==> (#[trigger] final(points)[i]).wf(),
        forall|i: int|
            0 <= i < final(points).len() ==> {
                &&& (#[trigger] final(points)[i]).x == old(points)[i].x
                &&& final(points)[i].y == old(points)[i].y
            },
{
    let mut connections: Vec<Connection> = Vec::new();
    let mut k: usize = 0;
    while k < pairs.len()
        invariant
            config.wf(),
            k <= pairs.len(),
            points.len() == old(points).len(),
            valid_pairs(pairs@, old(points).len() as int),
            forall|i: int| 0 <= i < points.len() ==> (#[trigger] points[i]).wf(),
            forall|i: int|
                0 <= i < points.len() ==> {
                    &&& (#[trigger] points[i]).x == old(points)[i].x
                    &&& points[i].y == old(points)[i].y
                },
            connections@ == connections_of(old(points)@, pairs@.take(k as int), *config),
            points@ == resolved(old(points)@, pairs@.take(k as int), *config),
        decreases pairs.len() - k,
    {
        let (idx1, idx2) = pairs[k];
        proof {
            assert(pairs@.take(k + 1).drop_last() =~= pairs@.take(k as int));
            assert(gap(points[lower((idx1, idx2))], points[upper((idx1, idx2))]) == gap(
                old(points)[lower((idx1, idx2))],
                old(points)[upper((idx1, idx2))],
            ));
        }
        let (point, other) = get_two_mut(points.as_mut_slice(), idx1, idx2);
        let distance: i64 = Point::distance(point, other);
        if distance < config.interaction_distance {
            connections.push(
                Connection {
                    start: Position { x: point.x, y: point.y },
                    end: Position { x: other.x, y: other.y },
                    opacity: connection_opacity(distance, config.interaction_distance),
                },
            );
        }
        match config.collision_radius {
            Some(radius) => {
                if distance < radius {
                    Point::elastic_collision(point, other);
                }
            },
            None => {},
        }
        k = k + 1;
    }
    assert(pairs@.take(k as int) =~= pairs@);
    connections
}

} // verus!
