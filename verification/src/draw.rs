//! The drawing instructions that a frame hands to the host.

use vstd::prelude::*;
use crate::fixed::{div_toward_zero, div_trunc, lemma_product_bound, UNIT};
use crate::point::{Point, Position};
use crate::resolve::Connection;

verus! {

/// The radius of the disc that shows a point: five pixels.
pub const POINT_RADIUS: i64 = 5_000_000;

/// The brightness of the disc that shows a point.
pub const POINT_GRAY: u8 = 200;

/// The width of the line that shows a connection: half a pixel.
pub const LINE_WIDTH: i64 = 500_000;

/// The red part of the colour of a line.
pub const LINE_RED: u8 = 164;

/// The green part of the colour of a line.
pub const LINE_GREEN: u8 = 171;

/// The blue part of the colour of a line.
pub const LINE_BLUE: u8 = 176;

/// A colour: red, green, blue, and alpha, which is 255 for opaque.
#[derive(Copy, Clone, Debug, PartialEq, Eq, Structural)]
pub struct Color {
    pub r: u8,
    pub g: u8,
    pub b: u8,
    pub a: u8,
}

/// A shape for the host to paint. Lengths are in fixed-point representation.
#[derive(Copy, Clone, Debug, PartialEq, Eq, Structural)]
pub enum DrawCommand {
    /// A filled disc.
    Circle { center: Position, radius: i64, color: Color },
    /// A straight line between two places.
    Line { start: Position, end: Position, width: i64, color: Color },
}

/// The alpha of a line of the given opacity: the opacity times 127.5, cut
/// off after the point, and no less than 0 and no more than 255.
pub open spec fn line_alpha(opacity: int) -> int {
    let alpha = div_toward_zero(opacity * 255, 2 * UNIT);
    if alpha < 0 {
        0
    } else if alpha > 255 {
        255
    } else {
        alpha
    }
}

/// The disc that shows the point `p`.
pub open spec fn circle_of(p: Point) -> DrawCommand {
    DrawCommand::Circle {
        center: p.position(),
        radius: POINT_RADIUS,
        color: Color { r: POINT_GRAY, g: POINT_GRAY, b: POINT_GRAY, a: 255 },
    }
}

/// The line that shows the connection `c`.
pub open spec fn line_of(c: Connection) -> DrawCommand {
    DrawCommand::Line {
        start: c.start,
        end: c.end,
        width: LINE_WIDTH,
        color: Color { r: LINE_RED, g: LINE_GREEN, b: LINE_BLUE, a: line_alpha(c.opacity as int) as u8 },
    }
}

/// What a frame draws: a disc for each point, in the order of the points,
/// and after them a line for each connection, in the order of the
/// connections, so that the lines are painted over the discs.
pub open spec fn emitted(points: Seq<Point>, connections: Seq<Connection>) -> Seq<DrawCommand> {
    Seq::new(points.len(), |i: int| circle_of(points[i])) + Seq::new(
        connections.len(),
        |i: int| line_of(connections[i]),
    )
}

/// Drawing the same points and connections twice gives the same
/// instructions twice.
pub proof fn lemma_emission_repeats(
    points: Seq<Point>,
    connections: Seq<Connection>,
    first: Seq<DrawCommand>,
    second: Seq<DrawCommand>,
)
    requires
        first == emitted(points, connections),
        second == emitted(points, connections),
    ensures
        first == second,
        first.len() == points.len() + connections.len(),
{
}

/// The alpha of a line of the given opacity.
pub fn alpha_of(opacity: i64) -> (alpha: u8)
    ensures
        alpha == line_alpha(opacity as int),
{
    proof {
        lemma_product_bound(opacity as int, 255, 0x8000_0000_0000_0000, 255);
    }
    let alpha: i128 = div_trunc(opacity as i128 * 255, 2 * (UNIT as i128));
    if alpha < 0 {
        0
    } else if alpha > 255 {
        255
    } else {
        alpha as u8
    }
}

/// The drawing instructions for the given points and connections. Nothing
/// is changed.
pub fn emit(points: &Vec<Point>, connections: &Vec<Connection>) -> (commands: Vec<DrawCommand>)
    ensures
        commands@ == emitted(points@, connections@),
{
    let mut commands: Vec<DrawCommand> = Vec::new();
    let mut i: usize = 0;
    while i < points.len()
        invariant
            i <= points.len(),
            commands@ == Seq::new(i as nat, |k: int| circle_of(points@[k])),
        decreases points.len() - i,
    {
        let p: Point = points[i];
        commands.push(
            DrawCommand::Circle {
                center: Position { x: p.x, y: p.y },
                radius: POINT_RADIUS,
                color: Color { r: POINT_GRAY, g: POINT_GRAY, b: POINT_GRAY, a: 255 },
            },
        );
        i = i + 1;
    }
    let ghost circles = commands@;
    let mut j: usize = 0;
    while j < connections.len()
        invariant
            j <= connections.len(),
            commands@ == circles + Seq::new(j as nat, |k: int| line_of(connections@[k])),
        decreases connections.len() - j,
    {
        let c: Connection = connections[j];
        commands.push(
            DrawCommand::Line {
                start: c.start,
                end: c.end,
                width: LINE_WIDTH,
                color: Color { r: LINE_RED, g: LINE_GREEN, b: LINE_BLUE, a: alpha_of(c.opacity) },
            },
        );
        j = j + 1;
    }
    commands
}

} // verus!
