//! The first population of points, placed at random.

use vstd::prelude::*;
use rand::Rng;
use rand_chacha::ChaCha20Rng;
use crate::config::{Config, Viewport};
use crate::motion::inside;
use crate::point::Point;

verus! {

/// The ChaCha generator with twenty rounds of the crate `rand_chacha`. Its
/// state is not modelled: nothing is known of the numbers it will give.
#[verifier::external_type_specification]
#[verifier::external_body]
pub struct ExChaCha20Rng(rand_chacha::ChaCha20Rng);

/// `Rng::gen_range` of the crate `rand`, on a half-open range of `i64`:
/// a number drawn from `low..high`. Claimed of it: the number is at least
/// `low` and less than `high`, whatever the state of the generator. The
/// range must not be empty, as the call panics on an empty one.
#[verifier::external_body]
fn sample_range(rng: &mut ChaCha20Rng, low: i64, high: i64) -> (r: i64)
    requires
        low < high,
    ensures
        low <= r < high,
{
    rng.gen_range(low..high)
}

/// The number of points for a viewport of the given width: one for each
/// full `point_spacing` of width, and no more than a `usize` can count.
pub open spec fn point_count(width: int, point_spacing: int) -> int {
    if width / point_spacing > usize::MAX {
        usize::MAX as int
    } else {
        width / point_spacing
    }
}

/// `p` may be a member of a first population: it lies in the viewport, and
/// neither component of its velocity exceeds the velocity range.
pub open spec fn may_start(p: Point, viewport: Viewport, config: Config) -> bool {
    &&& inside(p, viewport)
    &&& -config.velocity_range <= p.xv <= config.velocity_range
    &&& -config.velocity_range <= p.yv <= config.velocity_range
}

/// The number of points for a viewport of the given width.
pub fn count_points(width: i64, point_spacing: i64) -> (n: usize)
    requires
        0 < width,
        0 < point_spacing,
    ensures
        n == point_count(width as int, point_spacing as int),
{
    let full: u64 = (width / point_spacing) as u64;
    if full > usize::MAX as u64 {
        usize::MAX
    } else {
        full as usize
    }
}

/// A first population for the viewport. The number of points follows from
/// the width of the viewport alone. Each point is placed at random in the
/// viewport, and each component of its velocity is drawn at random from the
/// velocity range, both ends included.
pub fn initialize(rng: &mut ChaCha20Rng, viewport: &Viewport, config: &Config) -> (points: Vec<
    Point,
>)
    requires
        viewport.wf(),
        config.wf(),
    ensures
        points.len() == point_count(viewport.width as int, config.point_spacing as int),
        forall|i: int| 0 <= i < points.len() ==> may_start(#[trigger] points[i], *viewport, *config),
        forall|i: int| 0 <= i < points.len() ==> (#[trigger] points[i]).wf(),
{
    let count: usize = count_points(viewport.width, config.point_spacing);
    let reach: i64 = config.velocity_range;
    let mut points: Vec<Point> = Vec::new();
    let mut i: usize = 0;
    while i < count
        invariant
            viewport.wf(),
            config.wf(),
            reach == config.velocity_range,
            i <= count,
            points.len() == i,
            forall|k: int|
                0 <= k < points.len() ==> may_start(#[trigger] points[k], *viewport, *config),
            forall|k: int| 0 <= k < points.len() ==> (#[trigger] points[k]).wf(),
        decreases count - i,
    {
        let x: i64 = sample_range(rng, 0, viewport.width);
        let y: i64 = sample_range(rng, 0, viewport.height);
        let xv: i64 = sample_range(rng, -reach, reach + 1);
        let yv: i64 = sample_range(rng, -reach, reach + 1);
        points.push(Point { x, y, xv, yv });
        i = i + 1;
    }
    points
}

} // verus!
