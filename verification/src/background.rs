//! The animated background: the points, the pairs that the last sweep
//! found, and the frame that moves the one and renews the other.
//!
//! The background owns its state. A host can read the points and the pairs,
//! but changes them only by the functions of the background, which keep the
//! points and the constants well formed.

use vstd::prelude::*;
use rand_chacha::ChaCha20Rng;
use crate::config::{physical_config, Config, ConfigError, Viewport};
use crate::detect::{detect, is_detection};
use crate::draw::{emit, emitted, DrawCommand};
use crate::fixed::saturated;
use crate::motion::{advance, advanced, inside};
use crate::point::{Point, Position};
use crate::population::{initialize, may_start, point_count};
use crate::resolve::{connections_of, resolve, resolved, valid_pairs};

verus! {

/// The state of the simulation. The points live as long as the background;
/// the pairs are found anew in every frame.
pub struct Background {
    parts: Parts,
}

/// The parts of a background, while a function of the background works on
/// them.
struct Parts {
    points: Vec<Point>,
    collisions: Vec<(usize, usize)>,
    config: Config,
}

/// What a background holds.
pub struct State {
    pub points: Seq<Point>,
    pub collisions: Seq<(usize, usize)>,
    pub config: Config,
}

impl State {
    /// The constants are in their ranges, and the points are well formed.
    pub open spec fn wf(self) -> bool {
        &&& self.config.wf()
        &&& forall|i: int| 0 <= i < self.points.len() ==> (#[trigger] self.points[i]).wf()
    }

    /// Every pair holds two different indices of points. The pairs that a
    /// sweep found fit the points that it swept; they may cease to fit when
    /// the points are replaced.
    pub open spec fn pairs_fit(self) -> bool {
        valid_pairs(self.collisions, self.points.len() as int)
    }
}

impl View for Parts {
    type V = State;

    closed spec fn view(&self) -> State {
        State { points: self.points@, collisions: self.collisions@, config: self.config }
    }
}

impl View for Background {
    type V = State;

    closed spec fn view(&self) -> State {
        self.parts@
    }
}

/// `points` may be a first population for the viewport.
pub open spec fn is_population(points: Seq<Point>, viewport: Viewport, config: Config) -> bool {
    &&& points.len() == point_count(viewport.width as int, config.point_spacing as int)
    &&& forall|i: int| 0 <= i < points.len() ==> may_start(#[trigger] points[i], viewport, config)
}

/// The points, each one frame of duration `dt` later.
pub open spec fn moved(
    points: Seq<Point>,
    cursor: Option<Position>,
    viewport: Viewport,
    dt: int,
    config: Config,
) -> Seq<Point> {
    Seq::new(points.len(), |i: int| advanced(points[i], cursor, viewport, dt, config))
}

/// A frame that began with the points `start` has left the state `after`
/// and the drawing instructions `commands`: the points moved, the sweep
/// found the pairs of the moved points, the pairs were resolved, and the
/// points and the connections were drawn.
pub open spec fn frame_outcome(
    start: Seq<Point>,
    cursor: Option<Position>,
    viewport: Viewport,
    dt: int,
    after: State,
    commands: Seq<DrawCommand>,
) -> bool {
    let on = moved(start, cursor, viewport, saturated(dt), after.config);
    &&& is_detection(on, after.config.interaction_distance as int, after.collisions)
    &&& after.points == resolved(on, after.collisions, after.config)
    &&& commands == emitted(after.points, connections_of(on, after.collisions, after.config))
}

impl Background {
    #[verifier::type_invariant]
    closed spec fn well_formed(&self) -> bool {
        self@.wf()
    }

    /// Hands out the parts and leaves a background without points in
    /// their place.
    fn take(&mut self) -> (parts: Parts)
        ensures
            parts@ == old(self)@,
            parts@.wf(),
            final(self)@.config == old(self)@.config,
    {
        proof {
            use_type_invariant(&*self);
        }
        let mut parts = Parts {
            points: Vec::new(),
            collisions: Vec::new(),
            config: self.parts.config,
        };
        core::mem::swap(&mut self.parts, &mut parts);
        parts
    }

    /// Takes the parts back.
    fn put(&mut self, parts: Parts)
        requires
            parts@.wf(),
        ensures
            final(self)@ == parts@,
    {
        self.parts = parts;
    }

    /// A background without points, if the constants are in their ranges;
    /// else the first constant that is not.
    pub fn new(config: Config) -> (r: Result<Background, ConfigError>)
        ensures
            r is Ok <==> config.wf(),
            r is Ok ==> r->Ok_0@ == (State {
                points: Seq::empty(),
                collisions: Seq::empty(),
                config,
            }),
            r is Err ==> config.first_fault() == Some(r->Err_0),
    {
        match config.validate() {
            Ok(()) => Ok(
                Background { parts: Parts { points: Vec::new(), collisions: Vec::new(), config } },
            ),
            Err(fault) => Err(fault),
        }
    }

    /// A background without points, with the constants of the physical
    /// variant.
    pub fn default() -> (r: Background)
        ensures
            r@ == (State {
                points: Seq::empty(),
                collisions: Seq::empty(),
                config: physical_config(),
            }),
    {
        Background {
            parts: Parts { points: Vec::new(), collisions: Vec::new(), config: Config::physical() },
        }
    }

    /// The points.
    pub fn points(&self) -> (r: &Vec<Point>)
        ensures
            r@ == self@.points,
            self@.wf(),
    {
        proof {
            use_type_invariant(self);
        }
        &self.parts.points
    }

    /// The pairs that the last sweep found.
    pub fn collisions(&self) -> (r: &Vec<(usize, usize)>)
        ensures
            r@ == self@.collisions,
            self@.wf(),
    {
        proof {
            use_type_invariant(self);
        }
        &self.parts.collisions
    }

    /// The constants.
    pub fn config(&self) -> (r: &Config)
        ensures
            *r == self@.config,
            self@.wf(),
    {
        proof {
            use_type_invariant(self);
        }
        &self.parts.config
    }

    /// Whether every pair holds two different indices of points.
    pub fn has_valid_pairs(&self) -> (r: bool)
        ensures
            r == self@.pairs_fit(),
    {
        let n: usize = self.parts.points.len();
        let mut k: usize = 0;
        while k < self.parts.collisions.len()
            invariant
                n == self.parts.points.len(),
                k <= self.parts.collisions.len(),
                forall|l: int|
                    0 <= l < k ==> {
                        &&& (#[trigger] self.parts.collisions@[l]).0 < n
                        &&& self.parts.collisions@[l].1 < n
                        &&& self.parts.collisions@[l].0 != self.parts.collisions@[l].1
                    },
            decreases self.parts.collisions.len() - k,
        {
            let (i, j) = self.parts.collisions[k];
            if i >= n || j >= n || i == j {
                return false;
            }
            k = k + 1;
        }
        true
    }

    /// Whether there are any points.
    pub fn has_points(&self) -> (r: bool)
        ensures
            r == (self@.points.len() > 0),
    {
        self.parts.points.len() > 0
    }

    /// Replaces the points by the given ones and forgets the pairs, if every
    /// given point is well formed; else nothing changes.
    pub fn set_points(&mut self, points: Vec<Point>) -> (accepted: bool)
        ensures
            accepted == (forall|i: int| 0 <= i < points.len() ==> (#[trigger] points[i]).wf()),
            accepted ==> final(self)@ == (State {
                points: points@,
                collisions: Seq::empty(),
                config: old(self)@.config,
            }),
            !accepted ==> final(self)@ == old(self)@,
    {
        let mut i: usize = 0;
        while i < points.len()
            invariant
                i <= points.len(),
                forall|k: int| 0 <= k < i ==> (#[trigger] points[k]).wf(),
            decreases points.len() - i,
        {
            if !points[i].is_valid() {
                return false;
            }
            i = i + 1;
        }
        let mut parts = self.take();
        parts.collisions = Vec::new();
        parts.points = points;
        self.put(parts);
        true
    }

    /// Replaces the points by a first population for the viewport. The
    /// pairs are left as they are, so they may no longer fit the points.
    pub fn add_points(&mut self, rng: &mut ChaCha20Rng, viewport: &Viewport)
        requires
            viewport.wf(),
        ensures
            final(self)@.config == old(self)@.config,
            final(self)@.collisions == old(self)@.collisions,
            is_population(final(self)@.points, *viewport, old(self)@.config),
            final(self)@.wf(),
    {
        let mut parts = self.take();
        parts.points = initialize(rng, viewport, &parts.config);
        self.put(parts);
    }

    /// Moves every point one frame on. The pairs are left as they are.
    pub fn update_points(&mut self, cursor: Option<Position>, viewport: &Viewport, dt: i64)
        requires
            viewport.wf(),
        ensures
            final(self)@.config == old(self)@.config,
            final(self)@.collisions == old(self)@.collisions,
            final(self)@.points == moved(
                old(self)@.points,
                cursor,
                *viewport,
                saturated(dt as int),
                old(self)@.config,
            ),
            forall|i: int|
                0 <= i < final(self)@.points.len() ==> inside(
                    #[trigger] final(self)@.points[i],
                    *viewport,
                ),
            final(self)@.points.len() == old(self)@.points.len(),
            final(self)@.wf(),
            old(self)@.pairs_fit() ==> final(self)@.pairs_fit(),
    {
        let mut parts = self.take();
        advance(&mut parts.points, cursor, viewport, dt, &parts.config);
        assert(parts.points@ =~= moved(
            old(self)@.points,
            cursor,
            *viewport,
            saturated(dt as int),
            old(self)@.config,
        ));
        self.put(parts);
    }

    /// Finds the pairs of points whose x coordinates are at most the
    /// interaction distance apart. The pairs of the frame before are
    /// forgotten.
    pub fn calculate_collisions(&mut self)
        ensures
            final(self)@.config == old(self)@.config,
            final(self)@.points == old(self)@.points,
            is_detection(
                old(self)@.points,
                old(self)@.config.interaction_distance as int,
                final(self)@.collisions,
            ),
            final(self)@.wf(),
            final(self)@.pairs_fit(),
    {
        let mut parts = self.take();
        parts.collisions = detect(&parts.points, parts.config.interaction_distance);
        assert forall|i: int| 0 <= i < parts@.points.len() implies (#[trigger] parts@.points[i]).wf() by {
            assert(old(self)@.points[i].wf());
        }
        self.put(parts);
    }

    /// Resolves the pairs and gives the drawing instructions of the frame:
    /// a disc for each point and a line for each connection. The pairs must
    /// fit the points, as they do after a sweep: a pair that names a point
    /// that is not there cannot be resolved. Only velocities change: every
    /// point stays where it is.
    pub fn prepare_draw_data(&mut self) -> (commands: Vec<DrawCommand>)
        requires
            old(self)@.pairs_fit(),
        ensures
            final(self)@.config == old(self)@.config,
            final(self)@.collisions == old(self)@.collisions,
            final(self)@.points.len() == old(self)@.points.len(),
            forall|i: int|
                0 <= i < final(self)@.points.len() ==> (#[trigger] final(self)@.points[i]).position()
                    == old(self)@.points[i].position(),
            final(self)@.wf(),
            final(self)@.pairs_fit(),
            final(self)@.points == resolved(
                old(self)@.points,
                old(self)@.collisions,
                old(self)@.config,
            ),
            commands@ == emitted(
                final(self)@.points,
                connections_of(old(self)@.points, old(self)@.collisions, old(self)@.config),
            ),
    {
        let mut parts = self.take();
        let connections = resolve(&mut parts.points, &parts.collisions, &parts.config);
        let commands = emit(&parts.points, &connections);
        self.put(parts);
        commands
    }

    /// One frame: a background without points is populated first; then the
    /// points move, the sweep finds the pairs, the pairs are resolved, and
    /// the frame is drawn. The duration is taken as the host measured it.
    /// Afterwards every point lies in the viewport, and the pairs fit the
    /// points.
    pub fn frame(
        &mut self,
        rng: &mut ChaCha20Rng,
        cursor: Option<Position>,
        viewport: &Viewport,
        dt: i64,
    ) -> (commands: Vec<DrawCommand>)
        requires
            viewport.wf(),
        ensures
            final(self)@.config == old(self)@.config,
            final(self)@.wf(),
            final(self)@.pairs_fit(),
            old(self)@.points.len() > 0 ==> final(self)@.points.len() == old(self)@.points.len(),
            old(self)@.points.len() == 0 ==> final(self)@.points.len() == point_count(
                viewport.width as int,
                old(self)@.config.point_spacing as int,
            ),
            forall|i: int|
                0 <= i < final(self)@.points.len() ==> inside(
                    #[trigger] final(self)@.points[i],
                    *viewport,
                ),
            old(self)@.points.len() > 0 ==> frame_outcome(
                old(self)@.points,
                cursor,
                *viewport,
                dt as int,
                final(self)@,
                commands@,
            ),
            old(self)@.points.len() == 0 ==> exists|start: Seq<Point>|
                is_population(start, *viewport, old(self)@.config) && #[trigger] frame_outcome(
                    start,
                    cursor,
                    *viewport,
                    dt as int,
                    final(self)@,
                    commands@,
                ),
    {
        if !self.has_points() {
            self.add_points(rng, viewport);
        }
        let ghost start = self@.points;
        self.update_points(cursor, viewport, dt);
        self.calculate_collisions();
        let commands = self.prepare_draw_data();
        assert(frame_outcome(start, cursor, *viewport, dt as int, self@, commands@));
        commands
    }
}

} // verus!
