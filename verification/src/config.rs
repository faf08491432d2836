//! The viewport and the constants that tune the simulation.

use vstd::prelude::*;
use crate::fixed::{LIMIT, UNIT};

verus! {

/// The size of the area in which the points move.
#[derive(Copy, Clone, Debug, PartialEq, Eq, Structural)]
pub struct Viewport {
    pub width: i64,
    pub height: i64,
}

impl Viewport {
    /// Both sides are positive and within the limit.
    pub open spec fn wf(&self) -> bool {
        &&& 0 < self.width <= LIMIT
        &&& 0 < self.height <= LIMIT
    }

    /// A viewport of the given size, if both sides are positive and within
    /// the limit.
    pub fn new(width: i64, height: i64) -> (r: Option<Viewport>)
        ensures
            r is Some <==> 0 < width <= LIMIT && 0 < height <= LIMIT,
            r is Some ==> r->0 == (Viewport { width, height }),
    {
        if 0 < width && width <= LIMIT && 0 < height && height <= LIMIT {
            Some(Viewport { width, height })
        } else {
            None
        }
    }
}

/// How velocities decay from frame to frame.
#[derive(Copy, Clone, Debug, PartialEq, Eq, Structural)]
pub enum Damping {
    /// A velocity component is multiplied by `factor` only while its
    /// magnitude exceeds `threshold`; slower components are left alone.
    Conditional { threshold: i64, factor: i64 },
    /// Every velocity component is multiplied by `factor` in every frame.
    Constant { factor: i64 },
}

impl Damping {
    /// The factor by which a damped component is multiplied.
    pub open spec fn factor(&self) -> int {
        match *self {
            Damping::Conditional { factor, .. } => factor as int,
            Damping::Constant { factor } => factor as int,
        }
    }

    /// The magnitude above which a component is damped.
    pub open spec fn threshold(&self) -> int {
        match *self {
            Damping::Conditional { threshold, .. } => threshold as int,
            Damping::Constant { .. } => 0,
        }
    }
}

/// The constants of the simulation, in fixed-point representation.
#[derive(Copy, Clone, Debug, PartialEq, Eq, Structural)]
pub struct Config {
    /// Two points closer than this are joined by a line.
    pub interaction_distance: i64,
    /// Two points closer than this collide; `None` switches collisions off.
    pub collision_radius: Option<i64>,
    /// The width of viewport that holds one point.
    pub point_spacing: i64,
    /// The largest magnitude of an initial velocity component.
    pub velocity_range: i64,
    /// The cursor pushes away the points that are closer to it than this.
    pub repulsion_radius: i64,
    /// The speed that the cursor adds to a point within its reach.
    pub repulsion_strength: i64,
    /// The damping policy.
    pub damping: Damping,
    /// The downward acceleration; `None` switches gravity off.
    pub gravity: Option<i64>,
    /// The factor between a velocity and the distance covered per second.
    pub position_scale: i64,
}

/// The constant that a configuration was refused for.
#[derive(Copy, Clone, Debug, PartialEq, Eq, Structural)]
pub enum ConfigError {
    InteractionDistance,
    CollisionRadius,
    PointSpacing,
    VelocityRange,
    RepulsionRadius,
    RepulsionStrength,
    DampingThreshold,
    DampingFactor,
    Gravity,
    PositionScale,
}

/// The constants of the physical variant: gravity, a light damping in every
/// frame, and elastic collisions.
pub open spec fn physical_config() -> Config {
    Config {
        interaction_distance: 120_000_000,
        collision_radius: Some(5_000_000i64),
        point_spacing: 6_000_000,
        velocity_range: 20_000_000,
        repulsion_radius: 60_000_000,
        repulsion_strength: 30_000_000,
        damping: Damping::Constant { factor: 999_000 },
        gravity: Some(9_800_000i64),
        position_scale: 10_000_000,
    }
}

impl Config {
    /// The first constant, in the order of the fields, that is out of its
    /// range. Distances and the spacing must be positive; the velocity range,
    /// the reach and strength of the cursor, the damping threshold and the
    /// scale must not be negative; the damping factor lies between zero and
    /// one; and nothing exceeds the limit.
    pub open spec fn first_fault(&self) -> Option<ConfigError> {
        if !(0 < self.interaction_distance <= LIMIT) {
            Some(ConfigError::InteractionDistance)
        } else if self.collision_radius is Some && !(0 < self.collision_radius->0 <= LIMIT) {
            Some(ConfigError::CollisionRadius)
        } else if !(0 < self.point_spacing <= LIMIT) {
            Some(ConfigError::PointSpacing)
        } else if !(0 <= self.velocity_range <= LIMIT) {
            Some(ConfigError::VelocityRange)
        } else if !(0 <= self.repulsion_radius <= LIMIT) {
            Some(ConfigError::RepulsionRadius)
        } else if !(0 <= self.repulsion_strength <= LIMIT) {
            Some(ConfigError::RepulsionStrength)
        } else if !(0 <= self.damping.threshold() <= LIMIT) {
            Some(ConfigError::DampingThreshold)
        } else if !(0 <= self.damping.factor() <= UNIT) {
            Some(ConfigError::DampingFactor)
        } else if self.gravity is Some && !(-LIMIT <= self.gravity->0 <= LIMIT) {
            Some(ConfigError::Gravity)
        } else if !(0 <= self.position_scale <= LIMIT) {
            Some(ConfigError::PositionScale)
        } else {
            None
        }
    }

    /// Every constant is in its range.
    pub open spec fn wf(&self) -> bool {
        self.first_fault() is None
    }

    /// The constants of the physical variant.
    pub fn physical() -> (c: Config)
        ensures
            c == physical_config(),
            c.wf(),
    {
        Config {
            interaction_distance: 120 * UNIT,
            collision_radius: Some(5 * UNIT),
            point_spacing: 6 * UNIT,
            velocity_range: 20 * UNIT,
            repulsion_radius: 60 * UNIT,
            repulsion_strength: 30 * UNIT,
            damping: Damping::Constant { factor: 999_000 },
            gravity: Some(9_800_000),
            position_scale: 10 * UNIT,
        }
    }

    /// Checks the constants: `Ok` if every one is in its range, else the
    /// first that is not.
    pub fn validate(&self) -> (r: Result<(), ConfigError>)
        ensures
            r is Ok <==> self.wf(),
            r is Err ==> self.first_fault() == Some(r->Err_0),
    {
        if !(0 < self.interaction_distance && self.interaction_distance <= LIMIT) {
            return Err(ConfigError::InteractionDistance);
        }
        match self.collision_radius {
            Some(radius) => {
                if !(0 < radius && radius <= LIMIT) {
                    return Err(ConfigError::CollisionRadius);
                }
            },
            None => {},
        }
        if !(0 < self.point_spacing && self.point_spacing <= LIMIT) {
            return Err(ConfigError::PointSpacing);
        }
        if !(0 <= self.velocity_range && self.velocity_range <= LIMIT) {
            return Err(ConfigError::VelocityRange);
        }
        if !(0 <= self.repulsion_radius && self.repulsion_radius <= LIMIT) {
            return Err(ConfigError::RepulsionRadius);
        }
        if !(0 <= self.repulsion_strength && self.repulsion_strength <= LIMIT) {
            return Err(ConfigError::RepulsionStrength);
        }
        match self.damping {
            Damping::Conditional { threshold, factor } => {
                if !(0 <= threshold && threshold <= LIMIT) {
                    return Err(ConfigError::DampingThreshold);
                }
                if !(0 <= factor && factor <= UNIT) {
                    return Err(ConfigError::DampingFactor);
                }
            },
            Damping::Constant { factor } => {
                if !(0 <= factor && factor <= UNIT) {
                    return Err(ConfigError::DampingFactor);
                }
            },
        }
        match self.gravity {
            Some(gravity) => {
                if !(-LIMIT <= gravity && gravity <= LIMIT) {
                    return Err(ConfigError::Gravity);
                }
            },
            None => {},
        }
        if !(0 <= self.position_scale && self.position_scale <= LIMIT) {
            return Err(ConfigError::PositionScale);
        }
        Ok(())
    }
}

} // verus!
