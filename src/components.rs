//! Attributes carried by the bodies of the simulation.
//!
//! Lengths are integers in micro-pixels, times in milliseconds, velocities in
//! micro-pixels per millisecond and angles in micro-radians.
use vstd::prelude::*;

verus! {

/// Mass of a body, in the library's mass unit.
#[derive(Clone, Copy, Debug, Default, PartialEq, Eq, Structural)]
pub struct Mass {
    pub mass: u64,
}

/// Linear velocity, in micro-pixels per millisecond.
#[derive(Clone, Copy, Debug, PartialEq, Eq, Structural)]
pub struct Velocity {
    pub x: i64,
    pub y: i64,
}

/// Rotation rate, in micro-radians per millisecond.
#[derive(Clone, Copy, Debug, PartialEq, Eq, Structural)]
pub struct AngularVelocity {
    pub velocity: i64,
}

/// The minimum and maximum observed distances to the central body.
///
/// `r_min == 0` means that no distance has been observed yet.
#[derive(Clone, Copy, Debug, Default, PartialEq, Eq, Structural)]
pub struct Orbit {
    /// The minimum distance to the central body
    pub r_min: i64,
    /// The maximum distance to the central body
    pub r_max: i64,
}

/// An eccentricity as the exact fraction `num / den`.
#[derive(Clone, Copy, Debug, PartialEq, Eq, Structural)]
pub struct Eccentricity {
    pub num: i128,
    pub den: i128,
}

/// Whether the fraction `num / den` lies strictly between 0 and 1.
pub open spec fn ratio_in_unit_interval(num: int, den: int) -> bool {
    (den > 0 && 0 < num && num < den) || (den < 0 && den < num && num < 0)
}

impl Orbit {
    pub open spec fn spec_eccentricity(self) -> (int, int) {
        (self.r_max - self.r_min, self.r_max + self.r_min)
    }

    /// An orbit is elliptical when its eccentricity `e` satisfies `0 < e < 1`.
    pub open spec fn spec_is_elliptical(self) -> bool {
        ratio_in_unit_interval(self.spec_eccentricity().0, self.spec_eccentricity().1)
    }

    /// Bounds as kept by the orbit tracker: unobserved (both zero), or
    /// `0 < r_min <= r_max`.
    pub open spec fn wf(self) -> bool {
        (self.r_min == 0 && self.r_max == 0) || (0 < self.r_min && self.r_min <= self.r_max)
    }

    /// Determine if an orbit is elliptical from its eccentricity.
    pub fn is_elliptical(&self) -> (r: bool)
        ensures
            r == self.spec_is_elliptical(),
    {
        let e = self.eccentricity();
        (e.den > 0 && 0 < e.num && e.num < e.den) || (e.den < 0 && e.den < e.num && e.num < 0)
    }

    /// Returns the eccentricity `(r_max - r_min) / (r_max + r_min)` of the orbit.
    pub fn eccentricity(&self) -> (r: Eccentricity)
        ensures
            r.num == self.spec_eccentricity().0,
            r.den == self.spec_eccentricity().1,
    {
        Eccentricity {
            num: self.r_max as i128 - self.r_min as i128,
            den: self.r_max as i128 + self.r_min as i128,
        }
    }
}

/// The variant of a body. Only a satellite tracks its orbit.
#[derive(Clone, Copy, Debug, PartialEq, Eq, Structural)]
pub enum Kind {
    Planet,
    Asteroid { orbit: Orbit },
    Moon,
}

/// One row of the entity store.
#[derive(Clone, Copy, Debug, PartialEq, Eq, Structural)]
pub struct Body {
    /// Handle, unique over the life of the world.
    pub id: u64,
    pub kind: Kind,
    pub x: i64,
    pub y: i64,
    /// Orientation, in micro-radians.
    pub rotation: i64,
    pub velocity: Velocity,
    pub spin: AngularVelocity,
    pub mass: Mass,
}

impl Body {
    pub open spec fn is_asteroid(self) -> bool {
        self.kind is Asteroid
    }
}

} // verus!
