//! Plane vectors and quarter-turn rotations.
//!
//! The simulation runs in a horizontal plane; `x` grows toward West and `y`
//! toward South, matching the renderer's x and z axes.  Every rotation the
//! engine performs is a multiple of a quarter turn, so rotations are kept
//! exact instead of being approximated by trigonometry.

use vstd::prelude::*;

use crate::fixed::in_range;

verus! {

/// A point or vector in the simulation plane.
#[derive(Clone, Copy, Debug, PartialEq, Eq, Structural, Hash)]
pub struct Vec2 {
    pub x: i64,
    pub y: i64,
}

impl Vec2 {
    /// Both components lie in the coordinate range.
    pub open spec fn wf(self) -> bool {
        in_range(self.x as int) && in_range(self.y as int)
    }

    pub fn new(x: i64, y: i64) -> (r: Vec2)
        ensures
            r.x == x,
            r.y == y,
    {
        Vec2 { x, y }
    }

    pub fn zero() -> (r: Vec2)
        ensures
            r.x == 0,
            r.y == 0,
    {
        Vec2 { x: 0, y: 0 }
    }
}

/// A counter-clockwise rotation about the vertical axis, in quarter turns.
#[derive(Clone, Copy, Debug, PartialEq, Eq, Structural, Hash)]
pub enum Rot {
    Deg0,
    Deg90,
    Deg180,
    Deg270,
}

impl Rot {
    /// The rotation as counter-clockwise degrees, one of 0, 90, 180, 270.
    pub open spec fn deg(self) -> int {
        match self {
            Rot::Deg0 => 0,
            Rot::Deg90 => 90,
            Rot::Deg180 => 180,
            Rot::Deg270 => 270,
        }
    }

    /// The x component of this rotation applied to `(x, y)`.
    pub open spec fn rot_x(self, x: int, y: int) -> int {
        match self {
            Rot::Deg0 => x,
            Rot::Deg90 => -y,
            Rot::Deg180 => -x,
            Rot::Deg270 => y,
        }
    }

    /// The y component of this rotation applied to `(x, y)`.
    pub open spec fn rot_y(self, x: int, y: int) -> int {
        match self {
            Rot::Deg0 => y,
            Rot::Deg90 => x,
            Rot::Deg180 => -y,
            Rot::Deg270 => -x,
        }
    }

    /// The rotation one quarter turn further counter-clockwise.
    pub open spec fn spec_quarter(self) -> Rot {
        match self {
            Rot::Deg0 => Rot::Deg90,
            Rot::Deg90 => Rot::Deg180,
            Rot::Deg180 => Rot::Deg270,
            Rot::Deg270 => Rot::Deg0,
        }
    }

    /// Sequential composition of two rotations.
    pub open spec fn plus(self, other: Rot) -> Rot {
        match other {
            Rot::Deg0 => self,
            Rot::Deg90 => self.spec_quarter(),
            Rot::Deg180 => self.spec_quarter().spec_quarter(),
            Rot::Deg270 => self.spec_quarter().spec_quarter().spec_quarter(),
        }
    }

    /// The rotation one quarter turn further counter-clockwise.
    pub fn quarter(self) -> (r: Rot)
        ensures
            r == self.spec_quarter(),
            r.deg() == (self.deg() + 90) % 360,
    {
        match self {
            Rot::Deg0 => Rot::Deg90,
            Rot::Deg90 => Rot::Deg180,
            Rot::Deg180 => Rot::Deg270,
            Rot::Deg270 => Rot::Deg0,
        }
    }

    /// Sequential composition: first `self`, then `other`.
    pub fn compose(self, other: Rot) -> (r: Rot)
        ensures
            r == self.plus(other),
            r.deg() == (self.deg() + other.deg()) % 360,
    {
        match other {
            Rot::Deg0 => self,
            Rot::Deg90 => self.quarter(),
            Rot::Deg180 => self.quarter().quarter(),
            Rot::Deg270 => self.quarter().quarter().quarter(),
        }
    }

    /// The inverse rotation.
    pub open spec fn spec_invert(self) -> Rot {
        match self {
            Rot::Deg0 => Rot::Deg0,
            Rot::Deg90 => Rot::Deg270,
            Rot::Deg180 => Rot::Deg180,
            Rot::Deg270 => Rot::Deg90,
        }
    }

    /// The inverse rotation.
    pub fn invert(self) -> (r: Rot)
        ensures
            r == self.spec_invert(),
            r.deg() == (0 - self.deg()) % 360,
            (self.deg() + r.deg()) % 360 == 0,
    {
        match self {
            Rot::Deg0 => Rot::Deg0,
            Rot::Deg90 => Rot::Deg270,
            Rot::Deg180 => Rot::Deg180,
            Rot::Deg270 => Rot::Deg90,
        }
    }

    /// Degrees as a run-time value.
    pub fn degrees(self) -> (d: i64)
        ensures
            d == self.deg(),
    {
        match self {
            Rot::Deg0 => 0,
            Rot::Deg90 => 90,
            Rot::Deg180 => 180,
            Rot::Deg270 => 270,
        }
    }

    /// Rotate a vector, exactly.
    pub fn rotate(self, v: Vec2) -> (r: Vec2)
        requires
            -i64::MAX <= v.x,
            -i64::MAX <= v.y,
        ensures
            r.x == self.rot_x(v.x as int, v.y as int),
            r.y == self.rot_y(v.x as int, v.y as int),
            v.wf() ==> r.wf(),
    {
        match self {
            Rot::Deg0 => v,
            Rot::Deg90 => Vec2 { x: -v.y, y: v.x },
            Rot::Deg180 => Vec2 { x: -v.x, y: -v.y },
            Rot::Deg270 => Vec2 { x: v.y, y: -v.x },
        }
    }
}

} // verus!
