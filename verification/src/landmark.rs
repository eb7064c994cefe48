//! Static landmarks: immobile Food and Base points with a capture radius.

use vstd::prelude::*;

verus! {

/// What a landmark offers a visiting agent.
#[derive(Clone, Copy, Debug, PartialEq, Eq, Structural)]
pub enum LandmarkKind {
    Food,
    Base,
}

/// An immobile point with a capture radius, fixed to one grid cell for the
/// whole run. Coordinates are world milli-units; the radius is in whole
/// world units.
#[derive(Clone, Copy, Debug, PartialEq, Eq, Structural)]
pub struct Landmark {
    pub x: i64,
    pub y: i64,
    pub radius: u16,
    pub kind: LandmarkKind,
}

impl Landmark {
    /// The capture radius in milli-units.
    pub open spec fn radius_milli(self) -> int {
        self.radius as int * 1000
    }

    /// The landmark lies within the world extent (in milli-units) and its
    /// capture radius plus the push-out margin is no larger than either
    /// extent, so a collision push-out needs at most one toroidal wrap.
    pub open spec fn fits(self, ext_x: int, ext_y: int) -> bool {
        &&& 0 <= self.x <= ext_x
        &&& 0 <= self.y <= ext_y
        &&& self.radius_milli() + 5000 <= ext_x
        &&& self.radius_milli() + 5000 <= ext_y
    }

    /// A landmark at the given position in milli-units.
    pub fn new(x: i64, y: i64, radius: u16, kind: LandmarkKind) -> (r: Landmark)
        ensures
            r == (Landmark { x, y, radius, kind }),
    {
        Landmark { x, y, radius, kind }
    }
}

} // verus!
