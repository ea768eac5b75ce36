//! Positions of tiles on the screen, counted in tiles from the top left corner.

use vstd::prelude::*;

verus! {

/// One component of a tile position.
pub type Coordinate = u8;

/// The position of a tile: column `x` and row `y`, both starting at 0.
#[derive(Debug, Clone, Copy, PartialEq, Eq, Structural, Hash)]
pub struct Coordinates {
    pub x: Coordinate,
    pub y: Coordinate,
}

impl Coordinates {
    pub fn new(x: Coordinate, y: Coordinate) -> (coordinates: Self)
        ensures
            coordinates == (Coordinates { x, y }),
    {
        Coordinates { x, y }
    }
}

/// A rectangle of tile positions given by two opposite corners, both of which
/// belong to it. It holds no position when `last` lies left of or above
/// `first`.
#[derive(Debug, Clone, Copy, PartialEq, Eq, Structural, Hash)]
pub struct CoordinatesRange {
    pub first: Coordinates,
    pub last: Coordinates,
}

impl CoordinatesRange {
    /// The range that holds no position, as every conversion writes it.
    pub open spec fn empty() -> CoordinatesRange {
        CoordinatesRange {
            first: Coordinates { x: 1, y: 1 },
            last: Coordinates { x: 0, y: 0 },
        }
    }

    /// Membership: both components lie between the corners, corners included.
    pub open spec fn spec_contains(&self, coordinates: Coordinates) -> bool {
        &&& self.first.x <= coordinates.x <= self.last.x
        &&& self.first.y <= coordinates.y <= self.last.y
    }

    pub fn new(first: Coordinates, last: Coordinates) -> (range: Self)
        ensures
            range == (CoordinatesRange { first, last }),
    {
        CoordinatesRange { first, last }
    }

    pub fn contains(&self, coordinates: &Coordinates) -> (inside: bool)
        ensures
            inside == self.spec_contains(*coordinates),
    {
        self.first.x <= coordinates.x && coordinates.x <= self.last.x
            && self.first.y <= coordinates.y && coordinates.y <= self.last.y
    }
}

} // verus!
