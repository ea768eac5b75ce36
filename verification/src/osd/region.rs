//! Rectangles of tiles, as used to erase parts of the OSD.

use vstd::prelude::*;
use crate::osd::coordinates::{Coordinates, CoordinatesRange};

verus! {

/// A size counted in tiles.
#[derive(Debug, Clone, Copy, PartialEq, Eq, Structural, Hash)]
pub struct Dimensions {
    pub width: u8,
    pub height: u8,
}

impl Dimensions {
    pub fn new(width: u8, height: u8) -> (dimensions: Self)
        ensures
            dimensions == (Dimensions { width, height }),
    {
        Dimensions { width, height }
    }
}

/// An axis-aligned rectangle of tiles: its top left tile and its size.
/// A region whose width or height is 0 holds no tile.
#[derive(Debug, Clone, Copy, PartialEq, Eq, Structural, Hash)]
pub struct Region {
    pub top_left_corner: Coordinates,
    pub dimensions: Dimensions,
}

impl Region {
    /// Membership: the tile lies in one of the `width` columns that start at
    /// the corner's column and in one of the `height` rows that start at its
    /// row.
    pub open spec fn spec_contains(&self, coordinates: Coordinates) -> bool {
        &&& self.top_left_corner.x <= coordinates.x < self.top_left_corner.x + self.dimensions.width
        &&& self.top_left_corner.y <= coordinates.y < self.top_left_corner.y + self.dimensions.height
    }

    /// The inclusive range that holds the tiles of the region. The far corner
    /// stops at the largest coordinate where the region reaches beyond it.
    pub open spec fn spec_to_coordinates_range(&self) -> CoordinatesRange {
        if self.dimensions.width == 0 || self.dimensions.height == 0 {
            CoordinatesRange::empty()
        } else {
            CoordinatesRange {
                first: self.top_left_corner,
                last: Coordinates {
                    x: clip_coordinate(self.top_left_corner.x + self.dimensions.width - 1),
                    y: clip_coordinate(self.top_left_corner.y + self.dimensions.height - 1),
                },
            }
        }
    }

    pub fn new(top_left_corner: Coordinates, dimensions: Dimensions) -> (region: Self)
        ensures
            region == (Region { top_left_corner, dimensions }),
    {
        Region { top_left_corner, dimensions }
    }

    pub fn top_left_corner(&self) -> (corner: Coordinates)
        ensures
            corner == self.top_left_corner,
    {
        self.top_left_corner
    }

    pub fn dimensions(&self) -> (dimensions: Dimensions)
        ensures
            dimensions == self.dimensions,
    {
        self.dimensions
    }

    pub fn contains(&self, coordinates: &Coordinates) -> (inside: bool)
        ensures
            inside == self.spec_contains(*coordinates),
    {
        let range = self.to_coordinates_range();
        range.contains(coordinates)
    }

    #[verifier::when_used_as_spec(spec_to_coordinates_range)]
    pub fn to_coordinates_range(&self) -> (range: CoordinatesRange)
        ensures
            range == self.spec_to_coordinates_range(),
            forall|coordinates: Coordinates|
                range.spec_contains(coordinates) <==> self.spec_contains(coordinates),
    {
        if self.dimensions.width == 0 || self.dimensions.height == 0 {
            CoordinatesRange::new(Coordinates::new(1, 1), Coordinates::new(0, 0))
        } else {
            let last_x = last_coordinate(self.top_left_corner.x, self.dimensions.width);
            let last_y = last_coordinate(self.top_left_corner.y, self.dimensions.height);
            CoordinatesRange::new(self.top_left_corner, Coordinates::new(last_x, last_y))
        }
    }
}

/// The coordinate nearest to `value` from below.
pub open spec fn clip_coordinate(value: int) -> u8 {
    if value > u8::MAX {
        u8::MAX
    } else {
        value as u8
    }
}

/// The last of `length` coordinates that start at `first`, stopped at the
/// largest coordinate.
fn last_coordinate(first: u8, length: u8) -> (last: u8)
    requires
        length > 0,
    ensures
        last == clip_coordinate(first + length - 1),
{
    let reach: u8 = length - 1;
    if reach > u8::MAX - first {
        u8::MAX
    } else {
        first + reach
    }
}

} // verus!
