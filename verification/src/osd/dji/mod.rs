//! The OSD as the DJI FPV system records it.

use vstd::prelude::*;
use crate::osd::region::Dimensions;
use crate::osd::tile::{PixelDimensions, TileKind};

pub mod file;
pub mod layout;

verus! {

/// The screen layouts that the video unit can record.
#[derive(Debug, Clone, Copy, PartialEq, Eq, Structural, Hash)]
pub enum Kind {
    /// 30x15 tiles, drawn with SD tiles.
    SD,
    /// 60x22 tiles, drawn with HD tiles.
    FakeHD,
    /// 50x18 tiles, drawn with HD tiles.
    HD,
}

impl Kind {
    /// The size of the screen in tiles.
    pub open spec fn spec_dimensions_tiles(&self) -> Dimensions {
        match self {
            Kind::SD => Dimensions { width: 30, height: 15 },
            Kind::FakeHD => Dimensions { width: 60, height: 22 },
            Kind::HD => Dimensions { width: 50, height: 18 },
        }
    }

    /// The kind of tiles that the layout is made for.
    pub open spec fn spec_tile_kind(&self) -> TileKind {
        match self {
            Kind::SD => TileKind::SD,
            Kind::FakeHD => TileKind::HD,
            Kind::HD => TileKind::HD,
        }
    }

    /// The size of the screen in pixels when it is drawn with tiles of
    /// `tile_dimensions`.
    pub open spec fn spec_dimensions_pixels(&self, tile_dimensions: PixelDimensions) -> (int, int) {
        (
            self.spec_dimensions_tiles().width * tile_dimensions.width,
            self.spec_dimensions_tiles().height * tile_dimensions.height,
        )
    }

    /// The layout whose screen has the size `dimensions`, if there is one.
    pub open spec fn spec_from_dimensions_tiles(dimensions: Dimensions) -> Option<Kind> {
        if dimensions == Kind::SD.spec_dimensions_tiles() {
            Some(Kind::SD)
        } else if dimensions == Kind::FakeHD.spec_dimensions_tiles() {
            Some(Kind::FakeHD)
        } else if dimensions == Kind::HD.spec_dimensions_tiles() {
            Some(Kind::HD)
        } else {
            None
        }
    }

    #[verifier::when_used_as_spec(spec_dimensions_tiles)]
    pub fn dimensions_tiles(&self) -> (dimensions: Dimensions)
        ensures
            dimensions == self.spec_dimensions_tiles(),
    {
        match self {
            Kind::SD => Dimensions::new(30, 15),
            Kind::FakeHD => Dimensions::new(60, 22),
            Kind::HD => Dimensions::new(50, 18),
        }
    }

    #[verifier::when_used_as_spec(spec_tile_kind)]
    pub fn tile_kind(&self) -> (tile_kind: TileKind)
        ensures
            tile_kind == self.spec_tile_kind(),
    {
        match self {
            Kind::SD => TileKind::SD,
            Kind::FakeHD => TileKind::HD,
            Kind::HD => TileKind::HD,
        }
    }

    #[verifier::when_used_as_spec(spec_from_dimensions_tiles)]
    pub fn from_dimensions_tiles(dimensions: Dimensions) -> (kind: Option<Kind>)
        ensures
            kind == Self::spec_from_dimensions_tiles(dimensions),
    {
        if dimensions.width == 30 && dimensions.height == 15 {
            Some(Kind::SD)
        } else if dimensions.width == 60 && dimensions.height == 22 {
            Some(Kind::FakeHD)
        } else if dimensions.width == 50 && dimensions.height == 18 {
            Some(Kind::HD)
        } else {
            None
        }
    }
}

/// No layout is larger than the grid that a frame holds.
pub proof fn lemma_kind_fits_grid(kind: Kind)
    ensures
        kind.spec_dimensions_tiles().width <= crate::osd::dji::file::tile_indices::WIDTH,
        kind.spec_dimensions_tiles().height <= crate::osd::dji::file::tile_indices::HEIGHT,
{
}

/// The layout that is found from the size of a screen has that size.
pub proof fn lemma_kind_from_dimensions(dimensions: Dimensions)
    ensures
        match Kind::spec_from_dimensions_tiles(dimensions) {
            Some(kind) => kind.spec_dimensions_tiles() == dimensions,
            None => forall|kind: Kind| kind.spec_dimensions_tiles() != dimensions,
        },
{
}

} // verus!
