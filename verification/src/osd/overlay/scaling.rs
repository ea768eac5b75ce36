//! Which tiles to draw the OSD with, and at which size, so that it suits the
//! video it is laid over.
//!
//! A font comes with tiles of two kinds, and every tile is 2 units wide and 3
//! units high. Drawn with tiles of unit `n`, the OSD is as wide as its columns
//! times `2n` and as high as its rows times `3n`. For a target resolution the
//! OSD gets the largest unit with which it still fits. The tiles are taken
//! from the largest kind that is not larger than that; only where even the
//! smallest kind is larger, the tiles of the recording's own kind are made
//! smaller.

use vstd::prelude::*;
use crate::osd::dji::Kind;
use crate::osd::tile::{PixelDimensions, TileKind};

verus! {

/// How to draw the OSD: the kind of tiles to take from the font, and the size
/// to bring them to where that is not the size they have.
#[derive(Debug, Clone, Copy, PartialEq, Eq, Structural, Hash)]
pub struct Scaling {
    pub tile_kind: TileKind,
    pub tile_dimensions: Option<PixelDimensions>,
}

/// The OSD of this layout does not fit into the target resolution, however
/// small the tiles.
#[derive(Debug, Clone, Copy, PartialEq, Eq, Structural, Hash)]
pub struct NoAcceptableScaling {
    pub kind: Kind,
    pub target_resolution: PixelDimensions,
}

/// The tiles of unit `unit`.
pub open spec fn tile_of_unit(unit: int) -> PixelDimensions {
    PixelDimensions { width: (2 * unit) as u32, height: (3 * unit) as u32 }
}

/// Whether the OSD of layout `kind` fits into `target` when it is drawn with
/// tiles of unit `unit`.
pub open spec fn fits(kind: Kind, unit: int, target: PixelDimensions) -> bool {
    &&& kind.spec_dimensions_tiles().width * (2 * unit) <= target.width
    &&& kind.spec_dimensions_tiles().height * (3 * unit) <= target.height
}

/// The largest unit with which the OSD of layout `kind` fits into `target`.
pub open spec fn largest_unit(kind: Kind, target: PixelDimensions) -> int {
    let by_width = target.width as int / (2 * kind.spec_dimensions_tiles().width);
    let by_height = target.height as int / (3 * kind.spec_dimensions_tiles().height);
    if by_width <= by_height {
        by_width
    } else {
        by_height
    }
}

/// The kind of tiles to draw tiles of unit `unit` from: the largest kind that
/// is not larger, or the kind of the layout where every kind is larger.
pub open spec fn tile_kind_for_unit(kind: Kind, unit: int) -> TileKind {
    if unit >= TileKind::SD.spec_unit() {
        TileKind::SD
    } else if unit >= TileKind::HD.spec_unit() {
        TileKind::HD
    } else {
        kind.spec_tile_kind()
    }
}

/// The scaling that draws the OSD with tiles of unit `unit`.
pub open spec fn scaling_of_unit(kind: Kind, unit: int) -> Scaling {
    let tile_kind = tile_kind_for_unit(kind, unit);
    Scaling {
        tile_kind,
        tile_dimensions: if unit == tile_kind.spec_unit() {
            None
        } else {
            Some(tile_of_unit(unit))
        },
    }
}

/// The scaling for the OSD of layout `kind`. Without a target resolution the
/// tiles are those of the layout, at their own size. With one, the OSD is
/// drawn with the largest unit with which it fits, and there is no scaling
/// where it does not fit with any.
pub open spec fn scaling_for(kind: Kind, target_resolution: Option<PixelDimensions>) -> Result<
    Scaling,
    NoAcceptableScaling,
> {
    match target_resolution {
        None => Ok(Scaling { tile_kind: kind.spec_tile_kind(), tile_dimensions: None }),
        Some(target) => if largest_unit(kind, target) == 0 {
            Err(NoAcceptableScaling { kind, target_resolution: target })
        } else {
            Ok(scaling_of_unit(kind, largest_unit(kind, target)))
        },
    }
}

impl Scaling {
    /// The size at which the tiles are drawn.
    pub open spec fn spec_tile_dimensions(&self) -> PixelDimensions {
        match self.tile_dimensions {
            Some(tile_dimensions) => tile_dimensions,
            None => self.tile_kind.spec_dimensions(),
        }
    }

    /// The kind of tiles to take from the font.
    pub fn tile_kind(&self) -> (tile_kind: TileKind)
        ensures
            tile_kind == self.tile_kind,
    {
        self.tile_kind
    }

    /// Whether the tiles are drawn at another size than their own.
    pub fn is_scaled(&self) -> (scaled: bool)
        ensures
            scaled == self.tile_dimensions.is_some(),
    {
        self.tile_dimensions.is_some()
    }

    #[verifier::when_used_as_spec(spec_tile_dimensions)]
    pub fn tile_dimensions(&self) -> (tile_dimensions: PixelDimensions)
        ensures
            tile_dimensions == self.spec_tile_dimensions(),
    {
        match self.tile_dimensions {
            Some(tile_dimensions) => tile_dimensions,
            None => self.tile_kind.dimensions(),
        }
    }

    /// Chooses the tiles and their size for the OSD of layout `kind` and, where
    /// there is one, the resolution of the video that it is laid over. The
    /// choice depends on nothing but the two arguments.
    pub fn for_target(kind: Kind, target_resolution: Option<PixelDimensions>) -> (result: Result<
        Scaling,
        NoAcceptableScaling,
    >)
        ensures
            result == scaling_for(kind, target_resolution),
    {
        match target_resolution {
            None => Ok(Scaling { tile_kind: kind.tile_kind(), tile_dimensions: None }),
            Some(target) => {
                proof {
                    lemma_largest_unit(kind, target, 0);
                }
                let dimensions_tiles = kind.dimensions_tiles();
                let by_width: u32 = target.width / (2 * dimensions_tiles.width as u32);
                let by_height: u32 = target.height / (3 * dimensions_tiles.height as u32);
                let unit: u32 = if by_width <= by_height {
                    by_width
                } else {
                    by_height
                };
                if unit == 0 {
                    Err(NoAcceptableScaling { kind, target_resolution: target })
                } else {
                    let tile_kind = if unit >= TileKind::SD.unit() {
                        TileKind::SD
                    } else if unit >= TileKind::HD.unit() {
                        TileKind::HD
                    } else {
                        kind.tile_kind()
                    };
                    let tile_dimensions = if unit == tile_kind.unit() {
                        None
                    } else {
                        Some(PixelDimensions::new(2 * unit, 3 * unit))
                    };
                    Ok(Scaling { tile_kind, tile_dimensions })
                }
            },
        }
    }
}

/// The largest unit fits, and so does every smaller one; no larger one does.
pub proof fn lemma_largest_unit(kind: Kind, target: PixelDimensions, unit: int)
    ensures
        fits(kind, largest_unit(kind, target), target),
        fits(kind, unit, target) <==> unit <= largest_unit(kind, target),
        0 <= 3 * largest_unit(kind, target) <= u32::MAX,
{
    let width = target.width as int;
    let height = target.height as int;
    match kind {
        Kind::SD => {
            assert(largest_unit(kind, target) == if width / 60 <= height / 45 {
                width / 60
            } else {
                height / 45
            });
            assert(fits(kind, unit, target) == (60 * unit <= width && 45 * unit <= height));
        },
        Kind::FakeHD => {
            assert(largest_unit(kind, target) == if width / 120 <= height / 66 {
                width / 120
            } else {
                height / 66
            });
            assert(fits(kind, unit, target) == (120 * unit <= width && 66 * unit <= height));
        },
        Kind::HD => {
            assert(largest_unit(kind, target) == if width / 100 <= height / 54 {
                width / 100
            } else {
                height / 54
            });
            assert(fits(kind, unit, target) == (100 * unit <= width && 54 * unit <= height));
        },
    }
}

/// The scaling exists exactly when the OSD fits into the target with tiles of
/// some unit, that is, with the smallest.
pub proof fn lemma_scaling_exists(kind: Kind, target: PixelDimensions)
    ensures
        scaling_for(kind, Some(target)) is Ok <==> fits(kind, 1, target),
        scaling_for(kind, None) is Ok,
{
    lemma_largest_unit(kind, target, 1);
}

/// With the scaling that was chosen the OSD fits into the target, and with
/// tiles of any larger unit it does not.
pub proof fn lemma_scaling_fits_best(kind: Kind, target: PixelDimensions, scaling: Scaling, unit: int)
    requires
        scaling_for(kind, Some(target)) == Ok::<Scaling, NoAcceptableScaling>(scaling),
    ensures
        scaling.spec_tile_dimensions() == tile_of_unit(largest_unit(kind, target)),
        kind.spec_dimensions_tiles().width * scaling.spec_tile_dimensions().width <= target.width,
        kind.spec_dimensions_tiles().height * scaling.spec_tile_dimensions().height
            <= target.height,
        2 * unit > scaling.spec_tile_dimensions().width ==> !fits(kind, unit, target),
{
    lemma_largest_unit(kind, target, unit);
}

/// Tiles are never made smaller where the OSD fits with tiles at the size
/// they have: then the tiles that were chosen are drawn at their own size or
/// larger. They are made smaller only where the OSD does not fit with the
/// tiles of any kind, and then they are those of the layout.
pub proof fn lemma_scaling_keeps_sharpness(kind: Kind, target: PixelDimensions, scaling: Scaling)
    requires
        scaling_for(kind, Some(target)) == Ok::<Scaling, NoAcceptableScaling>(scaling),
    ensures
        fits(kind, TileKind::HD.spec_unit() as int, target) ==> {
            &&& scaling.spec_tile_dimensions().width >= scaling.tile_kind.spec_dimensions().width
            &&& scaling.spec_tile_dimensions().height >= scaling.tile_kind.spec_dimensions().height
        },
        !fits(kind, TileKind::HD.spec_unit() as int, target) ==> {
            &&& scaling.tile_kind == kind.spec_tile_kind()
            &&& scaling.spec_tile_dimensions().width < scaling.tile_kind.spec_dimensions().width
            &&& scaling.spec_tile_dimensions().height < scaling.tile_kind.spec_dimensions().height
        },
        scaling.tile_dimensions is None <==> fits(
            kind,
            scaling.tile_kind.spec_unit() as int,
            target,
        ) && !fits(kind, scaling.tile_kind.spec_unit() + 1, target),
{
    lemma_largest_unit(kind, target, TileKind::HD.spec_unit() as int);
    lemma_largest_unit(kind, target, TileKind::SD.spec_unit() as int);
    lemma_largest_unit(kind, target, TileKind::HD.spec_unit() + 1);
    lemma_largest_unit(kind, target, TileKind::SD.spec_unit() + 1);
}

} // verus!
