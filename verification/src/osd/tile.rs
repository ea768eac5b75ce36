//! The tiles that an OSD is drawn with.

use vstd::prelude::*;

verus! {

/// A size counted in pixels.
#[derive(Debug, Clone, Copy, PartialEq, Eq, Structural, Hash)]
pub struct PixelDimensions {
    pub width: u32,
    pub height: u32,
}

impl PixelDimensions {
    pub fn new(width: u32, height: u32) -> (dimensions: Self)
        ensures
            dimensions == (PixelDimensions { width, height }),
    {
        PixelDimensions { width, height }
    }
}

/// The two sizes in which a font provides its tiles.
#[derive(Debug, Clone, Copy, PartialEq, Eq, Structural, Hash)]
pub enum TileKind {
    /// 36x54 pixels.
    SD,
    /// 24x36 pixels.
    HD,
}

impl TileKind {
    /// Every tile is 2 units wide and 3 units high. This is the unit of the
    /// kind's native size, in pixels.
    pub open spec fn spec_unit(&self) -> u32 {
        match self {
            TileKind::SD => 18,
            TileKind::HD => 12,
        }
    }

    /// The native size of the tiles of this kind.
    pub open spec fn spec_dimensions(&self) -> PixelDimensions {
        PixelDimensions { width: (2 * self.spec_unit()) as u32, height: (3 * self.spec_unit()) as u32 }
    }

    #[verifier::when_used_as_spec(spec_unit)]
    pub fn unit(&self) -> (unit: u32)
        ensures
            unit == self.spec_unit(),
    {
        match self {
            TileKind::SD => 18,
            TileKind::HD => 12,
        }
    }

    #[verifier::when_used_as_spec(spec_dimensions)]
    pub fn dimensions(&self) -> (dimensions: PixelDimensions)
        ensures
            dimensions == self.spec_dimensions(),
    {
        PixelDimensions::new(2 * self.unit(), 3 * self.unit())
    }
}

/// The colour of one point of a picture, as `0xRRGGBBAA`: red, green, blue and
/// opacity.
pub type Pixel = u32;

/// The pixel through which the video shows.
pub const TRANSPARENT: Pixel = 0;

/// The largest width and height of a tile that a tile set accepts.
pub const MAX_TILE_DIMENSION: u32 = 1024;

/// Why tiles do not make up a tile set.
#[derive(Debug, Clone, Copy, PartialEq, Eq, Structural, Hash)]
pub enum InvalidTileSet {
    /// The width or the height is 0 or more than `MAX_TILE_DIMENSION`.
    InvalidTileDimensions,
    /// The tile at this position has not one pixel for each point.
    InvalidTileSize { tile_index: usize },
}

/// Whether tiles can have the size `tile_dimensions`.
pub open spec fn valid_tile_dimensions(tile_dimensions: PixelDimensions) -> bool {
    &&& 1 <= tile_dimensions.width <= MAX_TILE_DIMENSION
    &&& 1 <= tile_dimensions.height <= MAX_TILE_DIMENSION
}

/// Whether the tile at position `k` is the first that has not one pixel for
/// each point of a tile of `tile_dimensions`.
pub open spec fn is_first_invalid_tile(
    tiles: Seq<Vec<Pixel>>,
    tile_dimensions: PixelDimensions,
    k: int,
) -> bool {
    &&& 0 <= k < tiles.len()
    &&& tiles[k]@.len() != tile_dimensions.width * tile_dimensions.height
    &&& forall|j: int|
        0 <= j < k ==> (#[trigger] tiles[j])@.len() == tile_dimensions.width
            * tile_dimensions.height
}

/// The pictures of the tiles of a font, all of one size. The tile with index
/// `t` is the picture at position `t`; its pixels are stored row after row,
/// from the top.
#[derive(Debug, PartialEq, Eq)]
pub struct TileSet {
    tile_dimensions: PixelDimensions,
    tiles: Vec<Vec<Pixel>>,
}

impl TileSet {
    #[verifier::type_invariant]
    spec fn well_formed(&self) -> bool {
        &&& valid_tile_dimensions(self.tile_dimensions)
        &&& forall|t: int|
            0 <= t < self.tiles@.len() ==> (#[trigger] self.tiles@[t])@.len()
                == self.tile_dimensions.width * self.tile_dimensions.height
    }

    /// The size of every tile.
    pub closed spec fn spec_tile_dimensions(&self) -> PixelDimensions {
        self.tile_dimensions
    }

    /// The pixels of every tile.
    pub closed spec fn spec_tiles(&self) -> Seq<Seq<Pixel>> {
        Seq::new(self.tiles@.len(), |t: int| self.tiles@[t]@)
    }

    /// Makes a tile set of pictures of the size `tile_dimensions`.
    pub fn new(tile_dimensions: PixelDimensions, tiles: Vec<Vec<Pixel>>) -> (result: Result<
        TileSet,
        InvalidTileSet,
    >)
        ensures
            match result {
                Ok(tile_set) => {
                    &&& valid_tile_dimensions(tile_dimensions)
                    &&& forall|t: int|
                        0 <= t < tiles@.len() ==> (#[trigger] tiles@[t])@.len()
                            == tile_dimensions.width * tile_dimensions.height
                    &&& tile_set.spec_tile_dimensions() == tile_dimensions
                    &&& tile_set.spec_tiles().len() == tiles@.len()
                    &&& forall|t: int|
                        0 <= t < tiles@.len() ==> #[trigger] tile_set.spec_tiles()[t] == tiles@[t]@
                },
                Err(InvalidTileSet::InvalidTileDimensions) => !valid_tile_dimensions(
                    tile_dimensions,
                ),
                Err(InvalidTileSet::InvalidTileSize { tile_index }) => {
                    &&& valid_tile_dimensions(tile_dimensions)
                    &&& is_first_invalid_tile(tiles@, tile_dimensions, tile_index as int)
                },
            },
    {
        if tile_dimensions.width < 1 || tile_dimensions.width > MAX_TILE_DIMENSION
            || tile_dimensions.height < 1 || tile_dimensions.height > MAX_TILE_DIMENSION {
            return Err(InvalidTileSet::InvalidTileDimensions);
        }
        assert(tile_dimensions.width * tile_dimensions.height <= 1024 * 1024) by (nonlinear_arith)
            requires
                tile_dimensions.width <= 1024,
                tile_dimensions.height <= 1024,
        ;
        let tile_size: usize = tile_dimensions.width as usize * tile_dimensions.height as usize;
        let mut t: usize = 0;
        while t < tiles.len()
            invariant
                t <= tiles@.len(),
                valid_tile_dimensions(tile_dimensions),
                tile_size == tile_dimensions.width * tile_dimensions.height,
                forall|j: int| 0 <= j < t ==> (#[trigger] tiles@[j])@.len() == tile_size,
            decreases tiles@.len() - t,
        {
            if tiles[t].len() != tile_size {
                return Err(InvalidTileSet::InvalidTileSize { tile_index: t });
            }
            t += 1;
        }
        Ok(TileSet { tile_dimensions, tiles })
    }

    /// The size of every tile.
    #[verifier::when_used_as_spec(spec_tile_dimensions)]
    pub fn tile_dimensions(&self) -> (tile_dimensions: PixelDimensions)
        ensures
            tile_dimensions == self.spec_tile_dimensions(),
            valid_tile_dimensions(tile_dimensions),
    {
        proof {
            use_type_invariant(self);
        }
        self.tile_dimensions
    }

    /// The number of tiles.
    pub fn len(&self) -> (len: usize)
        ensures
            len == self.spec_tiles().len(),
    {
        self.tiles.len()
    }

    /// The pixels of the tile with index `tile_index`.
    pub fn tile(&self, tile_index: usize) -> (pixels: &[Pixel])
        requires
            tile_index < self.spec_tiles().len(),
        ensures
            pixels@ == self.spec_tiles()[tile_index as int],
            pixels@.len() == self.spec_tile_dimensions().width * self.spec_tile_dimensions().height,
    {
        proof {
            use_type_invariant(self);
        }
        self.tiles[tile_index].as_slice()
    }

    /// The pixels of the tile with index `tile_index`, if the set has such a
    /// tile.
    pub fn get(&self, tile_index: usize) -> (tile: Option<&[Pixel]>)
        ensures
            match tile {
                Some(pixels) => {
                    &&& tile_index < self.spec_tiles().len()
                    &&& pixels@ == self.spec_tiles()[tile_index as int]
                    &&& pixels@.len() == self.spec_tile_dimensions().width
                        * self.spec_tile_dimensions().height
                },
                None => tile_index >= self.spec_tiles().len(),
            },
    {
        proof {
            use_type_invariant(self);
        }
        if tile_index < self.tiles.len() {
            Some(self.tiles[tile_index].as_slice())
        } else {
            None
        }
    }
}

} // verus!
