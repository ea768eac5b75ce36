//! Drawing a frame of the OSD as a picture.
//!
//! The picture is as large as the screen of the layout, counted in tiles,
//! times the size of a tile. Each cell of the grid that holds a tile shows the
//! picture of that tile; everything else is transparent. Cells of the grid
//! that lie outside the screen of the layout are not shown.

use vstd::prelude::*;
use vstd::arithmetic::div_mod::{
    lemma_fundamental_div_mod,
    lemma_fundamental_div_mod_converse,
    lemma_mod_bound,
};
use crate::osd::coordinates::Coordinates;
use crate::osd::dji::Kind;
use crate::osd::dji::file::tile_indices::{
    coordinates_of,
    index_of,
    TileIndex,
    TileIndices,
    HEIGHT,
    TILE_COUNT,
};
use crate::osd::tile::{valid_tile_dimensions, Pixel, PixelDimensions, TileSet, TRANSPARENT};

verus! {

/// The failure to draw a frame: the cell at `coordinates` holds `tile_index`,
/// and the tile set has no tile with that index.
#[derive(Debug, Clone, Copy, PartialEq, Eq, Structural, Hash)]
pub enum DrawFrameOverlayError {
    UnknownTile { coordinates: Coordinates, tile_index: TileIndex },
}

/// Whether a set of `tile_count` tiles has a tile for every cell that holds
/// one.
pub open spec fn drawable(cells: Seq<TileIndex>, tile_count: int) -> bool {
    forall|index: int| 0 <= index < cells.len() ==> cells[index] == 0 || cells[index] < tile_count
}

/// Whether the cell stored at `index` is the first that holds a tile which a
/// set of `tile_count` tiles does not have.
pub open spec fn is_first_unknown_tile(cells: Seq<TileIndex>, tile_count: int, index: int) -> bool {
    &&& 0 <= index < cells.len()
    &&& cells[index] != 0
    &&& cells[index] >= tile_count
    &&& forall|earlier: int| 0 <= earlier < index ==> cells[earlier] == 0 || cells[earlier] < tile_count
}

/// A grid can be drawn exactly when none of its cells is the first that holds
/// an unknown tile.
pub proof fn lemma_drawable_or_unknown_tile(cells: Seq<TileIndex>, tile_count: int)
    ensures
        drawable(cells, tile_count) <==> !exists|index: int|
            is_first_unknown_tile(cells, tile_count, index),
{
    if drawable(cells, tile_count) {
        assert forall|index: int| !is_first_unknown_tile(cells, tile_count, index) by {}
    } else {
        let index = choose|index: int|
            0 <= index < cells.len() && !(cells[index] == 0 || cells[index] < tile_count);
        lemma_first_unknown_tile_exists(cells, tile_count, index);
    }
}

/// Where a cell holds an unknown tile, some cell is the first to hold one.
proof fn lemma_first_unknown_tile_exists(cells: Seq<TileIndex>, tile_count: int, index: int)
    requires
        0 <= index < cells.len(),
        cells[index] != 0,
        cells[index] >= tile_count,
    ensures
        exists|first: int| is_first_unknown_tile(cells, tile_count, first),
    decreases index,
{
    if exists|earlier: int|
        0 <= earlier < index && !(cells[earlier] == 0 || cells[earlier] < tile_count) {
        let earlier = choose|earlier: int|
            0 <= earlier < index && !(cells[earlier] == 0 || cells[earlier] < tile_count);
        lemma_first_unknown_tile_exists(cells, tile_count, earlier);
    } else {
        assert(is_first_unknown_tile(cells, tile_count, index));
    }
}

/// The size of the picture of the OSD of layout `kind`, drawn with tiles of
/// `tile_dimensions`.
pub open spec fn overlay_dimensions(kind: Kind, tile_dimensions: PixelDimensions) -> PixelDimensions {
    PixelDimensions {
        width: (kind.spec_dimensions_tiles().width * tile_dimensions.width) as u32,
        height: (kind.spec_dimensions_tiles().height * tile_dimensions.height) as u32,
    }
}

/// The pixel in column `x` and row `y` of the picture: it lies in the cell in
/// column `x / width` and row `y / height` of the grid, and is the pixel of
/// that cell's tile in column `x % width` and row `y % height`.
pub open spec fn overlay_pixel(
    cells: Seq<TileIndex>,
    tiles: Seq<Seq<Pixel>>,
    tile_dimensions: PixelDimensions,
    x: int,
    y: int,
) -> Pixel {
    let tile_index = cells[index_of(x / tile_dimensions.width as int, y / tile_dimensions.height as int)];
    if tile_index == 0 {
        TRANSPARENT
    } else {
        tiles[tile_index as int][(y % tile_dimensions.height as int) * tile_dimensions.width + x
            % tile_dimensions.width as int]
    }
}

/// The pixels of the picture, row after row from the top.
pub open spec fn overlay_pixels(
    kind: Kind,
    cells: Seq<TileIndex>,
    tiles: Seq<Seq<Pixel>>,
    tile_dimensions: PixelDimensions,
) -> Seq<Pixel> {
    let dimensions = overlay_dimensions(kind, tile_dimensions);
    Seq::new(
        (dimensions.width * dimensions.height) as nat,
        |at: int|
            overlay_pixel(
                cells,
                tiles,
                tile_dimensions,
                at % dimensions.width as int,
                at / dimensions.width as int,
            ),
    )
}

/// A picture of the OSD, to be laid over the video.
#[derive(Debug, PartialEq, Eq)]
pub struct OverlayFrame {
    dimensions: PixelDimensions,
    pixels: Vec<Pixel>,
}

impl OverlayFrame {
    #[verifier::type_invariant]
    spec fn well_formed(&self) -> bool {
        self.pixels@.len() == self.dimensions.width * self.dimensions.height
    }

    pub closed spec fn spec_dimensions(&self) -> PixelDimensions {
        self.dimensions
    }

    /// The pixels, row after row from the top.
    pub closed spec fn spec_pixels(&self) -> Seq<Pixel> {
        self.pixels@
    }

    #[verifier::when_used_as_spec(spec_dimensions)]
    pub fn dimensions(&self) -> (dimensions: PixelDimensions)
        ensures
            dimensions == self.spec_dimensions(),
            self.spec_pixels().len() == dimensions.width * dimensions.height,
    {
        proof {
            use_type_invariant(self);
        }
        self.dimensions
    }

    /// The pixels, row after row from the top.
    pub fn pixels(&self) -> (pixels: &[Pixel])
        ensures
            pixels@ == self.spec_pixels(),
    {
        self.pixels.as_slice()
    }

    /// The pixel in column `x` and row `y`.
    pub fn pixel(&self, x: u32, y: u32) -> (pixel: Pixel)
        requires
            x < self.spec_dimensions().width,
            y < self.spec_dimensions().height,
        ensures
            pixel == self.spec_pixels()[y * self.spec_dimensions().width + x],
    {
        let length = self.pixels.len();
        proof {
            use_type_invariant(self);
            lemma_place_in_bounds(
                x as int,
                y as int,
                self.dimensions.width as int,
                self.dimensions.height as int,
            );
        }
        self.pixels[y as usize * self.dimensions.width as usize + x as usize]
    }
}

/// Draws the tile of the cell in column `x` and row `y` onto the picture.
fn draw_tile(
    pixels: &mut Vec<Pixel>,
    tile: &[Pixel],
    tile_dimensions: PixelDimensions,
    columns: usize,
    x: usize,
    y: usize,
    Ghost(rows): Ghost<int>,
    Ghost(cells): Ghost<Seq<TileIndex>>,
    Ghost(tiles): Ghost<Seq<Seq<Pixel>>>,
)
    requires
        valid_tile_dimensions(tile_dimensions),
        x < columns <= 60,
        y < rows <= 22,
        cells.len() == TILE_COUNT,
        0 < cells[index_of(x as int, y as int)] < tiles.len(),
        tile@ == tiles[cells[index_of(x as int, y as int)] as int],
        tile@.len() == tile_dimensions.width * tile_dimensions.height,
        old(pixels)@.len() == (columns * tile_dimensions.width) * (rows * tile_dimensions.height),
        drawn_so_far(
            old(pixels)@,
            cells,
            tiles,
            tile_dimensions,
            columns * tile_dimensions.width,
            x as int,
            y as int,
            0,
            0,
        ),
    ensures
        final(pixels)@.len() == old(pixels)@.len(),
        drawn_so_far(
            final(pixels)@,
            cells,
            tiles,
            tile_dimensions,
            columns * tile_dimensions.width,
            x as int,
            y as int + 1,
            0,
            0,
        ),
{
    let tile_width = tile_dimensions.width as usize;
    let tile_height = tile_dimensions.height as usize;
    let ghost size = old(pixels)@.len();
    let ghost xi = x as int;
    let ghost yi = y as int;
    let ghost columns_i = columns as int;
    proof {
        lemma_tile_pixel_place(xi, yi, 0, 0, columns_i, rows, tile_width as int, tile_height as int);
        assert(columns * tile_width <= 61440 && rows * tile_height <= 22528 && tile_width
            * tile_height <= 1048576 && (columns * tile_width) * (rows * tile_height) <= 61440
            * 22528) by (nonlinear_arith)
            requires
                0 <= columns <= 60,
                0 <= rows <= 22,
                0 <= tile_width <= 1024,
                0 <= tile_height <= 1024,
        ;
    }
    let width: usize = columns * tile_width;
    let left: usize = x * tile_width;
    let top: usize = y * tile_height;
    let mut row: usize = 0;
    while row < tile_height
        invariant
            valid_tile_dimensions(tile_dimensions),
            tile_width == tile_dimensions.width,
            tile_height == tile_dimensions.height,
            width == columns * tile_width,
            left == x * tile_width,
            top == y * tile_height,
            xi == x,
            yi == y,
            columns_i == columns,
            x < columns <= 60,
            y < rows <= 22,
            row <= tile_height,
            cells.len() == TILE_COUNT,
            0 < cells[index_of(xi, yi)] < tiles.len(),
            tile@ == tiles[cells[index_of(xi, yi)] as int],
            tile@.len() == tile_width * tile_height,
            tile_width * tile_height <= 1048576,
            pixels@.len() == size,
            size <= 61440 * 22528,
            size == (columns * tile_dimensions.width) * (rows * tile_dimensions.height),
            drawn_so_far(pixels@, cells, tiles, tile_dimensions, width as int, xi, yi, row as int, 0),
        decreases tile_height - row,
    {
        let mut column: usize = 0;
        while column < tile_width
            invariant
                valid_tile_dimensions(tile_dimensions),
                tile_width == tile_dimensions.width,
                tile_height == tile_dimensions.height,
                width == columns * tile_width,
                left == x * tile_width,
                top == y * tile_height,
                xi == x,
                yi == y,
                columns_i == columns,
                x < columns <= 60,
                y < rows <= 22,
                row < tile_height,
                column <= tile_width,
                cells.len() == TILE_COUNT,
                0 < cells[index_of(xi, yi)] < tiles.len(),
                tile@ == tiles[cells[index_of(xi, yi)] as int],
                tile@.len() == tile_width * tile_height,
                tile_width * tile_height <= 1048576,
                pixels@.len() == size,
                size <= 61440 * 22528,
                size == (columns * tile_dimensions.width) * (rows * tile_dimensions.height),
                drawn_so_far(
                    pixels@,
                    cells,
                    tiles,
                    tile_dimensions,
                    width as int,
                    xi,
                    yi,
                    row as int,
                    column as int,
                ),
            decreases tile_width - column,
        {
            proof {
                lemma_tile_pixel_place(
                    xi,
                    yi,
                    row as int,
                    column as int,
                    columns_i,
                    rows,
                    tile_width as int,
                    tile_height as int,
                );
                lemma_pixel_drawn(
                    pixels@,
                    cells,
                    tiles,
                    tile_dimensions,
                    columns_i,
                    rows,
                    xi,
                    yi,
                    row as int,
                    column as int,
                );
                assert(width * (rows * tile_height) == size);
            }
            let pixel = tile[row * tile_width + column];
            let place: usize = (top + row) * width + (left + column);
            pixels[place] = pixel;
            column += 1;
        }
        proof {
            lemma_same_pixels(
                pixels@,
                cells,
                tiles,
                tile_dimensions,
                columns_i,
                rows,
                (xi, yi, row as int, tile_width as int),
                (xi, yi, row as int + 1, 0),
            );
        }
        row += 1;
    }
    proof {
        lemma_same_pixels(
            pixels@,
            cells,
            tiles,
            tile_dimensions,
            columns_i,
            rows,
            (xi, yi, tile_height as int, 0),
            (xi, yi + 1, 0, 0),
        );
    }
}

/// Draws a frame of the OSD of layout `kind` with the tiles of `tile_set`.
/// Fails, without a picture, where a cell of the grid holds a tile that the
/// set does not have, be the cell on the screen of the layout or not; the
/// failure names the first such cell in storage order.
pub fn draw_frame_overlay(kind: Kind, tile_indices: &TileIndices, tile_set: &TileSet) -> (result:
    Result<OverlayFrame, DrawFrameOverlayError>)
    ensures
        match result {
            Ok(frame) => {
                &&& drawable(tile_indices@, tile_set.spec_tiles().len() as int)
                &&& frame.spec_dimensions() == overlay_dimensions(
                    kind,
                    tile_set.spec_tile_dimensions(),
                )
                &&& frame.spec_pixels() == overlay_pixels(
                    kind,
                    tile_indices@,
                    tile_set.spec_tiles(),
                    tile_set.spec_tile_dimensions(),
                )
            },
            Err(DrawFrameOverlayError::UnknownTile { coordinates, tile_index }) => exists|
                index: int,
            |
                {
                    &&& is_first_unknown_tile(
                        tile_indices@,
                        tile_set.spec_tiles().len() as int,
                        index,
                    )
                    &&& coordinates == coordinates_of(index)
                    &&& tile_index == tile_indices@[index]
                },
        },
{
    let cells = tile_indices.as_slice();
    let tile_count = tile_set.len();
    proof {
        tile_indices.lemma_len();
    }
    let mut index: usize = 0;
    while index < TILE_COUNT
        invariant
            index <= TILE_COUNT,
            cells@ == tile_indices@,
            cells@.len() == TILE_COUNT,
            tile_count == tile_set.spec_tiles().len(),
            forall|earlier: int|
                0 <= earlier < index ==> cells@[earlier] == 0 || cells@[earlier] < tile_count,
        decreases TILE_COUNT - index,
    {
        let tile_index = cells[index];
        if tile_index != 0 && tile_index as usize >= tile_count {
            proof {
                assert(is_first_unknown_tile(tile_indices@, tile_count as int, index as int));
            }
            return Err(
                DrawFrameOverlayError::UnknownTile {
                    coordinates: TileIndices::index_to_screen_coordinates(index),
                    tile_index,
                },
            );
        }
        index += 1;
    }
    let tile_dimensions = tile_set.tile_dimensions();
    let dimensions_tiles = kind.dimensions_tiles();
    let columns = dimensions_tiles.width as usize;
    let rows = dimensions_tiles.height as usize;
    let ghost tiles = tile_set.spec_tiles();
    proof {
        lemma_overlay_dimensions(kind, tile_dimensions);
    }
    let width: u32 = dimensions_tiles.width as u32 * tile_dimensions.width;
    let height: u32 = dimensions_tiles.height as u32 * tile_dimensions.height;
    let mut pixels: Vec<Pixel> = vec![TRANSPARENT; width as usize * height as usize];
    proof {
        lemma_nothing_drawn(
            pixels@,
            cells@,
            tiles,
            tile_dimensions,
            columns as int,
            rows as int,
        );
    }
    let mut x: usize = 0;
    while x < columns
        invariant
            x <= columns,
            columns == kind.spec_dimensions_tiles().width,
            rows == kind.spec_dimensions_tiles().height,
            cells@ == tile_indices@,
            cells@.len() == TILE_COUNT,
            tiles == tile_set.spec_tiles(),
            tile_dimensions == tile_set.spec_tile_dimensions(),
            valid_tile_dimensions(tile_dimensions),
            drawable(cells@, tiles.len() as int),
            pixels@.len() == (columns * tile_dimensions.width) * (rows * tile_dimensions.height),
            drawn_so_far(
                pixels@,
                cells@,
                tiles,
                tile_dimensions,
                columns * tile_dimensions.width,
                x as int,
                0,
                0,
                0,
            ),
        decreases columns - x,
    {
        let mut y: usize = 0;
        while y < rows
            invariant
                x < columns,
                y <= rows,
                columns == kind.spec_dimensions_tiles().width,
                rows == kind.spec_dimensions_tiles().height,
                cells@ == tile_indices@,
                cells@.len() == TILE_COUNT,
                tiles == tile_set.spec_tiles(),
                tile_dimensions == tile_set.spec_tile_dimensions(),
                valid_tile_dimensions(tile_dimensions),
                drawable(cells@, tiles.len() as int),
                pixels@.len() == (columns * tile_dimensions.width) * (rows
                    * tile_dimensions.height),
                drawn_so_far(
                    pixels@,
                    cells@,
                    tiles,
                    tile_dimensions,
                    columns * tile_dimensions.width,
                    x as int,
                    y as int,
                    0,
                    0,
                ),
            decreases rows - y,
        {
            let tile_index = cells[y + x * HEIGHT];
            if tile_index != 0 {
                draw_tile(
                    &mut pixels,
                    tile_set.tile(tile_index as usize),
                    tile_dimensions,
                    columns,
                    x,
                    y,
                    Ghost(rows as int),
                    Ghost(cells@),
                    Ghost(tiles),
                );
            } else {
                proof {
                    lemma_same_pixels(
                        pixels@,
                        cells@,
                        tiles,
                        tile_dimensions,
                        columns as int,
                        rows as int,
                        (x as int, y as int, 0, 0),
                        (x as int, y as int + 1, 0, 0),
                    );
                }
            }
            y += 1;
        }
        proof {
            lemma_same_pixels(
                pixels@,
                cells@,
                tiles,
                tile_dimensions,
                columns as int,
                rows as int,
                (x as int, rows as int, 0, 0),
                (x as int + 1, 0, 0, 0),
            );
        }
        x += 1;
    }
    proof {
        lemma_all_drawn(pixels@, kind, cells@, tiles, tile_dimensions);
    }
    Ok(OverlayFrame { dimensions: PixelDimensions::new(width, height), pixels })
}

/// Whether the pixel in column `ix` and row `iy` of the tile of the cell in
/// column `cx` and row `cy` is drawn when the drawing has come to column
/// `column` and row `row` of the tile of the cell in column `x` and row `y`.
/// Cells are drawn column after column, each from the top; the pixels of a
/// tile row after row, each from the left.
spec fn is_drawn(
    cx: int,
    cy: int,
    iy: int,
    ix: int,
    x: int,
    y: int,
    row: int,
    column: int,
) -> bool {
    cx < x || (cx == x && (cy < y || (cy == y && (iy < row || (iy == row && ix < column)))))
}

/// What the pixel at place `at` holds when the drawing has come to column
/// `column` and row `row` of the tile of the cell in column `x` and row `y`.
spec fn pixel_in_progress(
    cells: Seq<TileIndex>,
    tiles: Seq<Seq<Pixel>>,
    tile_dimensions: PixelDimensions,
    width: int,
    at: int,
    x: int,
    y: int,
    row: int,
    column: int,
) -> Pixel {
    let px = at % width;
    let py = at / width;
    let tw = tile_dimensions.width as int;
    let th = tile_dimensions.height as int;
    if is_drawn(px / tw, py / th, py % th, px % tw, x, y, row, column) {
        overlay_pixel(cells, tiles, tile_dimensions, px, py)
    } else {
        TRANSPARENT
    }
}

/// Whether `pixels` are those of a picture `width` pixels wide when the
/// drawing has come to column `column` and row `row` of the tile of the cell
/// in column `x` and row `y`.
spec fn drawn_so_far(
    pixels: Seq<Pixel>,
    cells: Seq<TileIndex>,
    tiles: Seq<Seq<Pixel>>,
    tile_dimensions: PixelDimensions,
    width: int,
    x: int,
    y: int,
    row: int,
    column: int,
) -> bool {
    forall|at: int|
        0 <= at < pixels.len() ==> #[trigger] pixels[at] == pixel_in_progress(
            cells,
            tiles,
            tile_dimensions,
            width,
            at,
            x,
            y,
            row,
            column,
        )
}

/// Where the pixel at place `at` lies in a picture of `columns` by `rows`
/// tiles of `tw` by `th` pixels.
proof fn lemma_pixel_place(at: int, columns: int, rows: int, tw: int, th: int)
    requires
        0 < tw,
        0 < th,
        0 <= columns,
        0 <= rows,
        0 <= at < (columns * tw) * (rows * th),
    ensures
        ({
            let width = columns * tw;
            let px = at % width;
            let py = at / width;
            &&& width > 0
            &&& 0 <= px < width
            &&& 0 <= py < rows * th
            &&& at == py * width + px
            &&& 0 <= px / tw < columns
            &&& 0 <= px % tw < tw
            &&& px == (px / tw) * tw + px % tw
            &&& 0 <= py / th < rows
            &&& 0 <= py % th < th
            &&& py == (py / th) * th + py % th
        }),
{
    let width = columns * tw;
    let height = rows * th;
    assert(width > 0 && height > 0) by (nonlinear_arith)
        requires
            0 < tw,
            0 < th,
            0 <= columns,
            0 <= rows,
            width == columns * tw,
            height == rows * th,
            0 < width * height,
    ;
    let px = at % width;
    let py = at / width;
    lemma_fundamental_div_mod(at, width);
    lemma_mod_bound(at, width);
    assert(at == py * width + px) by (nonlinear_arith)
        requires
            at == width * py + px,
    ;
    assert(0 <= py < height) by (nonlinear_arith)
        requires
            at == width * py + px,
            0 <= px < width,
            0 <= at < width * height,
    ;
    lemma_split(px, tw, columns);
    lemma_split(py, th, rows);
}

/// A number below `count * size` is a multiple of `size` below `count`, plus a
/// rest below `size`.
proof fn lemma_split(value: int, size: int, count: int)
    requires
        0 < size,
        0 <= value < count * size,
    ensures
        0 <= value / size < count,
        0 <= value % size < size,
        value == (value / size) * size + value % size,
{
    lemma_fundamental_div_mod(value, size);
    lemma_mod_bound(value, size);
    let q = value / size;
    let r = value % size;
    assert(0 <= q < count && value == q * size + r) by (nonlinear_arith)
        requires
            value == size * q + r,
            0 <= r < size,
            0 <= value < count * size,
    ;
}

/// Where the pixel in column `column` and row `row` of the tile of the cell in
/// column `x` and row `y` lies in the picture.
proof fn lemma_tile_pixel_place(
    x: int,
    y: int,
    row: int,
    column: int,
    columns: int,
    rows: int,
    tw: int,
    th: int,
)
    requires
        0 <= x < columns,
        0 <= y < rows,
        0 <= row < th,
        0 <= column < tw,
    ensures
        ({
            let width = columns * tw;
            let px = x * tw + column;
            let py = y * th + row;
            let at = py * width + px;
            &&& 0 <= x * tw <= px < width
            &&& 0 <= y * th <= py < rows * th
            &&& 0 <= py * width <= at < width * (rows * th)
            &&& at % width == px
            &&& at / width == py
            &&& px / tw == x
            &&& px % tw == column
            &&& py / th == y
            &&& py % th == row
            &&& 0 <= row * tw <= row * tw + column < tw * th
        }),
{
    let width = columns * tw;
    let height = rows * th;
    let px = x * tw + column;
    let py = y * th + row;
    let at = py * width + px;
    lemma_join(x, column, tw, columns);
    lemma_join(y, row, th, rows);
    lemma_join(py, px, width, height);
    lemma_join(row, column, tw, th);
    assert(width * height == height * width) by (nonlinear_arith);
}

/// A multiple of `size` below `count`, plus a rest below `size`, is a number
/// below `count * size`, and it splits into the two again.
proof fn lemma_join(q: int, r: int, size: int, count: int)
    requires
        0 <= q < count,
        0 <= r < size,
    ensures
        0 <= q * size <= q * size + r < count * size,
        (q * size + r) / size == q,
        (q * size + r) % size == r,
{
    assert(0 <= q * size && q * size + r < count * size) by (nonlinear_arith)
        requires
            0 <= q < count,
            0 <= r < size,
    ;
    lemma_fundamental_div_mod_converse(q * size + r, size, q, r);
}

/// A picture on which nothing was drawn yet.
proof fn lemma_nothing_drawn(
    pixels: Seq<Pixel>,
    cells: Seq<TileIndex>,
    tiles: Seq<Seq<Pixel>>,
    tile_dimensions: PixelDimensions,
    columns: int,
    rows: int,
)
    requires
        valid_tile_dimensions(tile_dimensions),
        0 <= columns,
        0 <= rows,
        pixels.len() == (columns * tile_dimensions.width) * (rows * tile_dimensions.height),
        forall|at: int| 0 <= at < pixels.len() ==> pixels[at] == TRANSPARENT,
    ensures
        drawn_so_far(pixels, cells, tiles, tile_dimensions, columns * tile_dimensions.width, 0, 0, 0, 0),
{
    let tw = tile_dimensions.width as int;
    let th = tile_dimensions.height as int;
    assert forall|at: int| 0 <= at < pixels.len() implies #[trigger] pixels[at]
        == pixel_in_progress(cells, tiles, tile_dimensions, columns * tw, at, 0, 0, 0, 0) by {
        lemma_pixel_place(at, columns, rows, tw, th);
    }
}

/// Two states of the drawing between which no pixel is drawn, or only
/// transparent ones, go with the same pixels.
proof fn lemma_same_pixels(
    pixels: Seq<Pixel>,
    cells: Seq<TileIndex>,
    tiles: Seq<Seq<Pixel>>,
    tile_dimensions: PixelDimensions,
    columns: int,
    rows: int,
    from: (int, int, int, int),
    to: (int, int, int, int),
)
    requires
        valid_tile_dimensions(tile_dimensions),
        0 <= columns,
        0 <= rows,
        pixels.len() == (columns * tile_dimensions.width) * (rows * tile_dimensions.height),
        drawn_so_far(
            pixels,
            cells,
            tiles,
            tile_dimensions,
            columns * tile_dimensions.width,
            from.0,
            from.1,
            from.2,
            from.3,
        ),
        forall|cx: int, cy: int, iy: int, ix: int|
            0 <= cx < columns && 0 <= cy < rows && 0 <= iy < tile_dimensions.height && 0 <= ix
                < tile_dimensions.width ==> #[trigger] is_drawn(
                cx,
                cy,
                iy,
                ix,
                from.0,
                from.1,
                from.2,
                from.3,
            ) == is_drawn(cx, cy, iy, ix, to.0, to.1, to.2, to.3) || cells[index_of(cx, cy)] == 0,
    ensures
        drawn_so_far(
            pixels,
            cells,
            tiles,
            tile_dimensions,
            columns * tile_dimensions.width,
            to.0,
            to.1,
            to.2,
            to.3,
        ),
{
    let tw = tile_dimensions.width as int;
    let th = tile_dimensions.height as int;
    let width = columns * tw;
    assert forall|at: int| 0 <= at < pixels.len() implies #[trigger] pixels[at]
        == pixel_in_progress(cells, tiles, tile_dimensions, width, at, to.0, to.1, to.2, to.3) by {
        lemma_pixel_place(at, columns, rows, tw, th);
        let px = at % width;
        let py = at / width;
        assert(pixels[at] == pixel_in_progress(
            cells,
            tiles,
            tile_dimensions,
            width,
            at,
            from.0,
            from.1,
            from.2,
            from.3,
        ));
        assert(is_drawn(px / tw, py / th, py % th, px % tw, from.0, from.1, from.2, from.3)
            == is_drawn(px / tw, py / th, py % th, px % tw, to.0, to.1, to.2, to.3) || cells[index_of(
            px / tw,
            py / th,
        )] == 0);
    }
}

/// Drawing the next pixel of a tile brings the drawing one pixel further.
proof fn lemma_pixel_drawn(
    pixels: Seq<Pixel>,
    cells: Seq<TileIndex>,
    tiles: Seq<Seq<Pixel>>,
    tile_dimensions: PixelDimensions,
    columns: int,
    rows: int,
    x: int,
    y: int,
    row: int,
    column: int,
)
    requires
        valid_tile_dimensions(tile_dimensions),
        0 <= x < columns,
        0 <= y < rows,
        0 <= row < tile_dimensions.height,
        0 <= column < tile_dimensions.width,
        cells[index_of(x, y)] != 0,
        pixels.len() == (columns * tile_dimensions.width) * (rows * tile_dimensions.height),
        drawn_so_far(
            pixels,
            cells,
            tiles,
            tile_dimensions,
            columns * tile_dimensions.width,
            x,
            y,
            row,
            column,
        ),
    ensures
        ({
            let width = columns * tile_dimensions.width;
            let at = (y * tile_dimensions.height + row) * width + (x * tile_dimensions.width
                + column);
            let pixel = tiles[cells[index_of(x, y)] as int][row * tile_dimensions.width + column];
            &&& 0 <= at < pixels.len()
            &&& drawn_so_far(
                pixels.update(at, pixel),
                cells,
                tiles,
                tile_dimensions,
                width,
                x,
                y,
                row,
                column + 1,
            )
        }),
{
    let tw = tile_dimensions.width as int;
    let th = tile_dimensions.height as int;
    let width = columns * tw;
    let place = (y * th + row) * width + (x * tw + column);
    let pixel = tiles[cells[index_of(x, y)] as int][row * tw + column];
    let after = pixels.update(place, pixel);
    lemma_tile_pixel_place(x, y, row, column, columns, rows, tw, th);
    assert forall|at: int| 0 <= at < after.len() implies #[trigger] after[at] == pixel_in_progress(
        cells,
        tiles,
        tile_dimensions,
        width,
        at,
        x,
        y,
        row,
        column + 1,
    ) by {
        lemma_pixel_place(at, columns, rows, tw, th);
        let px = at % width;
        let py = at / width;
        if at != place {
            assert(after[at] == pixels[at]);
            if px / tw == x && py / th == y && py % th == row && px % tw == column {
                assert(px == x * tw + column);
                assert(py == y * th + row);
                assert(at == place);
            }
        }
    }
}

/// A picture on which every cell of every column was drawn is the picture of
/// the OSD.
proof fn lemma_all_drawn(
    pixels: Seq<Pixel>,
    kind: Kind,
    cells: Seq<TileIndex>,
    tiles: Seq<Seq<Pixel>>,
    tile_dimensions: PixelDimensions,
)
    requires
        valid_tile_dimensions(tile_dimensions),
        pixels.len() == (kind.spec_dimensions_tiles().width * tile_dimensions.width) * (
        kind.spec_dimensions_tiles().height * tile_dimensions.height),
        drawn_so_far(
            pixels,
            cells,
            tiles,
            tile_dimensions,
            kind.spec_dimensions_tiles().width * tile_dimensions.width,
            kind.spec_dimensions_tiles().width as int,
            0,
            0,
            0,
        ),
    ensures
        pixels == overlay_pixels(kind, cells, tiles, tile_dimensions),
{
    let columns = kind.spec_dimensions_tiles().width as int;
    let rows = kind.spec_dimensions_tiles().height as int;
    let tw = tile_dimensions.width as int;
    let th = tile_dimensions.height as int;
    lemma_overlay_dimensions(kind, tile_dimensions);
    let expected = overlay_pixels(kind, cells, tiles, tile_dimensions);
    assert(expected.len() == pixels.len());
    assert forall|at: int| 0 <= at < pixels.len() implies pixels[at] == expected[at] by {
        lemma_pixel_place(at, columns, rows, tw, th);
    }
    assert(pixels =~= expected);
}

/// The picture of an OSD is at most 61440 pixels wide and 22528 pixels high.
pub proof fn lemma_overlay_dimensions(kind: Kind, tile_dimensions: PixelDimensions)
    requires
        valid_tile_dimensions(tile_dimensions),
    ensures
        overlay_dimensions(kind, tile_dimensions).width == kind.spec_dimensions_tiles().width
            * tile_dimensions.width,
        overlay_dimensions(kind, tile_dimensions).height == kind.spec_dimensions_tiles().height
            * tile_dimensions.height,
        1 <= overlay_dimensions(kind, tile_dimensions).width <= 61440,
        1 <= overlay_dimensions(kind, tile_dimensions).height <= 22528,
        overlay_dimensions(kind, tile_dimensions).width * overlay_dimensions(
            kind,
            tile_dimensions,
        ).height <= 61440 * 22528,
{
    let columns = kind.spec_dimensions_tiles().width as int;
    let rows = kind.spec_dimensions_tiles().height as int;
    let tw = tile_dimensions.width as int;
    let th = tile_dimensions.height as int;
    assert(1 <= columns * tw <= 61440 && 1 <= rows * th <= 22528 && (columns * tw) * (rows * th)
        <= 61440 * 22528) by (nonlinear_arith)
        requires
            1 <= columns <= 60,
            1 <= rows <= 22,
            1 <= tw <= 1024,
            1 <= th <= 1024,
    ;
}

/// The pixel in column `x` and row `y` of a picture has its place among the
/// pixels of the picture.
proof fn lemma_place_in_bounds(x: int, y: int, width: int, height: int)
    requires
        0 <= x < width,
        0 <= y < height,
    ensures
        0 <= y * width <= y * width + x < width * height,
{
    assert(y * width + x < width * height) by (nonlinear_arith)
        requires
            0 <= x < width,
            0 <= y < height,
    ;
    assert(0 <= y * width) by (nonlinear_arith)
        requires
            0 <= y,
            0 <= width,
    ;
}

} // verus!
