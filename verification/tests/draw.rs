use dji_fpv_video_tool::osd::coordinates::Coordinates;
use dji_fpv_video_tool::osd::dji::file::tile_indices::{TileIndex, TileIndices, HEIGHT, TILE_COUNT};
use dji_fpv_video_tool::osd::dji::Kind;
use dji_fpv_video_tool::osd::overlay::draw::{draw_frame_overlay, DrawFrameOverlayError};
use dji_fpv_video_tool::osd::tile::{
    InvalidTileSet, Pixel, PixelDimensions, TileSet, MAX_TILE_DIMENSION, TRANSPARENT,
};

fn grid_with(tiles: &[(u8, u8, TileIndex)]) -> TileIndices {
    let mut cells = vec![0; TILE_COUNT];
    for (x, y, tile_index) in tiles {
        cells[*y as usize + *x as usize * HEIGHT] = *tile_index;
    }
    TileIndices::new(cells)
}

fn tile(first: Pixel) -> Vec<Pixel> {
    (first..first + 6).collect()
}

fn tile_set() -> TileSet {
    TileSet::new(PixelDimensions::new(2, 3), vec![tile(1), tile(11), tile(21)]).unwrap()
}

#[test]
fn tile_set_keeps_its_tiles() {
    let tiles = tile_set();
    assert_eq!(tiles.tile_dimensions(), PixelDimensions::new(2, 3));
    assert_eq!(tiles.len(), 3);
    assert_eq!(tiles.get(0), Some(tile(1).as_slice()));
    assert_eq!(tiles.get(2), Some(tile(21).as_slice()));
    assert_eq!(tiles.get(3), None);
    assert_eq!(tiles.tile(1), tile(11).as_slice());
}

#[test]
fn tile_set_without_tiles() {
    let tiles = TileSet::new(PixelDimensions::new(24, 36), vec![]).unwrap();
    assert_eq!(tiles.len(), 0);
    assert_eq!(tiles.get(0), None);
}

#[test]
fn tile_set_refuses_dimensions_out_of_range() {
    for (width, height) in [(0, 3), (2, 0), (0, 0), (1025, 3), (2, 1025), (u32::MAX, u32::MAX)] {
        assert_eq!(
            TileSet::new(PixelDimensions::new(width, height), vec![]),
            Err(InvalidTileSet::InvalidTileDimensions)
        );
    }
    assert_eq!(MAX_TILE_DIMENSION, 1024);
    assert!(TileSet::new(PixelDimensions::new(1024, 1), vec![vec![0; 1024]]).is_ok());
    assert!(TileSet::new(PixelDimensions::new(1, 1024), vec![vec![0; 1024]]).is_ok());
}

#[test]
fn tile_set_refuses_a_tile_of_another_size() {
    assert_eq!(
        TileSet::new(PixelDimensions::new(2, 3), vec![tile(1), vec![0; 5], vec![0; 7]]),
        Err(InvalidTileSet::InvalidTileSize { tile_index: 1 })
    );
    assert_eq!(
        TileSet::new(PixelDimensions::new(2, 3), vec![vec![]]),
        Err(InvalidTileSet::InvalidTileSize { tile_index: 0 })
    );
    assert_eq!(
        TileSet::new(PixelDimensions::new(0, 3), vec![vec![0; 5]]),
        Err(InvalidTileSet::InvalidTileDimensions)
    );
}

#[test]
fn empty_grid_draws_a_transparent_picture() {
    let frame = draw_frame_overlay(Kind::FakeHD, &grid_with(&[]), &tile_set()).unwrap();
    assert_eq!(frame.dimensions(), PixelDimensions::new(120, 66));
    assert_eq!(frame.pixels().len(), 120 * 66);
    assert!(frame.pixels().iter().all(|pixel| *pixel == TRANSPARENT));
    assert_eq!(TRANSPARENT, 0);
}

#[test]
fn picture_is_as_large_as_the_screen_of_the_layout() {
    let grid = grid_with(&[]);
    let tiles = TileSet::new(PixelDimensions::new(24, 36), vec![]).unwrap();
    assert_eq!(
        draw_frame_overlay(Kind::SD, &grid, &tiles).unwrap().dimensions(),
        PixelDimensions::new(720, 540)
    );
    assert_eq!(
        draw_frame_overlay(Kind::FakeHD, &grid, &tiles).unwrap().dimensions(),
        PixelDimensions::new(1440, 792)
    );
    assert_eq!(
        draw_frame_overlay(Kind::HD, &grid, &tiles).unwrap().dimensions(),
        PixelDimensions::new(1200, 648)
    );
}

#[test]
fn tiles_are_drawn_at_their_cells() {
    let grid = grid_with(&[(0, 0, 1), (1, 0, 2), (29, 14, 2), (3, 7, 1)]);
    let frame = draw_frame_overlay(Kind::SD, &grid, &tile_set()).unwrap();
    assert_eq!(frame.dimensions(), PixelDimensions::new(60, 45));
    let mut expected = vec![TRANSPARENT; 60 * 45];
    for (column, row, first) in [(0usize, 0usize, 11u32), (1, 0, 21), (29, 14, 21), (3, 7, 11)] {
        for y in 0..3 {
            for x in 0..2 {
                expected[(row * 3 + y) * 60 + column * 2 + x] = first + (y * 2 + x) as u32;
            }
        }
    }
    assert_eq!(frame.pixels(), expected.as_slice());
    assert_eq!(frame.pixel(0, 0), 11);
    assert_eq!(frame.pixel(1, 0), 12);
    assert_eq!(frame.pixel(0, 1), 13);
    assert_eq!(frame.pixel(1, 2), 16);
    assert_eq!(frame.pixel(2, 0), 21);
    assert_eq!(frame.pixel(3, 2), 26);
    assert_eq!(frame.pixel(4, 0), TRANSPARENT);
    assert_eq!(frame.pixel(0, 3), TRANSPARENT);
    assert_eq!(frame.pixel(58, 42), 21);
    assert_eq!(frame.pixel(59, 44), 26);
    assert_eq!(frame.pixel(6, 21), 11);
    assert_eq!(frame.pixel(7, 23), 16);
}

#[test]
fn full_grid_is_drawn_in_every_cell() {
    let grid = TileIndices::new(vec![2; TILE_COUNT]);
    let frame = draw_frame_overlay(Kind::FakeHD, &grid, &tile_set()).unwrap();
    for y in 0..66u32 {
        for x in 0..120u32 {
            assert_eq!(frame.pixel(x, y), 21 + (y % 3) * 2 + x % 2);
        }
    }
}

#[test]
fn cells_outside_the_screen_of_the_layout_are_not_drawn() {
    let grid = grid_with(&[(30, 0, 1), (0, 15, 1), (59, 21, 2), (49, 17, 2)]);
    let frame = draw_frame_overlay(Kind::SD, &grid, &tile_set()).unwrap();
    assert!(frame.pixels().iter().all(|pixel| *pixel == TRANSPARENT));
    let frame = draw_frame_overlay(Kind::HD, &grid, &tile_set()).unwrap();
    assert_eq!(frame.dimensions(), PixelDimensions::new(100, 54));
    assert_eq!(frame.pixels().iter().filter(|pixel| **pixel != TRANSPARENT).count(), 18);
    assert_eq!(frame.pixel(60, 0), 11);
    assert_eq!(frame.pixel(0, 45), 11);
    assert_eq!(frame.pixel(99, 53), 26);
}

#[test]
fn unknown_tile_fails_the_drawing() {
    let grid = grid_with(&[(0, 0, 1), (5, 5, 3)]);
    assert_eq!(
        draw_frame_overlay(Kind::FakeHD, &grid, &tile_set()),
        Err(DrawFrameOverlayError::UnknownTile {
            coordinates: Coordinates::new(5, 5),
            tile_index: 3
        })
    );
    let grid = grid_with(&[(0, 0, 1)]);
    let no_tiles = TileSet::new(PixelDimensions::new(2, 3), vec![]).unwrap();
    assert_eq!(
        draw_frame_overlay(Kind::FakeHD, &grid, &no_tiles),
        Err(DrawFrameOverlayError::UnknownTile {
            coordinates: Coordinates::new(0, 0),
            tile_index: 1
        })
    );
}

#[test]
fn first_unknown_tile_in_storage_order_is_named() {
    let grid = grid_with(&[(6, 0, 9), (5, 5, 3), (5, 6, 0xFFFF)]);
    assert_eq!(
        draw_frame_overlay(Kind::FakeHD, &grid, &tile_set()),
        Err(DrawFrameOverlayError::UnknownTile {
            coordinates: Coordinates::new(5, 5),
            tile_index: 3
        })
    );
}

#[test]
fn unknown_tile_outside_the_screen_of_the_layout_fails_too() {
    let grid = grid_with(&[(0, 0, 1), (59, 21, 7)]);
    assert_eq!(
        draw_frame_overlay(Kind::SD, &grid, &tile_set()),
        Err(DrawFrameOverlayError::UnknownTile {
            coordinates: Coordinates::new(59, 21),
            tile_index: 7
        })
    );
}
