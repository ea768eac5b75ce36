use dji_fpv_video_tool::osd::coordinates::Coordinates;
use dji_fpv_video_tool::osd::dji::file::tile_indices::{
    TileIndex, TileIndices, HEIGHT, TILE_COUNT, WIDTH,
};
use dji_fpv_video_tool::osd::dji::layout::{OSDItemLocationData, OSDItemsLayout};
use dji_fpv_video_tool::osd::region::{Dimensions, Region};

fn empty_cells() -> Vec<TileIndex> {
    vec![0; TILE_COUNT]
}

fn grid_with(tiles: &[(u8, u8, TileIndex)]) -> TileIndices {
    let mut cells = empty_cells();
    for (x, y, tile_index) in tiles {
        cells[*y as usize + *x as usize * HEIGHT] = *tile_index;
    }
    TileIndices::new(cells)
}

fn full_grid(tile_index: TileIndex) -> TileIndices {
    TileIndices::new(vec![tile_index; TILE_COUNT])
}

fn region(x: u8, y: u8, width: u8, height: u8) -> Region {
    Region::new(Coordinates::new(x, y), Dimensions::new(width, height))
}

fn layout() -> OSDItemsLayout {
    OSDItemsLayout::new(vec![
        OSDItemLocationData::new("gps_lat".to_owned(), vec![0x89], 0, 0, Dimensions::new(11, 1)),
        OSDItemLocationData::new(
            "altitude".to_owned(),
            vec![0x7F, 0x76],
            -5,
            0,
            Dimensions::new(6, 1),
        ),
        OSDItemLocationData::new("home".to_owned(), vec![0x10], -1, -1, Dimensions::new(3, 3)),
    ])
}

#[test]
fn geometry_is_60_by_22() {
    assert_eq!(WIDTH, 60);
    assert_eq!(HEIGHT, 22);
    assert_eq!(TILE_COUNT, 1320);
}

#[test]
fn coordinates_map_column_after_column() {
    assert_eq!(TileIndices::screen_coordinates_to_index(0, 0), 0);
    assert_eq!(TileIndices::screen_coordinates_to_index(0, 21), 21);
    assert_eq!(TileIndices::screen_coordinates_to_index(1, 0), 22);
    assert_eq!(TileIndices::screen_coordinates_to_index(1, 2), 24);
    assert_eq!(TileIndices::screen_coordinates_to_index(59, 21), 1319);
    assert_eq!(TileIndices::index_to_screen_coordinates(0), Coordinates::new(0, 0));
    assert_eq!(TileIndices::index_to_screen_coordinates(24), Coordinates::new(1, 2));
    assert_eq!(TileIndices::index_to_screen_coordinates(1319), Coordinates::new(59, 21));
}

#[test]
fn coordinates_round_trip_on_every_cell() {
    for x in 0..60u8 {
        for y in 0..22u8 {
            let index = TileIndices::screen_coordinates_to_index(x, y);
            assert!(index < TILE_COUNT);
            assert_eq!(TileIndices::index_to_screen_coordinates(index), Coordinates::new(x, y));
        }
    }
    for index in 0..TILE_COUNT {
        let coordinates = TileIndices::index_to_screen_coordinates(index);
        assert_eq!(TileIndices::screen_coordinates_to_index(coordinates.x, coordinates.y), index);
    }
}

#[test]
fn new_keeps_the_cells() {
    let cells: Vec<TileIndex> = (0..TILE_COUNT as u16).collect();
    let grid = TileIndices::new(cells.clone());
    assert_eq!(grid.as_slice(), cells.as_slice());
}

#[test]
fn indexing_by_coordinates_reads_the_cell() {
    let grid = grid_with(&[(1, 2, 7), (59, 21, 9)]);
    assert_eq!(grid[(1, 2)], 7);
    assert_eq!(grid[(59, 21)], 9);
    assert_eq!(grid[(0, 0)], 0);
    assert_eq!(grid[(2, 1)], 0);
}

#[test]
fn clone_is_equal() {
    let grid = grid_with(&[(3, 4, 5)]);
    assert_eq!(grid.clone(), grid);
}

#[test]
fn enumerate_of_empty_grid_yields_nothing() {
    let grid = TileIndices::new(empty_cells());
    let mut enumeration = grid.enumerate();
    assert_eq!(enumeration.next(), None);
    assert_eq!(enumeration.next(), None);
    assert!(grid.enumerate().collect().is_empty());
}

#[test]
fn enumerate_skips_empty_cells_in_storage_order() {
    let grid = grid_with(&[(2, 0, 30), (0, 5, 10), (0, 21, 20), (59, 21, 40)]);
    let entries = grid.enumerate().collect();
    assert_eq!(
        entries,
        vec![
            (Coordinates::new(0, 5), 10),
            (Coordinates::new(0, 21), 20),
            (Coordinates::new(2, 0), 30),
            (Coordinates::new(59, 21), 40),
        ]
    );
}

#[test]
fn enumerate_next_yields_one_entry_at_a_time() {
    let grid = grid_with(&[(0, 0, 1), (1, 1, 2)]);
    let mut enumeration = grid.enumerate();
    assert_eq!(enumeration.next(), Some((Coordinates::new(0, 0), 1)));
    assert_eq!(enumeration.next(), Some((Coordinates::new(1, 1), 2)));
    assert_eq!(enumeration.next(), None);
    assert!(enumeration.collect().is_empty());
}

#[test]
fn enumerate_can_be_started_again() {
    let grid = grid_with(&[(4, 4, 8), (5, 5, 9)]);
    let first = grid.enumerate().collect();
    let mut partly = grid.enumerate();
    partly.next();
    assert_eq!(partly.collect(), vec![(Coordinates::new(5, 5), 9)]);
    assert_eq!(grid.enumerate().collect(), first);
    assert_eq!(first.len(), 2);
}

#[test]
fn enumerate_of_full_grid_yields_every_cell() {
    let entries = full_grid(3).enumerate().collect();
    assert_eq!(entries.len(), TILE_COUNT);
    assert_eq!(entries[0], (Coordinates::new(0, 0), 3));
    assert_eq!(entries[22], (Coordinates::new(1, 0), 3));
    assert_eq!(entries[1319], (Coordinates::new(59, 21), 3));
}

#[test]
fn erase_region_empties_exactly_the_region() {
    let mut grid = full_grid(5);
    grid.erase_region(&region(1, 2, 2, 3));
    for x in 0..60u8 {
        for y in 0..22u8 {
            let inside = (1..=2).contains(&x) && (2..=4).contains(&y);
            assert_eq!(grid[(x, y)], if inside { 0 } else { 5 });
        }
    }
}

#[test]
fn erase_region_twice_is_erase_region_once() {
    let mut once = grid_with(&[(0, 0, 1), (10, 10, 2), (11, 10, 3), (12, 11, 4)]);
    once.erase_region(&region(10, 10, 2, 2));
    let mut twice = once.clone();
    twice.erase_region(&region(10, 10, 2, 2));
    assert_eq!(twice, once);
    assert_eq!(once.enumerate().collect(), vec![
        (Coordinates::new(0, 0), 1),
        (Coordinates::new(12, 11), 4),
    ]);
}

#[test]
fn erase_region_without_tiles_changes_nothing() {
    let mut grid = full_grid(5);
    grid.erase_region(&region(3, 3, 0, 4));
    grid.erase_region(&region(3, 3, 4, 0));
    assert_eq!(grid, full_grid(5));
}

#[test]
fn erase_region_beyond_the_grid_is_cut_at_its_border() {
    let mut grid = full_grid(5);
    grid.erase_region(&region(58, 20, 255, 255));
    let left: Vec<(u8, u8)> = vec![(58, 20), (58, 21), (59, 20), (59, 21)];
    for x in 0..60u8 {
        for y in 0..22u8 {
            assert_eq!(grid[(x, y)], if left.contains(&(x, y)) { 0 } else { 5 });
        }
    }
    let mut outside = full_grid(5);
    outside.erase_region(&region(60, 0, 10, 22));
    outside.erase_region(&region(0, 22, 60, 10));
    assert_eq!(outside, full_grid(5));
}

#[test]
fn erase_whole_grid() {
    let mut grid = full_grid(5);
    grid.erase_region(&region(0, 0, 60, 22));
    assert_eq!(grid, TileIndices::new(empty_cells()));
}

#[test]
fn erase_regions_takes_overlapping_regions() {
    let mut grid = full_grid(5);
    grid.erase_regions(&[region(0, 0, 2, 1), region(1, 0, 2, 1), region(0, 0, 2, 1)]);
    let mut one_by_one = full_grid(5);
    one_by_one.erase_region(&region(0, 0, 2, 1));
    one_by_one.erase_region(&region(1, 0, 2, 1));
    assert_eq!(grid, one_by_one);
    assert_eq!(grid[(0, 0)], 0);
    assert_eq!(grid[(1, 0)], 0);
    assert_eq!(grid[(2, 0)], 0);
    assert_eq!(grid[(3, 0)], 5);
    assert_eq!(grid[(0, 1)], 5);
}

#[test]
fn erase_no_regions_changes_nothing() {
    let mut grid = full_grid(5);
    grid.erase_regions(&[]);
    assert_eq!(grid, full_grid(5));
}

#[test]
fn erase_osd_item_empties_the_item_at_each_marker() {
    let mut grid = grid_with(&[
        (10, 3, 0x89),
        (11, 3, 0x31),
        (20, 3, 0x32),
        (21, 3, 0x33),
        (5, 5, 0x89),
        (15, 5, 0x34),
        (16, 5, 0x35),
    ]);
    assert_eq!(grid.erase_osd_item(&layout(), "gps_lat").map_err(|error| error.message()), Ok(()));
    assert_eq!(grid.enumerate().collect(), vec![
        (Coordinates::new(16, 5), 0x35),
        (Coordinates::new(21, 3), 0x33),
    ]);
}

#[test]
fn erase_osd_item_looks_for_every_marker() {
    let mut grid = grid_with(&[
        (4, 1, 0x30),
        (5, 1, 0x31),
        (9, 1, 0x36),
        (10, 1, 0x7F),
        (11, 1, 0x37),
        (30, 8, 0x38),
        (31, 8, 0x39),
        (36, 8, 0x76),
        (37, 8, 0x3A),
    ]);
    assert!(grid.erase_osd_item(&layout(), "altitude").is_ok());
    assert_eq!(grid.enumerate().collect(), vec![
        (Coordinates::new(4, 1), 0x30),
        (Coordinates::new(11, 1), 0x37),
        (Coordinates::new(30, 8), 0x38),
        (Coordinates::new(37, 8), 0x3A),
    ]);
}

#[test]
fn erase_osd_item_is_cut_at_the_border() {
    let mut grid = full_grid(0x20);
    let mut cells = grid.as_slice().to_vec();
    cells[0] = 0x10;
    grid = TileIndices::new(cells);
    assert!(grid.erase_osd_item(&layout(), "home").is_ok());
    for x in 0..60u8 {
        for y in 0..22u8 {
            assert_eq!(grid[(x, y)], if x <= 1 && y <= 1 { 0 } else { 0x20 });
        }
    }
}

#[test]
fn erase_osd_item_without_instance_changes_nothing() {
    let mut grid = grid_with(&[(4, 1, 0x30), (5, 1, 0x31)]);
    let before = grid.clone();
    assert!(grid.erase_osd_item(&layout(), "home").is_ok());
    assert_eq!(grid, before);
}

#[test]
fn erase_unknown_osd_item_fails_with_the_name() {
    let mut grid = grid_with(&[(10, 3, 0x89), (10, 1, 0x7F)]);
    let before = grid.clone();
    let error = grid.erase_osd_item(&layout(), "vario").unwrap_err();
    assert_eq!(error.item_name(), "vario");
    assert_eq!(error.message(), "unknown OSD item: vario");
    assert_eq!(grid, before);
    let error = grid.erase_osd_item(&layout(), "").unwrap_err();
    assert_eq!(error.item_name(), "");
    assert_eq!(grid, before);
    let error = grid.erase_osd_item(&OSDItemsLayout::new(vec![]), "altitude").unwrap_err();
    assert_eq!(error.item_name(), "altitude");
    assert_eq!(grid, before);
}

#[test]
fn erase_osd_items_erases_each_item() {
    let mut grid = grid_with(&[(10, 3, 0x89), (10, 1, 0x7F), (30, 10, 0x10), (50, 20, 0x44)]);
    let names = vec!["home".to_owned(), "gps_lat".to_owned(), "altitude".to_owned()];
    assert!(grid.erase_osd_items(&layout(), &names).is_ok());
    assert_eq!(grid.enumerate().collect(), vec![(Coordinates::new(50, 20), 0x44)]);
}

#[test]
fn erase_osd_items_stops_at_the_first_unknown_name() {
    let mut grid = grid_with(&[(10, 3, 0x89), (10, 1, 0x7F), (30, 10, 0x10)]);
    let names = vec![
        "gps_lat".to_owned(),
        "vario".to_owned(),
        "altitude".to_owned(),
        "speed".to_owned(),
    ];
    let error = grid.erase_osd_items(&layout(), &names).unwrap_err();
    assert_eq!(error.item_name(), "vario");
    assert_eq!(grid.enumerate().collect(), vec![
        (Coordinates::new(10, 1), 0x7F),
        (Coordinates::new(30, 10), 0x10),
    ]);
}

#[test]
fn erase_osd_items_without_names_changes_nothing() {
    let mut grid = grid_with(&[(10, 3, 0x89)]);
    let before = grid.clone();
    assert!(grid.erase_osd_items(&layout(), &vec![]).is_ok());
    assert_eq!(grid, before);
}

#[test]
fn marker_0_is_never_met() {
    let layout = OSDItemsLayout::new(vec![OSDItemLocationData::new(
        "blank".to_owned(),
        vec![0, 0x44],
        0,
        0,
        Dimensions::new(2, 1),
    )]);
    let mut grid = grid_with(&[(3, 3, 0x21), (10, 10, 0x44), (11, 10, 0x45), (12, 10, 0x46)]);
    assert!(grid.erase_osd_item(&layout, "blank").is_ok());
    assert_eq!(grid.enumerate().collect(), vec![
        (Coordinates::new(3, 3), 0x21),
        (Coordinates::new(12, 10), 0x46),
    ]);
}
