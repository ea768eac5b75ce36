//! The grid of tile indices that one frame of a recording holds.

use vstd::prelude::*;
use vstd::string::StringExecFns;
use crate::osd::coordinates::{Coordinate, Coordinates};
use crate::osd::dji::layout::{OSDItemLocationData, OSDItemsLayout};
use crate::osd::region::Region;

verus! {

/// The number of a tile in the font. 0 stands for "no tile here".
pub type TileIndex = u16;

/// Number of columns of the grid.
pub const WIDTH: usize = 60;

/// Number of rows of the grid.
pub const HEIGHT: usize = 22;

/// Number of cells of the grid.
pub const TILE_COUNT: usize = 1320;

/// The position in the grid's storage of the cell in column `x` and row `y`:
/// columns follow each other, each stored from top to bottom.
pub open spec fn index_of(x: int, y: int) -> int {
    y + x * HEIGHT
}

/// The cell stored at position `index`.
pub open spec fn coordinates_of(index: int) -> Coordinates {
    Coordinates { x: (index / HEIGHT as int) as Coordinate, y: (index % HEIGHT as int) as Coordinate }
}

/// Whether `coordinates` names a cell of the grid.
pub open spec fn on_grid(coordinates: Coordinates) -> bool {
    coordinates.x < WIDTH && coordinates.y < HEIGHT
}

/// The grid with every cell of `region` emptied.
pub open spec fn erased_region(cells: Seq<TileIndex>, region: Region) -> Seq<TileIndex> {
    Seq::new(
        cells.len(),
        |i: int|
            if region.spec_contains(coordinates_of(i)) {
                0
            } else {
                cells[i]
            },
    )
}

/// Whether one of `regions` holds `coordinates`.
pub open spec fn covered(regions: Seq<Region>, coordinates: Coordinates) -> bool {
    exists|k: int| 0 <= k < regions.len() && (#[trigger] regions[k]).spec_contains(coordinates)
}

/// The grid with every cell emptied that one of `regions` holds.
pub open spec fn erased_regions(cells: Seq<TileIndex>, regions: Seq<Region>) -> Seq<TileIndex> {
    Seq::new(
        cells.len(),
        |i: int|
            if covered(regions, coordinates_of(i)) {
                0
            } else {
                cells[i]
            },
    )
}

/// Every cell with its coordinates, in storage order.
pub open spec fn located(cells: Seq<TileIndex>) -> Seq<(Coordinates, TileIndex)> {
    Seq::new(cells.len(), |i: int| (coordinates_of(i), cells[i]))
}

/// Tells the cells that hold a tile from the empty ones.
pub open spec fn holds_tile() -> spec_fn((Coordinates, TileIndex)) -> bool {
    |entry: (Coordinates, TileIndex)| entry.1 != 0
}

/// What enumerating a grid yields: the cells that hold a tile, each with its
/// coordinates, in storage order.
pub open spec fn enumeration(cells: Seq<TileIndex>) -> Seq<(Coordinates, TileIndex)> {
    located(cells).filter(holds_tile())
}

/// Whether the cell stored at `index` holds a marker of `item`.
pub open spec fn is_instance(cells: Seq<TileIndex>, item: OSDItemLocationData, index: int) -> bool {
    &&& 0 <= index < cells.len()
    &&& cells[index] != 0
    &&& item.is_marker(cells[index])
}

/// Whether an instance of `item` on the grid covers `coordinates`.
pub open spec fn item_covers(
    cells: Seq<TileIndex>,
    item: OSDItemLocationData,
    coordinates: Coordinates,
) -> bool {
    exists|index: int| #[trigger]
        is_instance(cells, item, index) && item.covers(coordinates_of(index), coordinates)
}

/// Tells the entries of an enumeration that hold a marker of `item`.
pub open spec fn holds_marker(item: OSDItemLocationData) -> spec_fn((Coordinates, TileIndex)) -> bool {
    |entry: (Coordinates, TileIndex)| item.is_marker(entry.1)
}

/// The region that `item` occupies from the cell of an entry.
pub open spec fn region_from(item: OSDItemLocationData) -> spec_fn((Coordinates, TileIndex)) -> Region {
    |entry: (Coordinates, TileIndex)| item.spec_region(entry.0)
}

/// The regions that `item` occupies from its markers among `entries`, in the
/// order of the entries.
pub open spec fn item_regions(
    item: OSDItemLocationData,
    entries: Seq<(Coordinates, TileIndex)>,
) -> Seq<Region> {
    entries.filter(holds_marker(item)).map_values(region_from(item))
}

/// The grid with every instance of `item` emptied: each cell that the item
/// covers from one of its markers on the grid.
pub open spec fn erased_item(cells: Seq<TileIndex>, item: OSDItemLocationData) -> Seq<TileIndex> {
    Seq::new(
        cells.len(),
        |i: int|
            if item_covers(cells, item, coordinates_of(i)) {
                0
            } else {
                cells[i]
            },
    )
}

/// The grid after the items named by `names` were erased one after the other.
/// A name that the layout does not know erases nothing.
pub open spec fn erased_items(
    cells: Seq<TileIndex>,
    layout: OSDItemsLayout,
    names: Seq<String>,
) -> Seq<TileIndex>
    decreases names.len(),
{
    if names.len() == 0 {
        cells
    } else {
        let before = erased_items(cells, layout, names.drop_last());
        match layout.spec_find(names.last()@) {
            Some(item) => erased_item(before, item),
            None => before,
        }
    }
}

/// Whether `position` is where the first name stands that the layout does not
/// know.
pub open spec fn is_first_unknown(layout: OSDItemsLayout, names: Seq<String>, position: int) -> bool {
    &&& 0 <= position < names.len()
    &&& !layout.knows(names[position]@)
    &&& forall|k: int| 0 <= k < position ==> layout.knows(#[trigger] names[k]@)
}

/// The failure to find an OSD item by its name.
#[derive(Debug, PartialEq, Eq)]
pub struct UnknownOSDItem(String);

impl View for UnknownOSDItem {
    type V = Seq<char>;

    /// The name that was looked for.
    closed spec fn view(&self) -> Seq<char> {
        self.0@
    }
}

impl UnknownOSDItem {
    /// The name that was looked for.
    pub fn item_name(&self) -> (name: &str)
        ensures
            name@ == self@,
    {
        self.0.as_str()
    }

    /// The failure in words.
    pub fn message(&self) -> (message: String)
        ensures
            message@ == "unknown OSD item: "@ + self@,
    {
        String::from_str("unknown OSD item: ").concat(self.0.as_str())
    }
}

/// A 60x22 grid of tile indices, stored column after column.
#[derive(Debug, PartialEq, Eq)]
pub struct TileIndices {
    cells: [TileIndex; 1320],
}

impl View for TileIndices {
    type V = Seq<TileIndex>;

    closed spec fn view(&self) -> Seq<TileIndex> {
        self.cells@
    }
}

impl Clone for TileIndices {
    fn clone(&self) -> (copy: Self)
        ensures
            copy == *self,
    {
        TileIndices { cells: self.cells }
    }
}

impl TileIndices {
    /// The tile index in column `x` and row `y`.
    pub open spec fn spec_at(&self, x: int, y: int) -> TileIndex {
        self@[index_of(x, y)]
    }

    /// A grid always has `TILE_COUNT` cells.
    pub proof fn lemma_len(&self)
        ensures
            self@.len() == TILE_COUNT,
    {
    }

    /// Two grids with the same cells are the same grid.
    pub proof fn lemma_equal_by_view(self, other: Self)
        requires
            self@ == other@,
        ensures
            self == other,
    {
        assert(self.cells =~= other.cells);
    }

    /// Makes a grid of the cells in `inner`, which are in storage order.
    pub fn new(inner: Vec<TileIndex>) -> (tile_indices: Self)
        requires
            inner@.len() == TILE_COUNT,
        ensures
            tile_indices@ == inner@,
    {
        let mut cells = [0u16; 1320];
        let mut i: usize = 0;
        while i < TILE_COUNT
            invariant
                i <= TILE_COUNT,
                inner@.len() == TILE_COUNT,
                forall|j: int| 0 <= j < i ==> cells@[j] == inner@[j],
            decreases TILE_COUNT - i,
        {
            cells[i] = inner[i];
            i += 1;
        }
        TileIndices { cells }
    }

    /// The cells in storage order.
    pub fn as_slice(&self) -> (cells: &[TileIndex])
        ensures
            cells@ == self@,
    {
        self.cells.as_slice()
    }

    /// The position in the storage of the cell in column `x` and row `y`.
    pub fn screen_coordinates_to_index(x: Coordinate, y: Coordinate) -> (index: usize)
        requires
            x < WIDTH,
            y < HEIGHT,
        ensures
            index == index_of(x as int, y as int),
            index < TILE_COUNT,
    {
        y as usize + x as usize * HEIGHT
    }

    /// The coordinates of the cell stored at position `index`.
    pub fn index_to_screen_coordinates(index: usize) -> (coordinates: Coordinates)
        requires
            index < TILE_COUNT,
        ensures
            coordinates == coordinates_of(index as int),
            on_grid(coordinates),
    {
        Coordinates::new((index / HEIGHT) as Coordinate, (index % HEIGHT) as Coordinate)
    }

    /// Empties every cell of `region`.
    pub fn erase_region(&mut self, region: &Region)
        ensures
            final(self)@ == erased_region(old(self)@, *region),
    {
        let coordinates_range = region.to_coordinates_range();
        let mut index: usize = 0;
        while index < TILE_COUNT
            invariant
                index <= TILE_COUNT,
                self@.len() == TILE_COUNT,
                old(self)@.len() == TILE_COUNT,
                forall|coordinates: Coordinates|
                    coordinates_range.spec_contains(coordinates) <==> region.spec_contains(
                        coordinates,
                    ),
                forall|i: int|
                    0 <= i < index ==> self@[i] == erased_region(old(self)@, *region)[i],
                forall|i: int| index <= i < TILE_COUNT ==> self@[i] == old(self)@[i],
            decreases TILE_COUNT - index,
        {
            let coordinates = Self::index_to_screen_coordinates(index);
            if coordinates_range.contains(&coordinates) {
                self.cells[index] = 0;
            }
            index += 1;
        }
    }

    /// Empties every cell that one of `regions` holds.
    pub fn erase_regions(&mut self, regions: &[Region])
        ensures
            final(self)@ == erased_regions(old(self)@, regions@),
    {
        let mut k: usize = 0;
        while k < regions.len()
            invariant
                k <= regions@.len(),
                self@ == erased_regions(old(self)@, regions@.take(k as int)),
            decreases regions@.len() - k,
        {
            self.erase_region(&regions[k]);
            proof {
                lemma_erased_regions_push(old(self)@, regions@.take(k as int), regions@[k as int]);
                assert(regions@.take(k as int).push(regions@[k as int]) == regions@.take(
                    k as int + 1,
                ));
            }
            k += 1;
        }
        proof {
            assert(regions@.take(k as int) == regions@);
        }
    }

    /// Starts an enumeration of the cells that hold a tile.
    pub fn enumerate(&self) -> (iter: TileIndicesEnumeratorIter<'_>)
        ensures
            iter.grid() == self@,
            iter.remaining() == enumeration(self@),
    {
        proof {
            assert(located(self@).skip(0) == located(self@));
        }
        TileIndicesEnumeratorIter { tile_indices: self, position: 0 }
    }

    /// The regions that the instances of `item` on the grid occupy, in the
    /// order in which the enumeration meets their markers.
    fn osd_item_regions(&self, item: &OSDItemLocationData) -> (regions: Vec<Region>)
        ensures
            regions@ == item_regions(*item, enumeration(self@)),
    {
        let mut regions: Vec<Region> = Vec::new();
        let mut iter = self.enumerate();
        let ghost all = enumeration(self@);
        let ghost mut seen: int = 0;
        proof {
            assert(all.take(0) == Seq::<(Coordinates, TileIndex)>::empty());
            lemma_item_regions_empty(*item);
        }
        loop
            invariant
                0 <= seen <= all.len(),
                iter.remaining() == all.skip(seen),
                regions@ == item_regions(*item, all.take(seen)),
            ensures
                seen == all.len(),
            decreases all.len() - seen,
        {
            match iter.next() {
                Some((coordinates, tile_index)) => {
                    proof {
                        assert(all.skip(seen)[0] == (coordinates, tile_index));
                        assert(all.skip(seen + 1) == all.skip(seen).skip(1));
                        assert(all.take(seen + 1) == all.take(seen).push(all[seen]));
                        lemma_item_regions_push(*item, all.take(seen), all[seen]);
                    }
                    if is_marker_tile(item.marker_tile_indices(), tile_index) {
                        regions.push(item.region(coordinates));
                    }
                    proof {
                        seen = seen + 1;
                    }
                },
                None => {
                    break ;
                },
            }
        }
        proof {
            assert(all.take(seen) == all);
        }
        regions
    }

    /// Erases every instance of the OSD item named `item_name`: wherever one of
    /// the item's markers sits on the grid, the region that the item occupies
    /// from there is emptied. Fails, and leaves the grid as it is, when
    /// `layout` holds no item of that name.
    pub fn erase_osd_item(&mut self, layout: &OSDItemsLayout, item_name: &str) -> (result: Result<
        (),
        UnknownOSDItem,
    >)
        ensures
            match result {
                Ok(()) => {
                    &&& layout.spec_find(item_name@) matches Some(item)
                    &&& final(self)@ == erased_item(old(self)@, item)
                },
                Err(unknown) => {
                    &&& layout.spec_find(item_name@) is None
                    &&& unknown@ == item_name@
                    &&& *final(self) == *old(self)
                },
            },
    {
        match layout.find_osd_item_location_data(item_name) {
            None => Err(UnknownOSDItem(item_name.to_owned())),
            Some(item) => {
                let regions = self.osd_item_regions(item);
                proof {
                    lemma_item_regions_cover(self@, *item);
                }
                self.erase_regions(regions.as_slice());
                Ok(())
            },
        }
    }

    /// Erases the OSD items named by `item_names`, one after the other. Stops
    /// at the first name that `layout` does not know: the items before it
    /// stay erased, those after it are not touched.
    pub fn erase_osd_items(&mut self, layout: &OSDItemsLayout, item_names: &Vec<String>) -> (result:
        Result<(), UnknownOSDItem>)
        ensures
            match result {
                Ok(()) => {
                    &&& forall|k: int|
                        0 <= k < item_names@.len() ==> layout.knows(#[trigger] item_names@[k]@)
                    &&& final(self)@ == erased_items(old(self)@, *layout, item_names@)
                },
                Err(unknown) => exists|position: int|
                    {
                        &&& is_first_unknown(*layout, item_names@, position)
                        &&& unknown@ == item_names@[position]@
                        &&& final(self)@ == erased_items(
                            old(self)@,
                            *layout,
                            item_names@.take(position),
                        )
                    },
            },
    {
        let mut k: usize = 0;
        while k < item_names.len()
            invariant
                k <= item_names@.len(),
                forall|j: int| 0 <= j < k ==> layout.knows(#[trigger] item_names@[j]@),
                self@ == erased_items(old(self)@, *layout, item_names@.take(k as int)),
            decreases item_names@.len() - k,
        {
            let ghost done = item_names@.take(k as int);
            let ghost next = item_names@.take(k as int + 1);
            proof {
                assert(next.drop_last() == done);
                assert(next.last() == item_names@[k as int]);
            }
            match self.erase_osd_item(layout, item_names[k].as_str()) {
                Ok(()) => {},
                Err(unknown) => {
                    proof {
                        assert(is_first_unknown(*layout, item_names@, k as int));
                    }
                    return Err(unknown);
                },
            }
            k += 1;
        }
        proof {
            assert(item_names@.take(k as int) == item_names@);
        }
        Ok(())
    }
}

/// Whether `tile_index` is one of `markers`.
fn is_marker_tile(markers: &[TileIndex], tile_index: TileIndex) -> (found: bool)
    ensures
        found == markers@.contains(tile_index),
{
    let mut k: usize = 0;
    while k < markers.len()
        invariant
            k <= markers@.len(),
            forall|j: int| 0 <= j < k ==> markers@[j] != tile_index,
        decreases markers@.len() - k,
    {
        if markers[k] == tile_index {
            return true;
        }
        k += 1;
    }
    false
}

/// An enumeration of the cells of a grid that hold a tile, in storage order.
pub struct TileIndicesEnumeratorIter<'a> {
    tile_indices: &'a TileIndices,
    position: usize,
}

impl<'a> TileIndicesEnumeratorIter<'a> {
    #[verifier::type_invariant]
    spec fn position_on_grid(&self) -> bool {
        self.position <= TILE_COUNT
    }

    /// The cells of the grid that is enumerated.
    pub closed spec fn grid(&self) -> Seq<TileIndex> {
        self.tile_indices@
    }

    /// What is still to come, in the order in which it comes.
    pub closed spec fn remaining(&self) -> Seq<(Coordinates, TileIndex)> {
        located(self.tile_indices@).skip(self.position as int).filter(holds_tile())
    }

    /// The next cell that holds a tile, with its coordinates, or `None` once
    /// the grid is exhausted.
    pub fn next(&mut self) -> (item: Option<(Coordinates, TileIndex)>)
        ensures
            final(self).grid() == old(self).grid(),
            match item {
                Some(entry) => old(self).remaining() == seq![entry] + final(self).remaining(),
                None => old(self).remaining().len() == 0 && final(self).remaining().len() == 0,
            },
    {
        proof {
            use_type_invariant(&*self);
        }
        while self.position < TILE_COUNT
            invariant
                self.position <= TILE_COUNT,
                self.tile_indices == old(self).tile_indices,
                self.remaining() == old(self).remaining(),
            decreases TILE_COUNT - self.position,
        {
            let index = self.position;
            let tile_index = self.tile_indices.cells[index];
            proof {
                lemma_remaining_step(self.tile_indices@, index as int);
            }
            self.position = index + 1;
            if tile_index > 0 {
                return Some((TileIndices::index_to_screen_coordinates(index), tile_index));
            }
        }
        proof {
            lemma_remaining_end(self.tile_indices@);
        }
        None
    }

    /// Everything that is still to come. The enumeration is exhausted
    /// afterwards.
    pub fn collect(&mut self) -> (entries: Vec<(Coordinates, TileIndex)>)
        ensures
            final(self).grid() == old(self).grid(),
            entries@ == old(self).remaining(),
            final(self).remaining().len() == 0,
    {
        let mut entries: Vec<(Coordinates, TileIndex)> = Vec::new();
        loop
            invariant
                self.grid() == old(self).grid(),
                entries@ + self.remaining() == old(self).remaining(),
            ensures
                self.remaining().len() == 0,
            decreases self.remaining().len(),
        {
            match self.next() {
                Some(entry) => {
                    let ghost before = entries@;
                    entries.push(entry);
                    proof {
                        assert(entries@ + self.remaining() == before + (seq![entry]
                            + self.remaining()));
                    }
                },
                None => {
                    break ;
                },
            }
        }
        proof {
            assert(entries@ + self.remaining() == entries@);
        }
        entries
    }
}

impl core::ops::Index<(Coordinate, Coordinate)> for TileIndices {
    type Output = TileIndex;

    /// The tile index in column `index.0` and row `index.1`.
    fn index(&self, index: (Coordinate, Coordinate)) -> (tile_index: &TileIndex)
        ensures
            *tile_index == self.spec_at(index.0 as int, index.1 as int),
    {
        &self.cells[Self::screen_coordinates_to_index(index.0, index.1)]
    }
}

impl vstd::std_specs::core::IndexSpecImpl<(Coordinate, Coordinate)> for TileIndices {
    open spec fn index_req(&self, index: &(Coordinate, Coordinate)) -> bool {
        index.0 < WIDTH && index.1 < HEIGHT
    }
}

/// Every cell has a place in the storage, and the cell found at that place is
/// the same cell again.
pub proof fn lemma_coordinates_round_trip(x: Coordinate, y: Coordinate)
    requires
        x < WIDTH,
        y < HEIGHT,
    ensures
        0 <= index_of(x as int, y as int) < TILE_COUNT,
        coordinates_of(index_of(x as int, y as int)) == (Coordinates { x, y }),
{
}

/// Every place in the storage holds a cell of the grid, and that cell is
/// stored at this very place.
pub proof fn lemma_index_round_trip(index: int)
    requires
        0 <= index < TILE_COUNT,
    ensures
        on_grid(coordinates_of(index)),
        index_of(coordinates_of(index).x as int, coordinates_of(index).y as int) == index,
{
}

/// What remains to enumerate from one place on is what that place yields,
/// followed by what remains from the next place on.
proof fn lemma_remaining_step(cells: Seq<TileIndex>, index: int)
    requires
        0 <= index < cells.len(),
    ensures
        located(cells).skip(index).filter(holds_tile()) == (if cells[index] != 0 {
            seq![(coordinates_of(index), cells[index])]
        } else {
            Seq::empty()
        }) + located(cells).skip(index + 1).filter(holds_tile()),
{
    let entry = (coordinates_of(index), cells[index]);
    let rest = located(cells).skip(index + 1);
    assert(located(cells).skip(index) == seq![entry] + rest);
    rest.lemma_filter_prepend(entry, holds_tile());
}

/// Nothing remains to enumerate from the end of the grid on.
proof fn lemma_remaining_end(cells: Seq<TileIndex>)
    ensures
        located(cells).skip(cells.len() as int).filter(holds_tile()).len() == 0,
{
    located(cells).skip(cells.len() as int).lemma_filter_len(holds_tile());
}

/// A grid without any tile enumerates to nothing.
pub proof fn lemma_enumeration_of_empty_grid(cells: Seq<TileIndex>)
    requires
        forall|i: int| 0 <= i < cells.len() ==> cells[i] == 0,
    ensures
        enumeration(cells) == Seq::<(Coordinates, TileIndex)>::empty(),
{
    if enumeration(cells).len() > 0 {
        lemma_enumeration_sound(cells, 0);
    }
}

/// Every entry of an enumeration is a cell of the grid that holds a tile,
/// with the coordinates of that cell.
pub proof fn lemma_enumeration_sound(cells: Seq<TileIndex>, k: int)
    requires
        0 <= k < enumeration(cells).len(),
    ensures
        exists|index: int|
            0 <= index < cells.len() && cells[index] != 0 && enumeration(cells)[k] == (
                coordinates_of(index),
                cells[index],
            ),
{
    let entry = enumeration(cells)[k];
    located(cells).lemma_filter_pred(holds_tile(), k);
    assert(enumeration(cells).contains(entry));
    located(cells).lemma_filter_contains_rev(holds_tile(), entry);
    let index = choose|index: int| 0 <= index < located(cells).len() && located(cells)[index] == entry;
    assert(cells[index] != 0);
}

/// Every cell of the grid that holds a tile is an entry of the enumeration.
pub proof fn lemma_enumeration_complete(cells: Seq<TileIndex>, index: int)
    requires
        0 <= index < cells.len(),
        cells[index] != 0,
    ensures
        enumeration(cells).contains((coordinates_of(index), cells[index])),
{
    assert(located(cells)[index] == (coordinates_of(index), cells[index]));
    located(cells).lemma_filter_contains(holds_tile(), index);
}

/// The place in the storage of the cell of an entry.
pub open spec fn storage_index(entry: (Coordinates, TileIndex)) -> int {
    index_of(entry.0.x as int, entry.0.y as int)
}

/// The entries of an enumeration come in storage order, none of them twice.
pub proof fn lemma_enumeration_ordered(cells: Seq<TileIndex>, earlier: int, later: int)
    requires
        cells.len() == TILE_COUNT,
        0 <= earlier < later < enumeration(cells).len(),
    ensures
        storage_index(enumeration(cells)[earlier]) < storage_index(enumeration(cells)[later]),
{
    lemma_enumeration_prefix_ordered(cells, TILE_COUNT as int);
    assert(located(cells).take(TILE_COUNT as int) == located(cells));
}

/// The enumeration of the first `count` cells comes in storage order and
/// stays within these cells.
proof fn lemma_enumeration_prefix_ordered(cells: Seq<TileIndex>, count: int)
    requires
        cells.len() == TILE_COUNT,
        0 <= count <= TILE_COUNT,
    ensures
        forall|k: int|
            0 <= k < located(cells).take(count).filter(holds_tile()).len() ==> 0 <= storage_index(
                #[trigger] located(cells).take(count).filter(holds_tile())[k],
            ) < count,
        forall|i: int, j: int|
            0 <= i < j < located(cells).take(count).filter(holds_tile()).len() ==> storage_index(
                #[trigger] located(cells).take(count).filter(holds_tile())[i],
            ) < storage_index(#[trigger] located(cells).take(count).filter(holds_tile())[j]),
    decreases count,
{
    if count == 0 {
        located(cells).take(0).lemma_filter_len(holds_tile());
    } else {
        let before = located(cells).take(count - 1);
        let entry = located(cells)[count - 1];
        lemma_enumeration_prefix_ordered(cells, count - 1);
        lemma_index_round_trip(count - 1);
        assert(located(cells).take(count) == before.push(entry));
        before.lemma_filter_push(entry, holds_tile());
        assert(storage_index(entry) == count - 1);
    }
}

/// The region of an item holds exactly the coordinates that the item covers.
proof fn lemma_region_covers(item: OSDItemLocationData, marker: Coordinates, coordinates: Coordinates)
    ensures
        item.spec_region(marker).spec_contains(coordinates) <==> item.covers(marker, coordinates),
{
}

/// No entries, no regions.
proof fn lemma_item_regions_empty(item: OSDItemLocationData)
    ensures
        item_regions(item, Seq::empty()) == Seq::<Region>::empty(),
{
    Seq::<(Coordinates, TileIndex)>::empty().lemma_filter_len(holds_marker(item));
}

/// One more entry adds its region where it holds a marker of the item.
proof fn lemma_item_regions_push(
    item: OSDItemLocationData,
    entries: Seq<(Coordinates, TileIndex)>,
    entry: (Coordinates, TileIndex),
)
    ensures
        item_regions(item, entries.push(entry)) == if item.is_marker(entry.1) {
            item_regions(item, entries).push(item.spec_region(entry.0))
        } else {
            item_regions(item, entries)
        },
{
    entries.lemma_filter_push(entry, holds_marker(item));
}

/// The regions of the instances of an item hold together exactly the cells
/// that the item covers from its markers on the grid.
pub proof fn lemma_item_regions_cover(cells: Seq<TileIndex>, item: OSDItemLocationData)
    ensures
        erased_regions(cells, item_regions(item, enumeration(cells))) == erased_item(cells, item),
{
    let all = enumeration(cells);
    let marked = all.filter(holds_marker(item));
    let regions = item_regions(item, all);
    assert forall|coordinates: Coordinates|
        covered(regions, coordinates) <==> item_covers(cells, item, coordinates) by {
        if covered(regions, coordinates) {
            let r = choose|r: int|
                0 <= r < regions.len() && (#[trigger] regions[r]).spec_contains(coordinates);
            all.lemma_filter_pred(holds_marker(item), r);
            assert(marked.contains(marked[r]));
            all.lemma_filter_contains_rev(holds_marker(item), marked[r]);
            let q = choose|q: int| 0 <= q < all.len() && all[q] == marked[r];
            lemma_enumeration_sound(cells, q);
            let index = choose|index: int|
                0 <= index < cells.len() && cells[index] != 0 && all[q] == (
                    coordinates_of(index),
                    cells[index],
                );
            lemma_region_covers(item, coordinates_of(index), coordinates);
            assert(is_instance(cells, item, index));
        }
        if item_covers(cells, item, coordinates) {
            let index = choose|index: int| #[trigger]
                is_instance(cells, item, index) && item.covers(coordinates_of(index), coordinates);
            let entry = (coordinates_of(index), cells[index]);
            lemma_enumeration_complete(cells, index);
            let q = choose|q: int| 0 <= q < all.len() && all[q] == entry;
            all.lemma_filter_contains(holds_marker(item), q);
            let r = choose|r: int| 0 <= r < marked.len() && marked[r] == entry;
            lemma_region_covers(item, coordinates_of(index), coordinates);
            assert(regions[r].spec_contains(coordinates));
        }
    }
}

/// Erasing a region a second time changes nothing.
pub proof fn lemma_erase_region_idempotent(cells: Seq<TileIndex>, region: Region)
    ensures
        erased_region(erased_region(cells, region), region) == erased_region(cells, region),
{
}

/// Erasing several regions is erasing them one after the other.
pub proof fn lemma_erased_regions_push(cells: Seq<TileIndex>, regions: Seq<Region>, region: Region)
    ensures
        erased_regions(cells, regions.push(region)) == erased_region(
            erased_regions(cells, regions),
            region,
        ),
{
    let longer = regions.push(region);
    assert forall|c: Coordinates| covered(longer, c) <==> (covered(regions, c)
        || region.spec_contains(c)) by {
        if covered(regions, c) {
            let k = choose|k: int| 0 <= k < regions.len() && (#[trigger] regions[k]).spec_contains(c);
            assert(longer[k].spec_contains(c));
        }
        if region.spec_contains(c) {
            assert(longer[regions.len() as int].spec_contains(c));
        }
    }
}

/// Erasing no region changes nothing.
pub proof fn lemma_erased_regions_empty(cells: Seq<TileIndex>)
    ensures
        erased_regions(cells, Seq::empty()) == cells,
{
}

} // verus!
