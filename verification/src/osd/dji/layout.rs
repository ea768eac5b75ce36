//! Where the items of the OSD sit on the screen.
//!
//! A flight controller firmware draws each OSD item (altitude, battery
//! voltage, GPS position, ...) as a run of tiles next to a tile that
//! identifies the item: its marker. A layout lists, for one font variant, the
//! items that can be found this way.

use vstd::prelude::*;
use crate::osd::coordinates::Coordinates;
use crate::osd::dji::file::tile_indices::TileIndex;
use crate::osd::region::{Dimensions, Region};

verus! {

/// How to find one OSD item on the screen and which tiles it covers.
///
/// The item covers a rectangle of `dimensions` tiles whose top left tile lies
/// `offset_x` columns right of and `offset_y` rows below the marker (negative
/// offsets point left and up).
#[derive(Debug, PartialEq, Eq)]
pub struct OSDItemLocationData {
    pub name: String,
    pub marker_tile_indices: Vec<TileIndex>,
    pub offset_x: i8,
    pub offset_y: i8,
    pub dimensions: Dimensions,
}

/// The first coordinate of the run of `length` coordinates that starts at
/// `start`, once the run is cut to the coordinates that exist.
pub open spec fn clipped_start(start: int) -> u8 {
    if start < 0 {
        0
    } else if start > u8::MAX {
        u8::MAX
    } else {
        start as u8
    }
}

/// How many coordinates that exist the run of `length` coordinates from
/// `start` holds.
pub open spec fn clipped_length(start: int, length: int) -> u8 {
    let first = if start < 0 { 0 } else { start };
    let end = if start + length > u8::MAX + 1 { u8::MAX + 1 } else { start + length };
    if end <= first {
        0
    } else {
        (end - first) as u8
    }
}

fn clip_start(start: i32) -> (clipped: u8)
    requires
        -128 <= start <= 255 + 127,
    ensures
        clipped == clipped_start(start as int),
{
    if start < 0 {
        0
    } else if start > 255 {
        255
    } else {
        start as u8
    }
}

fn clip_length(start: i32, length: u8) -> (clipped: u8)
    requires
        -128 <= start <= 255 + 127,
    ensures
        clipped == clipped_length(start as int, length as int),
{
    let first: i32 = if start < 0 { 0 } else { start };
    let end: i32 = if start + length as i32 > 256 { 256 } else { start + length as i32 };
    if end <= first {
        0
    } else {
        (end - first) as u8
    }
}

impl OSDItemLocationData {
    /// Whether `tile_index` is one of the markers of this item. A marker 0 is
    /// never met on a grid, where 0 stands for an empty cell.
    pub open spec fn is_marker(&self, tile_index: TileIndex) -> bool {
        self.marker_tile_indices@.contains(tile_index)
    }

    /// Whether the item whose marker sits at `marker` covers `coordinates`.
    pub open spec fn covers(&self, marker: Coordinates, coordinates: Coordinates) -> bool {
        &&& marker.x + self.offset_x <= coordinates.x < marker.x + self.offset_x
            + self.dimensions.width
        &&& marker.y + self.offset_y <= coordinates.y < marker.y + self.offset_y
            + self.dimensions.height
    }

    /// The region of the item whose marker sits at `marker`: the rectangle that
    /// `covers` describes, cut to the coordinates that exist.
    pub open spec fn spec_region(&self, marker: Coordinates) -> Region {
        Region {
            top_left_corner: Coordinates {
                x: clipped_start(marker.x + self.offset_x),
                y: clipped_start(marker.y + self.offset_y),
            },
            dimensions: Dimensions {
                width: clipped_length(marker.x + self.offset_x, self.dimensions.width as int),
                height: clipped_length(marker.y + self.offset_y, self.dimensions.height as int),
            },
        }
    }

    pub fn new(
        name: String,
        marker_tile_indices: Vec<TileIndex>,
        offset_x: i8,
        offset_y: i8,
        dimensions: Dimensions,
    ) -> (item: Self)
        ensures
            item == (OSDItemLocationData {
                name,
                marker_tile_indices,
                offset_x,
                offset_y,
                dimensions,
            }),
    {
        OSDItemLocationData { name, marker_tile_indices, offset_x, offset_y, dimensions }
    }

    pub fn name(&self) -> (name: &str)
        ensures
            name@ == self.name@,
    {
        self.name.as_str()
    }

    pub fn marker_tile_indices(&self) -> (markers: &[TileIndex])
        ensures
            markers@ == self.marker_tile_indices@,
    {
        self.marker_tile_indices.as_slice()
    }

    /// The region that the item occupies when its marker sits at `marker`.
    #[verifier::when_used_as_spec(spec_region)]
    pub fn region(&self, marker: Coordinates) -> (region: Region)
        ensures
            region == self.spec_region(marker),
            forall|coordinates: Coordinates|
                region.spec_contains(coordinates) <==> self.covers(marker, coordinates),
    {
        let start_x: i32 = marker.x as i32 + self.offset_x as i32;
        let start_y: i32 = marker.y as i32 + self.offset_y as i32;
        Region::new(
            Coordinates::new(clip_start(start_x), clip_start(start_y)),
            Dimensions::new(
                clip_length(start_x, self.dimensions.width),
                clip_length(start_y, self.dimensions.height),
            ),
        )
    }
}

/// The items that can be located with one font variant, in lookup order.
#[derive(Debug, PartialEq, Eq)]
pub struct OSDItemsLayout {
    items: Vec<OSDItemLocationData>,
}

impl View for OSDItemsLayout {
    type V = Seq<OSDItemLocationData>;

    closed spec fn view(&self) -> Seq<OSDItemLocationData> {
        self.items@
    }
}

impl OSDItemsLayout {
    /// Whether the item at position `k` is the first one named `name`.
    pub open spec fn is_first_named(&self, k: int, name: Seq<char>) -> bool {
        &&& 0 <= k < self@.len()
        &&& self@[k].name@ == name
        &&& forall|j: int| 0 <= j < k ==> self@[j].name@ != name
    }

    /// Whether the layout holds an item named `name`.
    pub open spec fn knows(&self, name: Seq<char>) -> bool {
        exists|k: int| self.is_first_named(k, name)
    }

    /// The first item named `name`, if the layout holds one.
    pub open spec fn spec_find(&self, name: Seq<char>) -> Option<OSDItemLocationData> {
        if self.knows(name) {
            Some(self@[choose|k: int| self.is_first_named(k, name)])
        } else {
            None
        }
    }

    pub fn new(items: Vec<OSDItemLocationData>) -> (layout: Self)
        ensures
            layout@ == items@,
    {
        OSDItemsLayout { items }
    }

    /// Whether `after` is `before` with one more marker, `marker`, as its last.
    pub open spec fn with_marker(
        before: OSDItemLocationData,
        after: OSDItemLocationData,
        marker: TileIndex,
    ) -> bool {
        &&& after.name == before.name
        &&& after.marker_tile_indices@ == before.marker_tile_indices@.push(marker)
        &&& after.offset_x == before.offset_x
        &&& after.offset_y == before.offset_y
        &&& after.dimensions == before.dimensions
    }

    /// Whether `item` is the item `name` with the one marker `marker`.
    pub open spec fn is_new_item(
        item: OSDItemLocationData,
        name: Seq<char>,
        marker: TileIndex,
        offset_x: i8,
        offset_y: i8,
        dimensions: Dimensions,
    ) -> bool {
        &&& item.name@ == name
        &&& item.marker_tile_indices@ == seq![marker]
        &&& item.offset_x == offset_x
        &&& item.offset_y == offset_y
        &&& item.dimensions == dimensions
    }

    /// Describes one marker of the item `name`. Where the layout knows the
    /// name, the first item of that name gets the marker as one more and
    /// keeps its offset and dimensions. Where it does not, the layout gets a
    /// new last item with this marker, offset and dimensions.
    pub fn add_marker(
        &mut self,
        name: &str,
        marker: TileIndex,
        offset_x: i8,
        offset_y: i8,
        dimensions: Dimensions,
    )
        ensures
            old(self).knows(name@) ==> exists|k: int|
                {
                    &&& old(self).is_first_named(k, name@)
                    &&& final(self)@.len() == old(self)@.len()
                    &&& Self::with_marker(old(self)@[k], #[trigger] final(self)@[k], marker)
                    &&& forall|j: int|
                        0 <= j < old(self)@.len() && j != k ==> final(self)@[j] == old(self)@[j]
                },
            !old(self).knows(name@) ==> {
                &&& final(self)@.len() == old(self)@.len() + 1
                &&& final(self)@.take(old(self)@.len() as int) == old(self)@
                &&& Self::is_new_item(
                    final(self)@.last(),
                    name@,
                    marker,
                    offset_x,
                    offset_y,
                    dimensions,
                )
            },
    {
        let wanted = name.to_owned();
        let mut i: usize = 0;
        while i < self.items.len()
            invariant
                i <= self.items@.len(),
                *self == *old(self),
                wanted@ == name@,
                forall|j: int| 0 <= j < i ==> self.items@[j].name@ != name@,
            decreases self.items@.len() - i,
        {
            if self.items[i].name == wanted {
                proof {
                    assert(self.is_first_named(i as int, name@));
                }
                let ghost before = self.items@;
                let mut item = self.items.remove(i);
                item.marker_tile_indices.push(marker);
                self.items.insert(i, item);
                proof {
                    let after = self.items@;
                    assert(after == before.remove(i as int).insert(i as int, item));
                    assert(after.len() == before.len());
                    assert(after[i as int] == item);
                    assert(Self::with_marker(before[i as int], after[i as int], marker));
                    assert(old(self).is_first_named(i as int, name@));
                    assert(Self::with_marker(old(self)@[i as int], self@[i as int], marker));
                    assert(self@.len() == old(self)@.len());
                    assert forall|j: int| 0 <= j < old(self)@.len() && j != i implies self@[j]
                        == old(self)@[j] by {
                        if j < i {
                            assert(after[j] == before.remove(i as int)[j]);
                        } else {
                            assert(after[j] == before.remove(i as int)[j - 1]);
                        }
                    }
                }
                return ;
            }
            i += 1;
        }
        proof {
            assert(!self.knows(name@));
        }
        let mut markers: Vec<TileIndex> = Vec::new();
        markers.push(marker);
        self.items.push(
            OSDItemLocationData {
                name: wanted,
                marker_tile_indices: markers,
                offset_x,
                offset_y,
                dimensions,
            },
        );
    }

    pub fn items(&self) -> (items: &[OSDItemLocationData])
        ensures
            items@ == self@,
    {
        self.items.as_slice()
    }

    /// Looks an item up by its name. Where several items share the name, the
    /// first one is returned.
    pub fn find_osd_item_location_data(&self, item_name: &str) -> (found: Option<
        &OSDItemLocationData,
    >)
        ensures
            match found {
                Some(item) => self.spec_find(item_name@) == Some(*item),
                None => self.spec_find(item_name@) is None,
            },
    {
        let wanted = item_name.to_owned();
        let mut i: usize = 0;
        while i < self.items.len()
            invariant
                i <= self.items@.len(),
                wanted@ == item_name@,
                forall|j: int| 0 <= j < i ==> self.items@[j].name@ != item_name@,
            decreases self.items@.len() - i,
        {
            if self.items[i].name == wanted {
                proof {
                    assert(self.is_first_named(i as int, item_name@));
                    let k = choose|k: int| self.is_first_named(k, item_name@);
                    assert(k == i);
                }
                return Some(&self.items[i]);
            }
            i += 1;
        }
        proof {
            assert(!self.knows(item_name@));
        }
        None
    }
}

/// An item name is known to a layout exactly when some item carries it, first
/// or not.
pub proof fn lemma_knows_iff_named(layout: OSDItemsLayout, name: Seq<char>)
    ensures
        layout.knows(name) <==> exists|k: int|
            0 <= k < layout@.len() && (#[trigger] layout@[k]).name@ == name,
{
    if exists|k: int| 0 <= k < layout@.len() && (#[trigger] layout@[k]).name@ == name {
        let k = choose|k: int| 0 <= k < layout@.len() && (#[trigger] layout@[k]).name@ == name;
        lemma_first_named_exists(layout, name, k);
    }
}

/// Where an item carries a name, some item is the first to carry it.
proof fn lemma_first_named_exists(layout: OSDItemsLayout, name: Seq<char>, k: int)
    requires
        0 <= k < layout@.len(),
        layout@[k].name@ == name,
    ensures
        layout.knows(name),
    decreases k,
{
    if exists|j: int| 0 <= j < k && (#[trigger] layout@[j]).name@ == name {
        let j = choose|j: int| 0 <= j < k && (#[trigger] layout@[j]).name@ == name;
        lemma_first_named_exists(layout, name, j);
    } else {
        assert(layout.is_first_named(k, name));
    }
}

} // verus!
