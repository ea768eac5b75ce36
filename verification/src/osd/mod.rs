//! Tile coordinates, regions and everything specific to the DJI recording.

pub mod coordinates;
pub mod dji;
pub mod overlay;
pub mod region;
pub mod tile;
