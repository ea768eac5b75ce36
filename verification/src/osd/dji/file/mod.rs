//! The contents of an OSD recording file.

pub mod font_variant;
pub mod frame;
pub mod reader;
pub mod tile_indices;
