//! Decoding and composition of the OSD (on-screen display) telemetry that a
//! DJI FPV video unit records next to its video.
//!
//! The crate models a recording as a header followed by frames, each frame a
//! fixed 60x22 grid of tile indices. It erases regions or named OSD items from
//! a grid, selects and shifts frames, picks the tiles and the magnification
//! that suit a target resolution, and composes a grid into a bitmap.
//!
//! Every function carries a contract that Verus proves. File and image I/O are
//! left to the caller: the crate takes and returns plain values.

pub mod osd;
