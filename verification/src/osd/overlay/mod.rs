//! From the frames of a recording to the pictures that are laid over a video.

pub mod draw;
pub mod frames;
pub mod scaling;
pub mod video;
