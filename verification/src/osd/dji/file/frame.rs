//! One frame of a recording.

use vstd::prelude::*;
use crate::osd::dji::file::tile_indices::TileIndices;

verus! {

/// The number of a frame of the video, counted from 0.
pub type VideoFrameIndex = u32;

/// The OSD as it is from one video frame on: it stays on the screen until the
/// video frame of the next frame of the recording.
#[derive(Debug, PartialEq, Eq)]
pub struct Frame {
    pub index: VideoFrameIndex,
    pub tile_indices: TileIndices,
}

impl Clone for Frame {
    fn clone(&self) -> (copy: Self)
        ensures
            copy == *self,
    {
        Frame { index: self.index, tile_indices: self.tile_indices.clone() }
    }
}

impl Frame {
    pub fn new(index: VideoFrameIndex, tile_indices: TileIndices) -> (frame: Self)
        ensures
            frame == (Frame { index, tile_indices }),
    {
        Frame { index, tile_indices }
    }

    /// The video frame from which on this OSD is shown.
    pub fn index(&self) -> (index: VideoFrameIndex)
        ensures
            index == self.index,
    {
        self.index
    }

    pub fn tile_indices(&self) -> (tile_indices: &TileIndices)
        ensures
            *tile_indices == self.tile_indices,
    {
        &self.tile_indices
    }
}

/// How often the OSD changes, as far as the frames of a recording tell.
#[derive(Debug, Clone, Copy, PartialEq, Eq, Structural, Hash)]
pub struct UpdateRate {
    /// The frames of the recording per hundred video frames.
    pub percent_of_video_frames: u128,
    /// The frames of the recording per ten seconds of a video that runs at 60
    /// frames per second.
    pub decihertz: u128,
    /// The video frames from one frame of the recording to the next. Where it
    /// is 1, the OSD changes with every video frame.
    pub interval_video_frames: u128,
}

/// The whole number nearest to `numerator / denominator`; of two that are
/// equally near, the even one.
pub open spec fn rounded_half_even(numerator: int, denominator: int) -> int {
    let quotient = numerator / denominator;
    let rest = numerator % denominator;
    if 2 * rest > denominator || (2 * rest == denominator && quotient % 2 == 1) {
        quotient + 1
    } else {
        quotient
    }
}

/// The whole number nearest to `numerator / denominator`; of two that are
/// equally near, the larger one.
pub open spec fn rounded_half_up(numerator: int, denominator: int) -> int {
    let quotient = numerator / denominator;
    let rest = numerator % denominator;
    if 2 * rest >= denominator {
        quotient + 1
    } else {
        quotient
    }
}

/// The update rate of a recording of `frame_count` frames whose last frame is
/// made for video frame `last_index`. There is none for a recording without
/// frames, nor for one that ends at video frame 0. The share and the
/// frequency are rounded to the even number where two are equally near, the
/// interval to the larger one.
pub open spec fn update_rate_of(frame_count: int, last_index: int) -> Option<UpdateRate> {
    if frame_count == 0 || last_index == 0 {
        None
    } else {
        Some(
            UpdateRate {
                percent_of_video_frames: rounded_half_even(100 * frame_count, last_index) as u128,
                decihertz: rounded_half_even(600 * frame_count, last_index) as u128,
                interval_video_frames: rounded_half_up(last_index, frame_count) as u128,
            },
        )
    }
}

fn round_division_half_even(numerator: u128, denominator: u128) -> (nearest: u128)
    requires
        denominator > 0,
        numerator < u128::MAX,
    ensures
        nearest == rounded_half_even(numerator as int, denominator as int),
{
    let quotient = numerator / denominator;
    let rest = numerator % denominator;
    let above_half = rest > denominator - rest;
    let at_half = rest == denominator - rest;
    if above_half || (at_half && quotient % 2 == 1) {
        quotient + 1
    } else {
        quotient
    }
}

fn round_division_half_up(numerator: u128, denominator: u128) -> (nearest: u128)
    requires
        denominator > 0,
        numerator < u128::MAX,
    ensures
        nearest == rounded_half_up(numerator as int, denominator as int),
{
    let quotient = numerator / denominator;
    let rest = numerator % denominator;
    if rest >= denominator - rest {
        quotient + 1
    } else {
        quotient
    }
}

/// How often the OSD changes: the share of the video frames for which the
/// recording has a frame, the same as a frequency, and the distance between
/// two frames of the recording, each rounded to a whole number.
pub fn update_rate(frames: &[Frame]) -> (rate: Option<UpdateRate>)
    ensures
        rate == update_rate_of(
            frames@.len() as int,
            if frames@.len() == 0 {
                0
            } else {
                frames@.last().index as int
            },
        ),
{
    if frames.len() == 0 {
        return None;
    }
    let last_index = frames[frames.len() - 1].index as u128;
    if last_index == 0 {
        return None;
    }
    let frame_count = frames.len() as u128;
    Some(
        UpdateRate {
            percent_of_video_frames: round_division_half_even(100 * frame_count, last_index),
            decihertz: round_division_half_even(600 * frame_count, last_index),
            interval_video_frames: round_division_half_up(last_index, frame_count),
        },
    )
}

/// Rounding gives one of the two whole numbers next to the quotient, the
/// nearer one.
pub proof fn lemma_rounded_half_even(numerator: int, denominator: int)
    requires
        0 <= numerator,
        0 < denominator,
    ensures
        2 * rounded_half_even(numerator, denominator) * denominator - denominator <= 2 * numerator <= 2
            * rounded_half_even(numerator, denominator) * denominator + denominator,
{
    let quotient = numerator / denominator;
    let rest = numerator % denominator;
    vstd::arithmetic::div_mod::lemma_fundamental_div_mod(numerator, denominator);
    vstd::arithmetic::div_mod::lemma_mod_bound(numerator, denominator);
    assert(2 * (quotient + 1) * denominator == 2 * quotient * denominator + 2 * denominator)
        by (nonlinear_arith);
    assert(denominator * quotient == quotient * denominator) by (nonlinear_arith);
    assert(2 * quotient * denominator == 2 * (quotient * denominator)) by (nonlinear_arith);
}

/// Rounding with the larger number for a tie adds a half and drops what is
/// behind the point, and it gives one of the two whole numbers next to the
/// quotient, the nearer one.
pub proof fn lemma_rounded_half_up(numerator: int, denominator: int)
    requires
        0 <= numerator,
        0 < denominator,
    ensures
        rounded_half_up(numerator, denominator) == (2 * numerator + denominator) / (2
            * denominator),
        2 * rounded_half_up(numerator, denominator) * denominator - denominator <= 2 * numerator
            < 2 * rounded_half_up(numerator, denominator) * denominator + denominator,
{
    let quotient = numerator / denominator;
    let rest = numerator % denominator;
    let nearest = rounded_half_up(numerator, denominator);
    vstd::arithmetic::div_mod::lemma_fundamental_div_mod(numerator, denominator);
    vstd::arithmetic::div_mod::lemma_mod_bound(numerator, denominator);
    assert(denominator * quotient == quotient * denominator) by (nonlinear_arith);
    assert(2 * (quotient + 1) * denominator == 2 * (quotient * denominator) + 2 * denominator)
        by (nonlinear_arith);
    assert(2 * quotient * denominator == 2 * (quotient * denominator)) by (nonlinear_arith);
    let shift = 2 * numerator + denominator - nearest * (2 * denominator);
    assert(nearest * (2 * denominator) == 2 * nearest * denominator) by (nonlinear_arith);
    assert(0 <= shift < 2 * denominator);
    assert(2 * numerator + denominator == nearest * (2 * denominator) + shift);
    vstd::arithmetic::div_mod::lemma_fundamental_div_mod_converse(
        2 * numerator + denominator,
        2 * denominator,
        nearest,
        shift,
    );
}

/// An OSD whose frames are as many as the video frames up to the last one, or
/// more, up to twice as many, changes with every video frame.
pub proof fn lemma_interval_of_one(frame_count: int, last_index: int)
    requires
        0 < frame_count,
        0 < last_index,
    ensures
        rounded_half_up(last_index, frame_count) == 1 <==> frame_count <= 2 * last_index < 3
            * frame_count,
{
    lemma_rounded_half_up(last_index, frame_count);
    let nearest = rounded_half_up(last_index, frame_count);
    assert(2 * nearest * frame_count == (2 * frame_count) * nearest) by (nonlinear_arith);
    if nearest <= 0 {
        assert((2 * frame_count) * nearest <= 0) by (nonlinear_arith)
            requires
                nearest <= 0,
                frame_count > 0,
        ;
    }
    if nearest >= 2 {
        assert((2 * frame_count) * nearest >= 4 * frame_count) by (nonlinear_arith)
            requires
                nearest >= 2,
                frame_count > 0,
        ;
    }
}

} // verus!
