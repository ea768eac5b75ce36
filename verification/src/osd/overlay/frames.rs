//! Which frames of a recording go with which frames of a video.

use vstd::prelude::*;
use crate::osd::dji::file::frame::{Frame, VideoFrameIndex};

verus! {

/// The bounds of a selection that can hold no video frame: the last one lies
/// before the first.
#[derive(Debug, Clone, Copy, PartialEq, Eq, Structural, Hash)]
pub struct InvalidFrameRange {
    pub first_frame: VideoFrameIndex,
    pub last_frame: VideoFrameIndex,
}

/// Tells bounds that can hold a video frame from those that cannot. Bounds
/// without a last frame always can, and so can those that name one frame
/// twice.
pub fn check_frame_range(first_frame: VideoFrameIndex, last_frame: Option<VideoFrameIndex>) -> (result:
    Result<(), InvalidFrameRange>)
    ensures
        match last_frame {
            Some(last_frame) if last_frame < first_frame => result == Err::<(), InvalidFrameRange>(
                InvalidFrameRange { first_frame, last_frame },
            ),
            _ => result is Ok,
        },
{
    match last_frame {
        Some(last_frame) => {
            if last_frame < first_frame {
                Err(InvalidFrameRange { first_frame, last_frame })
            } else {
                Ok(())
            }
        },
        None => Ok(()),
    }
}

/// Whether the frame recorded for video frame `index` is selected: moved by
/// `frame_shift` video frames, it is still a video frame, and one between
/// `first_frame` and `last_frame`, both included. Without a `last_frame` every
/// video frame from `first_frame` on is selected.
pub open spec fn is_selected(
    index: VideoFrameIndex,
    first_frame: VideoFrameIndex,
    last_frame: Option<VideoFrameIndex>,
    frame_shift: i32,
) -> bool {
    &&& first_frame <= index + frame_shift <= VideoFrameIndex::MAX
    &&& last_frame matches Some(last_frame) ==> index + frame_shift <= last_frame
}

/// Tells the frames that are selected from the others.
pub open spec fn selects(
    first_frame: VideoFrameIndex,
    last_frame: Option<VideoFrameIndex>,
    frame_shift: i32,
) -> spec_fn(Frame) -> bool {
    |frame: Frame| is_selected(frame.index, first_frame, last_frame, frame_shift)
}

/// Moves a frame by `frame_shift` video frames.
pub open spec fn shifts(frame_shift: i32) -> spec_fn(Frame) -> Frame {
    |frame: Frame|
        Frame { index: (frame.index + frame_shift) as VideoFrameIndex, tile_indices: frame.tile_indices }
}

/// The selected frames in their order, each moved by `frame_shift` video
/// frames.
pub open spec fn selection(
    frames: Seq<Frame>,
    first_frame: VideoFrameIndex,
    last_frame: Option<VideoFrameIndex>,
    frame_shift: i32,
) -> Seq<Frame> {
    frames.filter(selects(first_frame, last_frame, frame_shift)).map_values(shifts(frame_shift))
}

/// Moves every frame by `frame_shift` video frames, to make up for an OSD that
/// runs ahead of or behind the video, and keeps the frames that then fall on
/// the video frames from `first_frame` to `last_frame` (to the end where there
/// is no `last_frame`).
pub fn select_frames(
    frames: &[Frame],
    first_frame: VideoFrameIndex,
    last_frame: Option<VideoFrameIndex>,
    frame_shift: i32,
) -> (selected: Vec<Frame>)
    ensures
        selected@ == selection(frames@, first_frame, last_frame, frame_shift),
{
    let mut selected: Vec<Frame> = Vec::new();
    let end: i64 = match last_frame {
        Some(last_frame) => last_frame as i64,
        None => VideoFrameIndex::MAX as i64,
    };
    let mut k: usize = 0;
    proof {
        assert(frames@.take(0) == Seq::<Frame>::empty());
        Seq::<Frame>::empty().lemma_filter_len(selects(first_frame, last_frame, frame_shift));
    }
    while k < frames.len()
        invariant
            k <= frames@.len(),
            end == match last_frame {
                Some(last_frame) => last_frame as int,
                None => VideoFrameIndex::MAX as int,
            },
            selected@ == selection(frames@.take(k as int), first_frame, last_frame, frame_shift),
        decreases frames@.len() - k,
    {
        let frame = &frames[k];
        let shifted: i64 = frame.index as i64 + frame_shift as i64;
        proof {
            assert(frames@.take(k as int + 1) == frames@.take(k as int).push(frames@[k as int]));
            frames@.take(k as int).lemma_filter_push(
                frames@[k as int],
                selects(first_frame, last_frame, frame_shift),
            );
        }
        if first_frame as i64 <= shifted && shifted <= end {
            selected.push(Frame::new(shifted as VideoFrameIndex, frame.tile_indices.clone()));
        }
        k += 1;
    }
    proof {
        assert(frames@.take(k as int) == frames@);
    }
    selected
}

/// Whether the frame at `position` is the one on the screen at video frame
/// `video_frame`: the last of the frames made for that video frame or an
/// earlier one.
pub open spec fn is_shown_at(frames: Seq<Frame>, position: int, video_frame: VideoFrameIndex) -> bool {
    &&& 0 <= position < frames.len()
    &&& frames[position].index <= video_frame
    &&& forall|later: int| position < later < frames.len() ==> frames[later].index > video_frame
}

/// Whether the frames follow each other in the order of their video frames.
pub open spec fn in_video_order(frames: Seq<Frame>) -> bool {
    forall|i: int, j: int| 0 <= i < j < frames.len() ==> frames[i].index < frames[j].index
}

/// The position of the frame that is on the screen at video frame
/// `video_frame`. A recording skips the video frames at which the OSD did not
/// change, so this is the last frame made for `video_frame` or before.
/// No frame is on the screen before the first one.
pub fn frame_shown_at(frames: &[Frame], video_frame: VideoFrameIndex) -> (shown: Option<usize>)
    ensures
        match shown {
            Some(position) => is_shown_at(frames@, position as int, video_frame),
            None => forall|k: int| 0 <= k < frames@.len() ==> frames@[k].index > video_frame,
        },
{
    let mut k: usize = frames.len();
    while k > 0
        invariant
            k <= frames@.len(),
            forall|later: int| k <= later < frames@.len() ==> frames@[later].index > video_frame,
        decreases k,
    {
        k -= 1;
        if frames[k].index <= video_frame {
            return Some(k);
        }
    }
    None
}

/// Among frames in video order, the frame on the screen is the latest of
/// those made for the video frame or before, and every frame before it was
/// made for an earlier video frame.
pub proof fn lemma_shown_is_latest(frames: Seq<Frame>, position: int, video_frame: VideoFrameIndex)
    requires
        in_video_order(frames),
        is_shown_at(frames, position, video_frame),
    ensures
        forall|k: int|
            0 <= k < frames.len() && frames[k].index <= video_frame ==> frames[k].index
                <= frames[position].index,
        forall|k: int| 0 <= k < position ==> frames[k].index < frames[position].index,
{
}

/// Bounds that are refused select no frame, whatever the shift.
pub proof fn lemma_invalid_range_selects_nothing(
    frames: Seq<Frame>,
    first_frame: VideoFrameIndex,
    last_frame: VideoFrameIndex,
    frame_shift: i32,
)
    requires
        last_frame < first_frame,
    ensures
        selection(frames, first_frame, Some(last_frame), frame_shift) == Seq::<Frame>::empty(),
{
    let kept = frames.filter(selects(first_frame, Some(last_frame), frame_shift));
    if kept.len() > 0 {
        frames.lemma_filter_pred(selects(first_frame, Some(last_frame), frame_shift), 0);
    }
}

} // verus!
