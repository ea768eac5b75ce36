//! Reading a recording: the file header and the frames that follow it.
//!
//! A file starts with a signature of 7 bytes. The header follows: the format
//! version (2 bytes), the width and height of the OSD in tiles (1 byte each),
//! the width and height of a tile in pixels (1 byte each), the horizontal and
//! vertical offset of the OSD on the video (2 bytes each) and the font variant
//! (1 byte). The frames follow, each made of the video frame index (4 bytes),
//! the number of tile indices (4 bytes, always 1320) and the tile indices in
//! storage order (2 bytes each). Numbers are stored least significant byte
//! first.

use vstd::prelude::*;
use crate::osd::dji::Kind;
use crate::osd::dji::file::font_variant::FontVariant;
use crate::osd::dji::file::frame::{Frame, VideoFrameIndex};
use crate::osd::dji::file::tile_indices::{TileIndex, TileIndices, TILE_COUNT};
use crate::osd::region::Dimensions;
use crate::osd::tile::PixelDimensions;

verus! {

/// Number of bytes of the signature.
pub const SIGNATURE_SIZE: usize = 7;

/// Number of bytes before the first frame: signature and header.
pub const HEADER_END: usize = 18;

/// Number of bytes of a frame before its tile indices.
pub const FRAME_HEADER_SIZE: usize = 8;

/// Number of bytes of a frame.
pub const FRAME_SIZE: usize = 2648;

/// The bytes that every recording starts with: `MSPOSD` and a zero byte.
pub open spec fn signature() -> Seq<u8> {
    seq![0x4Du8, 0x53u8, 0x50u8, 0x4Fu8, 0x53u8, 0x44u8, 0x00u8]
}

/// Whether `bytes` starts with the signature.
pub open spec fn has_signature(bytes: Seq<u8>) -> bool {
    bytes.len() >= SIGNATURE_SIZE && bytes.take(SIGNATURE_SIZE as int) == signature()
}

/// The number stored in the 2 bytes from `at` on.
pub open spec fn u16_at(bytes: Seq<u8>, at: int) -> int {
    bytes[at] + 256 * bytes[at + 1]
}

/// The number stored in the 4 bytes from `at` on.
pub open spec fn u32_at(bytes: Seq<u8>, at: int) -> int {
    bytes[at] + 256 * bytes[at + 1] + 65536 * bytes[at + 2] + 16777216 * bytes[at + 3]
}

/// The horizontal and vertical distance in pixels between the top left corner
/// of the video and that of the OSD.
#[derive(Debug, Clone, Copy, PartialEq, Eq, Structural, Hash)]
pub struct Offset {
    pub x: u16,
    pub y: u16,
}

/// What a recording says of itself.
#[derive(Debug, Clone, Copy, PartialEq, Eq, Structural, Hash)]
pub struct FileHeader {
    pub format_version: u16,
    pub osd_dimensions: Dimensions,
    pub tile_dimensions: PixelDimensions,
    pub offset: Offset,
    pub font_variant_id: u8,
}

/// The header that the bytes of a file hold.
pub open spec fn header_of(bytes: Seq<u8>) -> FileHeader {
    FileHeader {
        format_version: u16_at(bytes, 7) as u16,
        osd_dimensions: Dimensions { width: bytes[9], height: bytes[10] },
        tile_dimensions: PixelDimensions { width: bytes[11] as u32, height: bytes[12] as u32 },
        offset: Offset { x: u16_at(bytes, 13) as u16, y: u16_at(bytes, 15) as u16 },
        font_variant_id: bytes[17],
    }
}

impl FileHeader {
    pub fn format_version(&self) -> (format_version: u16)
        ensures
            format_version == self.format_version,
    {
        self.format_version
    }

    /// The size of the OSD in tiles.
    pub fn osd_dimensions(&self) -> (osd_dimensions: Dimensions)
        ensures
            osd_dimensions == self.osd_dimensions,
    {
        self.osd_dimensions
    }

    /// The size in pixels of the tiles that the OSD was made for.
    pub fn tile_dimensions(&self) -> (tile_dimensions: PixelDimensions)
        ensures
            tile_dimensions == self.tile_dimensions,
    {
        self.tile_dimensions
    }

    pub fn offset(&self) -> (offset: Offset)
        ensures
            offset == self.offset,
    {
        self.offset
    }

    pub fn font_variant_id(&self) -> (font_variant_id: u8)
        ensures
            font_variant_id == self.font_variant_id,
    {
        self.font_variant_id
    }

    pub fn font_variant(&self) -> (font_variant: FontVariant)
        ensures
            font_variant == FontVariant::spec_from_id(self.font_variant_id),
    {
        FontVariant::from_id(self.font_variant_id)
    }

    /// The screen layout that the recording was made with, where the size of
    /// the OSD is that of a known layout.
    pub fn osd_kind(&self) -> (kind: Option<Kind>)
        ensures
            kind == Kind::spec_from_dimensions_tiles(self.osd_dimensions),
    {
        Kind::from_dimensions_tiles(self.osd_dimensions)
    }
}

/// Why the bytes of a file are not a recording.
#[derive(Debug, Clone, Copy, PartialEq, Eq, Structural, Hash)]
pub enum OSDFileOpenError {
    /// The file does not start with the signature.
    InvalidSignature,
    /// The file ends before the end of the header.
    TruncatedHeader,
}

/// Why the frames of a recording cannot be read. `frame` counts the frames of
/// the file from 0.
#[derive(Debug, Clone, Copy, PartialEq, Eq, Structural, Hash)]
pub enum OSDFileLoadError {
    /// The file ends within the first 8 bytes of a frame.
    TruncatedFrameHeader { frame: usize },
    /// A frame does not declare 1320 tile indices.
    InvalidFrameDataLength { frame: usize, declared: u32 },
    /// The file ends within the tile indices of a frame.
    TruncatedFrameData { frame: usize },
}

/// How the file stands at the place of a frame.
pub enum FrameStatus {
    /// The file ends where the frame would start.
    EndOfFile,
    /// The file ends within the first 8 bytes of the frame.
    TruncatedHeader,
    /// The frame declares this number of tile indices, which is not 1320.
    InvalidDataLength { declared: u32 },
    /// The file ends within the tile indices of the frame.
    TruncatedData,
    /// The frame is there in whole.
    Complete,
}

/// Where frame `k` starts in the file if every frame before it is complete.
pub open spec fn frame_start(k: int) -> int {
    HEADER_END + k * FRAME_SIZE
}

/// How the file stands at the place of frame `k`.
pub open spec fn frame_status(bytes: Seq<u8>, k: int) -> FrameStatus {
    let start = frame_start(k);
    if bytes.len() <= start {
        FrameStatus::EndOfFile
    } else if bytes.len() < start + FRAME_HEADER_SIZE {
        FrameStatus::TruncatedHeader
    } else if u32_at(bytes, start + 4) != TILE_COUNT {
        FrameStatus::InvalidDataLength { declared: u32_at(bytes, start + 4) as u32 }
    } else if bytes.len() < start + FRAME_SIZE {
        FrameStatus::TruncatedData
    } else {
        FrameStatus::Complete
    }
}

/// The tile indices stored from `at` on.
pub open spec fn tile_indices_at(bytes: Seq<u8>, at: int) -> Seq<TileIndex> {
    Seq::new(TILE_COUNT as nat, |i: int| u16_at(bytes, at + 2 * i) as TileIndex)
}

/// Whether `frame` is what the file holds as its frame `k`.
pub open spec fn is_frame_at(frame: Frame, bytes: Seq<u8>, k: int) -> bool {
    &&& frame.index == u32_at(bytes, frame_start(k))
    &&& frame.tile_indices@ == tile_indices_at(bytes, frame_start(k) + FRAME_HEADER_SIZE)
}

/// Whether `frames` are the frames of the file: each is complete, and the file
/// ends with the last one.
pub open spec fn loaded(bytes: Seq<u8>, frames: Seq<Frame>) -> bool {
    &&& frame_status(bytes, frames.len() as int) is EndOfFile
    &&& forall|k: int|
        0 <= k < frames.len() ==> frame_status(bytes, k) is Complete && is_frame_at(
            #[trigger] frames[k],
            bytes,
            k,
        )
}

/// The frame that `error` speaks of.
pub open spec fn failed_frame(error: OSDFileLoadError) -> int {
    match error {
        OSDFileLoadError::TruncatedFrameHeader { frame } => frame as int,
        OSDFileLoadError::InvalidFrameDataLength { frame, .. } => frame as int,
        OSDFileLoadError::TruncatedFrameData { frame } => frame as int,
    }
}

/// Whether `error` says what is wrong with the first frame of the file that is
/// not complete.
pub open spec fn load_failure(bytes: Seq<u8>, error: OSDFileLoadError) -> bool {
    &&& forall|k: int| 0 <= k < failed_frame(error) ==> #[trigger] frame_status(bytes, k) is Complete
    &&& match error {
        OSDFileLoadError::TruncatedFrameHeader { frame } => frame_status(bytes, frame as int)
            is TruncatedHeader,
        OSDFileLoadError::InvalidFrameDataLength { frame, declared } => frame_status(
            bytes,
            frame as int,
        ) == (FrameStatus::InvalidDataLength { declared }),
        OSDFileLoadError::TruncatedFrameData { frame } => frame_status(bytes, frame as int)
            is TruncatedData,
    }
}

fn read_u16(bytes: &[u8], at: usize) -> (value: u16)
    requires
        at + 2 <= bytes@.len(),
    ensures
        value == u16_at(bytes@, at as int),
{
    bytes[at] as u16 + 256 * (bytes[at + 1] as u16)
}

fn read_u32(bytes: &[u8], at: usize) -> (value: u32)
    requires
        at + 4 <= bytes@.len(),
    ensures
        value == u32_at(bytes@, at as int),
{
    bytes[at] as u32 + 256 * (bytes[at + 1] as u32) + 65536 * (bytes[at + 2] as u32) + 16777216 * (
    bytes[at + 3] as u32)
}

fn read_tile_indices(bytes: &[u8], at: usize) -> (tile_indices: TileIndices)
    requires
        at + 2 * TILE_COUNT <= bytes@.len(),
    ensures
        tile_indices@ == tile_indices_at(bytes@, at as int),
{
    let length = bytes.len();
    let mut inner: Vec<TileIndex> = Vec::new();
    let mut i: usize = 0;
    while i < TILE_COUNT
        invariant
            i <= TILE_COUNT,
            length == bytes@.len(),
            at + 2 * TILE_COUNT <= length,
            inner@.len() == i,
            forall|j: int| 0 <= j < i ==> inner@[j] == u16_at(bytes@, at + 2 * j),
        decreases TILE_COUNT - i,
    {
        inner.push(read_u16(bytes, at + 2 * i));
        i += 1;
    }
    TileIndices::new(inner)
}

fn starts_with_signature(bytes: &[u8]) -> (found: bool)
    ensures
        found == has_signature(bytes@),
{
    if bytes.len() < SIGNATURE_SIZE {
        return false;
    }
    let found = bytes[0] == 0x4D && bytes[1] == 0x53 && bytes[2] == 0x50 && bytes[3] == 0x4F
        && bytes[4] == 0x53 && bytes[5] == 0x44 && bytes[6] == 0x00;
    proof {
        let start = bytes@.take(SIGNATURE_SIZE as int);
        if found {
            assert(start =~= signature());
        } else {
            assert(start[0] == bytes@[0] && start[1] == bytes@[1] && start[2] == bytes@[2]
                && start[3] == bytes@[3] && start[4] == bytes@[4] && start[5] == bytes@[5]
                && start[6] == bytes@[6]);
        }
    }
    found
}

/// A recording, held as the bytes of its file.
#[derive(Debug, PartialEq, Eq)]
pub struct OSDFileReader {
    bytes: Vec<u8>,
    header: FileHeader,
}

impl View for OSDFileReader {
    type V = Seq<u8>;

    /// The bytes of the file.
    closed spec fn view(&self) -> Seq<u8> {
        self.bytes@
    }
}

impl OSDFileReader {
    #[verifier::type_invariant]
    spec fn well_formed(&self) -> bool {
        &&& self.bytes@.len() >= HEADER_END
        &&& self.header == header_of(self.bytes@)
    }

    /// The header that was read when the recording was opened.
    pub closed spec fn spec_header(&self) -> FileHeader {
        self.header
    }

    /// Takes the bytes of a file as a recording. They must start with the
    /// signature and hold a whole header.
    pub fn from_bytes(bytes: Vec<u8>) -> (result: Result<OSDFileReader, OSDFileOpenError>)
        ensures
            match result {
                Ok(reader) => {
                    &&& has_signature(bytes@)
                    &&& bytes@.len() >= HEADER_END
                    &&& reader@ == bytes@
                    &&& reader.spec_header() == header_of(bytes@)
                },
                Err(OSDFileOpenError::InvalidSignature) => !has_signature(bytes@),
                Err(OSDFileOpenError::TruncatedHeader) => has_signature(bytes@) && bytes@.len()
                    < HEADER_END,
            },
    {
        if !starts_with_signature(bytes.as_slice()) {
            return Err(OSDFileOpenError::InvalidSignature);
        }
        if bytes.len() < HEADER_END {
            return Err(OSDFileOpenError::TruncatedHeader);
        }
        let header = {
            let bytes = bytes.as_slice();
            FileHeader {
                format_version: read_u16(bytes, 7),
                osd_dimensions: Dimensions::new(bytes[9], bytes[10]),
                tile_dimensions: PixelDimensions::new(bytes[11] as u32, bytes[12] as u32),
                offset: Offset { x: read_u16(bytes, 13), y: read_u16(bytes, 15) },
                font_variant_id: bytes[17],
            }
        };
        Ok(OSDFileReader { bytes, header })
    }

    #[verifier::when_used_as_spec(spec_header)]
    pub fn header(&self) -> (header: FileHeader)
        ensures
            header == self.spec_header(),
            header == header_of(self@),
    {
        proof {
            use_type_invariant(self);
        }
        self.header
    }

    /// Reads every frame of the recording, in the order of the file. Fails at
    /// the first frame that is not complete, unless the file ends there.
    pub fn frames(&self) -> (result: Result<Vec<Frame>, OSDFileLoadError>)
        ensures
            match result {
                Ok(frames) => loaded(self@, frames@),
                Err(error) => load_failure(self@, error),
            },
    {
        proof {
            use_type_invariant(self);
        }
        let bytes = self.bytes.as_slice();
        let mut frames: Vec<Frame> = Vec::new();
        let mut position: usize = HEADER_END;
        loop
            invariant
                bytes@ == self@,
                HEADER_END <= position <= bytes@.len(),
                position == frame_start(frames@.len() as int),
                forall|k: int|
                    0 <= k < frames@.len() ==> #[trigger] frame_status(bytes@, k) is Complete,
                forall|k: int|
                    0 <= k < frames@.len() ==> is_frame_at(#[trigger] frames@[k], bytes@, k),
            decreases bytes@.len() - position,
        {
            let left = bytes.len() - position;
            if left == 0 {
                return Ok(frames);
            }
            if left < FRAME_HEADER_SIZE {
                return Err(OSDFileLoadError::TruncatedFrameHeader { frame: frames.len() });
            }
            let index: VideoFrameIndex = read_u32(bytes, position);
            let declared = read_u32(bytes, position + 4);
            if declared != TILE_COUNT as u32 {
                return Err(
                    OSDFileLoadError::InvalidFrameDataLength { frame: frames.len(), declared },
                );
            }
            if left < FRAME_SIZE {
                return Err(OSDFileLoadError::TruncatedFrameData { frame: frames.len() });
            }
            let tile_indices = read_tile_indices(bytes, position + FRAME_HEADER_SIZE);
            frames.push(Frame::new(index, tile_indices));
            position += FRAME_SIZE;
        }
    }
}

/// The frames of a file are determined by its bytes: two readings that
/// succeed give the same frames.
pub proof fn lemma_loaded_unique(bytes: Seq<u8>, first: Seq<Frame>, second: Seq<Frame>)
    requires
        loaded(bytes, first),
        loaded(bytes, second),
    ensures
        first == second,
{
    if first.len() < second.len() {
        assert(frame_status(bytes, first.len() as int) is Complete) by {
            let _ = second[first.len() as int];
        }
    }
    if second.len() < first.len() {
        assert(frame_status(bytes, second.len() as int) is Complete) by {
            let _ = first[second.len() as int];
        }
    }
    assert forall|k: int| 0 <= k < first.len() implies first[k] == second[k] by {
        let a = first[k];
        let b = second[k];
        assert(is_frame_at(a, bytes, k) && is_frame_at(b, bytes, k));
        a.tile_indices.lemma_equal_by_view(b.tile_indices);
    }
    assert(first =~= second);
}

/// A file with a frame that is not complete, other than by ending where the
/// frame would start, has no frames at all: reading it never succeeds, not
/// even with the frames before the broken one.
pub proof fn lemma_broken_frame_fails(bytes: Seq<u8>, k: int, frames: Seq<Frame>)
    requires
        0 <= k,
        !(frame_status(bytes, k) is Complete),
        !(frame_status(bytes, k) is EndOfFile),
    ensures
        !loaded(bytes, frames),
{
    if loaded(bytes, frames) {
        if k < frames.len() {
            let _ = frames[k];
        } else {
            assert(bytes.len() > frame_start(k));
            assert(frame_start(k) >= frame_start(frames.len() as int)) by (nonlinear_arith)
                requires
                    k >= frames.len(),
            ;
        }
    }
}

/// A frame that declares another number of tile indices than 1320 makes the
/// reading fail: it succeeds with no frames whatever, and where every frame
/// before it is complete, the failure names this frame and the number that it
/// declares.
pub proof fn lemma_invalid_length_fails(
    bytes: Seq<u8>,
    k: int,
    frames: Seq<Frame>,
    error: OSDFileLoadError,
)
    requires
        0 <= k,
        frame_status(bytes, k) is InvalidDataLength,
        forall|j: int| 0 <= j < k ==> #[trigger] frame_status(bytes, j) is Complete,
    ensures
        !loaded(bytes, frames),
        load_failure(bytes, error) ==> error == (OSDFileLoadError::InvalidFrameDataLength {
            frame: k as usize,
            declared: u32_at(bytes, frame_start(k) + 4) as u32,
        }),
{
    lemma_broken_frame_fails(bytes, k, frames);
    if load_failure(bytes, error) {
        let f = failed_frame(error);
        if f < k {
            assert(frame_status(bytes, f) is Complete);
        } else if k < f {
            assert(frame_status(bytes, k) is Complete);
        }
    }
}

} // verus!
