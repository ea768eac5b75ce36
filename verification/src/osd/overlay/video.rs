//! Writing the pictures of the OSD as a video.

use vstd::prelude::*;

verus! {

/// The refusal to write a video over a file that is there already.
#[derive(Debug, Clone, Copy, PartialEq, Eq, Structural, Hash)]
pub struct OutputExists;

/// Whether the video may be written: its file is not there yet, or it may be
/// written over.
pub fn check_output(exists: bool, overwrite: bool) -> (result: Result<(), OutputExists>)
    ensures
        result is Err <==> exists && !overwrite,
{
    if exists && !overwrite {
        Err(OutputExists)
    } else {
        Ok(())
    }
}

} // verus!
