//! Transcribing audio files: files larger than the service accepts are
//! split into pieces.
use vstd::prelude::*;

verus! {

/// The largest file, in bytes, the transcription service accepts.
pub const OPENAI_MAXIMUM_CONTENT_SIZE_BYTES: u64 = 26214400;

/// Into how many pieces a file of this many bytes is split: none when it
/// is small enough, otherwise one more than the number of whole maximal
/// sizes it holds.
pub fn split_count(file_byte_size: u64) -> (res: Option<u64>)
    ensures
        file_byte_size <= OPENAI_MAXIMUM_CONTENT_SIZE_BYTES ==> res is None,
        file_byte_size > OPENAI_MAXIMUM_CONTENT_SIZE_BYTES ==> res == Some(
            (file_byte_size / OPENAI_MAXIMUM_CONTENT_SIZE_BYTES + 1) as u64,
        ),
{
    if OPENAI_MAXIMUM_CONTENT_SIZE_BYTES < file_byte_size {
        Some(file_byte_size / OPENAI_MAXIMUM_CONTENT_SIZE_BYTES + 1)
    } else {
        None
    }
}

} // verus!
