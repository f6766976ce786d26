//! The distinct failure conditions of encoding and decoding.

use vstd::prelude::*;

verus! {

/// Why an encode or decode operation failed. Every failure is a deterministic
/// function of the input bytes, so callers can assert on the exact condition.
#[derive(Clone, Copy, Debug, PartialEq, Eq, Structural)]
pub enum PngError {
    /// The raw payload, or its encoded form plus the keyword prefix, exceeds
    /// the maximum chunk data size.
    SizeLimitExceeded,
    /// The stream does not end in the fixed terminator chunk, or a chunk's
    /// declared length runs past the end of the stream.
    MalformedContainer,
    /// A parsed chunk's recomputed checksum disagrees with its stored checksum.
    ChecksumMismatch,
    /// No chunk with the expected type tag and keyword exists in the container.
    PayloadNotFound,
    /// The embedded payload is not valid base64.
    InvalidEncoding,
}

} // verus!
