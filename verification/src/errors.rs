use vstd::prelude::*;

verus! {

/// The ways a patch operation can fail.
#[derive(Debug, Clone, Copy, PartialEq, Eq, Structural)]
pub enum PatchError {
    /// The input bytes are too short or do not begin with the container signature.
    InvalidFormat,
    /// No marker pattern was found in the image.
    MarkerNotFound,
    /// Fewer bytes than a full descriptor were supplied to the decoder.
    TruncatedDescriptor,
    /// The external compressor reported an error, or its output cannot be
    /// addressed by the descriptor's 32-bit fields.
    CompressionFailed,
}

} // verus!
