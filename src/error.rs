use vstd::prelude::*;

verus! {

/// The ways in which reading, writing or rendering a design can fail.
#[derive(Clone, Copy, Debug, PartialEq, Eq, Structural)]
pub enum MifError {
    /// A read past the end of the bytes, or a seek to an invalid offset.
    IoError,
    /// A header or variant tag that names no known revision.
    UnsupportedVersion,
    /// A fixed section tag that differs from the constant expected there.
    TagMismatch,
    /// A parameter count that neither the stored value nor the resync fallback can explain.
    CorruptHeader,
    /// A run-length code that overruns its input, or a scanline index beyond the bitmap.
    CorruptData,
    /// A variant or layer index beyond the available count.
    IndexOutOfRange,
}

} // verus!
