use vstd::prelude::*;

verus! {

/// Why a decode failed. Each kind carries the byte offset where it was detected.
#[derive(Debug, Clone, Copy, PartialEq, Eq, Structural)]
pub enum TdmsError {
    /// Fewer bytes remain than the field being read needs.
    TruncatedInput { position: u64 },
    /// A segment does not start with the `TDSm` signature; `found` holds the
    /// four bytes that stand there, read as a little-endian `u32`.
    InvalidSegmentHeader { position: u64, found: u32 },
    /// A wire feature that is recognised but not supported.
    NotImplemented { position: u64 },
    /// An object says "same shape as before" but never had one.
    MissingPreviousIndex { position: u64 },
    /// A data type code outside the known set.
    UnknownType { position: u64, code: u32 },
    /// A raw data index whose dimension is not 1.
    InvalidDimension { position: u64, dimension: u32 },
    /// Segment offsets that overflow or a data span that is not a whole number of chunks.
    CorruptSegment { position: u64 },
    /// A length-prefixed string whose bytes are not UTF-8.
    InvalidUtf8 { position: u64 },
}

} // verus!
