use vstd::prelude::*;

verus! {

/// Why a decode call failed. Every failure aborts the whole call: no partial
/// atoms or levels are ever returned.
#[derive(Clone, Copy, Debug, PartialEq, Eq, Structural)]
pub enum DecodeError {
    /// The codec name is not recognized for the requested primitive kind.
    UnsupportedCodec,
    /// Compressed or structurally-encoded bytes failed to decompress/decode
    /// (truncated, malformed, or produced by a mismatched codec or depth).
    CorruptData,
    /// The output buffer for the caller could not be materialized. Decoding
    /// itself never produces this; it is reserved for a host layer that
    /// builds its own containers from the decoded arrays.
    AllocationFailure,
}

} // verus!
