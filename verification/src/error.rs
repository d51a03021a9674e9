use vstd::prelude::*;

verus! {

/// Why a decode failed.
///
/// Checksum mismatches and unrecognized enumeration codes are deliberately
/// *not* errors: they are representable, round-trippable states, so that
/// tools can inspect and repair damaged streams.
#[derive(Debug, Clone, Copy, PartialEq, Eq, Structural)]
pub enum DecodeError {
    /// Fewer bytes remain than a fixed-size or length-prefixed field requires.
    IncompleteInput,
    /// The leading eight bytes do not equal the PNG signature.
    SignatureMismatch,
    /// The four chunk-type bytes are not ASCII text.
    MalformedTypeTag,
}

} // verus!
