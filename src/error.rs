use vstd::prelude::*;

verus! {

/// The ways a decode can fail.
#[derive(Debug, Clone, Copy, PartialEq, Eq, Structural)]
pub enum CodecError {
    /// The source ended before a value's bytes were all available.
    TruncatedInput,
    /// A byte lies outside the domain of the value being decoded.
    InvalidEncoding,
    /// A frame's id is not registered for the direction being read.
    UnrecognizedPacketId,
    /// A frame's declared length differs from the bytes its payload used.
    FramingMismatch,
}

} // verus!
