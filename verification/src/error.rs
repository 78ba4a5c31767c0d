use vstd::prelude::*;

verus! {

/// Why a buffer could not be decoded. Every failure is local to one datagram:
/// the caller drops it and goes on.
#[derive(Clone, Copy, Debug, PartialEq, Eq, Structural)]
pub enum DecodeError {
    /// The buffer ends before the field that was being read.
    Truncated,
    /// A length read from the wire is larger than the header can hold:
    /// a connection ID longer than `MAX_CIDLEN`, or a declared packet length
    /// that does not fit in `usize`.
    Oversized,
    /// The first byte and the version name no long-header packet type.
    UnrecognizedType,
}

} // verus!
