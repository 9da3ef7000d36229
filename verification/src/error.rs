use vstd::prelude::*;

verus! {

/// The ways a codec operation can fail.
///
/// Reading fails when the stream holds fewer bytes than the operation
/// needs (`ShortRead`) or when a kind byte lies outside the valid range
/// (`UnknownKind`).  Writing fails when a text's byte length does not fit
/// the signed 16-bit length prefix (`TextTooLong`).
#[derive(Clone, Copy, Debug, PartialEq, Eq, Structural)]
pub enum NbtError {
    ShortRead,
    UnknownKind,
    TextTooLong,
}

} // verus!
