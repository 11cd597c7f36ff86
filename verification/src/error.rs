//! Error kinds shared by the wire codec.

use vstd::prelude::*;

verus! {

/// What can go wrong while framing or unframing protocol data.
#[derive(Clone, Copy, Debug, PartialEq, Eq, Structural)]
pub enum ErrorKind {
    /// A variable-length integer runs on past its maximum number of groups.
    MalformedVarInt,
    /// A length prefix points past the end of the buffer.
    UnexpectedEof,
    /// The bytes of a string are not valid UTF-8.
    InvalidData,
    /// A string has more than 32767 UTF-16 code units.
    StringTooLong,
    /// A frame announces more bytes than the reader accepts.
    FrameTooLarge,
}

} // verus!
