//! The ways in which a datagram can fail to be a packet.

use vstd::prelude::*;

verus! {

/// Why a buffer was not decoded.  Every one of these means that the datagram
/// is dropped; none of them stops the process.
#[derive(Clone, Copy, Debug, PartialEq, Eq, Structural)]
pub enum ParseError {
    /// The buffer holds no byte at all.
    EmptyBuffer,
    /// The buffer ends inside the header.
    TruncatedHeader,
    /// The buffer ends inside a field that follows the header.
    TruncatedInput,
    /// The first byte has the form bit clear: this is a short header.
    NotLongHeader,
    /// A connection ID is announced as longer than twenty bytes.
    ConnectionIdTooLong,
    /// The version of the packet is none of those the caller supports.
    UnsupportedVersion,
}

} // verus!
