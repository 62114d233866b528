//! The short header, which opens the packets of an established connection.
//!
//! Its bits below the fixed bit, and the packet number behind it, travel
//! under header protection.  What is decoded here are bytes from which that
//! protection has already been taken off.

use vstd::prelude::*;
use vstd::slice::slice_subrange;
use vstd::slice::slice_to_vec;
use crate::packet::error::ParseError;
use crate::packet::long_header::MAX_CONNECTION_ID_LENGTH;

verus! {

/// A decoded short header.
#[derive(Clone, Debug, PartialEq, Eq)]
pub struct ShortHeader {
    /// The bit with mask `0x40` of the first byte.  It must be set: see
    /// [`ShortHeader::violates_protocol`].
    pub fixed_bit: bool,
    /// The latency spin bit: mask `0x20`.
    pub spin_bit: bool,
    /// The two reserved bits, masks `0x10` and `0x08` in this order.  Both
    /// must be clear; they are handed out as they are: see
    /// [`ShortHeader::violates_protocol`].
    pub reserved_bit: [bool; 2],
    /// The key phase: mask `0x04`.
    pub key_phase: bool,
    /// The length of the packet number in bytes, 1 to 4: one more than the
    /// first byte under mask `0x03`.
    pub packet_number_length: u8,
    /// The destination connection ID, as long as the connection says.
    pub destination_connection_id: Vec<u8>,
}

/// What a short header holds, with its sequences as such.
pub struct ShortHeaderView {
    pub fixed_bit: bool,
    pub spin_bit: bool,
    pub reserved_bit: Seq<bool>,
    pub key_phase: bool,
    pub packet_number_length: u8,
    pub destination_connection_id: Seq<u8>,
}

impl ShortHeaderView {
    /// What holds of every header that was decoded from bytes.
    pub open spec fn wf(self) -> bool {
        &&& 1 <= self.packet_number_length <= 4
        &&& self.reserved_bit.len() == 2
        &&& self.destination_connection_id.len() <= MAX_CONNECTION_ID_LENGTH
    }

    /// The number of bytes that the header takes: the first byte and the
    /// connection ID.
    pub open spec fn len(self) -> nat {
        1 + self.destination_connection_id.len()
    }

    /// The fixed bit must be set and both reserved bits clear.  A header of
    /// which this does not hold is decoded all the same, and this says that
    /// its packet violates the protocol.
    pub open spec fn violates_protocol(self) -> bool {
        !self.fixed_bit || self.reserved_bit[0] || self.reserved_bit[1]
    }
}

impl View for ShortHeader {
    type V = ShortHeaderView;

    open spec fn view(&self) -> ShortHeaderView {
        ShortHeaderView {
            fixed_bit: self.fixed_bit,
            spin_bit: self.spin_bit,
            reserved_bit: self.reserved_bit@,
            key_phase: self.key_phase,
            packet_number_length: self.packet_number_length,
            destination_connection_id: self.destination_connection_id@,
        }
    }
}

/// The short header that `bytes` start with, where the connection has
/// destination connection IDs of `dcid_len` bytes, or the reason why there
/// is none.  The form bit of the first byte is not looked at.
pub open spec fn spec_short_header(bytes: Seq<u8>, dcid_len: nat) -> Result<
    ShortHeaderView,
    ParseError,
> {
    if bytes.len() == 0 {
        Err(ParseError::EmptyBuffer)
    } else if dcid_len > MAX_CONNECTION_ID_LENGTH {
        Err(ParseError::ConnectionIdTooLong)
    } else if bytes.len() < 1 + dcid_len {
        Err(ParseError::TruncatedHeader)
    } else {
        Ok(
            ShortHeaderView {
                fixed_bit: bytes[0] & 0x40 == 0x40,
                spin_bit: bytes[0] & 0x20 == 0x20,
                reserved_bit: seq![bytes[0] & 0x10 == 0x10, bytes[0] & 0x08 == 0x08],
                key_phase: bytes[0] & 0x04 == 0x04,
                packet_number_length: ((bytes[0] & 0x03) + 1) as u8,
                destination_connection_id: bytes.subrange(1, 1 + dcid_len as int),
            },
        )
    }
}

impl ShortHeader {
    /// What holds of every header that [`ShortHeader::from_slice`] returns.
    pub open spec fn wf(&self) -> bool {
        self@.wf()
    }

    /// Decodes the short header that `buf` starts with.  The header does not
    /// say how long its connection ID is: `dcid_len` is the length that this
    /// endpoint gives to the connection IDs it hands out.  The form bit of
    /// the first byte is not looked at: whoever tells the two forms apart
    /// has looked at it.
    pub fn from_slice(buf: &[u8], dcid_len: usize) -> (res: Result<ShortHeader, ParseError>)
        ensures
            match res {
                Ok(header) => spec_short_header(buf@, dcid_len as nat) == Ok::<
                    ShortHeaderView,
                    ParseError,
                >(header@) && header.wf(),
                Err(e) => spec_short_header(buf@, dcid_len as nat) == Err::<
                    ShortHeaderView,
                    ParseError,
                >(e),
            },
    {
        let n: usize = buf.len();
        if n == 0 {
            return Err(ParseError::EmptyBuffer);
        }
        if dcid_len > MAX_CONNECTION_ID_LENGTH as usize {
            return Err(ParseError::ConnectionIdTooLong);
        }
        if n - 1 < dcid_len {
            return Err(ParseError::TruncatedHeader);
        }
        let first: u8 = buf[0];
        let reserved_bit: [bool; 2] = [first & 0x10 == 0x10, first & 0x08 == 0x08];
        proof {
            assert(first & 0x03 <= 3) by (bit_vector);
            assert(reserved_bit@ =~= seq![first & 0x10 == 0x10, first & 0x08 == 0x08]);
        }
        Ok(
            ShortHeader {
                fixed_bit: first & 0x40 == 0x40,
                spin_bit: first & 0x20 == 0x20,
                reserved_bit,
                key_phase: first & 0x04 == 0x04,
                packet_number_length: (first & 0x03) + 1,
                destination_connection_id: slice_to_vec(slice_subrange(buf, 1, 1 + dcid_len)),
            },
        )
    }
}

impl ShortHeader {
    /// Whether the packet violates the protocol by its fixed bit or its
    /// reserved bits.
    pub fn violates_protocol(&self) -> (yes: bool)
        ensures
            yes == self@.violates_protocol(),
    {
        !self.fixed_bit || self.reserved_bit[0] || self.reserved_bit[1]
    }
}

/// Every short header that bytes decode to is well formed and lies within
/// those bytes.
pub proof fn lemma_short_header_wf(bytes: Seq<u8>, dcid_len: nat)
    requires
        spec_short_header(bytes, dcid_len) is Ok,
    ensures
        spec_short_header(bytes, dcid_len)->Ok_0.wf(),
        spec_short_header(bytes, dcid_len)->Ok_0.len() == 1 + dcid_len,
        spec_short_header(bytes, dcid_len)->Ok_0.len() <= bytes.len(),
{
    let first = bytes[0];
    assert(first & 0x03 <= 3) by (bit_vector);
}

} // verus!
