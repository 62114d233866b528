//! Frame types: what the first byte of a frame says the frame is.

use vstd::prelude::*;

verus! {

/// The type of a frame.  Where several bytes stand for one kind of frame,
/// the low bits in which they differ are flags of that frame, and the variant
/// carries the byte itself, so that nothing of it is lost:
///
/// * `ACK`: bit 0 says that ECN counts are present;
/// * `STREAM`: bits 2, 1 and 0 are the OFF, LEN and FIN flags;
/// * `MAX_STREAMS` and `STREAMS_BLOCKED`: bit 0 is clear for bidirectional
///   streams and set for unidirectional ones;
/// * `CONNECTION_CLOSE`: bit 0 is clear for an error of the transport and
///   set for one of the application.
///
/// A byte that stands for no frame known here is kept as `UNKNOWN`: the space
/// of frame types may grow, so this is no error.
#[allow(non_camel_case_types)]
#[derive(Clone, Copy, Debug, PartialEq, Eq, Structural)]
pub enum FrameType {
    PADDING,
    PING,
    ACK(u8),
    RESET_STREAM,
    STOP_SENDING,
    CRYPTO,
    NEW_TOKEN,
    STREAM(u8),
    MAX_DATA,
    MAX_STREAM_DATA,
    MAX_STREAMS(u8),
    DATA_BLOCKED,
    STREAM_DATA_BLOCKED,
    STREAMS_BLOCKED(u8),
    NEW_CONNECTION_ID,
    RETIRE_CONNECTION_ID,
    PATH_CHALLENGE,
    PATH_RESPONSE,
    CONNECTION_CLOSE(u8),
    HANDSHAKE_DONE,
    UNKNOWN(u8),
}

/// A frame: its type and the bytes of its fields, not decoded any further.
#[derive(Clone, Debug, PartialEq, Eq)]
pub struct Frame {
    pub ftype: FrameType,
    pub fields: Vec<u8>,
}

impl FrameType {
    /// The frame type that the byte `num` stands for.
    pub open spec fn spec_from_u8(num: u8) -> FrameType {
        if num == 0x00 {
            FrameType::PADDING
        } else if num == 0x01 {
            FrameType::PING
        } else if 0x02 <= num <= 0x03 {
            FrameType::ACK(num)
        } else if num == 0x04 {
            FrameType::RESET_STREAM
        } else if num == 0x05 {
            FrameType::STOP_SENDING
        } else if num == 0x06 {
            FrameType::CRYPTO
        } else if num == 0x07 {
            FrameType::NEW_TOKEN
        } else if 0x08 <= num <= 0x0f {
            FrameType::STREAM(num)
        } else if num == 0x10 {
            FrameType::MAX_DATA
        } else if num == 0x11 {
            FrameType::MAX_STREAM_DATA
        } else if 0x12 <= num <= 0x13 {
            FrameType::MAX_STREAMS(num)
        } else if num == 0x14 {
            FrameType::DATA_BLOCKED
        } else if num == 0x15 {
            FrameType::STREAM_DATA_BLOCKED
        } else if 0x16 <= num <= 0x17 {
            FrameType::STREAMS_BLOCKED(num)
        } else if num == 0x18 {
            FrameType::NEW_CONNECTION_ID
        } else if num == 0x19 {
            FrameType::RETIRE_CONNECTION_ID
        } else if num == 0x1a {
            FrameType::PATH_CHALLENGE
        } else if num == 0x1b {
            FrameType::PATH_RESPONSE
        } else if 0x1c <= num <= 0x1d {
            FrameType::CONNECTION_CLOSE(num)
        } else if num == 0x1e {
            FrameType::HANDSHAKE_DONE
        } else {
            FrameType::UNKNOWN(num)
        }
    }

    /// The byte that stands for this frame type.
    pub open spec fn spec_to_u8(self) -> u8 {
        match self {
            FrameType::PADDING => 0x00,
            FrameType::PING => 0x01,
            FrameType::ACK(num) => num,
            FrameType::RESET_STREAM => 0x04,
            FrameType::STOP_SENDING => 0x05,
            FrameType::CRYPTO => 0x06,
            FrameType::NEW_TOKEN => 0x07,
            FrameType::STREAM(num) => num,
            FrameType::MAX_DATA => 0x10,
            FrameType::MAX_STREAM_DATA => 0x11,
            FrameType::MAX_STREAMS(num) => num,
            FrameType::DATA_BLOCKED => 0x14,
            FrameType::STREAM_DATA_BLOCKED => 0x15,
            FrameType::STREAMS_BLOCKED(num) => num,
            FrameType::NEW_CONNECTION_ID => 0x18,
            FrameType::RETIRE_CONNECTION_ID => 0x19,
            FrameType::PATH_CHALLENGE => 0x1a,
            FrameType::PATH_RESPONSE => 0x1b,
            FrameType::CONNECTION_CLOSE(num) => num,
            FrameType::HANDSHAKE_DONE => 0x1e,
            FrameType::UNKNOWN(num) => num,
        }
    }

    /// Whether the byte that a variant carries is one of those that stand
    /// for it.  This holds of every frame type that came from a byte.
    pub open spec fn wf(self) -> bool {
        match self {
            FrameType::ACK(num) => 0x02 <= num <= 0x03,
            FrameType::STREAM(num) => 0x08 <= num <= 0x0f,
            FrameType::MAX_STREAMS(num) => 0x12 <= num <= 0x13,
            FrameType::STREAMS_BLOCKED(num) => 0x16 <= num <= 0x17,
            FrameType::CONNECTION_CLOSE(num) => 0x1c <= num <= 0x1d,
            FrameType::UNKNOWN(num) => num > 0x1e,
            _ => true,
        }
    }

    /// Classifies a byte.  Every byte has a frame type.
    pub fn from_u8(num: u8) -> (ftype: FrameType)
        ensures
            ftype == FrameType::spec_from_u8(num),
            ftype.wf(),
            ftype.spec_to_u8() == num,
    {
        if num >= 0x02 && num <= 0x03 {
            FrameType::ACK(num)
        } else if num >= 0x08 && num <= 0x0f {
            FrameType::STREAM(num)
        } else if num >= 0x12 && num <= 0x13 {
            FrameType::MAX_STREAMS(num)
        } else if num >= 0x16 && num <= 0x17 {
            FrameType::STREAMS_BLOCKED(num)
        } else if num >= 0x1c && num <= 0x1d {
            FrameType::CONNECTION_CLOSE(num)
        } else {
            match num {
                0x00 => FrameType::PADDING,
                0x01 => FrameType::PING,
                0x04 => FrameType::RESET_STREAM,
                0x05 => FrameType::STOP_SENDING,
                0x06 => FrameType::CRYPTO,
                0x07 => FrameType::NEW_TOKEN,
                0x10 => FrameType::MAX_DATA,
                0x11 => FrameType::MAX_STREAM_DATA,
                0x14 => FrameType::DATA_BLOCKED,
                0x15 => FrameType::STREAM_DATA_BLOCKED,
                0x18 => FrameType::NEW_CONNECTION_ID,
                0x19 => FrameType::RETIRE_CONNECTION_ID,
                0x1a => FrameType::PATH_CHALLENGE,
                0x1b => FrameType::PATH_RESPONSE,
                0x1e => FrameType::HANDSHAKE_DONE,
                _ => FrameType::UNKNOWN(num),
            }
        }
    }

    /// The byte of this frame type: for a variant that carries its byte, that
    /// byte, flags and all.
    pub fn to_u8(&self) -> (num: u8)
        ensures
            num == self.spec_to_u8(),
            self.wf() ==> FrameType::spec_from_u8(num) == *self,
    {
        match self {
            FrameType::PADDING => 0x00,
            FrameType::PING => 0x01,
            FrameType::ACK(num) => *num,
            FrameType::RESET_STREAM => 0x04,
            FrameType::STOP_SENDING => 0x05,
            FrameType::CRYPTO => 0x06,
            FrameType::NEW_TOKEN => 0x07,
            FrameType::STREAM(num) => *num,
            FrameType::MAX_DATA => 0x10,
            FrameType::MAX_STREAM_DATA => 0x11,
            FrameType::MAX_STREAMS(num) => *num,
            FrameType::DATA_BLOCKED => 0x14,
            FrameType::STREAM_DATA_BLOCKED => 0x15,
            FrameType::STREAMS_BLOCKED(num) => *num,
            FrameType::NEW_CONNECTION_ID => 0x18,
            FrameType::RETIRE_CONNECTION_ID => 0x19,
            FrameType::PATH_CHALLENGE => 0x1a,
            FrameType::PATH_RESPONSE => 0x1b,
            FrameType::CONNECTION_CLOSE(num) => *num,
            FrameType::HANDSHAKE_DONE => 0x1e,
            FrameType::UNKNOWN(num) => *num,
        }
    }
}

/// From a byte to its frame type and back gives the byte again, for every
/// byte there is.
pub proof fn lemma_frame_type_of_byte(num: u8)
    ensures
        FrameType::spec_from_u8(num).spec_to_u8() == num,
        FrameType::spec_from_u8(num).wf(),
{
}

/// From a frame type to its byte and back gives the frame type again, for
/// every frame type that carries a byte of its own kind.
pub proof fn lemma_byte_of_frame_type(ftype: FrameType)
    requires
        ftype.wf(),
    ensures
        FrameType::spec_from_u8(ftype.spec_to_u8()) == ftype,
{
}

/// Two frame types that came from bytes and have the same byte are the same:
/// the bytes and the well-formed frame types stand one to one.
pub proof fn lemma_frame_type_injective(a: FrameType, b: FrameType)
    requires
        a.wf(),
        b.wf(),
        a.spec_to_u8() == b.spec_to_u8(),
    ensures
        a == b,
{
    lemma_byte_of_frame_type(a);
    lemma_byte_of_frame_type(b);
}

/// The two bytes of an ACK frame stay apart: each keeps its bit 0, which says
/// whether ECN counts are present.
pub proof fn lemma_ack_keeps_ecn_bit(num: u8)
    requires
        0x02 <= num <= 0x03,
    ensures
        FrameType::spec_from_u8(num) == FrameType::ACK(num),
        FrameType::spec_from_u8(0x02) != FrameType::spec_from_u8(0x03),
        (FrameType::spec_from_u8(num).spec_to_u8() & 1 == 1) <==> num == 0x03,
{
    assert(0x02u8 & 1 == 0) by (bit_vector);
    assert(0x03u8 & 1 == 1) by (bit_vector);
}

} // verus!
