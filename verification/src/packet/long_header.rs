//! The long header: the prefix that Initial, 0-RTT, Handshake, Retry and
//! Version Negotiation packets share.

use vstd::prelude::*;
use vstd::std_specs::convert::FromSpecImpl;
use crate::bytes::{be_value, lemma_be_value_bound, lemma_radix_table, read_be};
use crate::packet::error::ParseError;

verus! {

/// The longest connection ID that a long header may announce.
pub const MAX_CONNECTION_ID_LENGTH: u8 = 20;

/// The four kinds of packet that a long header with a version can open.
#[derive(Clone, Copy, Debug, PartialEq, Eq, Structural)]
pub enum LongPacketType {
    Initial,
    ZeroRTT,
    Handshake,
    Retry,
}

impl From<u8> for LongPacketType {
    /// The packet type that the two low bits of `value` stand for.  The type
    /// field is two bits wide; whatever stands above them is not looked at.
    fn from(value: u8) -> (ptype: Self) {
        let bits: u8 = value & 0x03;
        if bits == 0 {
            LongPacketType::Initial
        } else if bits == 1 {
            LongPacketType::ZeroRTT
        } else if bits == 2 {
            LongPacketType::Handshake
        } else {
            LongPacketType::Retry
        }
    }
}

impl FromSpecImpl<u8> for LongPacketType {
    open spec fn obeys_from_spec() -> bool {
        true
    }

    open spec fn from_spec(value: u8) -> Self {
        LongPacketType::of_bits(value)
    }
}

impl LongPacketType {
    /// The packet type that the two low bits of `value` stand for.
    pub open spec fn of_bits(value: u8) -> LongPacketType {
        let bits = value & 0x03;
        if bits == 0 {
            LongPacketType::Initial
        } else if bits == 1 {
            LongPacketType::ZeroRTT
        } else if bits == 2 {
            LongPacketType::Handshake
        } else {
            LongPacketType::Retry
        }
    }
}

/// A decoded long header.  The two connection IDs are borrowed from the buffer
/// that was decoded: the header lives no longer than that buffer.
#[derive(Clone, Copy, Debug, PartialEq, Eq)]
pub struct LongHeader<'a> {
    /// The bit with mask `0x40` of the first byte.  It must be set in every
    /// packet but a Version Negotiation packet: see
    /// [`LongHeader::violates_fixed_bit`].
    pub fixed_bit: bool,
    /// The packet type: the bits with mask `0x30` of the first byte.
    pub ptype: LongPacketType,
    /// The reserved bits, where they stand: the first byte under mask `0x0c`.
    pub reserved_bits: u8,
    /// The length of the packet number in bytes, 1 to 4: one more than the
    /// first byte under mask `0x03`.
    pub packet_number_length: u8,
    /// The version: the four bytes after the first, as one number.
    pub version: u32,
    /// The length of the destination connection ID in bytes, at most 20.
    pub destination_connection_id_length: u8,
    /// The destination connection ID.
    pub destination_connection_id: &'a [u8],
    /// The length of the source connection ID in bytes, at most 20.
    pub source_connection_id_length: u8,
    /// The source connection ID.
    pub source_connection_id: &'a [u8],
    /// The number of bytes that the header takes: what follows the header
    /// starts at this offset of the buffer.
    pub len: usize,
}

/// What a long header holds, with the connection IDs as sequences of bytes.
pub struct LongHeaderView {
    pub fixed_bit: bool,
    pub ptype: LongPacketType,
    pub reserved_bits: u8,
    pub packet_number_length: u8,
    pub version: u32,
    pub destination_connection_id_length: u8,
    pub destination_connection_id: Seq<u8>,
    pub source_connection_id_length: u8,
    pub source_connection_id: Seq<u8>,
    pub len: nat,
}

impl LongHeaderView {
    /// What holds of every header that was decoded from bytes: the lengths
    /// are those of the connection IDs and within their limits, the reserved
    /// bits stand where they stood, and `len` counts the first byte, the
    /// version, the two length bytes and the two connection IDs.
    pub open spec fn wf(self) -> bool {
        &&& 1 <= self.packet_number_length <= 4
        &&& self.reserved_bits & 0xf3 == 0
        &&& self.destination_connection_id_length <= MAX_CONNECTION_ID_LENGTH
        &&& self.destination_connection_id.len() == self.destination_connection_id_length
        &&& self.source_connection_id_length <= MAX_CONNECTION_ID_LENGTH
        &&& self.source_connection_id.len() == self.source_connection_id_length
        &&& self.len == 7 + self.destination_connection_id_length
            + self.source_connection_id_length
    }

    /// A version of zero marks a Version Negotiation packet, in which the
    /// type, the reserved bits and the packet number length mean nothing.
    pub open spec fn is_version_negotiation(self) -> bool {
        self.version == 0
    }

    /// The fixed bit is set in every packet that has a version.  A header
    /// with a version and a clear fixed bit opens no valid packet: it is
    /// decoded, and this says that the packet must be discarded.
    pub open spec fn violates_fixed_bit(self) -> bool {
        !self.is_version_negotiation() && !self.fixed_bit
    }
}

impl<'a> View for LongHeader<'a> {
    type V = LongHeaderView;

    open spec fn view(&self) -> LongHeaderView {
        LongHeaderView {
            fixed_bit: self.fixed_bit,
            ptype: self.ptype,
            reserved_bits: self.reserved_bits,
            packet_number_length: self.packet_number_length,
            version: self.version,
            destination_connection_id_length: self.destination_connection_id_length,
            destination_connection_id: self.destination_connection_id@,
            source_connection_id_length: self.source_connection_id_length,
            source_connection_id: self.source_connection_id@,
            len: self.len as nat,
        }
    }
}

/// The connection ID whose length byte stands at offset `at` of `bytes`: the
/// bytes after that byte, as many as it says.
pub open spec fn spec_connection_id(bytes: Seq<u8>, at: int) -> Result<Seq<u8>, ParseError> {
    if bytes.len() <= at {
        Err(ParseError::TruncatedHeader)
    } else if bytes[at] > MAX_CONNECTION_ID_LENGTH {
        Err(ParseError::ConnectionIdTooLong)
    } else if bytes.len() < at + 1 + bytes[at] {
        Err(ParseError::TruncatedHeader)
    } else {
        Ok(bytes.subrange(at + 1, at + 1 + bytes[at]))
    }
}

/// The long header that `bytes` start with, or the reason why they start
/// with none.
pub open spec fn spec_long_header(bytes: Seq<u8>) -> Result<LongHeaderView, ParseError> {
    if bytes.len() == 0 {
        Err(ParseError::EmptyBuffer)
    } else if bytes[0] & 0x80 == 0 {
        Err(ParseError::NotLongHeader)
    } else if bytes.len() < 5 {
        Err(ParseError::TruncatedHeader)
    } else {
        match spec_connection_id(bytes, 5) {
            Err(e) => Err(e),
            Ok(dcid) => match spec_connection_id(bytes, 6 + dcid.len() as int) {
                Err(e) => Err(e),
                Ok(scid) => Ok(
                    LongHeaderView {
                        fixed_bit: bytes[0] & 0x40 == 0x40,
                        ptype: LongPacketType::of_bits((bytes[0] & 0x30) >> 4),
                        reserved_bits: bytes[0] & 0x0c,
                        packet_number_length: ((bytes[0] & 0x03) + 1) as u8,
                        version: be_value(bytes.subrange(1, 5)) as u32,
                        destination_connection_id_length: dcid.len() as u8,
                        destination_connection_id: dcid,
                        source_connection_id_length: scid.len() as u8,
                        source_connection_id: scid,
                        len: 7 + dcid.len() + scid.len(),
                    },
                ),
            },
        }
    }
}

/// Reads the connection ID whose length byte stands at offset `at` of `buf`.
pub fn read_connection_id<'a>(buf: &'a [u8], at: usize) -> (res: Result<&'a [u8], ParseError>)
    ensures
        match res {
            Ok(id) => spec_connection_id(buf@, at as int) == Ok::<Seq<u8>, ParseError>(id@),
            Err(e) => spec_connection_id(buf@, at as int) == Err::<Seq<u8>, ParseError>(e),
        },
{
    let n: usize = buf.len();
    if n <= at {
        return Err(ParseError::TruncatedHeader);
    }
    let announced: u8 = buf[at];
    if announced > MAX_CONNECTION_ID_LENGTH {
        return Err(ParseError::ConnectionIdTooLong);
    }
    let length: usize = announced as usize;
    if n - at - 1 < length {
        return Err(ParseError::TruncatedHeader);
    }
    Ok(vstd::slice::slice_subrange(buf, at + 1, at + 1 + length))
}

impl<'a> LongHeader<'a> {
    /// What holds of every header that [`LongHeader::from_slice`] returns.
    pub open spec fn wf(&self) -> bool {
        self@.wf()
    }

    /// Decodes the long header that `buf` starts with.  The connection IDs
    /// of the result are slices of `buf`; its `len` is the offset at which
    /// the rest of the packet starts.
    pub fn from_slice(buf: &'a [u8]) -> (res: Result<LongHeader<'a>, ParseError>)
        ensures
            match res {
                Ok(header) => spec_long_header(buf@) == Ok::<LongHeaderView, ParseError>(header@)
                    && header.wf() && header.len <= buf@.len(),
                Err(e) => spec_long_header(buf@) == Err::<LongHeaderView, ParseError>(e),
            },
    {
        let n: usize = buf.len();
        if n == 0 {
            return Err(ParseError::EmptyBuffer);
        }
        let first: u8 = buf[0];
        if first & 0x80 == 0 {
            return Err(ParseError::NotLongHeader);
        }
        if n < 5 {
            return Err(ParseError::TruncatedHeader);
        }
        let version: u64 = read_be(buf, 1, 4);
        proof {
            lemma_be_value_bound(buf@.subrange(1, 5));
            lemma_radix_table();
        }
        let dcid: &'a [u8] = match read_connection_id(buf, 5) {
            Ok(id) => id,
            Err(e) => {
                return Err(e);
            },
        };
        let dcid_len: usize = dcid.len();
        let scid: &'a [u8] = match read_connection_id(buf, 6 + dcid_len) {
            Ok(id) => id,
            Err(e) => {
                return Err(e);
            },
        };
        let scid_len: usize = scid.len();
        proof {
            assert(first & 0x03 <= 3) by (bit_vector);
            assert((first & 0x0c) & 0xf3 == 0) by (bit_vector);
        }
        Ok(
            LongHeader {
                fixed_bit: first & 0x40 == 0x40,
                ptype: LongPacketType::from((first & 0x30) >> 4),
                reserved_bits: first & 0x0c,
                packet_number_length: (first & 0x03) + 1,
                version: version as u32,
                destination_connection_id_length: dcid_len as u8,
                destination_connection_id: dcid,
                source_connection_id_length: scid_len as u8,
                source_connection_id: scid,
                len: 7 + dcid_len + scid_len,
            },
        )
    }

    /// Whether this header opens a Version Negotiation packet.
    pub fn is_version_negotiation(&self) -> (yes: bool)
        ensures
            yes == self@.is_version_negotiation(),
    {
        self.version == 0
    }

    /// Whether the packet must be discarded for its fixed bit.
    pub fn violates_fixed_bit(&self) -> (yes: bool)
        ensures
            yes == self@.violates_fixed_bit(),
    {
        self.version != 0 && !self.fixed_bit
    }

    /// Holds the version of the header against the versions that the caller
    /// supports.  The decoder itself takes every version as it comes.
    pub fn check_version(&self, supported: &[u32]) -> (res: Result<(), ParseError>)
        ensures
            res is Ok <==> supported@.contains(self.version),
            res is Err ==> res == Err::<(), ParseError>(ParseError::UnsupportedVersion),
    {
        let mut i: usize = 0;
        while i < supported.len()
            invariant
                i <= supported@.len(),
                forall|k: int| 0 <= k < i ==> supported@[k] != self.version,
            decreases supported@.len() - i,
        {
            if supported[i] == self.version {
                return Ok(());
            }
            i += 1;
        }
        Err(ParseError::UnsupportedVersion)
    }
}

/// Every header that bytes decode to is well formed.
pub proof fn lemma_long_header_wf(bytes: Seq<u8>)
    requires
        spec_long_header(bytes) is Ok,
    ensures
        spec_long_header(bytes)->Ok_0.wf(),
{
    let first = bytes[0];
    assert(first & 0x03 <= 3) by (bit_vector);
    assert((first & 0x0c) & 0xf3 == 0) by (bit_vector);
}

/// A header never reaches past the buffer it was decoded from, and its
/// connection IDs are the bytes of that buffer that follow their length bytes.
pub proof fn lemma_long_header_within(bytes: Seq<u8>)
    requires
        spec_long_header(bytes) is Ok,
    ensures
        ({
            let header = spec_long_header(bytes)->Ok_0;
            let dcid_end = 6 + header.destination_connection_id_length;
            &&& header.len <= bytes.len()
            &&& header.destination_connection_id == bytes.subrange(6, dcid_end)
            &&& header.source_connection_id == bytes.subrange(dcid_end + 1, header.len as int)
        }),
{
    lemma_long_header_wf(bytes);
}

/// Cutting a buffer short anywhere inside its header makes the decoding
/// fail for want of bytes: with `EmptyBuffer` where nothing is left, with
/// `TruncatedHeader` everywhere else.
pub proof fn lemma_truncated_header_fails(bytes: Seq<u8>, n: int)
    requires
        spec_long_header(bytes) is Ok,
        0 <= n < spec_long_header(bytes)->Ok_0.len,
    ensures
        n == 0 ==> spec_long_header(bytes.subrange(0, n)) == Err::<LongHeaderView, ParseError>(
            ParseError::EmptyBuffer,
        ),
        n > 0 ==> spec_long_header(bytes.subrange(0, n)) == Err::<LongHeaderView, ParseError>(
            ParseError::TruncatedHeader,
        ),
{
    lemma_long_header_within(bytes);
    let cut = bytes.subrange(0, n);
    if n > 5 {
        let dcid_end = 6 + spec_connection_id(bytes, 5)->Ok_0.len() as int;
        assert(cut[5] == bytes[5]);
        if n >= dcid_end {
            assert(spec_connection_id(cut, 5) == Ok::<Seq<u8>, ParseError>(
                cut.subrange(6, dcid_end),
            ));
            if n > dcid_end {
                assert(cut[dcid_end] == bytes[dcid_end]);
            }
        }
    }
}

/// What follows a header has no say in it: the header of a buffer is the
/// header of every buffer that starts with the same `len` bytes.
pub proof fn lemma_long_header_of_prefix(bytes: Seq<u8>, longer: Seq<u8>)
    requires
        spec_long_header(bytes) is Ok,
        spec_long_header(bytes)->Ok_0.len <= longer.len(),
        longer.subrange(0, spec_long_header(bytes)->Ok_0.len as int) == bytes.subrange(
            0,
            spec_long_header(bytes)->Ok_0.len as int,
        ),
    ensures
        spec_long_header(longer) == spec_long_header(bytes),
{
    lemma_long_header_within(bytes);
    let header = spec_long_header(bytes)->Ok_0;
    let len = header.len as int;
    assert forall|i: int| 0 <= i < len implies longer[i] == bytes[i] by {
        assert(longer.subrange(0, len)[i] == bytes.subrange(0, len)[i]);
    }
    let dcid_end = 6 + header.destination_connection_id_length;
    assert(longer.subrange(1, 5) =~= bytes.subrange(1, 5));
    assert(longer.subrange(6, dcid_end) =~= bytes.subrange(6, dcid_end));
    assert(longer.subrange(dcid_end + 1, len) =~= bytes.subrange(dcid_end + 1, len));
}

/// A destination connection ID announced as longer than twenty bytes is
/// refused as such, however many bytes follow the announcement.
pub proof fn lemma_long_destination_id_refused(bytes: Seq<u8>)
    requires
        bytes.len() >= 6,
        bytes[0] & 0x80 != 0,
        bytes[5] > MAX_CONNECTION_ID_LENGTH,
    ensures
        spec_long_header(bytes) == Err::<LongHeaderView, ParseError>(
            ParseError::ConnectionIdTooLong,
        ),
{
}

/// So is a source connection ID, behind a destination connection ID that
/// is there in full.
pub proof fn lemma_long_source_id_refused(bytes: Seq<u8>)
    requires
        bytes.len() >= 6,
        bytes[0] & 0x80 != 0,
        bytes[5] <= MAX_CONNECTION_ID_LENGTH,
        bytes.len() >= 7 + bytes[5],
        bytes[6 + bytes[5]] > MAX_CONNECTION_ID_LENGTH,
    ensures
        spec_long_header(bytes) == Err::<LongHeaderView, ParseError>(
            ParseError::ConnectionIdTooLong,
        ),
{
}

} // verus!
