//! Packets: their headers, their variants and the frame types in their payload.

pub mod error;
pub mod frame;
pub mod long_header;
pub mod short_header;

pub use error::ParseError;
pub use frame::{Frame, FrameType};
pub use long_header::{LongHeader, LongHeaderView, LongPacketType};
pub use short_header::{ShortHeader, ShortHeaderView};

use vstd::prelude::*;
use vstd::slice::slice_subrange;
use vstd::slice::slice_to_vec;
use crate::bytes::{
    be_value, lemma_be_value_bound, lemma_be_value_zero, lemma_radix_monotonic, lemma_radix_table,
    read_be,
};
use crate::packet::long_header::spec_long_header;
use crate::packet::short_header::spec_short_header;
use crate::varint::VarInt;

verus! {

/// The length of the integrity tag that ends a Retry packet.
pub const RETRY_INTEGRITY_TAG_LENGTH: usize = 16;

/// A packet, decoded as far as its kind lays its fields open.  The long
/// header borrows its connection IDs from the datagram; tokens and payloads
/// are copies, which outlive it.
///
/// Packet numbers and payloads are read as they stand in the buffer: header
/// and packet protection are taken off before decoding, or their fields are
/// read as protected bytes.
#[allow(inconsistent_fields)]
#[derive(Clone, Debug, PartialEq, Eq)]
pub enum Packet<'a> {
    Initial {
        header: LongHeader<'a>,
        /// The length of the token in bytes; 0 where there is none.
        token_length: usize,
        /// The token.
        token: Vec<u8>,
    },
    VersionNegotiation {
        header: LongHeader<'a>,
        /// The versions that the sender supports, in the order given.
        supported_version: Vec<u32>,
    },
    ZeroRTT {
        header: LongHeader<'a>,
        /// The length of what follows the length field: packet number and
        /// payload together.
        length: usize,
        packet_number: u32,
        packet_payload: Vec<u8>,
    },
    Handshake {
        header: LongHeader<'a>,
        /// The length of what follows the length field: packet number and
        /// payload together.
        length: usize,
        packet_number: u32,
        packet_payload: Vec<u8>,
    },
    Retry {
        header: LongHeader<'a>,
        /// The token: all that stands between header and integrity tag.
        retry_token: Vec<u8>,
        /// The last sixteen bytes of the packet.
        retry_integrity_tag: [u8; 16],
    },
    OneRTT {
        header: ShortHeader,
        packet_number: u32,
        /// All that follows the packet number.
        packet_payload: Vec<u8>,
    },
}

/// What a packet holds, with its sequences as such.
#[allow(inconsistent_fields)]
pub enum PacketView {
    Initial { header: LongHeaderView, token_length: nat, token: Seq<u8> },
    VersionNegotiation { header: LongHeaderView, supported_version: Seq<u32> },
    ZeroRTT { header: LongHeaderView, length: nat, packet_number: u32, packet_payload: Seq<u8> },
    Handshake { header: LongHeaderView, length: nat, packet_number: u32, packet_payload: Seq<u8> },
    Retry { header: LongHeaderView, retry_token: Seq<u8>, retry_integrity_tag: Seq<u8> },
    OneRTT { header: ShortHeaderView, packet_number: u32, packet_payload: Seq<u8> },
}

impl<'a> View for Packet<'a> {
    type V = PacketView;

    open spec fn view(&self) -> PacketView {
        match self {
            Packet::Initial { header, token_length, token } => PacketView::Initial {
                header: header@,
                token_length: *token_length as nat,
                token: token@,
            },
            Packet::VersionNegotiation { header, supported_version } => {
                PacketView::VersionNegotiation {
                    header: header@,
                    supported_version: supported_version@,
                }
            },
            Packet::ZeroRTT { header, length, packet_number, packet_payload } => {
                PacketView::ZeroRTT {
                    header: header@,
                    length: *length as nat,
                    packet_number: *packet_number,
                    packet_payload: packet_payload@,
                }
            },
            Packet::Handshake { header, length, packet_number, packet_payload } => {
                PacketView::Handshake {
                    header: header@,
                    length: *length as nat,
                    packet_number: *packet_number,
                    packet_payload: packet_payload@,
                }
            },
            Packet::Retry { header, retry_token, retry_integrity_tag } => PacketView::Retry {
                header: header@,
                retry_token: retry_token@,
                retry_integrity_tag: retry_integrity_tag@,
            },
            Packet::OneRTT { header, packet_number, packet_payload } => PacketView::OneRTT {
                header: header@,
                packet_number: *packet_number,
                packet_payload: packet_payload@,
            },
        }
    }
}

/// The fields of an Initial packet in `rest`, the bytes behind its header:
/// the length of the token as a variable-length integer, then the token.
pub open spec fn spec_initial(header: LongHeaderView, rest: Seq<u8>) -> Result<
    PacketView,
    ParseError,
> {
    match VarInt::spec_decode(rest) {
        Err(_) => Err(ParseError::TruncatedInput),
        Ok(announced) => {
            let start = announced.spec_len() as int;
            let token_length = announced.spec_value();
            if rest.len() < start + token_length {
                Err(ParseError::TruncatedInput)
            } else {
                Ok(
                    PacketView::Initial {
                        header,
                        token_length,
                        token: rest.subrange(start, start + token_length),
                    },
                )
            }
        },
    }
}

/// The length, packet number and payload that stand in `rest`, the bytes
/// behind the header of a 0-RTT or Handshake packet: the length as a
/// variable-length integer, then as many bytes as it says, of which the first
/// `pn_len` are the packet number and the others the payload.
pub open spec fn spec_numbered(pn_len: nat, rest: Seq<u8>) -> Result<
    (nat, u32, Seq<u8>),
    ParseError,
> {
    match VarInt::spec_decode(rest) {
        Err(_) => Err(ParseError::TruncatedInput),
        Ok(announced) => {
            let start = announced.spec_len() as int;
            let length = announced.spec_value();
            if length < pn_len || rest.len() < start + length {
                Err(ParseError::TruncatedInput)
            } else {
                Ok(
                    (
                        length,
                        be_value(rest.subrange(start, start + pn_len)) as u32,
                        rest.subrange(start + pn_len, start + length),
                    ),
                )
            }
        },
    }
}

/// The fields of a Retry packet in `rest`, the bytes behind its header: the
/// last sixteen bytes are the integrity tag, all before them the token.
pub open spec fn spec_retry(header: LongHeaderView, rest: Seq<u8>) -> Result<
    PacketView,
    ParseError,
> {
    if rest.len() < RETRY_INTEGRITY_TAG_LENGTH {
        Err(ParseError::TruncatedInput)
    } else {
        let tag_start = rest.len() - RETRY_INTEGRITY_TAG_LENGTH;
        Ok(
            PacketView::Retry {
                header,
                retry_token: rest.subrange(0, tag_start),
                retry_integrity_tag: rest.subrange(tag_start, rest.len() as int),
            },
        )
    }
}

/// The fields of a Version Negotiation packet in `rest`, the bytes behind
/// its header: supported versions of four bytes each, and nothing else.
pub open spec fn spec_version_negotiation(header: LongHeaderView, rest: Seq<u8>) -> Result<
    PacketView,
    ParseError,
> {
    if rest.len() % 4 != 0 {
        Err(ParseError::TruncatedInput)
    } else {
        Ok(
            PacketView::VersionNegotiation {
                header,
                supported_version: Seq::new(rest.len() / 4, |i: int| spec_version_at(rest, i)),
            },
        )
    }
}

/// The packet with a short header that `bytes` are: the header, with a
/// connection ID of `dcid_len` bytes, then the packet number in as many
/// bytes as the header says, then the payload to the end.
pub open spec fn spec_one_rtt(bytes: Seq<u8>, dcid_len: nat) -> Result<PacketView, ParseError> {
    match spec_short_header(bytes, dcid_len) {
        Err(e) => Err(e),
        Ok(header) => {
            let start = 1 + dcid_len as int;
            let pn_len = header.packet_number_length as nat;
            if bytes.len() < start + pn_len {
                Err(ParseError::TruncatedInput)
            } else {
                Ok(
                    PacketView::OneRTT {
                        header,
                        packet_number: be_value(bytes.subrange(start, start + pn_len))
                            as u32,
                        packet_payload: bytes.subrange(start + pn_len, bytes.len() as int),
                    },
                )
            }
        },
    }
}

/// The packet with a long header that `bytes` are.  A version of zero makes
/// it a Version Negotiation packet, whatever its type bits say; every other
/// version leaves the choice to the type bits.
pub open spec fn spec_long_packet(bytes: Seq<u8>) -> Result<PacketView, ParseError> {
    match spec_long_header(bytes) {
        Err(e) => Err(e),
        Ok(header) => {
            let rest = bytes.subrange(header.len as int, bytes.len() as int);
            if header.is_version_negotiation() {
                spec_version_negotiation(header, rest)
            } else {
                match header.ptype {
                    LongPacketType::Initial => spec_initial(header, rest),
                    LongPacketType::ZeroRTT => match spec_numbered(
                        header.packet_number_length as nat,
                        rest,
                    ) {
                        Err(e) => Err(e),
                        Ok((length, packet_number, packet_payload)) => Ok(
                            PacketView::ZeroRTT { header, length, packet_number, packet_payload },
                        ),
                    },
                    LongPacketType::Handshake => match spec_numbered(
                        header.packet_number_length as nat,
                        rest,
                    ) {
                        Err(e) => Err(e),
                        Ok((length, packet_number, packet_payload)) => Ok(
                            PacketView::Handshake { header, length, packet_number, packet_payload },
                        ),
                    },
                    LongPacketType::Retry => spec_retry(header, rest),
                }
            }
        },
    }
}

/// The packet that `bytes` are, for an endpoint whose connection IDs have
/// `dcid_len` bytes: the form bit of the first byte tells long headers from
/// short ones.
pub open spec fn spec_packet(bytes: Seq<u8>, dcid_len: nat) -> Result<PacketView, ParseError> {
    if bytes.len() == 0 {
        Err(ParseError::EmptyBuffer)
    } else if bytes[0] & 0x80 == 0 {
        spec_one_rtt(bytes, dcid_len)
    } else {
        spec_long_packet(bytes)
    }
}

/// The `i`-th of the four-byte versions that `rest` is made of.
pub open spec fn spec_version_at(rest: Seq<u8>, i: int) -> u32 {
    be_value(rest.subrange(4 * i, 4 * i + 4)) as u32
}

/// Reads the `n` bytes of `buf` at offset `at` as a packet number.
fn read_packet_number(buf: &[u8], at: usize, n: usize) -> (packet_number: u32)
    requires
        n <= 4,
        at + n <= buf@.len(),
    ensures
        packet_number == be_value(buf@.subrange(at as int, at + n)),
{
    let value: u64 = read_be(buf, at, n);
    proof {
        lemma_be_value_bound(buf@.subrange(at as int, at + n));
        lemma_radix_monotonic(n as nat, 4);
        lemma_radix_table();
    }
    value as u32
}

/// Copies the sixteen bytes of `buf` at offset `at`.
fn read_tag(buf: &[u8], at: usize) -> (tag: [u8; 16])
    requires
        at + RETRY_INTEGRITY_TAG_LENGTH <= buf@.len(),
    ensures
        tag@ == buf@.subrange(at as int, at + RETRY_INTEGRITY_TAG_LENGTH),
{
    let mut tag: [u8; 16] = [0u8; 16];
    let mut i: usize = 0;
    proof {
        assert(buf@.len() == buf.len());
    }
    while i < RETRY_INTEGRITY_TAG_LENGTH
        invariant
            i <= RETRY_INTEGRITY_TAG_LENGTH,
            at + RETRY_INTEGRITY_TAG_LENGTH <= buf@.len() <= usize::MAX,
            forall|k: int| 0 <= k < i ==> tag@[k] == buf@[at + k],
        decreases RETRY_INTEGRITY_TAG_LENGTH - i,
    {
        tag[i] = buf[at + i];
        i += 1;
    }
    proof {
        assert(tag@ =~= buf@.subrange(at as int, at + RETRY_INTEGRITY_TAG_LENGTH));
    }
    tag
}

/// Reads `rest` as versions of four bytes each.
fn read_versions(rest: &[u8]) -> (versions: Vec<u32>)
    requires
        rest@.len() % 4 == 0,
    ensures
        versions@ == Seq::new(rest@.len() / 4, |i: int| spec_version_at(rest@, i)),
{
    let count: usize = rest.len() / 4;
    let mut versions: Vec<u32> = Vec::new();
    let mut i: usize = 0;
    while i < count
        invariant
            i <= count,
            count == rest@.len() / 4,
            rest@.len() % 4 == 0,
            rest@.len() == rest.len(),
            versions@.len() == i,
            forall|k: int| 0 <= k < i ==> versions@[k] == spec_version_at(rest@, k),
        decreases count - i,
    {
        let version: u32 = read_packet_number(rest, 4 * i, 4);
        versions.push(version);
        i += 1;
    }
    proof {
        assert(versions@ =~= Seq::new(rest@.len() / 4, |i: int| spec_version_at(rest@, i)));
    }
    versions
}

/// Decodes what stands behind the header of a 0-RTT or Handshake packet.
fn decode_numbered(pn_len: u8, rest: &[u8]) -> (res: Result<(usize, u32, Vec<u8>), ParseError>)
    requires
        1 <= pn_len <= 4,
    ensures
        match res {
            Ok((length, packet_number, payload)) => spec_numbered(pn_len as nat, rest@) == Ok::<
                (nat, u32, Seq<u8>),
                ParseError,
            >((length as nat, packet_number, payload@)),
            Err(e) => spec_numbered(pn_len as nat, rest@) == Err::<
                (nat, u32, Seq<u8>),
                ParseError,
            >(e),
        },
{
    let (announced, start) = match VarInt::decode(rest) {
        Ok(decoded) => decoded,
        Err(_) => {
            return Err(ParseError::TruncatedInput);
        },
    };
    let available: usize = rest.len() - start;
    let value: u64 = announced.value();
    if value < pn_len as u64 || value > available as u64 {
        return Err(ParseError::TruncatedInput);
    }
    let length: usize = value as usize;
    let pn_len: usize = pn_len as usize;
    let packet_number: u32 = read_packet_number(rest, start, pn_len);
    let payload: Vec<u8> = slice_to_vec(slice_subrange(rest, start + pn_len, start + length));
    Ok((length, packet_number, payload))
}

/// Decodes what stands behind the header of an Initial packet.
fn decode_initial<'a>(header: LongHeader<'a>, rest: &[u8]) -> (res: Result<Packet<'a>, ParseError>)
    ensures
        match res {
            Ok(packet) => spec_initial(header@, rest@) == Ok::<PacketView, ParseError>(packet@),
            Err(e) => spec_initial(header@, rest@) == Err::<PacketView, ParseError>(e),
        },
{
    let (announced, start) = match VarInt::decode(rest) {
        Ok(decoded) => decoded,
        Err(_) => {
            return Err(ParseError::TruncatedInput);
        },
    };
    let available: usize = rest.len() - start;
    let value: u64 = announced.value();
    if value > available as u64 {
        return Err(ParseError::TruncatedInput);
    }
    let token_length: usize = value as usize;
    let token: Vec<u8> = slice_to_vec(slice_subrange(rest, start, start + token_length));
    Ok(Packet::Initial { header, token_length, token })
}

/// Decodes what stands behind the header of a Retry packet.
fn decode_retry<'a>(header: LongHeader<'a>, rest: &[u8]) -> (res: Result<Packet<'a>, ParseError>)
    ensures
        match res {
            Ok(packet) => spec_retry(header@, rest@) == Ok::<PacketView, ParseError>(packet@),
            Err(e) => spec_retry(header@, rest@) == Err::<PacketView, ParseError>(e),
        },
{
    let n: usize = rest.len();
    if n < RETRY_INTEGRITY_TAG_LENGTH {
        return Err(ParseError::TruncatedInput);
    }
    let tag_start: usize = n - RETRY_INTEGRITY_TAG_LENGTH;
    let retry_token: Vec<u8> = slice_to_vec(slice_subrange(rest, 0, tag_start));
    let retry_integrity_tag: [u8; 16] = read_tag(rest, tag_start);
    Ok(Packet::Retry { header, retry_token, retry_integrity_tag })
}

/// Decodes what stands behind the header of a Version Negotiation packet.
fn decode_version_negotiation<'a>(header: LongHeader<'a>, rest: &[u8]) -> (res: Result<
    Packet<'a>,
    ParseError,
>)
    ensures
        match res {
            Ok(packet) => spec_version_negotiation(header@, rest@) == Ok::<
                PacketView,
                ParseError,
            >(packet@),
            Err(e) => spec_version_negotiation(header@, rest@) == Err::<PacketView, ParseError>(
                e,
            ),
        },
{
    if rest.len() % 4 != 0 {
        return Err(ParseError::TruncatedInput);
    }
    let supported_version: Vec<u32> = read_versions(rest);
    Ok(Packet::VersionNegotiation { header, supported_version })
}

/// Decodes a packet with a short header.
fn decode_one_rtt<'a>(buf: &[u8], dcid_len: usize) -> (res: Result<Packet<'a>, ParseError>)
    ensures
        match res {
            Ok(packet) => spec_one_rtt(buf@, dcid_len as nat) == Ok::<PacketView, ParseError>(
                packet@,
            ),
            Err(e) => spec_one_rtt(buf@, dcid_len as nat) == Err::<PacketView, ParseError>(e),
        },
{
    let header: ShortHeader = match ShortHeader::from_slice(buf, dcid_len) {
        Ok(header) => header,
        Err(e) => {
            return Err(e);
        },
    };
    let n: usize = buf.len();
    let start: usize = 1 + dcid_len;
    let pn_len: usize = header.packet_number_length as usize;
    if n - start < pn_len {
        return Err(ParseError::TruncatedInput);
    }
    let packet_number: u32 = read_packet_number(buf, start, pn_len);
    let packet_payload: Vec<u8> = slice_to_vec(slice_subrange(buf, start + pn_len, n));
    Ok(Packet::OneRTT { header, packet_number, packet_payload })
}

impl<'a> Packet<'a> {
    /// Decodes the packet that `buf` holds.  The form bit of the first
    /// byte tells a long header from a short one.  Behind a long header, a
    /// version of zero makes a Version Negotiation packet; every other
    /// version leaves the choice of the variant to the packet type.  A short
    /// header does not say how long its connection ID is: `dcid_len` is the
    /// length that this endpoint gives to the connection IDs it hands out,
    /// and is looked at for short headers only.
    pub fn from_slice(buf: &'a [u8], dcid_len: usize) -> (res: Result<Packet<'a>, ParseError>)
        ensures
            match res {
                Ok(packet) => spec_packet(buf@, dcid_len as nat) == Ok::<PacketView, ParseError>(
                    packet@,
                ),
                Err(e) => spec_packet(buf@, dcid_len as nat) == Err::<PacketView, ParseError>(e),
            },
    {
        let n: usize = buf.len();
        if n == 0 {
            return Err(ParseError::EmptyBuffer);
        }
        if buf[0] & 0x80 == 0 {
            return decode_one_rtt(buf, dcid_len);
        }
        let header: LongHeader<'a> = match LongHeader::from_slice(buf) {
            Ok(header) => header,
            Err(e) => {
                return Err(e);
            },
        };
        let rest: &[u8] = slice_subrange(buf, header.len, n);
        if header.version == 0 {
            return decode_version_negotiation(header, rest);
        }
        match header.ptype {
            LongPacketType::Initial => decode_initial(header, rest),
            LongPacketType::ZeroRTT => match decode_numbered(header.packet_number_length, rest) {
                Ok((length, packet_number, packet_payload)) => Ok(
                    Packet::ZeroRTT { header, length, packet_number, packet_payload },
                ),
                Err(e) => Err(e),
            },
            LongPacketType::Handshake => match decode_numbered(
                header.packet_number_length,
                rest,
            ) {
                Ok((length, packet_number, packet_payload)) => Ok(
                    Packet::Handshake { header, length, packet_number, packet_payload },
                ),
                Err(e) => Err(e),
            },
            LongPacketType::Retry => decode_retry(header, rest),
        }
    }
}

impl PacketView {
    /// The long header of the packet, where it has one.
    pub open spec fn long_header(self) -> Option<LongHeaderView> {
        match self {
            PacketView::Initial { header, .. } => Some(header),
            PacketView::VersionNegotiation { header, .. } => Some(header),
            PacketView::ZeroRTT { header, .. } => Some(header),
            PacketView::Handshake { header, .. } => Some(header),
            PacketView::Retry { header, .. } => Some(header),
            PacketView::OneRTT { .. } => None,
        }
    }
}

/// A buffer whose four version bytes are zero is a Version Negotiation
/// packet or no packet at all: its type bits are never looked at, and it is
/// a packet just when its header is one and versions of four bytes fill the
/// rest.
pub proof fn lemma_version_zero_is_negotiation(bytes: Seq<u8>, dcid_len: nat)
    requires
        bytes.len() >= 5,
        bytes[0] & 0x80 != 0,
        bytes[1] == 0,
        bytes[2] == 0,
        bytes[3] == 0,
        bytes[4] == 0,
    ensures
        spec_packet(bytes, dcid_len) is Ok ==> spec_packet(bytes, dcid_len)->Ok_0
            is VersionNegotiation,
        spec_long_header(bytes) is Err ==> spec_packet(bytes, dcid_len) == Err::<
            PacketView,
            ParseError,
        >(spec_long_header(bytes)->Err_0),
        spec_long_header(bytes) is Ok ==> spec_packet(bytes, dcid_len)
            == spec_version_negotiation(
            spec_long_header(bytes)->Ok_0,
            bytes.subrange(spec_long_header(bytes)->Ok_0.len as int, bytes.len() as int),
        ),
{
    lemma_be_value_zero(bytes.subrange(1, 5));
}

/// The variant of a packet is what its first byte and its version say: a
/// clear form bit makes a 1-RTT packet; behind a long header, which the
/// packet then holds as it was decoded, a version of zero makes a Version
/// Negotiation packet and every other version the variant of its type.
pub proof fn lemma_packet_variant(bytes: Seq<u8>, dcid_len: nat)
    requires
        spec_packet(bytes, dcid_len) is Ok,
    ensures
        ({
            let packet = spec_packet(bytes, dcid_len)->Ok_0;
            let header = spec_long_header(bytes);
            &&& packet is OneRTT <==> bytes[0] & 0x80 == 0
            &&& packet !is OneRTT ==> header is Ok && packet.long_header() == Some(header->Ok_0)
            &&& packet is VersionNegotiation <==> packet !is OneRTT && header->Ok_0.version == 0
            &&& packet is Initial <==> packet !is OneRTT && header->Ok_0.version != 0
                && header->Ok_0.ptype is Initial
            &&& packet is ZeroRTT <==> packet !is OneRTT && header->Ok_0.version != 0
                && header->Ok_0.ptype is ZeroRTT
            &&& packet is Handshake <==> packet !is OneRTT && header->Ok_0.version != 0
                && header->Ok_0.ptype is Handshake
            &&& packet is Retry <==> packet !is OneRTT && header->Ok_0.version != 0
                && header->Ok_0.ptype is Retry
        }),
{
}

/// What fails the header fails the packet, with the same error.
pub proof fn lemma_packet_needs_header(bytes: Seq<u8>, dcid_len: nat)
    requires
        bytes.len() > 0,
    ensures
        bytes[0] & 0x80 != 0 && spec_long_header(bytes) is Err ==> spec_packet(bytes, dcid_len)
            == Err::<PacketView, ParseError>(spec_long_header(bytes)->Err_0),
        bytes[0] & 0x80 == 0 && spec_short_header(bytes, dcid_len) is Err ==> spec_packet(
            bytes,
            dcid_len,
        ) == Err::<PacketView, ParseError>(spec_short_header(bytes, dcid_len)->Err_0),
{
}

} // verus!
