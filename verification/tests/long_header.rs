use dquicken::packet::long_header::{read_connection_id, MAX_CONNECTION_ID_LENGTH};
use dquicken::packet::{LongHeader, LongPacketType, ParseError};

fn sample() -> Vec<u8> {
    vec![
        0xc3, 0x00, 0x00, 0x00, 0x01, 0x08, 0x11, 0x22, 0x33, 0x44, 0x55, 0x66, 0x77, 0x88, 0x00,
    ]
}

fn with_both_ids() -> Vec<u8> {
    vec![
        0xed, 0xfa, 0xce, 0xb0, 0x0c, 0x03, 0xa1, 0xa2, 0xa3, 0x02, 0xb1, 0xb2, 0x99, 0x98,
    ]
}

#[test]
fn end_to_end_sample() {
    let buf = sample();
    let header = LongHeader::from_slice(&buf).unwrap();
    assert_eq!(header.ptype, LongPacketType::Initial);
    assert_eq!(header.version, 1);
    assert_eq!(header.destination_connection_id_length, 8);
    assert_eq!(header.source_connection_id_length, 0);
    assert!(header.fixed_bit);
    assert_eq!(header.reserved_bits, 0x00);
    assert_eq!(header.packet_number_length, 4);
    assert_eq!(
        header.destination_connection_id,
        &[0x11, 0x22, 0x33, 0x44, 0x55, 0x66, 0x77, 0x88][..]
    );
    assert_eq!(header.source_connection_id, &[][..]);
    assert_eq!(header.len, 15);
    assert!(!header.is_version_negotiation());
}

#[test]
fn every_field_of_the_first_byte() {
    let buf = with_both_ids();
    let header = LongHeader::from_slice(&buf).unwrap();
    assert!(header.fixed_bit);
    assert_eq!(header.ptype, LongPacketType::Handshake);
    assert_eq!(header.reserved_bits, 0x0c);
    assert_eq!(header.packet_number_length, 2);
    assert_eq!(header.version, 0xfaceb00c);
    assert_eq!(header.destination_connection_id_length, 3);
    assert_eq!(header.destination_connection_id, &[0xa1, 0xa2, 0xa3][..]);
    assert_eq!(header.source_connection_id_length, 2);
    assert_eq!(header.source_connection_id, &[0xb1, 0xb2][..]);
    assert_eq!(header.len, 12);
}

#[test]
fn the_four_packet_types() {
    let mut buf = sample();
    buf[0] = 0xc0;
    assert_eq!(
        LongHeader::from_slice(&buf).unwrap().ptype,
        LongPacketType::Initial
    );
    buf[0] = 0xd0;
    assert_eq!(
        LongHeader::from_slice(&buf).unwrap().ptype,
        LongPacketType::ZeroRTT
    );
    buf[0] = 0xe0;
    assert_eq!(
        LongHeader::from_slice(&buf).unwrap().ptype,
        LongPacketType::Handshake
    );
    buf[0] = 0xf0;
    assert_eq!(
        LongHeader::from_slice(&buf).unwrap().ptype,
        LongPacketType::Retry
    );
}

#[test]
fn packet_type_of_two_bits() {
    assert_eq!(LongPacketType::from(0), LongPacketType::Initial);
    assert_eq!(LongPacketType::from(1), LongPacketType::ZeroRTT);
    assert_eq!(LongPacketType::from(2), LongPacketType::Handshake);
    assert_eq!(LongPacketType::from(3), LongPacketType::Retry);
    assert_eq!(LongPacketType::from(0xfe), LongPacketType::Handshake);
}

#[test]
fn a_clear_fixed_bit_is_reported() {
    let mut buf = sample();
    assert!(!LongHeader::from_slice(&buf).unwrap().violates_fixed_bit());
    buf[0] = 0x83;
    let header = LongHeader::from_slice(&buf).unwrap();
    assert!(!header.fixed_bit);
    assert_eq!(header.ptype, LongPacketType::Initial);
    assert!(header.violates_fixed_bit());
    buf[1..5].copy_from_slice(&[0, 0, 0, 0]);
    let header = LongHeader::from_slice(&buf).unwrap();
    assert!(!header.fixed_bit);
    assert!(!header.violates_fixed_bit());
}

#[test]
fn empty_buffer() {
    assert_eq!(LongHeader::from_slice(&[]), Err(ParseError::EmptyBuffer));
}

#[test]
fn short_form_is_not_a_long_header() {
    assert_eq!(
        LongHeader::from_slice(&[0x43]),
        Err(ParseError::NotLongHeader)
    );
    let mut buf = sample();
    buf[0] = 0x7f;
    assert_eq!(
        LongHeader::from_slice(&buf),
        Err(ParseError::NotLongHeader)
    );
}

#[test]
fn destination_id_of_21_bytes_is_refused() {
    let mut buf = vec![0xc3, 0x00, 0x00, 0x00, 0x01, 21];
    assert_eq!(
        LongHeader::from_slice(&buf),
        Err(ParseError::ConnectionIdTooLong)
    );
    buf.extend_from_slice(&[0u8; 40]);
    assert_eq!(
        LongHeader::from_slice(&buf),
        Err(ParseError::ConnectionIdTooLong)
    );
    buf[5] = 255;
    assert_eq!(
        LongHeader::from_slice(&buf),
        Err(ParseError::ConnectionIdTooLong)
    );
}

#[test]
fn source_id_of_21_bytes_is_refused() {
    let mut buf = vec![0xc3, 0x00, 0x00, 0x00, 0x01, 0x02, 0xaa, 0xbb, 21];
    buf.extend_from_slice(&[0u8; 21]);
    assert_eq!(
        LongHeader::from_slice(&buf),
        Err(ParseError::ConnectionIdTooLong)
    );
}

#[test]
fn ids_of_20_bytes_are_taken() {
    let mut buf = vec![0xc3, 0x00, 0x00, 0x00, 0x01, 20];
    buf.extend_from_slice(&[0x5a; 20]);
    buf.push(20);
    buf.extend_from_slice(&[0xa5; 20]);
    let header = LongHeader::from_slice(&buf).unwrap();
    assert_eq!(header.destination_connection_id_length, MAX_CONNECTION_ID_LENGTH);
    assert_eq!(header.destination_connection_id, &[0x5a; 20][..]);
    assert_eq!(header.source_connection_id_length, 20);
    assert_eq!(header.source_connection_id, &[0xa5; 20][..]);
    assert_eq!(header.len, 47);
}

#[test]
fn every_truncation_point_fails() {
    for full in [sample(), with_both_ids()] {
        let len = LongHeader::from_slice(&full).unwrap().len;
        assert_eq!(
            LongHeader::from_slice(&full[..0]),
            Err(ParseError::EmptyBuffer)
        );
        for cut in 1..len {
            assert_eq!(
                LongHeader::from_slice(&full[..cut]),
                Err(ParseError::TruncatedHeader)
            );
        }
        assert!(LongHeader::from_slice(&full[..len]).is_ok());
    }
}

#[test]
fn what_follows_the_header_does_not_change_it() {
    let buf = with_both_ids();
    let whole = LongHeader::from_slice(&buf).unwrap();
    let exact = LongHeader::from_slice(&buf[..12]).unwrap();
    assert_eq!(whole, exact);
}

#[test]
fn version_zero_is_version_negotiation() {
    let buf = [0x80, 0x00, 0x00, 0x00, 0x00, 0x01, 0xaa, 0x00];
    let header = LongHeader::from_slice(&buf).unwrap();
    assert_eq!(header.version, 0);
    assert!(header.is_version_negotiation());
    assert_eq!(header.len, 8);
}

#[test]
fn version_check_against_the_callers_set() {
    let buf = sample();
    let header = LongHeader::from_slice(&buf).unwrap();
    assert_eq!(header.check_version(&[1]), Ok(()));
    assert_eq!(header.check_version(&[0x6b3343cf, 1]), Ok(()));
    assert_eq!(
        header.check_version(&[2, 3]),
        Err(ParseError::UnsupportedVersion)
    );
    assert_eq!(
        header.check_version(&[]),
        Err(ParseError::UnsupportedVersion)
    );
}

#[test]
fn connection_id_behind_its_length_byte() {
    let buf = [0x02u8, 0xaa, 0xbb, 0xcc];
    assert_eq!(read_connection_id(&buf, 0), Ok(&[0xaa, 0xbb][..]));
    assert_eq!(read_connection_id(&buf, 4), Err(ParseError::TruncatedHeader));
    assert_eq!(read_connection_id(&buf, 1), Err(ParseError::ConnectionIdTooLong));
    assert_eq!(
        read_connection_id(&[0x03, 0x01, 0x02], 0),
        Err(ParseError::TruncatedHeader)
    );
    assert_eq!(read_connection_id(&[0x00], 0), Ok(&[][..]));
}
