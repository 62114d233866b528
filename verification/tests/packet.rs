use dquicken::packet::{LongPacketType, Packet, ParseError};

fn long_prefix(first: u8, version: u32) -> Vec<u8> {
    let mut buf = vec![first];
    buf.extend_from_slice(&version.to_be_bytes());
    buf.extend_from_slice(&[0x02, 0xd1, 0xd2, 0x01, 0x51]);
    buf
}

#[test]
fn initial_with_a_token() {
    let mut buf = long_prefix(0xc0, 1);
    buf.extend_from_slice(&[0x03, 0x0a, 0x0b, 0x0c, 0xee, 0xee]);
    match Packet::from_slice(&buf, 0).unwrap() {
        Packet::Initial {
            header,
            token_length,
            token,
        } => {
            assert_eq!(header.ptype, LongPacketType::Initial);
            assert_eq!(header.version, 1);
            assert_eq!(header.destination_connection_id, &[0xd1, 0xd2][..]);
            assert_eq!(header.source_connection_id, &[0x51][..]);
            assert_eq!(header.len, 10);
            assert_eq!(token_length, 3);
            assert_eq!(token, vec![0x0a, 0x0b, 0x0c]);
        }
        other => panic!("not an Initial packet: {:?}", other),
    }
}

#[test]
fn initial_without_a_token() {
    let mut buf = long_prefix(0xc0, 1);
    buf.push(0x00);
    match Packet::from_slice(&buf, 0).unwrap() {
        Packet::Initial {
            token_length,
            token,
            ..
        } => {
            assert_eq!(token_length, 0);
            assert_eq!(token, Vec::<u8>::new());
        }
        other => panic!("not an Initial packet: {:?}", other),
    }
}

#[test]
fn initial_with_a_token_length_of_two_bytes() {
    let mut buf = long_prefix(0xc0, 1);
    buf.extend_from_slice(&[0x40, 0x02, 0x0a, 0x0b]);
    match Packet::from_slice(&buf, 0).unwrap() {
        Packet::Initial {
            token_length,
            token,
            ..
        } => {
            assert_eq!(token_length, 2);
            assert_eq!(token, vec![0x0a, 0x0b]);
        }
        other => panic!("not an Initial packet: {:?}", other),
    }
}

#[test]
fn initial_cut_short() {
    let buf = long_prefix(0xc0, 1);
    assert_eq!(Packet::from_slice(&buf, 0), Err(ParseError::TruncatedInput));
    let mut buf = long_prefix(0xc0, 1);
    buf.extend_from_slice(&[0x40]);
    assert_eq!(Packet::from_slice(&buf, 0), Err(ParseError::TruncatedInput));
    let mut buf = long_prefix(0xc0, 1);
    buf.extend_from_slice(&[0x03, 0x0a, 0x0b]);
    assert_eq!(Packet::from_slice(&buf, 0), Err(ParseError::TruncatedInput));
    let mut buf = long_prefix(0xc0, 1);
    buf.extend_from_slice(&[0xff, 0xff, 0xff, 0xff, 0xff, 0xff, 0xff, 0xff, 0x00]);
    assert_eq!(Packet::from_slice(&buf, 0), Err(ParseError::TruncatedInput));
}

#[test]
fn zero_rtt_with_number_and_payload() {
    let mut buf = long_prefix(0xd1, 1);
    buf.extend_from_slice(&[0x05, 0x12, 0x34, 0x0a, 0x0b, 0x0c, 0xee]);
    match Packet::from_slice(&buf, 0).unwrap() {
        Packet::ZeroRTT {
            header,
            length,
            packet_number,
            packet_payload,
        } => {
            assert_eq!(header.ptype, LongPacketType::ZeroRTT);
            assert_eq!(header.packet_number_length, 2);
            assert_eq!(length, 5);
            assert_eq!(packet_number, 0x1234);
            assert_eq!(packet_payload, vec![0x0a, 0x0b, 0x0c]);
        }
        other => panic!("not a 0-RTT packet: {:?}", other),
    }
}

#[test]
fn handshake_with_a_number_of_four_bytes() {
    let mut buf = long_prefix(0xe3, 1);
    buf.extend_from_slice(&[0x04, 0xde, 0xad, 0xbe, 0xef]);
    match Packet::from_slice(&buf, 0).unwrap() {
        Packet::Handshake {
            header,
            length,
            packet_number,
            packet_payload,
        } => {
            assert_eq!(header.ptype, LongPacketType::Handshake);
            assert_eq!(length, 4);
            assert_eq!(packet_number, 0xdeadbeef);
            assert_eq!(packet_payload, Vec::<u8>::new());
        }
        other => panic!("not a Handshake packet: {:?}", other),
    }
}

#[test]
fn numbered_packets_cut_short() {
    let buf = long_prefix(0xe3, 1);
    assert_eq!(Packet::from_slice(&buf, 0), Err(ParseError::TruncatedInput));
    let mut buf = long_prefix(0xe3, 1);
    buf.extend_from_slice(&[0x03, 0xde, 0xad, 0xbe]);
    assert_eq!(Packet::from_slice(&buf, 0), Err(ParseError::TruncatedInput));
    let mut buf = long_prefix(0xd0, 1);
    buf.extend_from_slice(&[0x00]);
    assert_eq!(Packet::from_slice(&buf, 0), Err(ParseError::TruncatedInput));
    let mut buf = long_prefix(0xd0, 1);
    buf.extend_from_slice(&[0x05, 0x01, 0x02, 0x03, 0x04]);
    assert_eq!(Packet::from_slice(&buf, 0), Err(ParseError::TruncatedInput));
}

#[test]
fn retry_with_token_and_tag() {
    let tag: [u8; 16] = [
        0xf0, 0xf1, 0xf2, 0xf3, 0xf4, 0xf5, 0xf6, 0xf7, 0xf8, 0xf9, 0xfa, 0xfb, 0xfc, 0xfd, 0xfe,
        0xff,
    ];
    let mut buf = long_prefix(0xf0, 1);
    buf.extend_from_slice(&[0x74, 0x6f, 0x6b]);
    buf.extend_from_slice(&tag);
    match Packet::from_slice(&buf, 0).unwrap() {
        Packet::Retry {
            header,
            retry_token,
            retry_integrity_tag,
        } => {
            assert_eq!(header.ptype, LongPacketType::Retry);
            assert_eq!(retry_token, vec![0x74, 0x6f, 0x6b]);
            assert_eq!(retry_integrity_tag, tag);
        }
        other => panic!("not a Retry packet: {:?}", other),
    }
    let mut buf = long_prefix(0xf0, 1);
    buf.extend_from_slice(&tag);
    match Packet::from_slice(&buf, 0).unwrap() {
        Packet::Retry {
            retry_token,
            retry_integrity_tag,
            ..
        } => {
            assert_eq!(retry_token, Vec::<u8>::new());
            assert_eq!(retry_integrity_tag, tag);
        }
        other => panic!("not a Retry packet: {:?}", other),
    }
}

#[test]
fn retry_without_room_for_the_tag() {
    let mut buf = long_prefix(0xf0, 1);
    buf.extend_from_slice(&[0u8; 15]);
    assert_eq!(Packet::from_slice(&buf, 0), Err(ParseError::TruncatedInput));
}

#[test]
fn version_zero_is_never_parsed_by_type() {
    for first in [0x80u8, 0xc0, 0xd3, 0xe1, 0xf0, 0xff] {
        let mut buf = long_prefix(first, 0);
        buf.extend_from_slice(&[0x00, 0x00, 0x00, 0x01, 0x6b, 0x33, 0x43, 0xcf]);
        match Packet::from_slice(&buf, 0).unwrap() {
            Packet::VersionNegotiation {
                header,
                supported_version,
            } => {
                assert_eq!(header.version, 0);
                assert_eq!(header.len, 10);
                assert_eq!(supported_version, vec![1, 0x6b3343cf]);
            }
            other => panic!("not a Version Negotiation packet: {:?}", other),
        }
    }
}

#[test]
fn version_negotiation_lists() {
    let buf = long_prefix(0x80, 0);
    match Packet::from_slice(&buf, 0).unwrap() {
        Packet::VersionNegotiation {
            supported_version, ..
        } => assert_eq!(supported_version, Vec::<u32>::new()),
        other => panic!("not a Version Negotiation packet: {:?}", other),
    }
    for extra in 1..4 {
        let mut buf = long_prefix(0x80, 0);
        buf.extend_from_slice(&[0x00, 0x00, 0x00, 0x01]);
        buf.extend_from_slice(&[0xaa; 3][..extra]);
        assert_eq!(Packet::from_slice(&buf, 0), Err(ParseError::TruncatedInput));
    }
}

#[test]
fn one_rtt_behind_a_short_header() {
    let buf = [0x45, 0xc1, 0xc2, 0xc3, 0x12, 0x34, 0x0a, 0x0b];
    match Packet::from_slice(&buf, 3).unwrap() {
        Packet::OneRTT {
            header,
            packet_number,
            packet_payload,
        } => {
            assert!(header.fixed_bit);
            assert!(header.key_phase);
            assert_eq!(header.packet_number_length, 2);
            assert_eq!(header.destination_connection_id, vec![0xc1, 0xc2, 0xc3]);
            assert_eq!(packet_number, 0x1234);
            assert_eq!(packet_payload, vec![0x0a, 0x0b]);
        }
        other => panic!("not a 1-RTT packet: {:?}", other),
    }
    match Packet::from_slice(&[0x40, 0x07], 0).unwrap() {
        Packet::OneRTT {
            packet_number,
            packet_payload,
            ..
        } => {
            assert_eq!(packet_number, 7);
            assert_eq!(packet_payload, Vec::<u8>::new());
        }
        other => panic!("not a 1-RTT packet: {:?}", other),
    }
}

#[test]
fn one_rtt_failures() {
    assert_eq!(
        Packet::from_slice(&[0x40, 0xc1], 3),
        Err(ParseError::TruncatedHeader)
    );
    assert_eq!(
        Packet::from_slice(&[0x43, 0xc1, 0xc2, 0xc3, 0x01, 0x02, 0x03], 3),
        Err(ParseError::TruncatedInput)
    );
    assert_eq!(
        Packet::from_slice(&[0x40; 40], 21),
        Err(ParseError::ConnectionIdTooLong)
    );
}

#[test]
fn header_failures_fail_the_packet() {
    assert_eq!(Packet::from_slice(&[], 0), Err(ParseError::EmptyBuffer));
    assert_eq!(
        Packet::from_slice(&[0xc0, 0x00, 0x00], 0),
        Err(ParseError::TruncatedHeader)
    );
    assert_eq!(
        Packet::from_slice(&[0xc0, 0x00, 0x00, 0x00, 0x01, 21], 0),
        Err(ParseError::ConnectionIdTooLong)
    );
    assert_eq!(
        Packet::from_slice(&[0xc0, 0x00, 0x00, 0x00, 0x00, 21], 0),
        Err(ParseError::ConnectionIdTooLong)
    );
}

#[test]
fn the_length_for_short_headers_is_ignored_behind_a_long_one() {
    let mut buf = long_prefix(0xc0, 1);
    buf.push(0x00);
    assert_eq!(Packet::from_slice(&buf, 0), Packet::from_slice(&buf, 20));
    assert_eq!(Packet::from_slice(&buf, 0), Packet::from_slice(&buf, 255));
}
