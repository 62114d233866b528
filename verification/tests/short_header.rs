use dquicken::packet::{ParseError, ShortHeader};

#[test]
fn every_bit_of_the_first_byte() {
    let buf = [0x40, 0xa1, 0xa2, 0xa3, 0xa4];
    let header = ShortHeader::from_slice(&buf, 4).unwrap();
    assert!(header.fixed_bit);
    assert!(!header.spin_bit);
    assert_eq!(header.reserved_bit, [false, false]);
    assert!(!header.key_phase);
    assert_eq!(header.packet_number_length, 1);
    assert_eq!(header.destination_connection_id, vec![0xa1, 0xa2, 0xa3, 0xa4]);

    let header = ShortHeader::from_slice(&[0x20], 0).unwrap();
    assert!(!header.fixed_bit);
    assert!(header.spin_bit);
    assert_eq!(header.destination_connection_id, Vec::<u8>::new());

    let header = ShortHeader::from_slice(&[0x10], 0).unwrap();
    assert_eq!(header.reserved_bit, [true, false]);
    let header = ShortHeader::from_slice(&[0x08], 0).unwrap();
    assert_eq!(header.reserved_bit, [false, true]);

    let header = ShortHeader::from_slice(&[0x07], 0).unwrap();
    assert!(header.key_phase);
    assert_eq!(header.packet_number_length, 4);
    assert!(!header.spin_bit);
    assert_eq!(header.reserved_bit, [false, false]);
}

#[test]
fn short_header_failures() {
    assert_eq!(ShortHeader::from_slice(&[], 0), Err(ParseError::EmptyBuffer));
    assert_eq!(ShortHeader::from_slice(&[], 21), Err(ParseError::EmptyBuffer));
    assert_eq!(
        ShortHeader::from_slice(&[0x40; 64], 21),
        Err(ParseError::ConnectionIdTooLong)
    );
    assert_eq!(
        ShortHeader::from_slice(&[0x40, 0x01, 0x02], 3),
        Err(ParseError::TruncatedHeader)
    );
    assert_eq!(
        ShortHeader::from_slice(&[0x40], 20),
        Err(ParseError::TruncatedHeader)
    );
    assert!(ShortHeader::from_slice(&[0x40; 21], 20).is_ok());
}

#[test]
fn violations_of_the_protocol() {
    assert!(!ShortHeader::from_slice(&[0x40], 0).unwrap().violates_protocol());
    assert!(!ShortHeader::from_slice(&[0x67], 0).unwrap().violates_protocol());
    assert!(ShortHeader::from_slice(&[0x00], 0).unwrap().violates_protocol());
    assert!(ShortHeader::from_slice(&[0x50], 0).unwrap().violates_protocol());
    assert!(ShortHeader::from_slice(&[0x48], 0).unwrap().violates_protocol());
    assert!(ShortHeader::from_slice(&[0x58], 0).unwrap().violates_protocol());
}
