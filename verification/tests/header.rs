use minicbor::decode::{self, Decoder};
use minicbor_embedded_io::header::{ArrayHeader, HeaderError, MapHeader};

#[test]
fn can_decode_small_array_header() {
    // Given
    let cbor: [u8; 5] = [0xf4, 0x83, 0x01, 0x02, 0x03];
    let mut d = Decoder::new(&cbor);
    d.set_position(1); // Skip first byte in buffer

    // When
    let (header, next) = ArrayHeader::decode(d.input(), d.position()).unwrap();
    d.set_position(next);

    // Then
    assert_eq!(Some(3), header.0);
    assert_eq!(2, d.position());
}

#[test]
fn can_decode_large_array_header() {
    // Given
    let cbor: [u8; 28] = [
        0xf4, 0x98, 0x18, 0x01, 0x02, 0x03, 0x04, 0x05, 0x06, 0x07, 0x08, 0x09, 0x0a, 0x0b,
        0x0c, 0x0d, 0x0e, 0x0f, 0x10, 0x11, 0x12, 0x13, 0x14, 0x15, 0x16, 0x17, 0x18, 0x18,
    ];
    let mut d = Decoder::new(&cbor);
    d.set_position(1); // Skip first byte in buffer

    // When
    let (header, next) = ArrayHeader::decode(d.input(), d.position()).unwrap();
    d.set_position(next);

    // Then
    assert_eq!(Some(24), header.0);
    assert_eq!(3, d.position());
}

#[test]
fn decodes_every_argument_width() {
    let cases: [(&[u8], Option<u64>, usize); 6] = [
        (&[0x80], Some(0), 1),
        (&[0x97], Some(23), 1),
        (&[0x99, 0x01, 0x00], Some(256), 3),
        (&[0x9a, 0x00, 0x01, 0x00, 0x00], Some(65536), 5),
        (&[0x9b, 0x01, 0, 0, 0, 0, 0, 0, 0x02], Some(0x0100_0000_0000_0002), 9),
        (&[0x9f], None, 1),
    ];
    for (input, len, next) in cases {
        let (header, pos) = ArrayHeader::decode(input, 0).unwrap();
        assert_eq!(len, header.0);
        assert_eq!(next, pos);
    }
}

#[test]
fn decodes_map_headers() {
    let (header, next) = MapHeader::decode(&[0xa2, 0x01, 0x02], 0).unwrap();
    assert_eq!(Some(2), header.0);
    assert_eq!(1, next);
    let (header, next) = MapHeader::decode(&[0xbf], 0).unwrap();
    assert_eq!(None, header.0);
    assert_eq!(1, next);
    let (header, next) = MapHeader::decode(&[0xb8, 0x20], 0).unwrap();
    assert_eq!(Some(32), header.0);
    assert_eq!(2, next);
}

#[test]
fn matches_minicbor_array_and_map_lengths() {
    for n in [0usize, 1, 23, 24, 255, 256, 65535, 65536, 100000] {
        let v = vec![0u8; n];
        let cbor = minicbor::to_vec(&v).unwrap();
        let (header, next) = ArrayHeader::decode(&cbor, 0).unwrap();
        assert_eq!(Some(n as u64), header.0);
        let mut d = Decoder::new(&cbor);
        assert_eq!(Some(n as u64), d.array().unwrap());
        assert_eq!(d.position(), next);
    }
}

#[test]
fn other_types_are_type_mismatch_at_position() {
    for input in [&[0xa1u8, 0x01, 0x02][..], &[0x01][..], &[0x9c][..], &[0x60][..]] {
        match ArrayHeader::decode(input, 0) {
            Err(HeaderError::TypeMismatch(_, Some(0))) => {}
            other => panic!("unexpected {:?}", other),
        }
    }
    match MapHeader::decode(&[0x00, 0x83], 1) {
        Err(HeaderError::TypeMismatch(_, Some(1))) => {}
        other => panic!("unexpected {:?}", other),
    }
}

#[test]
fn short_input_is_end_of_input() {
    for (input, pos) in [(&[][..], 0usize), (&[0x98][..], 0), (&[0x9b, 0, 0, 0][..], 0), (&[0x83][..], 1), (&[0x38][..], 0)] {
        assert!(matches!(ArrayHeader::decode(input, pos), Err(HeaderError::EndOfInput)));
    }
    assert!(matches!(MapHeader::decode(&[0xb9, 0x01], 0), Err(HeaderError::EndOfInput)));
}

#[test]
fn negative_integer_head_needs_its_next_byte_first() {
    // 0x38 is a negative integer whose width depends on the next byte
    assert!(matches!(ArrayHeader::decode(&[0x38], 0), Err(HeaderError::EndOfInput)));
    assert!(matches!(ArrayHeader::decode(&[0x38, 0x01], 0), Err(HeaderError::TypeMismatch(_, Some(0)))));
}

#[test]
fn more_input_does_not_change_a_complete_head() {
    let short = [0x99u8, 0x01, 0x00];
    let long = [0x99u8, 0x01, 0x00, 0xff, 0xff, 0x00];
    assert_eq!(ArrayHeader::decode(&short, 0).unwrap(), ArrayHeader::decode(&long, 0).unwrap());
    // a cut-short head is the only outcome more input may change
    assert!(matches!(ArrayHeader::decode(&short[..2], 0), Err(HeaderError::EndOfInput)));
}

#[test]
fn nine_bytes_always_suffice() {
    let input = [0x9bu8, 0, 0, 0, 0, 0, 0, 0, 7];
    assert_eq!((ArrayHeader(Some(7)), 9), ArrayHeader::decode(&input, 0).unwrap());
    let input = [0x00u8; 9];
    assert!(matches!(ArrayHeader::decode(&input, 0), Err(HeaderError::TypeMismatch(_, _))));
}

#[test]
fn type_mismatch_error_converts_to_minicbor_error() {
    match ArrayHeader::decode(&[0x01], 0) {
        Err(HeaderError::TypeMismatch(ty, Some(pos))) => {
            let e = decode::Error::type_mismatch(ty).with_message("expected array").at(pos);
            assert!(e.is_type_mismatch());
            assert_eq!(Some(0), e.position());
        }
        other => panic!("unexpected {:?}", other),
    }
}
