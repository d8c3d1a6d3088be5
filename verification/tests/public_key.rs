use der::{
    Decode, Decoder, Document, Encode, Encoder, ErrorKind, Length, RsaPublicKey, Tag, UIntBytes,
};

/// A key with the modulus 0x00c0ffee01 and the public exponent 65537.
const KEY: [u8; 14] =
    [0x30, 0x0c, 0x02, 0x05, 0x00, 0xc0, 0xff, 0xee, 0x01, 0x02, 0x03, 0x01, 0x00, 0x01];

#[test]
fn rsa_public_key_round_trips() {
    let key = RsaPublicKey::from_der(&KEY).unwrap();
    assert_eq!(key.modulus.as_bytes(), &[0xc0, 0xff, 0xee, 0x01]);
    assert_eq!(key.public_exponent.as_bytes(), &[0x01, 0x00, 0x01]);
    assert_eq!(key.encoded_len().unwrap(), Length(14));
    assert_eq!(key.to_vec().unwrap(), KEY);
    let mut buf = [0u8; 32];
    let mut encoder = Encoder::new(&mut buf);
    key.encode(&mut encoder).unwrap();
    assert_eq!(encoder.finish().unwrap(), KEY);
}

#[test]
fn rsa_public_key_from_its_numbers() {
    let key = RsaPublicKey {
        modulus: UIntBytes::new(&[0x00, 0x00, 0xc0, 0xff, 0xee, 0x01]).unwrap(),
        public_exponent: UIntBytes::new(&[0x01, 0x00, 0x01]).unwrap(),
    };
    assert_eq!(key.to_vec().unwrap(), KEY);
    assert_eq!(key, RsaPublicKey::from_der(&KEY).unwrap());
    assert_eq!(RsaPublicKey::try_from(&KEY[..]).unwrap(), key);
}

#[test]
fn a_sequence_with_bytes_behind_its_fields_is_refused() {
    // A third INTEGER inside the SEQUENCE.
    let bytes = [0x30, 0x09, 0x02, 0x01, 0x05, 0x02, 0x01, 0x03, 0x02, 0x01, 0x01];
    assert_eq!(
        RsaPublicKey::from_der(&bytes).unwrap_err().kind(),
        ErrorKind::TrailingData { decoded: Length(6), remaining: Length(3) }
    );
    // One stray byte inside the SEQUENCE.
    let bytes = [0x30, 0x07, 0x02, 0x01, 0x05, 0x02, 0x01, 0x03, 0x00];
    assert_eq!(
        RsaPublicKey::from_der(&bytes).unwrap_err().kind(),
        ErrorKind::TrailingData { decoded: Length(6), remaining: Length(1) }
    );
    let bytes = [0x30, 0x06, 0x02, 0x01, 0x05, 0x02, 0x01, 0x03];
    assert!(RsaPublicKey::from_der(&bytes).is_ok());
}

#[test]
fn bytes_behind_the_sequence_are_refused() {
    let mut bytes = KEY.to_vec();
    bytes.push(0x00);
    assert_eq!(
        RsaPublicKey::from_der(&bytes).unwrap_err().kind(),
        ErrorKind::TrailingData { decoded: Length(14), remaining: Length(1) }
    );
    let mut decoder = Decoder::new(&bytes).unwrap();
    assert!(RsaPublicKey::decode(&mut decoder).is_ok());
    assert_eq!(der::Reader::remaining_len(&decoder), Length(1));
}

#[test]
fn a_key_cut_short_is_incomplete() {
    for len in 2..KEY.len() {
        assert_eq!(
            RsaPublicKey::from_der(&KEY[..len]).unwrap_err().kind(),
            ErrorKind::Incomplete {
                expected_len: Length(12),
                actual_len: Length(len as u32 - 2)
            }
        );
    }
    assert_eq!(
        RsaPublicKey::from_der(&KEY[..1]).unwrap_err().kind(),
        ErrorKind::Incomplete { expected_len: Length(1), actual_len: Length(0) }
    );
    assert_eq!(
        RsaPublicKey::from_der(&[]).unwrap_err().kind(),
        ErrorKind::Incomplete { expected_len: Length(1), actual_len: Length(0) }
    );
}

#[test]
fn a_sequence_that_declares_less_than_its_fields_need_is_incomplete_inside() {
    // The SEQUENCE says 5 bytes; the second INTEGER says 3 where 1 is left.
    let bytes = [0x30, 0x05, 0x02, 0x01, 0x05, 0x02, 0x03, 0x01, 0x00, 0x01];
    let mut decoder = Decoder::new(&bytes).unwrap();
    assert_eq!(
        RsaPublicKey::decode(&mut decoder).unwrap_err().kind(),
        ErrorKind::Incomplete { expected_len: Length(3), actual_len: Length(0) }
    );
    // One field only.
    let bytes = [0x30, 0x03, 0x02, 0x01, 0x05];
    assert_eq!(
        RsaPublicKey::from_der(&bytes).unwrap_err().kind(),
        ErrorKind::Incomplete { expected_len: Length(1), actual_len: Length(0) }
    );
}

#[test]
fn a_key_under_another_tag_is_unexpected() {
    let mut bytes = KEY;
    bytes[0] = 0x31;
    assert_eq!(
        RsaPublicKey::from_der(&bytes).unwrap_err().kind(),
        ErrorKind::TagUnexpected { expected: Some(Tag::Sequence), actual: Tag::SetOf }
    );
    let bytes = [0x30, 0x06, 0x04, 0x01, 0x05, 0x02, 0x01, 0x03];
    assert_eq!(
        RsaPublicKey::from_der(&bytes).unwrap_err().kind(),
        ErrorKind::TagUnexpected { expected: Some(Tag::Integer), actual: Tag::OctetString }
    );
}

#[test]
fn integers_in_another_than_the_shortest_form_are_refused() {
    let noncanonical = ErrorKind::Noncanonical { tag: Tag::Integer };
    assert_eq!(UIntBytes::from_der(&[0x02, 0x00]).unwrap_err().kind(), noncanonical);
    assert_eq!(UIntBytes::from_der(&[0x02, 0x02, 0x00, 0x7f]).unwrap_err().kind(), noncanonical);
    assert_eq!(UIntBytes::from_der(&[0x02, 0x02, 0x00, 0x00]).unwrap_err().kind(), noncanonical);
    assert_eq!(
        UIntBytes::from_der(&[0x02, 0x03, 0x00, 0x00, 0x80]).unwrap_err().kind(),
        noncanonical
    );
    assert_eq!(
        UIntBytes::from_der(&[0x02, 0x81, 0x01, 0x05]).unwrap_err().kind(),
        ErrorKind::Length { tag: Tag::Integer }
    );
}

#[test]
fn negative_integers_are_a_value_error() {
    let value = ErrorKind::Value { tag: Tag::Integer };
    assert_eq!(UIntBytes::from_der(&[0x02, 0x01, 0x80]).unwrap_err().kind(), value);
    assert_eq!(UIntBytes::from_der(&[0x02, 0x01, 0xff]).unwrap_err().kind(), value);
    assert_eq!(UIntBytes::from_der(&[0x02, 0x02, 0xff, 0x7f]).unwrap_err().kind(), value);
}

#[test]
fn integers_round_trip() {
    let cases: [(&[u8], &[u8]); 6] = [
        (&[0x00], &[0x02, 0x01, 0x00]),
        (&[0x01], &[0x02, 0x01, 0x01]),
        (&[0x7f], &[0x02, 0x01, 0x7f]),
        (&[0x80], &[0x02, 0x02, 0x00, 0x80]),
        (&[0xff, 0xff], &[0x02, 0x03, 0x00, 0xff, 0xff]),
        (&[0x01, 0x00, 0x01], &[0x02, 0x03, 0x01, 0x00, 0x01]),
    ];
    for (number, encoding) in cases {
        let value = UIntBytes::new(number).unwrap();
        assert_eq!(value.as_bytes(), number);
        assert_eq!(value.to_vec().unwrap(), encoding);
        assert_eq!(value.encoded_len().unwrap(), Length(encoding.len() as u32));
        let decoded = UIntBytes::from_der(encoding).unwrap();
        assert_eq!(decoded.as_bytes(), number);
        assert_eq!(decoded, value);
    }
}

#[test]
fn leading_zero_bytes_of_a_number_are_dropped() {
    assert_eq!(UIntBytes::new(&[0, 0, 0]).unwrap().as_bytes(), &[0]);
    assert_eq!(UIntBytes::new(&[0, 0, 5, 0]).unwrap().as_bytes(), &[5, 0]);
    assert_eq!(UIntBytes::new(&[0]).unwrap().as_bytes(), &[0]);
    assert_eq!(UIntBytes::new(&[0, 0x80]).unwrap().as_bytes(), &[0x80]);
    assert_eq!(
        UIntBytes::new(&[]).unwrap_err().kind(),
        ErrorKind::Value { tag: Tag::Integer }
    );
    assert_eq!(UIntBytes::new(&[0, 1, 2]).unwrap().len(), Length(2));
}

#[test]
fn a_long_modulus_has_a_long_form_length() {
    let modulus = [0xabu8; 256];
    let key = RsaPublicKey {
        modulus: UIntBytes::new(&modulus).unwrap(),
        public_exponent: UIntBytes::new(&[0x01, 0x00, 0x01]).unwrap(),
    };
    let bytes = key.to_vec().unwrap();
    assert_eq!(&bytes[..9], &[0x30, 0x82, 0x01, 0x0a, 0x02, 0x82, 0x01, 0x01, 0x00]);
    assert_eq!(bytes.len(), 4 + 0x10a);
    assert_eq!(key.encoded_len().unwrap(), Length(4 + 0x10a));
    let decoded = RsaPublicKey::from_der(&bytes).unwrap();
    assert_eq!(decoded.modulus.as_bytes(), &modulus);
    assert_eq!(decoded, key);
}

#[test]
fn a_key_is_written_whole_or_not_at_all() {
    let key = RsaPublicKey::from_der(&KEY).unwrap();
    for room in 0..KEY.len() {
        let mut buf = vec![0u8; room];
        let mut encoder = Encoder::new(&mut buf);
        assert_eq!(key.encode(&mut encoder).unwrap_err().kind(), ErrorKind::Overlength);
        assert_eq!(encoder.finish().unwrap(), &[] as &[u8]);
    }
}

#[test]
fn document_of_a_key() {
    let key = RsaPublicKey::from_der(&KEY).unwrap();
    let document = Document::try_from(key).unwrap();
    assert_eq!(document.as_bytes(), KEY);
    let by_reference = Document::try_from(&key).unwrap();
    assert_eq!(by_reference, document);
    assert_eq!(Document::encode_msg(&key).unwrap(), document);
    let decoded: RsaPublicKey<'_> = document.decode_msg().unwrap();
    assert_eq!(decoded, key);
}
