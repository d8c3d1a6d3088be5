use der::{Any, Decode, Encode, ErrorKind, Length, ObjectIdentifier, OtherName, Tag, TagNumber};

const INPUT: [u8; 35] = [
    0x30, 0x21, 0x06, 0x0A, 0x2B, 0x06, 0x01, 0x04, 0x01, 0x82, 0x37, 0x14, 0x02, 0x03, 0xA0, 0x13,
    0x0C, 0x11, 0x55, 0x70, 0x6E, 0x5F, 0x32, 0x31, 0x34, 0x39, 0x35, 0x30, 0x31, 0x33, 0x30, 0x40,
    0x6D, 0x69, 0x6C,
];

#[test]
fn test() {
    let input = INPUT;
    let decoded = OtherName::from_der(&input).unwrap();

    let onval = decoded.value.utf8_string().unwrap();
    assert_eq!(onval.to_string(), "Upn_214950130@mil");

    let encoded = decoded.to_vec().unwrap();
    assert_eq!(&input[..], &encoded);
}

#[test]
fn other_name_fields() {
    let decoded = OtherName::from_der(&INPUT).unwrap();
    assert_eq!(
        decoded.type_id.as_bytes(),
        &[0x2B, 0x06, 0x01, 0x04, 0x01, 0x82, 0x37, 0x14, 0x02, 0x03]
    );
    assert_eq!(decoded.value.tag(), Tag::Utf8String);
    assert_eq!(decoded.value.value(), b"Upn_214950130@mil");
    assert_eq!(decoded.encoded_len().unwrap(), Length(35));
}

#[test]
fn other_name_built_from_its_fields_encodes_alike() {
    let name = OtherName {
        type_id: ObjectIdentifier::from_bytes(&INPUT[4..14]).unwrap(),
        value: Any::new(Tag::Utf8String, b"Upn_214950130@mil").unwrap(),
    };
    assert_eq!(name.to_vec().unwrap(), INPUT);
    assert_eq!(name, OtherName::from_der(&INPUT).unwrap());
}

#[test]
fn other_name_without_the_tagged_value_is_a_value_error() {
    let bytes = [0x30, 0x03, 0x06, 0x01, 0x2a];
    assert_eq!(
        OtherName::from_der(&bytes).unwrap_err().kind(),
        ErrorKind::Value { tag: Tag::ContextSpecific { constructed: true, number: TagNumber(0) } }
    );
    // Another tag than [0] where the value is due.
    let bytes = [0x30, 0x07, 0x06, 0x01, 0x2a, 0xa1, 0x02, 0x05, 0x00];
    assert_eq!(
        OtherName::from_der(&bytes).unwrap_err().kind(),
        ErrorKind::Value { tag: Tag::ContextSpecific { constructed: true, number: TagNumber(0) } }
    );
}

#[test]
fn other_name_with_a_primitive_tag_zero_is_not_canonical() {
    let bytes = [0x30, 0x07, 0x06, 0x01, 0x2a, 0x80, 0x02, 0x05, 0x00];
    assert_eq!(
        OtherName::from_der(&bytes).unwrap_err().kind(),
        ErrorKind::Noncanonical {
            tag: Tag::ContextSpecific { constructed: false, number: TagNumber(0) }
        }
    );
}

#[test]
fn other_name_with_bytes_behind_the_tagged_value_is_refused() {
    // Behind the value under the tag, inside the tag.
    let bytes = [0x30, 0x08, 0x06, 0x01, 0x2a, 0xa0, 0x03, 0x05, 0x00, 0x00];
    assert_eq!(
        OtherName::from_der(&bytes).unwrap_err().kind(),
        ErrorKind::TrailingData { decoded: Length(2), remaining: Length(1) }
    );
    // Behind the tagged value, inside the sequence.
    let bytes = [0x30, 0x09, 0x06, 0x01, 0x2a, 0xa0, 0x02, 0x05, 0x00, 0x05, 0x00];
    assert_eq!(
        OtherName::from_der(&bytes).unwrap_err().kind(),
        ErrorKind::TrailingData { decoded: Length(7), remaining: Length(2) }
    );
}

#[test]
fn other_name_value_of_another_type_is_no_utf8_string() {
    let bytes = [0x30, 0x07, 0x06, 0x01, 0x2a, 0xa0, 0x02, 0x05, 0x00];
    let decoded = OtherName::from_der(&bytes).unwrap();
    assert_eq!(decoded.value.tag(), Tag::Null);
    assert_eq!(
        decoded.value.utf8_string().unwrap_err().kind(),
        ErrorKind::TagUnexpected { expected: Some(Tag::Utf8String), actual: Tag::Null }
    );
    assert_eq!(decoded.to_vec().unwrap(), bytes);
}

#[test]
fn bytes_that_are_not_utf8_are_no_utf8_string() {
    let bytes = [0x30, 0x08, 0x06, 0x01, 0x2a, 0xa0, 0x03, 0x0c, 0x01, 0xff];
    let decoded = OtherName::from_der(&bytes).unwrap();
    assert_eq!(decoded.value.utf8_string().unwrap_err().kind(), ErrorKind::Utf8);
    let bytes = [0x30, 0x09, 0x06, 0x01, 0x2a, 0xa0, 0x04, 0x0c, 0x02, 0xc3, 0xa9];
    let decoded = OtherName::from_der(&bytes).unwrap();
    assert_eq!(decoded.value.utf8_string().unwrap().as_str(), "\u{e9}");
}

#[test]
fn object_identifier_arcs() {
    assert!(ObjectIdentifier::from_bytes(&[0x2a]).is_ok());
    assert!(ObjectIdentifier::from_bytes(&[0x2a, 0x86, 0x48]).is_ok());
    assert_eq!(ObjectIdentifier::from_bytes(&[]).unwrap_err().kind(), ErrorKind::OidMalformed);
    assert_eq!(
        ObjectIdentifier::from_bytes(&[0x2a, 0x86]).unwrap_err().kind(),
        ErrorKind::OidMalformed
    );
    assert_eq!(
        ObjectIdentifier::from_bytes(&[0x80, 0x01]).unwrap_err().kind(),
        ErrorKind::OidMalformed
    );
    assert_eq!(
        ObjectIdentifier::from_bytes(&[0x2a, 0x80, 0x01]).unwrap_err().kind(),
        ErrorKind::OidMalformed
    );
    assert!(ObjectIdentifier::from_bytes(&[0x2a, 0x81, 0x80, 0x01]).is_ok());
    assert!(ObjectIdentifier::from_bytes(&[1u8; 39]).is_ok());
    assert_eq!(
        ObjectIdentifier::from_bytes(&[1u8; 40]).unwrap_err().kind(),
        ErrorKind::Length { tag: Tag::ObjectIdentifier }
    );
    let oid = ObjectIdentifier::from_bytes(&[0x2a, 0x86, 0x48]).unwrap();
    assert_eq!(oid.clone(), oid);
    assert_eq!(oid.to_vec().unwrap(), [0x06, 0x03, 0x2a, 0x86, 0x48]);
}
