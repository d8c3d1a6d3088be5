use der::{
    Any, Choice, ContextSpecific, Decode, Decoder, Encode, Encoder, ErrorKind, Length, Reader, Tag,
    TagNumber, UIntBytes, UtcTime, Utf8String,
};

#[test]
fn any_holds_a_tag_and_contents() {
    let bytes = [0x04, 0x03, 1, 2, 3, 0x05, 0x00];
    let mut decoder = Decoder::new(&bytes).unwrap();
    let first = Any::decode(&mut decoder).unwrap();
    assert_eq!(first.tag(), Tag::OctetString);
    assert_eq!(first.value(), &[1, 2, 3]);
    assert_eq!(decoder.position(), Length(5));
    let second = Any::decode(&mut decoder).unwrap();
    assert_eq!(second.tag(), Tag::Null);
    assert_eq!(second.value(), &[] as &[u8]);
    assert!(decoder.is_finished());
    assert_eq!(first.to_vec().unwrap(), &bytes[..5]);
    assert_eq!(first.encoded_len().unwrap(), Length(5));
    assert_eq!(second.to_vec().unwrap(), &bytes[5..]);
}

#[test]
fn any_of_a_tag_and_bytes() {
    let any = Any::new(Tag::OctetString, &[1, 2, 3]).unwrap();
    assert_eq!(any.to_vec().unwrap(), [0x04, 0x03, 1, 2, 3]);
    assert_eq!(any, Any::from_der(&[0x04, 0x03, 1, 2, 3]).unwrap());
    let bad = Tag::ContextSpecific { constructed: true, number: TagNumber(31) };
    assert_eq!(Any::new(bad, &[]).unwrap_err().kind(), ErrorKind::TagNumberInvalid);
}

#[test]
fn any_decodes_whatever_the_tag() {
    assert!(Any::can_decode(Tag::Null));
    assert!(Any::can_decode(Tag::Sequence));
    assert!(UtcTime::can_decode(Tag::UtcTime));
    assert!(!UtcTime::can_decode(Tag::GeneralizedTime));
    assert!(UIntBytes::can_decode(Tag::Integer));
    let present = Option::<Any>::from_der(&[0x05, 0x00]).unwrap();
    assert_eq!(present.unwrap().tag(), Tag::Null);
    assert_eq!(Option::<Any>::from_der(&[]).unwrap(), None);
}

#[test]
fn any_cut_short_is_incomplete() {
    assert_eq!(
        Any::from_der(&[0x04, 0x03, 1, 2]).unwrap_err().kind(),
        ErrorKind::Incomplete { expected_len: Length(3), actual_len: Length(2) }
    );
    assert_eq!(
        Any::from_der(&[0x04, 0x03, 1, 2, 3, 4]).unwrap_err().kind(),
        ErrorKind::TrailingData { decoded: Length(5), remaining: Length(1) }
    );
}

#[test]
fn any_decodes_into_the_type_of_its_tag() {
    let any = Any::from_der(&[0x02, 0x02, 0x00, 0x80]).unwrap();
    let number: UIntBytes<'_> = any.decode_into().unwrap();
    assert_eq!(number.as_bytes(), &[0x80]);
    let wrong: Result<Utf8String<'_>, _> = any.decode_into();
    assert_eq!(
        wrong.unwrap_err().kind(),
        ErrorKind::TagUnexpected { expected: Some(Tag::Utf8String), actual: Tag::Integer }
    );
    let any = Any::from_der(&[0x02, 0x02, 0x00, 0x7f]).unwrap();
    let bad: Result<UIntBytes<'_>, _> = any.decode_into();
    assert_eq!(bad.unwrap_err().kind(), ErrorKind::Noncanonical { tag: Tag::Integer });
}

#[test]
fn utc_time_from_any() {
    let bytes =
        [0x17, 0x0d, 0x39, 0x31, 0x30, 0x35, 0x30, 0x36, 0x32, 0x33, 0x34, 0x35, 0x34, 0x30, 0x5a];
    let any = Any::from_der(&bytes).unwrap();
    let time = UtcTime::try_from(any).unwrap();
    assert_eq!(time.to_unix_duration().as_secs(), 673573540);
    let any = Any::new(Tag::GeneralizedTime, &bytes[2..]).unwrap();
    assert_eq!(
        UtcTime::try_from(any).unwrap_err().kind(),
        ErrorKind::TagUnexpected { expected: Some(Tag::UtcTime), actual: Tag::GeneralizedTime }
    );
}

#[test]
fn utf8_string_round_trips() {
    let bytes = [0x0c, 0x05, b'h', b'e', b'l', b'l', b'o'];
    let string = Utf8String::from_der(&bytes).unwrap();
    assert_eq!(string.as_str(), "hello");
    assert_eq!(string.as_bytes(), b"hello");
    assert_eq!(string.to_string(), "hello");
    assert_eq!(string.to_vec().unwrap(), bytes);
    assert_eq!(Utf8String::new("h\u{e9}".as_bytes()).unwrap().to_vec().unwrap(), [
        0x0c, 0x03, b'h', 0xc3, 0xa9
    ]);
    assert_eq!(Utf8String::from_der(&[0x0c, 0x01, 0x80]).unwrap_err().kind(), ErrorKind::Utf8);
    assert_eq!(Utf8String::from_der(&[0x0c, 0x02, 0xc3, 0x28]).unwrap_err().kind(), ErrorKind::Utf8);
    assert_eq!(Utf8String::new(&[0xed, 0xa0, 0x80]).unwrap_err().kind(), ErrorKind::Utf8);
}

#[test]
fn explicit_tag_around_a_value() {
    let bytes = [0xa1, 0x03, 0x02, 0x01, 0x07, 0x05, 0x00];
    let mut decoder = Decoder::new(&bytes).unwrap();
    let absent = ContextSpecific::<UIntBytes>::decode_explicit(&mut decoder, TagNumber(0)).unwrap();
    assert!(absent.is_none());
    assert_eq!(decoder.position(), Length(0));
    let field = ContextSpecific::<UIntBytes>::decode_explicit(&mut decoder, TagNumber(1))
        .unwrap()
        .unwrap();
    assert_eq!(field.tag_number, TagNumber(1));
    assert_eq!(field.value.as_bytes(), &[7]);
    assert_eq!(decoder.position(), Length(5));
    let absent = ContextSpecific::<UIntBytes>::decode_explicit(&mut decoder, TagNumber(1)).unwrap();
    assert!(absent.is_none());
    assert_eq!(decoder.position(), Length(5));
    assert_eq!(field.encoded_len().unwrap(), Length(5));
    let mut out = Vec::new();
    field.encode(&mut out).unwrap();
    assert_eq!(out, &bytes[..5]);
    let mut buf = [0u8; 4];
    let mut encoder = Encoder::new(&mut buf);
    assert_eq!(field.encode(&mut encoder).unwrap_err().kind(), ErrorKind::Overlength);
    assert_eq!(encoder.finish().unwrap(), &[] as &[u8]);
}

#[test]
fn explicit_tag_errors() {
    let mut decoder = Decoder::new(&[]).unwrap();
    assert!(ContextSpecific::<UIntBytes>::decode_explicit(&mut decoder, TagNumber(0))
        .unwrap()
        .is_none());
    // The primitive form of the tag.
    let mut decoder = Decoder::new(&[0x81, 0x03, 0x02, 0x01, 0x07]).unwrap();
    assert_eq!(
        ContextSpecific::<UIntBytes>::decode_explicit(&mut decoder, TagNumber(1))
            .unwrap_err()
            .kind(),
        ErrorKind::Noncanonical {
            tag: Tag::ContextSpecific { constructed: false, number: TagNumber(1) }
        }
    );
    // Another type under the tag.
    let mut decoder = Decoder::new(&[0xa1, 0x02, 0x05, 0x00]).unwrap();
    assert_eq!(
        ContextSpecific::<UIntBytes>::decode_explicit(&mut decoder, TagNumber(1))
            .unwrap_err()
            .kind(),
        ErrorKind::TagUnexpected { expected: Some(Tag::Integer), actual: Tag::Null }
    );
    // Two values under the tag.
    let mut decoder = Decoder::new(&[0xa1, 0x05, 0x02, 0x01, 0x07, 0x05, 0x00]).unwrap();
    assert_eq!(
        ContextSpecific::<UIntBytes>::decode_explicit(&mut decoder, TagNumber(1))
            .unwrap_err()
            .kind(),
        ErrorKind::TrailingData { decoded: Length(3), remaining: Length(2) }
    );
    // Contents cut short.
    let mut decoder = Decoder::new(&[0xa1, 0x03, 0x02, 0x01]).unwrap();
    assert_eq!(
        ContextSpecific::<UIntBytes>::decode_explicit(&mut decoder, TagNumber(1))
            .unwrap_err()
            .kind(),
        ErrorKind::Incomplete { expected_len: Length(3), actual_len: Length(2) }
    );
}
