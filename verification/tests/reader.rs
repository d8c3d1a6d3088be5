use der::{Decode, Decoder, Encoder, ErrorKind, Header, Length, Reader, Tag, Writer};

#[test]
fn a_reader_starts_at_the_front() {
    let bytes = [0x30, 0x03, 0x02, 0x01, 0x07];
    let decoder = Decoder::new(&bytes).unwrap();
    assert_eq!(decoder.input_len(), Length(5));
    assert_eq!(decoder.position(), Length(0));
    assert_eq!(decoder.remaining_len(), Length(5));
    assert!(!decoder.is_finished());
    assert_eq!(decoder.peek_byte(), Some(0x30));
    assert_eq!(decoder.peek_tag().unwrap(), Tag::Sequence);
    assert_eq!(decoder.peek_header().unwrap(), Header::new(Tag::Sequence, Length(3)));
}

#[test]
fn peeking_does_not_move_the_cursor() {
    let bytes = [0x30, 0x03, 0x02, 0x01, 0x07];
    let decoder = Decoder::new(&bytes).unwrap();
    for _ in 0..3 {
        assert_eq!(decoder.peek_byte(), Some(0x30));
        assert_eq!(decoder.peek_tag().unwrap(), Tag::Sequence);
        assert_eq!(decoder.peek_header().unwrap(), Header::new(Tag::Sequence, Length(3)));
        assert_eq!(decoder.position(), Length(0));
        assert_eq!(decoder.remaining_len(), Length(5));
    }
}

#[test]
fn position_and_remaining_length_add_up_to_the_input_length() {
    let bytes = [1u8, 2, 3, 4, 5, 6, 7];
    let mut decoder = Decoder::new(&bytes).unwrap();
    for step in [0u32, 1, 2, 0, 3, 1] {
        let before = decoder.position().0;
        let slice = decoder.read_slice(Length(step)).unwrap();
        assert_eq!(slice, &bytes[before as usize..(before + step) as usize]);
        assert_eq!(decoder.position(), Length(before + step));
        assert_eq!(decoder.position().0 + decoder.remaining_len().0, decoder.input_len().0);
        assert!(decoder.position().0 <= decoder.input_len().0);
    }
    assert!(decoder.is_finished());
    assert_eq!(decoder.peek_byte(), None);
}

#[test]
fn a_read_of_more_than_is_left_is_incomplete_and_reads_nothing() {
    let bytes = [1u8, 2, 3];
    let mut decoder = Decoder::new(&bytes).unwrap();
    decoder.read_byte().unwrap();
    let err = decoder.read_slice(Length(3)).unwrap_err();
    assert_eq!(
        err.kind(),
        ErrorKind::Incomplete { expected_len: Length(3), actual_len: Length(2) }
    );
    assert_eq!(decoder.position(), Length(1));
    assert_eq!(decoder.remaining_len(), Length(2));
    assert_eq!(decoder.read_slice(Length(2)).unwrap(), &[2, 3]);
    let err = decoder.read_byte().unwrap_err();
    assert_eq!(
        err.kind(),
        ErrorKind::Incomplete { expected_len: Length(1), actual_len: Length(0) }
    );
    assert_eq!(decoder.position(), Length(3));
}

#[test]
fn read_into_fills_the_buffer_or_leaves_it() {
    let bytes = [1u8, 2, 3, 4];
    let mut decoder = Decoder::new(&bytes).unwrap();
    let mut buf = [0u8; 3];
    assert_eq!(decoder.read_into(&mut buf).unwrap(), &[1, 2, 3]);
    assert_eq!(buf, [1, 2, 3]);
    assert_eq!(decoder.position(), Length(3));
    let mut buf = [9u8; 2];
    let err = decoder.read_into(&mut buf).unwrap_err();
    assert_eq!(
        err.kind(),
        ErrorKind::Incomplete { expected_len: Length(2), actual_len: Length(1) }
    );
    assert_eq!(buf, [9, 9]);
    assert_eq!(decoder.position(), Length(3));
    let mut empty = [0u8; 0];
    assert_eq!(decoder.read_into(&mut empty).unwrap(), &[] as &[u8]);
}

#[test]
fn peek_at_the_end_of_the_input() {
    let decoder = Decoder::new(&[]).unwrap();
    assert!(decoder.is_finished());
    assert_eq!(decoder.peek_byte(), None);
    assert_eq!(
        decoder.peek_tag().unwrap_err().kind(),
        ErrorKind::Incomplete { expected_len: Length(1), actual_len: Length(0) }
    );
    assert_eq!(
        decoder.peek_header().unwrap_err().kind(),
        ErrorKind::Incomplete { expected_len: Length(1), actual_len: Length(0) }
    );
}

#[test]
fn peek_tag_at_the_end_counts_from_the_start_of_the_input() {
    let bytes = [0x05, 0x00];
    let mut decoder = Decoder::new(&bytes).unwrap();
    assert_eq!(decoder.peek_tag().unwrap(), Tag::Null);
    decoder.read_slice(Length(2)).unwrap();
    assert_eq!(
        decoder.peek_tag().unwrap_err().kind(),
        ErrorKind::Incomplete { expected_len: Length(3), actual_len: Length(2) }
    );
    assert_eq!(decoder.peek_tag().unwrap_err(), der::Error::incomplete(decoder.input_len()));
    assert_eq!(decoder.position(), Length(2));
    assert_eq!(decoder.remaining_len(), Length(0));
    // A read at the same place counts from the cursor.
    assert_eq!(
        decoder.read_byte().unwrap_err().kind(),
        ErrorKind::Incomplete { expected_len: Length(1), actual_len: Length(0) }
    );
}

#[test]
fn peek_header_reports_what_decoding_would() {
    let decoder = Decoder::new(&[0x30, 0x81, 0x03]).unwrap();
    assert_eq!(
        decoder.peek_header().unwrap_err().kind(),
        ErrorKind::Length { tag: Tag::Sequence }
    );
    assert_eq!(decoder.position(), Length(0));
    let decoder = Decoder::new(&[0x3f, 0x00]).unwrap();
    assert_eq!(decoder.peek_tag().unwrap_err().kind(), ErrorKind::TagNumberInvalid);
}

#[test]
fn a_copy_of_a_reader_moves_alone() {
    let bytes = [1u8, 2, 3];
    let mut decoder = Decoder::new(&bytes).unwrap();
    let mut copy = decoder.clone();
    assert_eq!(copy.read_byte().unwrap(), 1);
    assert_eq!(copy.read_byte().unwrap(), 2);
    assert_eq!(decoder.position(), Length(0));
    assert_eq!(decoder.read_byte().unwrap(), 1);
    assert_eq!(copy.position(), Length(2));
}

#[test]
fn finish_refuses_what_is_left() {
    let bytes = [1u8, 2, 3];
    let mut decoder = Decoder::new(&bytes).unwrap();
    decoder.read_byte().unwrap();
    assert_eq!(
        decoder.finish(7).unwrap_err().kind(),
        ErrorKind::TrailingData { decoded: Length(1), remaining: Length(2) }
    );
    decoder.read_slice(Length(2)).unwrap();
    assert_eq!(decoder.finish(7).unwrap(), 7);
}

#[test]
fn sequence_hands_out_a_decoder_over_the_contents() {
    let bytes = [0x30, 0x03, 0x02, 0x01, 0x07, 0x05, 0x00];
    let mut decoder = Decoder::new(&bytes).unwrap();
    let mut body = decoder.sequence().unwrap();
    assert_eq!(decoder.position(), Length(5));
    assert_eq!(body.input_len(), Length(3));
    assert_eq!(body.position(), Length(0));
    assert_eq!(body.read_slice(Length(3)).unwrap(), &[0x02, 0x01, 0x07]);
    assert!(body.is_finished());
    assert_eq!(decoder.peek_tag().unwrap(), Tag::Null);
}

#[test]
fn sequence_refuses_other_tags_and_short_contents() {
    let mut decoder = Decoder::new(&[0x31, 0x00]).unwrap();
    assert_eq!(
        decoder.sequence().unwrap_err().kind(),
        ErrorKind::TagUnexpected { expected: Some(Tag::Sequence), actual: Tag::SetOf }
    );
    let mut decoder = Decoder::new(&[0x30, 0x03, 0x02, 0x01]).unwrap();
    assert_eq!(
        decoder.sequence().unwrap_err().kind(),
        ErrorKind::Incomplete { expected_len: Length(3), actual_len: Length(2) }
    );
    let mut decoder = Decoder::new(&[0x30, 0x00]).unwrap();
    let body = decoder.sequence().unwrap();
    assert!(body.is_finished());
    assert!(decoder.is_finished());
}

#[test]
fn read_nested_takes_the_contents_alone() {
    let bytes = [9u8, 8, 7, 6];
    let mut decoder = Decoder::new(&bytes).unwrap();
    let mut body = decoder.read_nested(Length(3)).unwrap();
    assert_eq!(body.read_byte().unwrap(), 9);
    assert_eq!(body.remaining_len(), Length(2));
    assert_eq!(decoder.remaining_len(), Length(1));
    assert_eq!(
        decoder.read_nested(Length(2)).unwrap_err().kind(),
        ErrorKind::Incomplete { expected_len: Length(2), actual_len: Length(1) }
    );
}

#[test]
fn an_encoder_writes_from_the_front() {
    let mut buf = [0u8; 4];
    let mut encoder = Encoder::new(&mut buf);
    assert_eq!(encoder.room_left(), Length(4));
    encoder.write(&[1, 2]).unwrap();
    assert_eq!(encoder.room_left(), Length(2));
    encoder.write_byte(3).unwrap();
    encoder.write(&[]).unwrap();
    assert_eq!(encoder.write(&[4, 5]).unwrap_err().kind(), ErrorKind::Overlength);
    assert_eq!(encoder.room_left(), Length(1));
    encoder.write_byte(4).unwrap();
    assert_eq!(encoder.write_byte(5).unwrap_err().kind(), ErrorKind::Overlength);
    assert_eq!(encoder.finish().unwrap(), [1, 2, 3, 4]);
    assert_eq!(buf, [1, 2, 3, 4]);
}

#[test]
fn a_vector_takes_what_is_written() {
    let mut out: Vec<u8> = vec![7];
    out.write(&[1, 2]).unwrap();
    out.write_byte(3).unwrap();
    assert_eq!(out, [7, 1, 2, 3]);
    assert_eq!(out.room_left(), Length(0x0fff_ffff - 4));
}

/// Input that holds a NULL and then `value`, read up to `value`.
fn behind_a_null(value: &[u8]) -> Vec<u8> {
    let mut bytes = vec![0x05, 0x00];
    bytes.extend_from_slice(value);
    bytes
}

#[test]
fn a_decode_that_fails_leaves_the_cursor_where_it_was() {
    let bad_times: [&[u8]; 7] = [
        b"\x17\x0d9105062345400",
        b"\x17\x0d91",
        b"\x17\x81\x0d",
        b"\x17\x82\x01",
        b"\x18\x00",
        b"\x1f\x00",
        b"\x17",
    ];
    for value in bad_times {
        let bytes = behind_a_null(value);
        let mut decoder = Decoder::new(&bytes).unwrap();
        decoder.read_slice(Length(2)).unwrap();
        assert!(der::UtcTime::decode(&mut decoder).is_err());
        assert_eq!(decoder.position(), Length(2));
        assert!(der::RsaPublicKey::decode(&mut decoder).is_err());
        assert_eq!(decoder.position(), Length(2));
        assert!(decoder.sequence().is_err());
        assert_eq!(decoder.position(), Length(2));
    }
}

#[test]
fn a_header_that_fails_leaves_the_cursor_where_it_was() {
    let bad_headers: [&[u8]; 6] =
        [b"\x17\x81\x0d", b"\x17\x82\x01", b"\x17\x80", b"\x1f\x00", b"\x17", b""];
    for value in bad_headers {
        let bytes = behind_a_null(value);
        let mut decoder = Decoder::new(&bytes).unwrap();
        decoder.read_slice(Length(2)).unwrap();
        assert!(Header::decode(&mut decoder).is_err());
        assert_eq!(decoder.position(), Length(2));
        assert!(der::Any::decode(&mut decoder).is_err());
        assert_eq!(decoder.position(), Length(2));
    }
    let bytes = behind_a_null(b"\x81\x05");
    let mut decoder = Decoder::new(&bytes).unwrap();
    decoder.read_slice(Length(2)).unwrap();
    assert!(Length::decode(&mut decoder).is_err());
    assert_eq!(decoder.position(), Length(2));
    let bytes = behind_a_null(b"\x3f");
    let mut decoder = Decoder::new(&bytes).unwrap();
    decoder.read_slice(Length(2)).unwrap();
    assert!(Tag::decode(&mut decoder).is_err());
    assert_eq!(decoder.position(), Length(2));
}

#[test]
fn an_explicit_tag_that_fails_leaves_the_cursor_where_it_was() {
    let bad: [&[u8]; 4] =
        [b"\xa0\x03\x05\x00\x00", b"\x80\x02\x05\x00", b"\xa0\x02\x05", b"\xa0\x02\x17\x00"];
    for value in bad {
        let bytes = behind_a_null(value);
        let mut decoder = Decoder::new(&bytes).unwrap();
        decoder.read_slice(Length(2)).unwrap();
        let field = der::ContextSpecific::<der::UtcTime>::decode_explicit(
            &mut decoder,
            der::TagNumber(0),
        );
        assert!(field.is_err());
        assert_eq!(decoder.position(), Length(2));
    }
}
