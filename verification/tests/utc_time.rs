use der::asn1::utc_time::{decode_decimal, encode_decimal, full_year};
use der::{DateTime, Decode, Decoder, Encode, Encoder, ErrorKind, Tag, UtcTime};
use std::time::{Duration, SystemTime, UNIX_EPOCH};

const VALUE_ERROR: ErrorKind = ErrorKind::Value { tag: Tag::UtcTime };

fn utc(text: &str) -> Vec<u8> {
    let mut bytes = vec![0x17, text.len() as u8];
    bytes.extend_from_slice(text.as_bytes());
    bytes
}

#[test]
fn round_trip_vector() {
    let example_bytes = [
        0x17, 0x0d, 0x39, 0x31, 0x30, 0x35, 0x30, 0x36, 0x32, 0x33, 0x34, 0x35, 0x34, 0x30, 0x5a,
    ];
    let utc_time = UtcTime::from_der(&example_bytes).unwrap();
    assert_eq!(utc_time.to_unix_duration().as_secs(), 673573540);

    let mut buf = [0u8; 128];
    let mut encoder = Encoder::new(&mut buf);
    utc_time.encode(&mut encoder).unwrap();
    assert_eq!(example_bytes, encoder.finish().unwrap());
}

#[test]
fn decoded_fields_are_those_of_the_text() {
    let time = UtcTime::from_der(&utc("910506234540Z")).unwrap();
    let datetime = time.to_date_time();
    assert_eq!(datetime.year(), 1991);
    assert_eq!(datetime.month(), 5);
    assert_eq!(datetime.day(), 6);
    assert_eq!(datetime.hour(), 23);
    assert_eq!(datetime.minutes(), 45);
    assert_eq!(datetime.seconds(), 40);
}

#[test]
fn two_digit_year_49_is_2049() {
    let time = UtcTime::from_der(&utc("491231235959Z")).unwrap();
    assert_eq!(time.to_date_time().year(), 2049);
    assert_eq!(time.to_unix_duration().as_secs(), 2_524_607_999);
}

#[test]
fn two_digit_year_00_is_2000() {
    let time = UtcTime::from_der(&utc("000229120000Z")).unwrap();
    assert_eq!(time.to_date_time().year(), 2000);
    assert_eq!(time.to_unix_duration().as_secs(), 951_825_600);
}

#[test]
fn two_digit_year_70_is_1970() {
    let time = UtcTime::from_der(&utc("700101000000Z")).unwrap();
    assert_eq!(time.to_date_time().year(), 1970);
    assert_eq!(time.to_unix_duration().as_secs(), 0);
}

#[test]
fn two_digit_year_99_is_1999() {
    let time = UtcTime::from_der(&utc("991231235959Z")).unwrap();
    assert_eq!(time.to_date_time().year(), 1999);
    assert_eq!(time.to_unix_duration().as_secs(), 946_684_799);
}

#[test]
fn two_digit_years_turn_at_50() {
    assert_eq!(full_year(49).unwrap(), 2049);
    assert_eq!(full_year(50).unwrap(), 1950);
    assert_eq!(full_year(0).unwrap(), 2000);
    assert_eq!(full_year(99).unwrap(), 1999);
    assert_eq!(full_year(u16::MAX - 1900).unwrap(), u16::MAX);
    assert_eq!(full_year(u16::MAX - 1899).unwrap_err().kind(), ErrorKind::DateTime);
}

#[test]
fn two_digit_year_50_is_1950() {
    let time = UtcTime::from_der(&utc("500101000000Z")).unwrap();
    let datetime = time.to_date_time();
    assert_eq!(datetime.year(), 1950);
    assert_eq!((datetime.month(), datetime.day()), (1, 1));
    assert_eq!((datetime.hour(), datetime.minutes(), datetime.seconds()), (0, 0, 0));
    assert_eq!(datetime.unix_seconds(), -631_152_000);
    assert_eq!(time.to_vec().unwrap(), utc("500101000000Z"));
}

#[test]
fn two_digit_year_69_is_1969() {
    let time = UtcTime::from_der(&utc("691231235959Z")).unwrap();
    assert_eq!(time.to_date_time().year(), 1969);
    assert_eq!(time.to_date_time().unix_seconds(), -1);
    assert_eq!(time.to_vec().unwrap(), utc("691231235959Z"));
}

#[test]
fn a_time_before_the_epoch_has_no_duration_from_it() {
    for text in ["500101000000Z", "600229120000Z", "691231235959Z"] {
        let time = UtcTime::from_der(&utc(text)).unwrap();
        assert_eq!(time.checked_to_unix_duration(), None);
        assert_eq!(time.checked_to_system_time(), None);
        assert!(time.to_date_time().unix_seconds() < 0);
    }
    let first = UtcTime::from_der(&utc("700101000000Z")).unwrap();
    assert_eq!(first.to_unix_duration(), Duration::from_secs(0));
    assert_eq!(first.checked_to_unix_duration(), Some(Duration::from_secs(0)));
    assert_eq!(first.checked_to_system_time(), Some(UNIX_EPOCH));
    let second = UtcTime::from_der(&utc("700101000001Z")).unwrap();
    assert_eq!(second.to_unix_duration(), Duration::from_secs(1));
    assert_eq!(second.checked_to_unix_duration(), Some(Duration::from_secs(1)));
}

#[test]
fn date_times_from_1950_are_accepted() {
    let datetime = DateTime::new(1950, 1, 1, 0, 0, 0).unwrap();
    let time = UtcTime::from_date_time(datetime).unwrap();
    assert_eq!(time.to_date_time(), datetime);
    assert_eq!(time.to_vec().unwrap(), utc("500101000000Z"));
    assert_eq!(UtcTime::try_from(datetime).unwrap(), time);
    assert_eq!(DateTime::from(time), datetime);
    assert_eq!(DateTime::new(1949, 12, 31, 23, 59, 59).unwrap_err().kind(), ErrorKind::DateTime);
}

#[test]
fn date_time_of_2050_is_rejected() {
    let datetime = DateTime::new(2050, 1, 1, 0, 0, 0).unwrap();
    let err = UtcTime::from_date_time(datetime).unwrap_err();
    assert_eq!(err.kind(), VALUE_ERROR);
}

#[test]
fn date_time_of_2049_is_accepted() {
    let datetime = DateTime::new(2049, 12, 31, 23, 59, 59).unwrap();
    let time = UtcTime::from_date_time(datetime).unwrap();
    assert_eq!(time.to_date_time(), datetime);
    assert_eq!(time.to_date_time().year(), 2049);
}

#[test]
fn every_two_digit_year_round_trips() {
    for yy in 0u32..100 {
        let text = format!("{:02}0704123456Z", yy);
        let bytes = utc(&text);
        let time = UtcTime::from_der(&bytes).unwrap();
        let expected = if yy >= 50 { 1900 + yy } else { 2000 + yy };
        let datetime = time.to_date_time();
        assert_eq!(datetime.year() as u32, expected);
        assert_eq!((datetime.month(), datetime.day()), (7, 4));
        assert_eq!((datetime.hour(), datetime.minutes(), datetime.seconds()), (12, 34, 56));
        assert_eq!(time.to_vec().unwrap(), bytes);
        assert_eq!(time.encoded_len().unwrap().0, 15);
        match time.checked_to_unix_duration() {
            Some(duration) => {
                assert!(expected >= 1970);
                assert_eq!(duration, time.to_unix_duration());
                assert_eq!(UtcTime::from_unix_duration(duration).unwrap(), time);
                let system_time = time.checked_to_system_time().unwrap();
                assert_eq!(UtcTime::from_system_time(system_time).unwrap(), time);
            }
            None => assert!(expected < 1970),
        }
    }
}

#[test]
fn contents_of_another_length_are_a_value_error() {
    assert_eq!(UtcTime::from_der(&utc("9105062345Z")).unwrap_err().kind(), VALUE_ERROR);
    assert_eq!(UtcTime::from_der(&utc("19910506234540Z")).unwrap_err().kind(), VALUE_ERROR);
    assert_eq!(UtcTime::from_der(&utc("")).unwrap_err().kind(), VALUE_ERROR);
}

#[test]
fn contents_that_do_not_end_in_z_are_a_value_error() {
    assert_eq!(UtcTime::from_der(&utc("9105062345400")).unwrap_err().kind(), VALUE_ERROR);
    assert_eq!(UtcTime::from_der(&utc("910506234540z")).unwrap_err().kind(), VALUE_ERROR);
    assert_eq!(UtcTime::from_der(&utc("910506234540+")).unwrap_err().kind(), VALUE_ERROR);
}

#[test]
fn contents_with_a_character_that_is_no_digit_are_a_value_error() {
    for position in 0..12 {
        for bad in [b'/', b':', b' ', b'a', 0x00, 0xff] {
            let mut bytes = utc("910506234540Z");
            bytes[2 + position] = bad;
            assert_eq!(UtcTime::from_der(&bytes).unwrap_err().kind(), VALUE_ERROR);
        }
    }
}

#[test]
fn numbers_that_are_no_date_or_time_are_a_value_error() {
    for text in [
        "910006234540Z",
        "911306234540Z",
        "910500234540Z",
        "910532234540Z",
        "910431234540Z",
        "910229000000Z",
        "910506244540Z",
        "910506236040Z",
        "910506234560Z",
    ] {
        assert_eq!(UtcTime::from_der(&utc(text)).unwrap_err().kind(), VALUE_ERROR);
    }
    assert!(UtcTime::from_der(&utc("920229000000Z")).is_ok());
    assert!(UtcTime::from_der(&utc("000229000000Z")).is_ok());
}

#[test]
fn another_tag_is_unexpected() {
    let mut bytes = utc("910506234540Z");
    bytes[0] = 0x18;
    assert_eq!(
        UtcTime::from_der(&bytes).unwrap_err().kind(),
        ErrorKind::TagUnexpected { expected: Some(Tag::UtcTime), actual: Tag::GeneralizedTime }
    );
}

#[test]
fn constructed_utc_time_is_no_tag() {
    let mut bytes = utc("910506234540Z");
    bytes[0] = 0x37;
    assert_eq!(UtcTime::from_der(&bytes).unwrap_err().kind(), ErrorKind::TagUnknown { byte: 0x37 });
}

#[test]
fn truncated_utc_time_is_incomplete() {
    let bytes = utc("910506234540Z");
    for len in 2..bytes.len() {
        let err = UtcTime::from_der(&bytes[..len]).unwrap_err();
        assert_eq!(
            err.kind(),
            ErrorKind::Incomplete {
                expected_len: der::Length(13),
                actual_len: der::Length(len as u32 - 2),
            }
        );
    }
}

#[test]
fn bytes_behind_a_utc_time_are_trailing_data() {
    let mut bytes = utc("910506234540Z");
    bytes.push(0);
    assert_eq!(
        UtcTime::from_der(&bytes).unwrap_err().kind(),
        ErrorKind::TrailingData { decoded: der::Length(15), remaining: der::Length(1) }
    );
}

#[test]
fn decode_moves_the_cursor_behind_the_value() {
    let mut bytes = utc("910506234540Z");
    bytes.extend_from_slice(&utc("491231235959Z"));
    let mut decoder = Decoder::new(&bytes).unwrap();
    let first = UtcTime::decode(&mut decoder).unwrap();
    assert_eq!(der::Reader::position(&decoder), der::Length(15));
    let second = UtcTime::decode(&mut decoder).unwrap();
    assert_eq!(first.to_unix_duration().as_secs(), 673573540);
    assert_eq!(second.to_unix_duration().as_secs(), 2_524_607_999);
    assert!(der::Reader::is_finished(&decoder));
}

#[test]
fn from_unix_duration_drops_what_is_less_than_a_second() {
    let time = UtcTime::from_unix_duration(Duration::new(673573540, 999_999_999)).unwrap();
    assert_eq!(time.to_unix_duration(), Duration::from_secs(673573540));
    assert_eq!(time.to_vec().unwrap(), utc("910506234540Z"));
}

#[test]
fn from_unix_duration_has_its_last_second_in_2049() {
    let last = UtcTime::from_unix_duration(Duration::from_secs(2_524_607_999)).unwrap();
    assert_eq!(last.to_vec().unwrap(), utc("491231235959Z"));
    let err = UtcTime::from_unix_duration(Duration::from_secs(2_524_608_000)).unwrap_err();
    assert_eq!(err.kind(), VALUE_ERROR);
    let err = UtcTime::from_unix_duration(Duration::from_secs(253_402_300_799)).unwrap_err();
    assert_eq!(err.kind(), VALUE_ERROR);
    let err = UtcTime::from_unix_duration(Duration::from_secs(253_402_300_800)).unwrap_err();
    assert_eq!(err.kind(), ErrorKind::DateTime);
    let err = UtcTime::from_unix_duration(Duration::from_secs(u64::MAX)).unwrap_err();
    assert_eq!(err.kind(), ErrorKind::DateTime);
}

#[test]
fn unix_duration_round_trips() {
    for secs in [0u64, 1, 59, 60, 86_399, 86_400, 951_825_600, 2_147_483_648, 2_524_607_999] {
        let time = UtcTime::from_unix_duration(Duration::from_secs(secs)).unwrap();
        assert_eq!(time.to_unix_duration().as_secs(), secs);
        assert_eq!(time.to_unix_duration().subsec_nanos(), 0);
    }
}

#[test]
fn system_time_round_trips() {
    let time = UtcTime::from_system_time(UNIX_EPOCH + Duration::from_secs(673573540)).unwrap();
    assert_eq!(time.to_unix_duration().as_secs(), 673573540);
    assert_eq!(time.to_system_time(), UNIX_EPOCH + Duration::from_secs(673573540));
    assert_eq!(
        time.checked_to_system_time(),
        Some(UNIX_EPOCH + Duration::from_secs(673573540))
    );
    let back = UtcTime::from_system_time(time.to_system_time()).unwrap();
    assert_eq!(back, time);
}

#[test]
fn system_time_before_the_epoch_or_after_2049_is_a_value_error() {
    let before: SystemTime = UNIX_EPOCH - Duration::from_secs(1);
    assert_eq!(UtcTime::from_system_time(before).unwrap_err().kind(), VALUE_ERROR);
    let after = UNIX_EPOCH + Duration::from_secs(2_524_608_000);
    assert_eq!(UtcTime::from_system_time(after).unwrap_err().kind(), VALUE_ERROR);
    let last = UNIX_EPOCH + Duration::new(2_524_607_999, 500);
    assert_eq!(UtcTime::from_system_time(last).unwrap().to_unix_duration().as_secs(), 2_524_607_999);
}

#[test]
fn encode_needs_fifteen_bytes_and_writes_nothing_into_fewer() {
    let time = UtcTime::from_der(&utc("910506234540Z")).unwrap();
    let mut buf = [0xaau8; 14];
    let mut encoder = Encoder::new(&mut buf);
    assert_eq!(time.encode(&mut encoder).unwrap_err().kind(), ErrorKind::Overlength);
    assert_eq!(encoder.finish().unwrap(), &[] as &[u8]);
    let mut buf = [0u8; 15];
    let mut encoder = Encoder::new(&mut buf);
    time.encode(&mut encoder).unwrap();
    assert_eq!(encoder.finish().unwrap(), &utc("910506234540Z")[..]);
}

#[test]
fn two_digits_are_a_number_below_100() {
    assert_eq!(decode_decimal(Tag::UtcTime, b'0', b'0').unwrap(), 0);
    assert_eq!(decode_decimal(Tag::UtcTime, b'4', b'9').unwrap(), 49);
    assert_eq!(decode_decimal(Tag::UtcTime, b'9', b'9').unwrap(), 99);
    assert_eq!(decode_decimal(Tag::UtcTime, b'9', b':').unwrap_err().kind(), VALUE_ERROR);
    assert_eq!(decode_decimal(Tag::UtcTime, b'/', b'9').unwrap_err().kind(), VALUE_ERROR);
    assert_eq!(
        decode_decimal(Tag::GeneralizedTime, b'a', b'9').unwrap_err().kind(),
        ErrorKind::Value { tag: Tag::GeneralizedTime }
    );
    let mut out = Vec::new();
    encode_decimal(&mut out, Tag::UtcTime, 7).unwrap();
    encode_decimal(&mut out, Tag::UtcTime, 42).unwrap();
    encode_decimal(&mut out, Tag::UtcTime, 99).unwrap();
    assert_eq!(out, b"074299");
    assert_eq!(encode_decimal(&mut out, Tag::UtcTime, 100).unwrap_err().kind(), VALUE_ERROR);
    assert_eq!(out, b"074299");
}
