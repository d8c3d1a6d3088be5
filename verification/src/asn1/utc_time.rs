//! ASN.1 `UTCTime` support.

use crate::asn1::any::{spec_decode_into, Any};
use crate::canonical::CanonicalValue;
use crate::datetime::{
    lemma_days_before_year, lemma_days_before_year_monotonic, lemma_unix_seconds_bounds,
    lemma_unix_seconds_injective, spec_duration_seconds, spec_since_unix_epoch, CivilTime, DateTime,
    MAX_UNIX_SECONDS,
};
use crate::decode::DecodeValue;
use crate::decoder::Decoder;
use crate::encode::EncodeValue;
use crate::error::{Error, ErrorKind};
use crate::header::Header;
use crate::length::Length;
use crate::reader::Reader;
use crate::tag::{FixedTag, Tag};
use crate::writer::{
    lemma_nothing_appended, lemma_piece_appended, lemma_whole_is_in_pieces,
    spec_appended_in_pieces, Writer,
};
use std::time::Duration;
use std::time::SystemTime;
use vstd::prelude::*;
use vstd::std_specs::convert::{FromSpecImpl, TryFromSpecImpl};

verus! {

/// Maximum year that can be represented as a `UTCTime`.
pub const MAX_YEAR: u16 = 2049;

/// The seconds from the Unix epoch to the last second of the year 2049.
pub const MAX_UTC_SECONDS: u64 = 2_524_607_999;

/// Whether a byte is a decimal digit in ASCII.
pub open spec fn spec_is_digit(byte: u8) -> bool {
    0x30 <= byte <= 0x39
}

/// The number that two decimal digits in ASCII stand for.
pub open spec fn spec_two_digits(high: u8, low: u8) -> int {
    (high - 0x30) * 10 + (low - 0x30)
}

/// The two decimal digits, in ASCII, of a number below 100.
pub open spec fn spec_digit_pair(value: int) -> Seq<u8> {
    seq![(0x30 + value / 10) as u8, (0x30 + value % 10) as u8]
}

/// The year that the two digits of a `UTCTime` stand for: from 50 on a year
/// of the twentieth century, below 50 one of the twenty-first.
pub open spec fn spec_utc_year(two_digits: int) -> int {
    if two_digits >= 50 {
        1900 + two_digits
    } else {
        2000 + two_digits
    }
}

/// Whether `contents` are twelve decimal digits and the letter Z.
pub open spec fn spec_utc_format(contents: Seq<u8>) -> bool {
    &&& contents.len() == 13
    &&& spec_is_digit(contents[0]) && spec_is_digit(contents[1])
    &&& spec_is_digit(contents[2]) && spec_is_digit(contents[3])
    &&& spec_is_digit(contents[4]) && spec_is_digit(contents[5])
    &&& spec_is_digit(contents[6]) && spec_is_digit(contents[7])
    &&& spec_is_digit(contents[8]) && spec_is_digit(contents[9])
    &&& spec_is_digit(contents[10]) && spec_is_digit(contents[11])
    &&& contents[12] == 0x5a
}

/// The six numbers that contents of the form `YYMMDDHHMMSSZ` hold.
pub open spec fn spec_utc_numbers(contents: Seq<u8>) -> CivilTime {
    CivilTime {
        year: spec_utc_year(spec_two_digits(contents[0], contents[1])),
        month: spec_two_digits(contents[2], contents[3]),
        day: spec_two_digits(contents[4], contents[5]),
        hour: spec_two_digits(contents[6], contents[7]),
        minutes: spec_two_digits(contents[8], contents[9]),
        seconds: spec_two_digits(contents[10], contents[11]),
    }
}

/// The contents of a `UTCTime`: `YYMMDDHHMMSSZ`, with the last two digits of
/// the year.
pub open spec fn spec_utc_contents(time: CivilTime) -> Seq<u8> {
    spec_digit_pair(time.year % 100) + spec_digit_pair(time.month) + spec_digit_pair(time.day)
        + spec_digit_pair(time.hour) + spec_digit_pair(time.minutes) + spec_digit_pair(
        time.seconds,
    ) + seq![0x5au8]
}

/// The contents of a `UTCTime` are thirteen bytes.
pub proof fn lemma_utc_contents_len(time: CivilTime)
    ensures
        spec_utc_contents(time).len() == 13,
{
}

/// The date and time that the contents of a `UTCTime` stand for: they must
/// be of the form `YYMMDDHHMMSSZ`, with the seconds and in UTC, and the
/// numbers must be a date and a time of day. Every two digits are a year,
/// from 1950 to 2049.
pub open spec fn spec_utc_time(contents: Seq<u8>) -> Result<CivilTime, ErrorKind> {
    if spec_utc_format(contents) && spec_utc_numbers(contents).valid() {
        Ok(spec_utc_numbers(contents))
    } else {
        Err(ErrorKind::Value { tag: Tag::UtcTime })
    }
}

/// Whether a `UTCTime` can hold a date and time: a valid one, of a year from
/// 1950 to 2049.
pub open spec fn spec_utc_valid(time: CivilTime) -> bool {
    time.valid() && time.year <= MAX_YEAR
}

/// A valid date and time is of a year up to 2049 exactly if it is no more
/// than `MAX_UTC_SECONDS` after the Unix epoch.
pub proof fn lemma_utc_seconds(time: CivilTime)
    requires
        time.valid(),
    ensures
        time.year <= MAX_YEAR <==> time.unix_seconds() <= MAX_UTC_SECONDS,
{
    lemma_unix_seconds_bounds(time);
    lemma_days_before_year(2050);
    if time.year <= MAX_YEAR {
        lemma_days_before_year_monotonic(time.year + 1, 2050);
    } else {
        lemma_days_before_year_monotonic(2050, time.year);
    }
}

/// The way from a time to its distance from the Unix epoch and back loses
/// nothing: a time that is as far from the epoch as another is that time.
pub proof fn lemma_unix_duration_round_trip(time: CivilTime, back: CivilTime)
    requires
        spec_utc_valid(time),
        spec_utc_valid(back),
        back.unix_seconds() == time.unix_seconds(),
    ensures
        back == time,
{
    lemma_unix_seconds_injective(back, time);
}

/// The number that two decimal digits in ASCII stand for.
pub fn decode_decimal(tag: Tag, high: u8, low: u8) -> (r: Result<u8, Error>)
    ensures
        match r {
            Ok(value) => spec_is_digit(high) && spec_is_digit(low) && value == spec_two_digits(
                high,
                low,
            ),
            Err(e) => !(spec_is_digit(high) && spec_is_digit(low)) && e.kind == (ErrorKind::Value {
                tag,
            }),
        },
{
    if 0x30 <= high && high <= 0x39 && 0x30 <= low && low <= 0x39 {
        Ok((high - 0x30) * 10 + (low - 0x30))
    } else {
        Err(tag.value_error())
    }
}

/// The year that the two digits of a `UTCTime` stand for, by the rules of
/// RFC 5280: from 50 on a year of the twentieth century, below 50 one of the
/// twenty-first.
pub fn full_year(two_digits: u16) -> (r: Result<u16, Error>)
    ensures
        match r {
            Ok(year) => two_digits <= u16::MAX - 1900 && year == spec_utc_year(two_digits as int),
            Err(e) => two_digits > u16::MAX - 1900 && e.kind == ErrorKind::DateTime,
        },
{
    let year = if two_digits >= 50 {
        two_digits.checked_add(1900)
    } else {
        two_digits.checked_add(2000)
    };
    match year {
        Some(year) => Ok(year),
        None => Err(Error::new(ErrorKind::DateTime)),
    }
}

/// Writes a number below 100 as two decimal digits in ASCII.
pub fn encode_decimal<W: Writer>(writer: &mut W, tag: Tag, value: u8) -> (r: Result<(), Error>)
    ensures
        match r {
            Err(e) if value >= 100 => {
                &&& e.kind == (ErrorKind::Value { tag })
                &&& final(writer).written() == old(writer).written()
                &&& final(writer).room() == old(writer).room()
            },
            _ => value < 100 && spec_appended_in_pieces(
                spec_digit_pair(value as int),
                old(writer).written(),
                old(writer).room(),
                r,
                final(writer).written(),
                final(writer).room(),
            ),
        },
{
    let high = value / 10;
    if high >= 10 {
        return Err(tag.value_error());
    }
    let ghost pair = spec_digit_pair(value as int);
    let ghost start = writer.written();
    let ghost room = writer.room();
    match writer.write_byte(0x30 + high) {
        Ok(_) => {},
        Err(e) => {
            proof {
                lemma_nothing_appended(pair, start, room, Err(e));
            }
            return Err(e);
        },
    }
    let r = writer.write_byte(0x30 + value % 10);
    proof {
        assert(start.push(pair[0]) == start + seq![pair[0]]);
        assert((start + seq![pair[0]]).push(pair[1]) == (start + seq![pair[0]]) + seq![pair[1]]);
        assert(pair.take(2) == seq![pair[0]] + seq![pair[1]]);
        lemma_whole_is_in_pieces(
            seq![pair[1]],
            start + seq![pair[0]],
            (room - 1) as nat,
            r,
            writer.written(),
            writer.room(),
        );
        lemma_piece_appended(
            seq![pair[0]],
            seq![pair[1]],
            pair,
            start,
            room,
            r,
            writer.written(),
            writer.room(),
        );
    }
    r
}

/// ASN.1 `UTCTime` type.
///
/// A date and a time of day in UTC, to the second, written with the last two
/// digits of its year. The digits 50 to 99 stand for the years 1950 to 1999
/// and the digits 00 to 49 for the years 2000 to 2049.
#[derive(Copy, Clone, Debug, Eq, PartialEq, PartialOrd, Ord)]
pub struct UtcTime(DateTime);

impl View for UtcTime {
    type V = CivilTime;

    closed spec fn view(&self) -> CivilTime {
        self.0@
    }
}

impl DeepView for UtcTime {
    type V = CivilTime;

    open spec fn deep_view(&self) -> CivilTime {
        self@
    }
}

impl UtcTime {
    /// Every `UtcTime` holds a valid date and time of a year from 1950 to
    /// 2049.
    #[verifier::type_invariant]
    pub open spec fn well_formed(self) -> bool {
        spec_utc_valid(self@)
    }

    /// The `UtcTime` that holds a `DateTime`.
    pub closed spec fn spec_of(datetime: DateTime) -> UtcTime {
        UtcTime(datetime)
    }

    /// The `DateTime` that a `UtcTime` holds.
    pub closed spec fn spec_date_time(self) -> DateTime {
        self.0
    }

    /// A `UtcTime` holds the `DateTime` that it was made of, and is made of
    /// the one it holds.
    pub proof fn lemma_spec_of(datetime: DateTime, time: UtcTime)
        ensures
            UtcTime::spec_of(datetime).spec_date_time() == datetime,
            UtcTime::spec_of(datetime)@ == datetime@,
            UtcTime::spec_of(time.spec_date_time()) == time,
            time.spec_date_time()@ == time@,
    {
    }

    /// Create a [`UtcTime`] from a [`DateTime`].
    pub fn from_date_time(datetime: DateTime) -> (r: Result<UtcTime, Error>)
        ensures
            match r {
                Ok(time) => {
                    &&& time == UtcTime::spec_of(datetime)
                    &&& time.spec_date_time() == datetime
                    &&& time@ == datetime@
                    &&& spec_utc_valid(time@)
                },
                Err(e) => datetime@.year > MAX_YEAR && e.kind == (ErrorKind::Value {
                    tag: Tag::UtcTime,
                }),
            },
    {
        if datetime.year() <= MAX_YEAR {
            Ok(UtcTime(datetime))
        } else {
            Err(Tag::UtcTime.value_error())
        }
    }

    /// Convert this [`UtcTime`] into a [`DateTime`].
    pub fn to_date_time(&self) -> (r: DateTime)
        ensures
            r == self.spec_date_time(),
            UtcTime::spec_of(r) == *self,
            r@ == self@,
            spec_utc_valid(self@),
    {
        proof {
            use_type_invariant(self);
        }
        self.0
    }

    /// Create a new [`UtcTime`] given a [`Duration`] since `UNIX_EPOCH`
    /// (a.k.a. "Unix time"), to the second.
    pub fn from_unix_duration(unix_duration: Duration) -> (r: Result<UtcTime, Error>)
        ensures
            match r {
                Ok(time) => {
                    &&& spec_duration_seconds(unix_duration) <= MAX_UTC_SECONDS
                    &&& spec_utc_valid(time@)
                    &&& time@.unix_seconds() == spec_duration_seconds(unix_duration)
                },
                Err(e) => {
                    &&& spec_duration_seconds(unix_duration) > MAX_UTC_SECONDS
                    &&& e.kind == if spec_duration_seconds(unix_duration) > MAX_UNIX_SECONDS {
                        ErrorKind::DateTime
                    } else {
                        ErrorKind::Value { tag: Tag::UtcTime }
                    }
                },
            },
    {
        match DateTime::from_unix_duration(unix_duration) {
            Ok(datetime) => {
                proof {
                    lemma_utc_seconds(datetime@);
                }
                UtcTime::from_date_time(datetime)
            },
            Err(e) => Err(e),
        }
    }

    /// Get the duration of this timestamp since `UNIX_EPOCH`. The timestamp
    /// must not lie before the epoch, in the years 1950 to 1969: a
    /// `Duration` is never negative.
    pub fn to_unix_duration(&self) -> (r: Duration)
        requires
            self@.year >= 1970,
        ensures
            Some(r) == self@.unix_duration(),
            spec_duration_seconds(r) == self@.unix_seconds(),
            spec_duration_seconds(r) <= MAX_UTC_SECONDS,
            spec_utc_valid(self@),
    {
        proof {
            use_type_invariant(self);
            lemma_utc_seconds(self@);
        }
        self.0.unix_duration()
    }

    /// Get the duration of this timestamp since `UNIX_EPOCH`, or nothing for
    /// a timestamp before the epoch.
    pub fn checked_to_unix_duration(&self) -> (r: Option<Duration>)
        ensures
            r == self@.unix_duration(),
            r is Some <==> self@.year >= 1970,
            r matches Some(duration) ==> spec_duration_seconds(duration) == self@.unix_seconds(),
            spec_utc_valid(self@),
    {
        proof {
            use_type_invariant(self);
        }
        if self.0.year() >= 1970 {
            Some(self.to_unix_duration())
        } else {
            proof {
                lemma_unix_seconds_bounds(self@);
            }
            None
        }
    }

    /// Instantiate from [`SystemTime`], to the second.
    pub fn from_system_time(time: SystemTime) -> (r: Result<UtcTime, Error>)
        ensures
            match r {
                Ok(utc_time) => {
                    &&& spec_since_unix_epoch(time) matches Some(duration)
                    &&& spec_duration_seconds(duration) <= MAX_UTC_SECONDS
                    &&& spec_utc_valid(utc_time@)
                    &&& utc_time@.unix_seconds() == spec_duration_seconds(duration)
                },
                Err(e) => {
                    &&& e.kind == (ErrorKind::Value { tag: Tag::UtcTime })
                    &&& spec_since_unix_epoch(time) matches Some(duration)
                        ==> spec_duration_seconds(duration) > MAX_UTC_SECONDS
                },
            },
    {
        match DateTime::from_system_time(time) {
            Ok(datetime) => {
                proof {
                    lemma_utc_seconds(datetime@);
                }
                UtcTime::from_date_time(datetime)
            },
            Err(_) => Err(Tag::UtcTime.value_error()),
        }
    }

    /// Convert to [`SystemTime`], or to nothing for a time before the Unix
    /// epoch and for one that the platform cannot hold.
    pub fn checked_to_system_time(&self) -> (r: Option<SystemTime>)
        ensures
            r == self@.system_time(),
            r matches Some(time) ==> spec_since_unix_epoch(time) matches Some(duration)
                && spec_duration_seconds(duration) == self@.unix_seconds(),
            spec_utc_valid(self@),
    {
        proof {
            use_type_invariant(self);
        }
        match self.0.checked_to_system_time() {
            Some(_) => Some(self.to_system_time()),
            None => None,
        }
    }

    /// Convert to [`SystemTime`]. The time must not lie before the Unix
    /// epoch, and the platform must be able to hold it.
    pub fn to_system_time(&self) -> (r: SystemTime)
        requires
            self@.system_time() is Some,
        ensures
            Some(r) == self@.system_time(),
            spec_since_unix_epoch(r) matches Some(duration) && spec_duration_seconds(duration)
                == self@.unix_seconds(),
            spec_utc_valid(self@),
    {
        proof {
            use_type_invariant(self);
        }
        self.0.to_system_time()
    }
}

impl DecodeValue<'_> for UtcTime {
    open spec fn spec_decode_value(header: Header, contents: Seq<u8>) -> Result<
        CivilTime,
        ErrorKind,
    > {
        spec_utc_time(contents)
    }

    fn decode_value(decoder: &mut Decoder<'_>, header: Header) -> (r: Result<UtcTime, Error>) {
        let bytes = match decoder.read_slice(header.length) {
            Ok(bytes) => bytes,
            Err(e) => { return Err(e); },
        };
        // RFC 5280 requires mandatory seconds and Z-normalized time zone
        if bytes.len() != 13 || bytes[12] != 0x5a {
            return Err(Tag::UtcTime.value_error());
        }
        let year = match decode_decimal(Tag::UtcTime, bytes[0], bytes[1]) {
            Ok(value) => value as u16,
            Err(e) => { return Err(e); },
        };
        let month = match decode_decimal(Tag::UtcTime, bytes[2], bytes[3]) {
            Ok(value) => value,
            Err(e) => { return Err(e); },
        };
        let day = match decode_decimal(Tag::UtcTime, bytes[4], bytes[5]) {
            Ok(value) => value,
            Err(e) => { return Err(e); },
        };
        let hour = match decode_decimal(Tag::UtcTime, bytes[6], bytes[7]) {
            Ok(value) => value,
            Err(e) => { return Err(e); },
        };
        let minute = match decode_decimal(Tag::UtcTime, bytes[8], bytes[9]) {
            Ok(value) => value,
            Err(e) => { return Err(e); },
        };
        let second = match decode_decimal(Tag::UtcTime, bytes[10], bytes[11]) {
            Ok(value) => value,
            Err(e) => { return Err(e); },
        };
        let year = match full_year(year) {
            Ok(year) => year,
            Err(e) => { return Err(e); },
        };
        match DateTime::new(year, month, day, hour, minute, second) {
            Err(_) => Err(Tag::UtcTime.value_error()),
            Ok(datetime) => UtcTime::from_date_time(datetime),
        }
    }
}

impl EncodeValue for UtcTime {
    open spec fn spec_encode_value(value: CivilTime) -> Seq<u8> {
        spec_utc_contents(value)
    }

    fn value_len(&self) -> (r: Result<Length, Error>) {
        Ok(Length(13))
    }

    fn encode_value<W: Writer>(&self, writer: &mut W) -> (r: Result<(), Error>) {
        proof {
            use_type_invariant(self);
        }
        let full_year = self.0.year();
        let year: u8 = if 1950 <= full_year && full_year <= 1999 {
            (full_year - 1900) as u8
        } else if 2000 <= full_year && full_year <= 2049 {
            (full_year - 2000) as u8
        } else {
            return Err(Tag::UtcTime.value_error());
        };
        let ghost time = self@;
        let ghost start = writer.written();
        let ghost room = writer.room();
        let ghost whole = spec_utc_contents(time);
        let ghost d0 = Seq::<u8>::empty();
        let ghost d1 = d0 + spec_digit_pair(time.year % 100);
        let ghost d2 = d1 + spec_digit_pair(time.month);
        let ghost d3 = d2 + spec_digit_pair(time.day);
        let ghost d4 = d3 + spec_digit_pair(time.hour);
        let ghost d5 = d4 + spec_digit_pair(time.minutes);
        let ghost d6 = d5 + spec_digit_pair(time.seconds);
        assert(whole == d6 + seq![0x5au8] && whole.len() == 13 && start + d0 == start) by {
            assert(d0 + spec_digit_pair(time.year % 100) == spec_digit_pair(time.year % 100));
        }
        assert(whole.take(2) == d1 && whole.take(4) == d2 && whole.take(6) == d3);
        assert(whole.take(8) == d4 && whole.take(10) == d5 && whole.take(12) == d6);
        assert(whole.take(13) == whole);
        match encode_pair(writer, year, Ghost(d0), Ghost(whole), Ghost(start), Ghost(room)) {
            Ok(_) => {},
            Err(e) => { return Err(e); },
        }
        match encode_pair(
            writer,
            self.0.month(),
            Ghost(d1),
            Ghost(whole),
            Ghost(start),
            Ghost(room),
        ) {
            Ok(_) => {},
            Err(e) => { return Err(e); },
        }
        match encode_pair(writer, self.0.day(), Ghost(d2), Ghost(whole), Ghost(start), Ghost(room)) {
            Ok(_) => {},
            Err(e) => { return Err(e); },
        }
        match encode_pair(writer, self.0.hour(), Ghost(d3), Ghost(whole), Ghost(start), Ghost(room)) {
            Ok(_) => {},
            Err(e) => { return Err(e); },
        }
        match encode_pair(
            writer,
            self.0.minutes(),
            Ghost(d4),
            Ghost(whole),
            Ghost(start),
            Ghost(room),
        ) {
            Ok(_) => {},
            Err(e) => { return Err(e); },
        }
        match encode_pair(
            writer,
            self.0.seconds(),
            Ghost(d5),
            Ghost(whole),
            Ghost(start),
            Ghost(room),
        ) {
            Ok(_) => {},
            Err(e) => { return Err(e); },
        }
        let r = writer.write_byte(0x5a);
        proof {
            assert((start + d6).push(0x5au8) == (start + d6) + seq![0x5au8]);
            lemma_whole_is_in_pieces(
                seq![0x5au8],
                start + d6,
                (room - 12) as nat,
                r,
                writer.written(),
                writer.room(),
            );
            lemma_piece_appended(
                d6,
                seq![0x5au8],
                whole,
                start,
                room,
                r,
                writer.written(),
                writer.room(),
            );
        }
        r
    }
}

/// Writes a number below 100 as two digits behind the pieces of `whole` that
/// have been written since the writer held `start` and had `room`.
fn encode_pair<W: Writer>(
    writer: &mut W,
    value: u8,
    Ghost(done): Ghost<Seq<u8>>,
    Ghost(whole): Ghost<Seq<u8>>,
    Ghost(start): Ghost<Seq<u8>>,
    Ghost(room): Ghost<nat>,
) -> (r: Result<(), Error>)
    requires
        value < 100,
        done.len() <= room,
        whole.len() >= done.len() + 2,
        whole.take((done.len() + 2) as int) == done + spec_digit_pair(value as int),
        old(writer).written() == start + done,
        old(writer).room() == room - done.len(),
    ensures
        match r {
            Ok(_) => {
                &&& done.len() + 2 <= room
                &&& final(writer).written() == start + (done + spec_digit_pair(value as int))
                &&& final(writer).room() == room - done.len() - 2
            },
            Err(_) => spec_appended_in_pieces(
                whole,
                start,
                room,
                r,
                final(writer).written(),
                final(writer).room(),
            ),
        },
{
    let r = encode_decimal(writer, Tag::UtcTime, value);
    proof {
        lemma_piece_appended(
            done,
            spec_digit_pair(value as int),
            whole,
            start,
            room,
            r,
            writer.written(),
            writer.room(),
        );
    }
    r
}

impl CanonicalValue<'_> for UtcTime {
    open spec fn spec_valid_value(value: CivilTime) -> bool {
        spec_utc_valid(value)
    }

    proof fn lemma_encode_decode_value(value: CivilTime) {
        let contents = spec_utc_contents(value);
        lemma_digit_pair(value.year % 100);
        lemma_digit_pair(value.month);
        lemma_digit_pair(value.day);
        lemma_digit_pair(value.hour);
        lemma_digit_pair(value.minutes);
        lemma_digit_pair(value.seconds);
        assert(contents.len() == 13);
        assert(contents[0] == spec_digit_pair(value.year % 100)[0]);
        assert(contents[1] == spec_digit_pair(value.year % 100)[1]);
        assert(contents[2] == spec_digit_pair(value.month)[0]);
        assert(contents[3] == spec_digit_pair(value.month)[1]);
        assert(contents[4] == spec_digit_pair(value.day)[0]);
        assert(contents[5] == spec_digit_pair(value.day)[1]);
        assert(contents[6] == spec_digit_pair(value.hour)[0]);
        assert(contents[7] == spec_digit_pair(value.hour)[1]);
        assert(contents[8] == spec_digit_pair(value.minutes)[0]);
        assert(contents[9] == spec_digit_pair(value.minutes)[1]);
        assert(contents[10] == spec_digit_pair(value.seconds)[0]);
        assert(contents[11] == spec_digit_pair(value.seconds)[1]);
        assert(contents[12] == 0x5a);
        assert(spec_utc_numbers(contents) == value);
    }

    proof fn lemma_decode_encode_value(header: Header, contents: Seq<u8>) {
        let value = spec_utc_numbers(contents);
        lemma_two_digits(contents[0], contents[1]);
        lemma_two_digits(contents[2], contents[3]);
        lemma_two_digits(contents[4], contents[5]);
        lemma_two_digits(contents[6], contents[7]);
        lemma_two_digits(contents[8], contents[9]);
        lemma_two_digits(contents[10], contents[11]);
        assert(value.year % 100 == spec_two_digits(contents[0], contents[1]));
        assert(spec_utc_contents(value) == contents);
    }
}

/// The two digits of a number below 100 are digits, and stand for it.
proof fn lemma_digit_pair(value: int)
    requires
        0 <= value < 100,
    ensures
        spec_is_digit(spec_digit_pair(value)[0]),
        spec_is_digit(spec_digit_pair(value)[1]),
        spec_two_digits(spec_digit_pair(value)[0], spec_digit_pair(value)[1]) == value,
{
}

/// Two digits are the two digits of the number that they stand for.
proof fn lemma_two_digits(high: u8, low: u8)
    requires
        spec_is_digit(high),
        spec_is_digit(low),
    ensures
        0 <= spec_two_digits(high, low) < 100,
        spec_digit_pair(spec_two_digits(high, low)) == seq![high, low],
{
    let value = spec_two_digits(high, low);
    assert(value / 10 == high - 0x30 && value % 10 == low - 0x30);
    assert(spec_digit_pair(value)[0] == high);
    assert(spec_digit_pair(value)[1] == low);
}

impl From<&UtcTime> for UtcTime {
    fn from(value: &UtcTime) -> (r: UtcTime)
        ensures
            r == *value,
    {
        *value
    }
}

impl FromSpecImpl<&UtcTime> for UtcTime {
    open spec fn obeys_from_spec() -> bool {
        true
    }

    open spec fn from_spec(value: &UtcTime) -> UtcTime {
        *value
    }
}

impl From<UtcTime> for DateTime {
    fn from(utc_time: UtcTime) -> (r: DateTime)
        ensures
            r@ == utc_time@,
    {
        utc_time.to_date_time()
    }
}

impl FromSpecImpl<UtcTime> for DateTime {
    open spec fn obeys_from_spec() -> bool {
        true
    }

    open spec fn from_spec(utc_time: UtcTime) -> DateTime {
        utc_time.spec_date_time()
    }
}

impl From<&UtcTime> for DateTime {
    fn from(utc_time: &UtcTime) -> (r: DateTime)
        ensures
            r@ == utc_time@,
    {
        utc_time.to_date_time()
    }
}

impl FromSpecImpl<&UtcTime> for DateTime {
    open spec fn obeys_from_spec() -> bool {
        true
    }

    open spec fn from_spec(utc_time: &UtcTime) -> DateTime {
        utc_time.spec_date_time()
    }
}

impl TryFrom<DateTime> for UtcTime {
    type Error = Error;

    fn try_from(datetime: DateTime) -> (r: Result<UtcTime, Error>)
        ensures
            match r {
                Ok(time) => time@ == datetime@ && spec_utc_valid(time@),
                Err(e) => datetime@.year > MAX_YEAR && e.kind == (ErrorKind::Value {
                    tag: Tag::UtcTime,
                }),
            },
    {
        UtcTime::from_date_time(datetime)
    }
}

impl TryFromSpecImpl<DateTime> for UtcTime {
    open spec fn obeys_try_from_spec() -> bool {
        true
    }

    open spec fn try_from_spec(datetime: DateTime) -> Result<UtcTime, Error> {
        if datetime@.year <= MAX_YEAR {
            Ok(UtcTime::spec_of(datetime))
        } else {
            Err(Error { kind: ErrorKind::Value { tag: Tag::UtcTime } })
        }
    }
}

impl TryFrom<&DateTime> for UtcTime {
    type Error = Error;

    fn try_from(datetime: &DateTime) -> (r: Result<UtcTime, Error>)
        ensures
            match r {
                Ok(time) => time@ == datetime@ && spec_utc_valid(time@),
                Err(e) => datetime@.year > MAX_YEAR && e.kind == (ErrorKind::Value {
                    tag: Tag::UtcTime,
                }),
            },
    {
        UtcTime::from_date_time(*datetime)
    }
}

impl TryFromSpecImpl<&DateTime> for UtcTime {
    open spec fn obeys_try_from_spec() -> bool {
        true
    }

    open spec fn try_from_spec(datetime: &DateTime) -> Result<UtcTime, Error> {
        if datetime@.year <= MAX_YEAR {
            Ok(UtcTime::spec_of(*datetime))
        } else {
            Err(Error { kind: ErrorKind::Value { tag: Tag::UtcTime } })
        }
    }
}

impl<'a> TryFrom<Any<'a>> for UtcTime {
    type Error = Error;

    fn try_from(any: Any<'a>) -> (r: Result<UtcTime, Error>)
        ensures
            match r {
                Ok(time) => spec_decode_into(
                    any@,
                    Tag::UtcTime,
                    spec_utc_time(any@.value),
                ) == Ok::<CivilTime, ErrorKind>(time@),
                Err(e) => spec_decode_into(any@, Tag::UtcTime, spec_utc_time(any@.value)) == Err::<
                    CivilTime,
                    ErrorKind,
                >(e.kind),
            },
    {
        any.decode_into()
    }
}

impl<'a> TryFromSpecImpl<Any<'a>> for UtcTime {
    /// A `UtcTime` cannot be written down from outside: see what `try_from`
    /// ensures.
    open spec fn obeys_try_from_spec() -> bool {
        false
    }

    open spec fn try_from_spec(any: Any<'a>) -> Result<UtcTime, Error> {
        arbitrary()
    }
}

impl FixedTag for UtcTime {
    open spec fn spec_fixed_tag() -> Tag {
        Tag::UtcTime
    }

    proof fn lemma_fixed_tag_valid() {
    }

    fn fixed_tag() -> (r: Tag) {
        Tag::UtcTime
    }
}

} // verus!
