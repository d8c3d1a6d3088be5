//! Dates and times of day in UTC, and their distance from the Unix epoch.

use crate::error::{Error, ErrorKind};
use std::time::Duration;
use std::time::SystemTime;
use vstd::prelude::*;

verus! {

/// The first year that a `DateTime` can hold: the first that the two digits
/// of a `UTCTime` can stand for.
pub const MIN_YEAR: u16 = 1950;

/// The seconds from the Unix epoch to the first second of the year 1950,
/// which lies before the epoch.
pub const MIN_UNIX_SECONDS: i64 = -631_152_000;

/// The last year that a `DateTime` can hold.
pub const MAX_YEAR: u16 = 9999;

/// The seconds from the Unix epoch to the last second of the year 9999.
pub const MAX_UNIX_SECONDS: u64 = 253_402_300_799;

/// The seconds of a day.
pub const SECONDS_PER_DAY: u64 = 86_400;

/// A date of the Gregorian calendar and a time of day, as six numbers.
pub struct CivilTime {
    pub year: int,
    pub month: int,
    pub day: int,
    pub hour: int,
    pub minutes: int,
    pub seconds: int,
}

/// Whether `year` has a 29th of February.
pub open spec fn spec_is_leap_year(year: int) -> bool {
    year % 4 == 0 && (year % 100 != 0 || year % 400 == 0)
}

/// The number of days of `year`.
pub open spec fn spec_days_in_year(year: int) -> int {
    if spec_is_leap_year(year) {
        366
    } else {
        365
    }
}

/// The number of days of the month `month` of `year`.
pub open spec fn spec_days_in_month(year: int, month: int) -> int {
    if month == 2 {
        if spec_is_leap_year(year) {
            29
        } else {
            28
        }
    } else if month == 4 || month == 6 || month == 9 || month == 11 {
        30
    } else {
        31
    }
}

/// The number of days from the first day of 1970 to the first day of `year`:
/// the days of the years between the two, taken as negative where `year` is
/// the earlier one.
pub open spec fn spec_days_before_year(year: int) -> int
    decreases
            if year >= 1970 {
                year - 1970
            } else {
                1970 - year
            },
{
    if year == 1970 {
        0
    } else if year > 1970 {
        spec_days_before_year(year - 1) + spec_days_in_year(year - 1)
    } else {
        spec_days_before_year(year + 1) - spec_days_in_year(year)
    }
}

/// The number of days from the first day of `year` to the first day of its
/// month `month`.
pub open spec fn spec_days_before_month(year: int, month: int) -> int
    decreases month,
{
    if month <= 1 {
        0
    } else {
        spec_days_before_month(year, month - 1) + spec_days_in_month(year, month - 1)
    }
}

impl CivilTime {
    /// Whether the six numbers are a date from 1950 to 9999 and a time of day
    /// without a leap second.
    pub open spec fn valid(self) -> bool {
        &&& MIN_YEAR <= self.year <= MAX_YEAR
        &&& 1 <= self.month <= 12
        &&& 1 <= self.day <= spec_days_in_month(self.year, self.month)
        &&& 0 <= self.hour < 24
        &&& 0 <= self.minutes < 60
        &&& 0 <= self.seconds < 60
    }

    /// The days from the first day of 1970 to this date, negative for a date
    /// before it.
    pub open spec fn unix_days(self) -> int {
        spec_days_before_year(self.year) + spec_days_before_month(self.year, self.month) + self.day
            - 1
    }

    /// The seconds from the Unix epoch to this date and time, negative for a
    /// time before the epoch.
    pub open spec fn unix_seconds(self) -> int {
        self.unix_days() * 86_400 + self.hour * 3600 + self.minutes * 60 + self.seconds
    }

    /// The `Duration` from the Unix epoch to this date and time. There is
    /// none for a time before the epoch, as a `Duration` is never negative.
    pub open spec fn unix_duration(self) -> Option<Duration> {
        if self.unix_seconds() >= 0 {
            Some(spec_duration_from_secs(self.unix_seconds() as u64))
        } else {
            None
        }
    }

    /// The `SystemTime` of this date and time, which is that of the Unix
    /// epoch and the duration from it. There is none for a time before the
    /// epoch, and none where the platform cannot hold the time.
    pub open spec fn system_time(self) -> Option<SystemTime> {
        match self.unix_duration() {
            Some(duration) => spec_after_unix_epoch(duration),
            None => None,
        }
    }
}

/// The whole seconds that a `Duration` holds: what `Duration::as_secs`
/// returns.
pub uninterp spec fn spec_duration_seconds(duration: Duration) -> u64;

/// `Duration::as_secs` returns the whole seconds of the duration.
pub assume_specification[ Duration::as_secs ](duration: &Duration) -> (r: u64)
    ensures
        r == spec_duration_seconds(*duration),
;

/// The `Duration` of a number of whole seconds: what `Duration::from_secs`
/// returns.
pub uninterp spec fn spec_duration_from_secs(secs: u64) -> Duration;

/// `Duration::from_secs` makes the duration of that many whole seconds.
pub assume_specification[ Duration::from_secs ](secs: u64) -> (r: Duration)
    ensures
        r == spec_duration_from_secs(secs),
        spec_duration_seconds(r) == secs,
;

/// `std::time::SystemTime`, a point in time of which nothing is seen here but
/// its distance from the Unix epoch.
#[verifier::external_type_specification]
#[verifier::external_body]
pub struct ExSystemTime(SystemTime);

/// The time from the Unix epoch to a `SystemTime`, where it is not before the
/// epoch: what `SystemTime::duration_since` returns for `UNIX_EPOCH`.
pub uninterp spec fn spec_since_unix_epoch(time: SystemTime) -> Option<Duration>;

/// `SystemTime::duration_since`, called with `UNIX_EPOCH`: the time from the
/// epoch to `time`, or nothing where `time` is before the epoch.
#[verifier::external_body]
fn since_unix_epoch(time: SystemTime) -> (r: Option<Duration>)
    ensures
        r == spec_since_unix_epoch(time),
{
    match time.duration_since(std::time::UNIX_EPOCH) {
        Ok(duration) => Some(duration),
        Err(_) => None,
    }
}

/// The `SystemTime` that lies a `Duration` after the Unix epoch, where the
/// platform can hold it: what `SystemTime::checked_add` returns for
/// `UNIX_EPOCH` and the duration.
pub uninterp spec fn spec_after_unix_epoch(duration: Duration) -> Option<SystemTime>;

/// `SystemTime::checked_add`, called on `UNIX_EPOCH`: the time that lies the
/// duration after the epoch, or nothing where the platform cannot hold it.
/// Such a time is as many whole seconds after the epoch as the duration has.
#[verifier::external_body]
fn after_unix_epoch(duration: Duration) -> (r: Option<SystemTime>)
    ensures
        r == spec_after_unix_epoch(duration),
        r matches Some(time) ==> spec_since_unix_epoch(time) matches Some(back)
            && spec_duration_seconds(back) == spec_duration_seconds(duration),
{
    std::time::UNIX_EPOCH.checked_add(duration)
}

/// A date and a time of day in UTC, from 1950 to 9999, to the second.
#[derive(Copy, Clone, Debug, Eq, PartialEq, PartialOrd, Ord)]
pub struct DateTime {
    year: u16,
    month: u8,
    day: u8,
    hour: u8,
    minutes: u8,
    seconds: u8,
}

impl View for DateTime {
    type V = CivilTime;

    closed spec fn view(&self) -> CivilTime {
        CivilTime {
            year: self.year as int,
            month: self.month as int,
            day: self.day as int,
            hour: self.hour as int,
            minutes: self.minutes as int,
            seconds: self.seconds as int,
        }
    }
}

impl DeepView for DateTime {
    type V = CivilTime;

    open spec fn deep_view(&self) -> CivilTime {
        self@
    }
}

/// Is `year` a leap year?
pub fn is_leap_year(year: u16) -> (r: bool)
    ensures
        r == spec_is_leap_year(year as int),
{
    year % 4 == 0 && (year % 100 != 0 || year % 400 == 0)
}

/// The number of days of a month.
pub fn days_in_month(year: u16, month: u8) -> (r: u8)
    ensures
        r == spec_days_in_month(year as int, month as int),
{
    if month == 2 {
        if is_leap_year(year) {
            29
        } else {
            28
        }
    } else if month == 4 || month == 6 || month == 9 || month == 11 {
        30
    } else {
        31
    }
}

/// Among the numbers up to `a`, the multiples of `d` are one more than among
/// those below `a` exactly where `a` is one of them.
proof fn lemma_multiples_up_to(a: int, d: int)
    requires
        d > 0,
    ensures
        a / d - (a - 1) / d == if a % d == 0 {
            1int
        } else {
            0int
        },
{
    let q = a / d;
    let r = a % d;
    vstd::arithmetic::div_mod::lemma_fundamental_div_mod(a, d);
    if r == 0 {
        assert(a - 1 == (q - 1) * d + (d - 1)) by (nonlinear_arith)
            requires
                a == d * q + r,
                r == 0,
        ;
        vstd::arithmetic::div_mod::lemma_fundamental_div_mod_converse(a - 1, d, q - 1, d - 1);
    } else {
        assert(a - 1 == q * d + (r - 1)) by (nonlinear_arith)
            requires
                a == d * q + r,
        ;
        vstd::arithmetic::div_mod::lemma_fundamental_div_mod_converse(a - 1, d, q, r - 1);
    }
}

/// A multiple of 400 is one of 100, and a multiple of 100 is one of 4.
proof fn lemma_multiples_of_400_and_100(a: int)
    ensures
        a % 400 == 0 ==> a % 100 == 0,
        a % 100 == 0 ==> a % 4 == 0,
{
    vstd::arithmetic::div_mod::lemma_fundamental_div_mod(a, 400);
    vstd::arithmetic::div_mod::lemma_fundamental_div_mod(a, 100);
    if a % 400 == 0 {
        vstd::arithmetic::div_mod::lemma_fundamental_div_mod_converse(a, 100, 4 * (a / 400), 0);
    }
    if a % 100 == 0 {
        vstd::arithmetic::div_mod::lemma_fundamental_div_mod_converse(a, 4, 25 * (a / 100), 0);
    }
}

/// The days before a year are those of the years from 1970, 365 each, and
/// one more for each leap year among them.
pub proof fn lemma_days_before_year(year: int)
    ensures
        spec_days_before_year(year) == 365 * (year - 1970) + (year - 1) / 4 - (year - 1) / 100 + (
        year - 1) / 400 - 477,
        year >= 1970 ==> spec_days_before_year(year) >= 365 * (year - 1970),
    decreases
            if year >= 1970 {
                year - 1970
            } else {
                1970 - year
            },
{
    if year != 1970 {
        let a = if year > 1970 {
            year - 1
        } else {
            year
        };
        if year > 1970 {
            lemma_days_before_year(year - 1);
        } else {
            lemma_days_before_year(year + 1);
        }
        lemma_multiples_up_to(a, 4);
        lemma_multiples_up_to(a, 100);
        lemma_multiples_up_to(a, 400);
        lemma_multiples_of_400_and_100(a);
    }
}

/// The days before the year after `year` are those before `year` and those
/// of `year`.
pub proof fn lemma_days_before_next_year(year: int)
    ensures
        spec_days_before_year(year + 1) == spec_days_before_year(year) + spec_days_in_year(year),
{
}

/// A later year has no fewer days before it.
pub proof fn lemma_days_before_year_monotonic(earlier: int, later: int)
    requires
        earlier <= later,
    ensures
        spec_days_before_year(earlier) <= spec_days_before_year(later),
    decreases later - earlier,
{
    if earlier < later {
        lemma_days_before_year_monotonic(earlier, later - 1);
        lemma_days_before_next_year(later - 1);
    }
}

/// The days before each month of a year.
pub proof fn lemma_days_before_month(year: int)
    ensures
        spec_days_before_month(year, 1) == 0,
        spec_days_before_month(year, 2) == 31,
        spec_days_before_month(year, 3) == spec_days_in_year(year) - 306,
        spec_days_before_month(year, 4) == spec_days_in_year(year) - 275,
        spec_days_before_month(year, 5) == spec_days_in_year(year) - 245,
        spec_days_before_month(year, 6) == spec_days_in_year(year) - 214,
        spec_days_before_month(year, 7) == spec_days_in_year(year) - 184,
        spec_days_before_month(year, 8) == spec_days_in_year(year) - 153,
        spec_days_before_month(year, 9) == spec_days_in_year(year) - 122,
        spec_days_before_month(year, 10) == spec_days_in_year(year) - 92,
        spec_days_before_month(year, 11) == spec_days_in_year(year) - 61,
        spec_days_before_month(year, 12) == spec_days_in_year(year) - 31,
        spec_days_before_month(year, 13) == spec_days_in_year(year),
{
    reveal_with_fuel(spec_days_before_month, 14);
}

/// The number of days from the first day of 1970 to the first day of `year`.
fn days_before_year(year: u16) -> (r: i64)
    requires
        1950 <= year <= 10_006,
    ensures
        r == spec_days_before_year(year as int),
        -7305 <= r <= 2_935_089,
{
    proof {
        lemma_days_before_year(year as int);
    }
    let before: i64 = (year - 1) as i64;
    365 * (year as i64 - 1970) + (before / 4 - before / 100 + before / 400) - 477
}

/// The number of days from the first day of `year` to the first day of its
/// month `month`.
fn days_before_month(year: u16, month: u8) -> (r: i64)
    requires
        1 <= month <= 12,
    ensures
        r == spec_days_before_month(year as int, month as int),
        r <= 335,
{
    proof {
        lemma_days_before_month(year as int);
    }
    let leap: i64 = if is_leap_year(year) { 1 } else { 0 };
    match month {
        1 => 0,
        2 => 31,
        3 => 59 + leap,
        4 => 90 + leap,
        5 => 120 + leap,
        6 => 151 + leap,
        7 => 181 + leap,
        8 => 212 + leap,
        9 => 243 + leap,
        10 => 273 + leap,
        11 => 304 + leap,
        _ => 334 + leap,
    }
}

/// A valid date lies within its year, and its time within its day.
pub proof fn lemma_unix_seconds_bounds(civil: CivilTime)
    requires
        civil.valid(),
    ensures
        spec_days_before_year(civil.year) <= civil.unix_days() < spec_days_before_year(
            civil.year + 1,
        ),
        civil.unix_days() * 86_400 <= civil.unix_seconds() < (civil.unix_days() + 1) * 86_400,
        MIN_UNIX_SECONDS <= civil.unix_seconds() <= MAX_UNIX_SECONDS,
        civil.year >= 1970 <==> civil.unix_seconds() >= 0,
{
    lemma_days_before_month(civil.year);
    lemma_days_before_year(1950);
    lemma_days_before_year(10_000);
    lemma_days_before_year_monotonic(1950, civil.year);
    lemma_days_before_year_monotonic(civil.year + 1, 10_000);
    lemma_days_before_next_year(civil.year);
    if civil.year >= 1970 {
        lemma_days_before_year_monotonic(1970, civil.year);
    } else {
        lemma_days_before_year_monotonic(civil.year + 1, 1970);
    }
}

/// No two valid dates and times are equally far from the Unix epoch.
pub proof fn lemma_unix_seconds_injective(a: CivilTime, b: CivilTime)
    requires
        a.valid(),
        b.valid(),
        a.unix_seconds() == b.unix_seconds(),
    ensures
        a == b,
{
    lemma_unix_seconds_bounds(a);
    lemma_unix_seconds_bounds(b);
    assert(a.unix_days() == b.unix_days());
    assert(a.hour == b.hour && a.minutes == b.minutes && a.seconds == b.seconds);
    if a.year < b.year {
        lemma_days_before_year_monotonic(a.year + 1, b.year);
    }
    if b.year < a.year {
        lemma_days_before_year_monotonic(b.year + 1, a.year);
    }
    assert(a.year == b.year);
    lemma_days_before_month(a.year);
    assert(a.month == b.month);
}

impl DateTime {
    /// Every `DateTime` holds a valid date and time.
    #[verifier::type_invariant]
    pub open spec fn well_formed(self) -> bool {
        self@.valid()
    }

    /// The date and time with the given numbers, if there is one.
    pub fn new(year: u16, month: u8, day: u8, hour: u8, minutes: u8, seconds: u8) -> (r: Result<
        DateTime,
        Error,
    >)
        ensures
            match r {
                Ok(datetime) => datetime@.valid() && datetime@ == (CivilTime {
                    year: year as int,
                    month: month as int,
                    day: day as int,
                    hour: hour as int,
                    minutes: minutes as int,
                    seconds: seconds as int,
                }),
                Err(e) => e.kind == ErrorKind::DateTime && !(CivilTime {
                    year: year as int,
                    month: month as int,
                    day: day as int,
                    hour: hour as int,
                    minutes: minutes as int,
                    seconds: seconds as int,
                }).valid(),
            },
    {
        if year < MIN_YEAR || year > MAX_YEAR || month < 1 || month > 12 || hour > 23 || minutes
            > 59 || seconds > 59 {
            return Err(Error::new(ErrorKind::DateTime));
        }
        if day < 1 || day > days_in_month(year, month) {
            return Err(Error::new(ErrorKind::DateTime));
        }
        Ok(DateTime { year, month, day, hour, minutes, seconds })
    }

    /// The date and time that lies `secs` seconds after the Unix epoch, if it
    /// is before the year 10000.
    pub fn from_unix_seconds(secs: u64) -> (r: Result<DateTime, Error>)
        ensures
            match r {
                Ok(datetime) => {
                    &&& secs <= MAX_UNIX_SECONDS
                    &&& datetime@.valid()
                    &&& datetime@.unix_seconds() == secs
                },
                Err(e) => secs > MAX_UNIX_SECONDS && e.kind == ErrorKind::DateTime,
            },
    {
        if secs > MAX_UNIX_SECONDS {
            return Err(Error::new(ErrorKind::DateTime));
        }
        let days: i64 = (secs / SECONDS_PER_DAY) as i64;
        let second_of_day: u64 = secs % SECONDS_PER_DAY;
        // A first guess that is never too early, as no year has fewer than 365 days.
        let mut year: u16 = (1970 + days / 365) as u16;
        proof {
            lemma_days_before_year(year as int + 1);
        }
        while days_before_year(year) > days
            invariant
                1970 <= year <= 10_005,
                0 <= days,
                days < spec_days_before_year(year as int + 1),
            decreases year,
        {
            proof {
                lemma_days_before_next_year(year as int);
            }
            year = year - 1;
        }
        proof {
            lemma_days_before_year(10_000);
            if year >= 10_000 {
                lemma_days_before_year_monotonic(10_000, year as int);
            }
            lemma_days_before_month(year as int);
        }
        proof {
            lemma_days_before_next_year(year as int);
        }
        let mut left: i64 = days - days_before_year(year);
        let mut month: u8 = 1;
        while left >= days_in_month(year, month) as i64
            invariant
                1970 <= year <= 9999,
                1 <= month <= 12,
                0 <= left,
                left + spec_days_before_month(year as int, month as int) + spec_days_before_year(
                    year as int,
                ) == days,
                days < spec_days_before_year(year as int + 1),
            decreases 12 - month,
        {
            proof {
                lemma_days_before_month(year as int);
            }
            left = left - days_in_month(year, month) as i64;
            month = month + 1;
        }
        let day: u8 = (left + 1) as u8;
        let hour: u8 = (second_of_day / 3600) as u8;
        let minutes: u8 = (second_of_day % 3600 / 60) as u8;
        let seconds: u8 = (second_of_day % 60) as u8;
        Ok(DateTime { year, month, day, hour, minutes, seconds })
    }

    /// The date and time that lies a duration after the Unix epoch, to the
    /// second, if it is before the year 10000.
    pub fn from_unix_duration(unix_duration: Duration) -> (r: Result<DateTime, Error>)
        ensures
            match r {
                Ok(datetime) => {
                    &&& spec_duration_seconds(unix_duration) <= MAX_UNIX_SECONDS
                    &&& datetime@.valid()
                    &&& datetime@.unix_seconds() == spec_duration_seconds(unix_duration)
                },
                Err(e) => spec_duration_seconds(unix_duration) > MAX_UNIX_SECONDS && e.kind
                    == ErrorKind::DateTime,
            },
    {
        DateTime::from_unix_seconds(unix_duration.as_secs())
    }

    /// The date and time of a `SystemTime`, to the second, if it is from the
    /// Unix epoch on and before the year 10000.
    pub fn from_system_time(time: SystemTime) -> (r: Result<DateTime, Error>)
        ensures
            match r {
                Ok(datetime) => {
                    &&& spec_since_unix_epoch(time) matches Some(duration)
                    &&& spec_duration_seconds(duration) <= MAX_UNIX_SECONDS
                    &&& datetime@.valid()
                    &&& datetime@.unix_seconds() == spec_duration_seconds(duration)
                },
                Err(e) => {
                    &&& e.kind == ErrorKind::DateTime
                    &&& spec_since_unix_epoch(time) matches Some(duration)
                        ==> spec_duration_seconds(duration) > MAX_UNIX_SECONDS
                },
            },
    {
        match since_unix_epoch(time) {
            Some(duration) => DateTime::from_unix_duration(duration),
            None => Err(Error::new(ErrorKind::DateTime)),
        }
    }

    /// The year.
    pub fn year(&self) -> (r: u16)
        ensures
            r == self@.year,
            self@.valid(),
    {
        proof {
            use_type_invariant(self);
        }
        self.year
    }

    /// The month, from 1.
    pub fn month(&self) -> (r: u8)
        ensures
            r == self@.month,
            self@.valid(),
    {
        proof {
            use_type_invariant(self);
        }
        self.month
    }

    /// The day of the month, from 1.
    pub fn day(&self) -> (r: u8)
        ensures
            r == self@.day,
            self@.valid(),
    {
        proof {
            use_type_invariant(self);
        }
        self.day
    }

    /// The hour of the day.
    pub fn hour(&self) -> (r: u8)
        ensures
            r == self@.hour,
            self@.valid(),
    {
        proof {
            use_type_invariant(self);
        }
        self.hour
    }

    /// The minute of the hour.
    pub fn minutes(&self) -> (r: u8)
        ensures
            r == self@.minutes,
            self@.valid(),
    {
        proof {
            use_type_invariant(self);
        }
        self.minutes
    }

    /// The second of the minute.
    pub fn seconds(&self) -> (r: u8)
        ensures
            r == self@.seconds,
            self@.valid(),
    {
        proof {
            use_type_invariant(self);
        }
        self.seconds
    }

    /// The seconds from the Unix epoch to this date and time, negative for a
    /// time before the epoch.
    pub fn unix_seconds(&self) -> (r: i64)
        ensures
            r == self@.unix_seconds(),
            MIN_UNIX_SECONDS <= r <= MAX_UNIX_SECONDS,
            self@.year >= 1970 <==> r >= 0,
            self@.valid(),
    {
        proof {
            use_type_invariant(self);
            lemma_unix_seconds_bounds(self@);
        }
        let days: i64 = days_before_year(self.year) + days_before_month(self.year, self.month) + (
        self.day as i64 - 1);
        days * 86_400 + self.hour as i64 * 3600 + self.minutes as i64 * 60 + self.seconds as i64
    }

    /// The time from the Unix epoch to this date and time, which must not
    /// lie before the epoch: a `Duration` is never negative.
    pub fn unix_duration(&self) -> (r: Duration)
        requires
            self@.year >= 1970,
        ensures
            Some(r) == self@.unix_duration(),
            spec_duration_seconds(r) == self@.unix_seconds(),
            spec_duration_seconds(r) <= MAX_UNIX_SECONDS,
            self@.valid(),
    {
        Duration::from_secs(self.unix_seconds() as u64)
    }

    /// The time from the Unix epoch to this date and time, or nothing for a
    /// time before the epoch.
    pub fn checked_unix_duration(&self) -> (r: Option<Duration>)
        ensures
            r == self@.unix_duration(),
            r is Some <==> self@.year >= 1970,
            r matches Some(duration) ==> spec_duration_seconds(duration) == self@.unix_seconds(),
            self@.valid(),
    {
        if self.year() >= 1970 {
            Some(self.unix_duration())
        } else {
            proof {
                lemma_unix_seconds_bounds(self@);
            }
            None
        }
    }

    /// This date and time as a `SystemTime`, or nothing for a time before the
    /// Unix epoch and for one that the platform cannot hold.
    pub fn checked_to_system_time(&self) -> (r: Option<SystemTime>)
        ensures
            r == self@.system_time(),
            r matches Some(time) ==> spec_since_unix_epoch(time) matches Some(duration)
                && spec_duration_seconds(duration) == self@.unix_seconds(),
            self@.valid(),
    {
        match self.checked_unix_duration() {
            Some(duration) => match after_unix_epoch(duration) {
                Some(_) => Some(self.to_system_time()),
                None => None,
            },
            None => None,
        }
    }

    /// This date and time as a `SystemTime`, which must not lie before the
    /// Unix epoch and which the platform must be able to hold.
    pub fn to_system_time(&self) -> (r: SystemTime)
        requires
            self@.system_time() is Some,
        ensures
            Some(r) == self@.system_time(),
            spec_since_unix_epoch(r) matches Some(duration) && spec_duration_seconds(duration)
                == self@.unix_seconds(),
            self@.valid(),
    {
        proof {
            use_type_invariant(self);
            lemma_unix_seconds_bounds(self@);
        }
        after_unix_epoch(self.unix_duration()).unwrap()
    }
}

} // verus!
