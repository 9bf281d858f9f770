//! The station's clock, read once and held as plain numbers.
//!
//! A reading keeps the civil date and time in the station's own time zone
//! and the same instant on universal time. Macros greet by the first and log
//! by the second; a received chart is stamped with the first.

use vstd::prelude::*;

use jiff::Zoned;

use crate::text::digit_char;

verus! {

/// A datetime in a time zone, from jiff, carried through as an opaque value.
#[verifier::external_type_specification]
#[verifier::external_body]
pub struct ExZoned(Zoned);

/// One reading of the clock.
#[derive(Clone, Copy, Debug, PartialEq, Eq)]
pub struct Clock {
    /// The civil date and time in the station's own time zone.
    pub year: i16,
    pub month: i8,
    pub day: i8,
    pub hour: i8,
    pub minute: i8,
    pub second: i8,
    /// The civil date and time of the same instant on universal time.
    pub utc_year: i16,
    pub utc_month: i8,
    pub utc_day: i8,
    pub utc_hour: i8,
    pub utc_minute: i8,
}

/// Whether `year` has a 29th of February, in the proleptic Gregorian calendar.
pub open spec fn leap_year(year: int) -> bool {
    year % 4 == 0 && (year % 100 != 0 || year % 400 == 0)
}

/// How many days `month` of `year` has.
pub open spec fn days_in_month(year: int, month: int) -> int {
    if month == 2 {
        if leap_year(year) {
            29
        } else {
            28
        }
    } else if month == 4 || month == 6 || month == 9 || month == 11 {
        30
    } else {
        31
    }
}

/// Whether these are the parts of a civil datetime that exists, within the
/// years a civil datetime can have.
pub open spec fn civil(year: int, month: int, day: int, hour: int, minute: int, second: int) -> bool {
    &&& -9999 <= year <= 9999
    &&& 1 <= month <= 12
    &&& 1 <= day <= days_in_month(year, month)
    &&& 0 <= hour <= 23
    &&& 0 <= minute <= 59
    &&& 0 <= second <= 59
}

impl Clock {
    /// Both readings name a civil datetime that exists.
    pub open spec fn wf(self) -> bool {
        &&& civil(
            self.year as int,
            self.month as int,
            self.day as int,
            self.hour as int,
            self.minute as int,
            self.second as int,
        )
        &&& civil(
            self.utc_year as int,
            self.utc_month as int,
            self.utc_day as int,
            self.utc_hour as int,
            self.utc_minute as int,
            0,
        )
    }
}

/// The civil datetime `now` shows in its own time zone: year, month, day,
/// hour, minute and second, as jiff's `Zoned` accessors give them.
pub uninterp spec fn local_parts(now: Zoned) -> (int, int, int, int, int, int);

/// The civil date and time of `now`'s instant in UTC: year, month, day, hour
/// and minute, as jiff's accessors give them on `now` moved into the UTC zone.
pub uninterp spec fn utc_parts(now: Zoned) -> (int, int, int, int, int);

/// The civil datetime of `now` in its own time zone.
///
/// Trusted: calls jiff's `Zoned::year`, `month`, `day`, `hour`, `minute` and
/// `second`. A `Zoned` always holds a datetime that exists, and jiff
/// documents each part's range; the parts are named by `local_parts`.
#[verifier::external_body]
fn local_reading(now: &Zoned) -> (parts: (i16, i8, i8, i8, i8, i8))
    ensures
        (parts.0 as int, parts.1 as int, parts.2 as int, parts.3 as int, parts.4 as int, parts.5 as int)
            == local_parts(*now),
        civil(parts.0 as int, parts.1 as int, parts.2 as int, parts.3 as int, parts.4 as int, parts.5 as int),
{
    (now.year(), now.month(), now.day(), now.hour(), now.minute(), now.second())
}

/// The civil date and time of `now`'s instant in UTC.
///
/// Trusted: calls jiff's `Zoned::with_time_zone` with `TimeZone::UTC`, which
/// cannot fail, then `year`, `month`, `day`, `hour` and `minute` on the
/// result. The ranges are jiff's documented ones; the parts are named by
/// `utc_parts`.
#[verifier::external_body]
fn utc_reading(now: &Zoned) -> (parts: (i16, i8, i8, i8, i8))
    ensures
        (parts.0 as int, parts.1 as int, parts.2 as int, parts.3 as int, parts.4 as int) == utc_parts(*now),
        civil(parts.0 as int, parts.1 as int, parts.2 as int, parts.3 as int, parts.4 as int, 0),
{
    let utc = now.with_time_zone(jiff::tz::TimeZone::UTC);
    (utc.year(), utc.month(), utc.day(), utc.hour(), utc.minute())
}

/// Reads the clock at `now`: its civil datetime in its own time zone, and
/// the same instant on universal time.
pub fn clock_at(now: &Zoned) -> (clock: Clock)
    ensures
        clock.wf(),
        (clock.year as int, clock.month as int, clock.day as int, clock.hour as int, clock.minute as int,
            clock.second as int) == local_parts(*now),
        (clock.utc_year as int, clock.utc_month as int, clock.utc_day as int, clock.utc_hour as int,
            clock.utc_minute as int) == utc_parts(*now),
{
    let local = local_reading(now);
    let utc = utc_reading(now);
    Clock {
        year: local.0,
        month: local.1,
        day: local.2,
        hour: local.3,
        minute: local.4,
        second: local.5,
        utc_year: utc.0,
        utc_month: utc.1,
        utc_day: utc.2,
        utc_hour: utc.3,
        utc_minute: utc.4,
    }
}

/// `n` in decimal, zero padded or cut to its last `width` digits.
pub open spec fn padded(n: nat, width: nat) -> Seq<char>
    decreases width,
{
    if width == 0 {
        Seq::empty()
    } else {
        padded(n / 10, (width - 1) as nat).push(digit_char(n % 10))
    }
}

/// A date as `%Y-%m-%d` writes it, for a year of no more than four digits.
pub open spec fn date_digits(year: int, month: int, day: int) -> Seq<char> {
    padded(year as nat, 4) + "-"@ + padded(month as nat, 2) + "-"@ + padded(day as nat, 2)
}

/// A time as `%H%M` writes it.
pub open spec fn time_digits(hour: int, minute: int) -> Seq<char> {
    padded(hour as nat, 2) + padded(minute as nat, 2)
}

/// A datetime as `%Y%m%d-%H%M%S` writes it, for a year of no more than four
/// digits.
pub open spec fn stamp_digits(year: int, month: int, day: int, hour: int, minute: int, second: int) -> Seq<
    char,
> {
    padded(year as nat, 4) + padded(month as nat, 2) + padded(day as nat, 2) + "-"@ + padded(hour as nat, 2)
        + padded(minute as nat, 2) + padded(second as nat, 2)
}

/// The pattern a log's date is written by.
pub const DATE_PATTERN: &'static str = "%Y-%m-%d";

/// The pattern a log's time is written by.
pub const TIME_PATTERN: &'static str = "%H%M";

/// The pattern a file's time stamp is written by.
pub const STAMP_PATTERN: &'static str = "%Y%m%d-%H%M%S";

/// What jiff writes for the civil datetime with these parts, by the
/// `strftime` pattern `pattern`.
pub uninterp spec fn civil_text(
    year: int,
    month: int,
    day: int,
    hour: int,
    minute: int,
    second: int,
    pattern: Seq<char>,
) -> Seq<char>;

/// The civil datetime with these parts, written by a `strftime` pattern.
///
/// Trusted: builds the datetime with `jiff::civil::date(..).at(..)`, which
/// panics on parts that name no datetime (hence the `requires`), and renders
/// `DateTime::strftime` with `to_string`, which jiff documents as never
/// failing or panicking, whatever the pattern. The text is named: it depends
/// on these parts and the pattern alone. For the three patterns this library
/// writes by, it is also stated, as jiff's table of conversions documents
/// them: `%Y` the year zero padded to four digits, `%m`, `%d`, `%H`, `%M` and
/// `%S` zero padded to two, other characters as they stand. A year below zero
/// is left to the name.
#[verifier::external_body]
fn civil_strftime(
    year: i16,
    month: i8,
    day: i8,
    hour: i8,
    minute: i8,
    second: i8,
    pattern: &str,
) -> (text: String)
    requires
        civil(year as int, month as int, day as int, hour as int, minute as int, second as int),
    ensures
        text@ == civil_text(
            year as int,
            month as int,
            day as int,
            hour as int,
            minute as int,
            second as int,
            pattern@,
        ),
        pattern@ == DATE_PATTERN@ && year >= 0 ==> text@ == date_digits(year as int, month as int, day as int),
        pattern@ == TIME_PATTERN@ ==> text@ == time_digits(hour as int, minute as int),
        pattern@ == STAMP_PATTERN@ && year >= 0 ==> text@ == stamp_digits(
            year as int,
            month as int,
            day as int,
            hour as int,
            minute as int,
            second as int,
        ),
{
    jiff::civil::date(year, month, day).at(hour, minute, second, 0).strftime(pattern).to_string()
}

/// The universal date of a reading, as a log writes it.
pub open spec fn utc_date_text(clock: Clock) -> Seq<char> {
    if clock.utc_year >= 0 {
        date_digits(clock.utc_year as int, clock.utc_month as int, clock.utc_day as int)
    } else {
        civil_text(
            clock.utc_year as int,
            clock.utc_month as int,
            clock.utc_day as int,
            clock.utc_hour as int,
            clock.utc_minute as int,
            0,
            DATE_PATTERN@,
        )
    }
}

/// The universal time of a reading, in hours and minutes as a log writes it.
pub open spec fn utc_time_text(clock: Clock) -> Seq<char> {
    time_digits(clock.utc_hour as int, clock.utc_minute as int)
}

/// The local date and time of a reading, to the second, as a file is stamped.
pub open spec fn stamp_text(clock: Clock) -> Seq<char> {
    if clock.year >= 0 {
        stamp_digits(
            clock.year as int,
            clock.month as int,
            clock.day as int,
            clock.hour as int,
            clock.minute as int,
            clock.second as int,
        )
    } else {
        civil_text(
            clock.year as int,
            clock.month as int,
            clock.day as int,
            clock.hour as int,
            clock.minute as int,
            clock.second as int,
            STAMP_PATTERN@,
        )
    }
}

/// The universal date of `clock`, as year, month and day.
pub fn date_utc(clock: &Clock) -> (text: String)
    requires
        clock.wf(),
    ensures
        text@ == utc_date_text(*clock),
{
    civil_strftime(clock.utc_year, clock.utc_month, clock.utc_day, clock.utc_hour, clock.utc_minute, 0, DATE_PATTERN)
}

/// The universal time of `clock`, as hours and minutes.
pub fn time_utc(clock: &Clock) -> (text: String)
    requires
        clock.wf(),
    ensures
        text@ == utc_time_text(*clock),
{
    civil_strftime(clock.utc_year, clock.utc_month, clock.utc_day, clock.utc_hour, clock.utc_minute, 0, TIME_PATTERN)
}

/// The local date and time of `clock`, to the second.
pub fn stamp(clock: &Clock) -> (text: String)
    requires
        clock.wf(),
    ensures
        text@ == stamp_text(*clock),
{
    civil_strftime(clock.year, clock.month, clock.day, clock.hour, clock.minute, clock.second, STAMP_PATTERN)
}

} // verus!
