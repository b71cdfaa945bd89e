//! Dates of the Tenda runtime: an instant, counted in milliseconds since the Unix epoch, and
//! the offset from UTC, in seconds, in which it is shown. The calendar arithmetic is chrono's.

use vstd::prelude::*;
use chrono::{Datelike, Offset, TimeZone, Timelike};
use chrono::format::ParseErrorKind;
use core::cmp::Ordering;
use vstd::std_specs::cmp::PartialOrdSpecImpl;
use crate::text::push_char;

verus! {

/// Why a date could not be made.
#[derive(Debug, Clone)]
pub enum DateError {
    /// The timestamp lies outside the dates that can be represented.
    InvalidTimestamp { timestamp: i64 },
    /// The text is not an RFC 3339 date and time.
    IsoParse { kind: IsoParseErrorKind },
    /// The name is not one of a known time zone.
    InvalidTimeZone { name: String },
}

/// What is wrong with a text that should hold an RFC 3339 date and time.
#[derive(Debug, Clone, Copy, PartialEq, Eq, Structural)]
pub enum IsoParseErrorKind {
    OutOfRange,
    Impossible,
    NotEnough,
    Invalid,
    TooShort,
    TooLong,
    BadFormat,
}

/// The days of the week.
#[derive(Debug, Clone, Copy, PartialEq, Eq, Structural)]
pub enum Weekday {
    Mon,
    Tue,
    Wed,
    Thu,
    Fri,
    Sat,
    Sun,
}

/// Whether chrono can represent the instant `ts` milliseconds after the Unix epoch.
pub uninterp spec fn chrono_millis_in_range(ts: i64) -> bool;

/// What chrono makes of an RFC 3339 text: the instant in milliseconds and the offset in seconds.
pub uninterp spec fn rfc3339_parsed(text: Seq<char>) -> Result<(i64, i32), IsoParseErrorKind>;

/// Whether `name` names a time zone of chrono-tz's database.
pub uninterp spec fn zone_known(name: Seq<char>) -> bool;

/// The offset from UTC, in seconds, of the zone `name` at the instant `ts`.
pub uninterp spec fn zone_offset_at(name: Seq<char>, ts: i64) -> i32;

/// The RFC 3339 text of the instant `ts` shown at `offset`.
pub uninterp spec fn rfc3339_text(ts: i64, offset: i32) -> Seq<char>;

/// The year of the instant `ts` shown at `offset`.
pub uninterp spec fn calendar_year(ts: i64, offset: i32) -> i32;

/// The month, from 1, of the instant `ts` shown at `offset`.
pub uninterp spec fn calendar_month(ts: i64, offset: i32) -> u32;

/// The day of the month, from 1, of the instant `ts` shown at `offset`.
pub uninterp spec fn calendar_day(ts: i64, offset: i32) -> u32;

/// The seconds past local midnight of the instant `ts` (milliseconds since the epoch, leap
/// seconds not counted) shown at `offset` (seconds east of UTC).
pub open spec fn local_second_of_day(ts: i64, offset: i32) -> int {
    (ts as int / 1000 + offset as int) % 86_400
}

/// The hour of the instant `ts` shown at `offset`.
pub open spec fn calendar_hour(ts: i64, offset: i32) -> int {
    local_second_of_day(ts, offset) / 3600
}

/// The minute of the instant `ts` shown at `offset`.
pub open spec fn calendar_minute(ts: i64, offset: i32) -> int {
    (local_second_of_day(ts, offset) / 60) % 60
}

/// The second of the instant `ts` shown at `offset`.
pub open spec fn calendar_second(ts: i64, offset: i32) -> int {
    local_second_of_day(ts, offset) % 60
}

/// The day of the year, from 1, of the instant `ts` shown at `offset`.
pub uninterp spec fn calendar_ordinal(ts: i64, offset: i32) -> u32;

/// The ISO 8601 week number of the instant `ts` shown at `offset`.
pub uninterp spec fn calendar_iso_week(ts: i64, offset: i32) -> u32;

/// The day of the week of the instant `ts` shown at `offset`.
pub uninterp spec fn calendar_weekday(ts: i64, offset: i32) -> Weekday;

/// An offset that a `chrono::FixedOffset` can hold: less than a day either way.
pub open spec fn offset_in_range(offset: i32) -> bool {
    -86_400 < offset < 86_400
}

/// Whether `Utc.timestamp_millis_opt(ts)` gives a single date; chrono's range is named, not
/// described.
#[verifier::external_body]
fn millis_in_range(ts: i64) -> (r: bool)
    ensures
        r == chrono_millis_in_range(ts),
{
    matches!(chrono::Utc.timestamp_millis_opt(ts), chrono::LocalResult::Single(_))
}

/// `DateTime::parse_from_rfc3339`, giving the UTC instant in milliseconds and the offset in
/// seconds, or the kind of the parse error. The result is named; a parsed offset is one that
/// a `FixedOffset` holds, less than a day.
#[verifier::external_body]
fn parse_rfc3339(text: &str) -> (r: Result<(i64, i32), IsoParseErrorKind>)
    ensures
        r == rfc3339_parsed(text@),
        r matches Ok((_, offset)) ==> offset_in_range(offset),
{
    match chrono::DateTime::parse_from_rfc3339(text) {
        Ok(dt) => Ok((dt.with_timezone(&chrono::Utc).timestamp_millis(), dt.offset().fix().local_minus_utc())),
        Err(e) => Err(match e.kind() {
            ParseErrorKind::OutOfRange => IsoParseErrorKind::OutOfRange,
            ParseErrorKind::Impossible => IsoParseErrorKind::Impossible,
            ParseErrorKind::NotEnough => IsoParseErrorKind::NotEnough,
            ParseErrorKind::Invalid => IsoParseErrorKind::Invalid,
            ParseErrorKind::TooShort => IsoParseErrorKind::TooShort,
            ParseErrorKind::TooLong => IsoParseErrorKind::TooLong,
            _ => IsoParseErrorKind::BadFormat,
        }),
    }
}

/// Whether `name.parse::<chrono_tz::Tz>()` succeeds.
#[verifier::external_body]
fn is_known_zone(name: &str) -> (r: bool)
    ensures
        r == zone_known(name@),
{
    name.parse::<chrono_tz::Tz>().is_ok()
}

/// The offset that the chrono-tz zone `name` has at the instant `ts`, as a `FixedOffset`
/// holds it: less than a day either way.
#[verifier::external_body]
fn zone_offset(name: &str, ts: i64) -> (r: i32)
    requires
        zone_known(name@),
        chrono_millis_in_range(ts),
    ensures
        r == zone_offset_at(name@, ts),
        offset_in_range(r),
{
    let zone = name.parse::<chrono_tz::Tz>().unwrap();
    chrono::Utc.timestamp_millis_opt(ts).single().unwrap().with_timezone(&zone).offset().fix().local_minus_utc()
}

/// `DateTime::to_rfc3339`.
#[verifier::external_body]
fn format_rfc3339(ts: i64, offset: i32) -> (r: String)
    requires
        chrono_millis_in_range(ts),
        offset_in_range(offset),
    ensures
        r@ == rfc3339_text(ts, offset),
{
    chrono::Utc.timestamp_millis_opt(ts).single().unwrap().with_timezone(&chrono::FixedOffset::east_opt(offset).unwrap()).to_rfc3339()
}

/// `Datelike::year`.
#[verifier::external_body]
fn year_of(ts: i64, offset: i32) -> (r: i32)
    requires
        chrono_millis_in_range(ts),
        offset_in_range(offset),
    ensures
        r == calendar_year(ts, offset),
{
    chrono::Utc.timestamp_millis_opt(ts).single().unwrap().with_timezone(&chrono::FixedOffset::east_opt(offset).unwrap()).year()
}

/// `Datelike::month`, which chrono documents to lie between 1 and 12.
#[verifier::external_body]
fn month_of(ts: i64, offset: i32) -> (r: u32)
    requires
        chrono_millis_in_range(ts),
        offset_in_range(offset),
    ensures
        r == calendar_month(ts, offset),
        1 <= r <= 12,
{
    chrono::Utc.timestamp_millis_opt(ts).single().unwrap().with_timezone(&chrono::FixedOffset::east_opt(offset).unwrap()).month()
}

/// `Datelike::day`, which chrono documents to lie between 1 and 31.
#[verifier::external_body]
fn day_of(ts: i64, offset: i32) -> (r: u32)
    requires
        chrono_millis_in_range(ts),
        offset_in_range(offset),
    ensures
        r == calendar_day(ts, offset),
        1 <= r <= 31,
{
    chrono::Utc.timestamp_millis_opt(ts).single().unwrap().with_timezone(&chrono::FixedOffset::east_opt(offset).unwrap()).day()
}

/// `Timelike::hour`: chrono splits the milliseconds into whole seconds (rounding down), adds
/// the offset, keeps the seconds past midnight (modulo a day) and divides them by 3600.
#[verifier::external_body]
fn hour_of(ts: i64, offset: i32) -> (r: u32)
    requires
        chrono_millis_in_range(ts),
        offset_in_range(offset),
    ensures
        r == calendar_hour(ts, offset),
        r <= 23,
{
    chrono::Utc.timestamp_millis_opt(ts).single().unwrap().with_timezone(&chrono::FixedOffset::east_opt(offset).unwrap()).hour()
}

/// `Timelike::minute`: the seconds past local midnight, as for `hour_of`, in whole minutes,
/// modulo 60.
#[verifier::external_body]
fn minute_of(ts: i64, offset: i32) -> (r: u32)
    requires
        chrono_millis_in_range(ts),
        offset_in_range(offset),
    ensures
        r == calendar_minute(ts, offset),
        r <= 59,
{
    chrono::Utc.timestamp_millis_opt(ts).single().unwrap().with_timezone(&chrono::FixedOffset::east_opt(offset).unwrap()).minute()
}

/// `Timelike::second`: the seconds past local midnight, as for `hour_of`, modulo 60.
#[verifier::external_body]
fn second_of(ts: i64, offset: i32) -> (r: u32)
    requires
        chrono_millis_in_range(ts),
        offset_in_range(offset),
    ensures
        r == calendar_second(ts, offset),
        r <= 59,
{
    chrono::Utc.timestamp_millis_opt(ts).single().unwrap().with_timezone(&chrono::FixedOffset::east_opt(offset).unwrap()).second()
}

/// `Datelike::ordinal`, which chrono documents to lie between 1 and 366.
#[verifier::external_body]
fn ordinal_of(ts: i64, offset: i32) -> (r: u32)
    requires
        chrono_millis_in_range(ts),
        offset_in_range(offset),
    ensures
        r == calendar_ordinal(ts, offset),
        1 <= r <= 366,
{
    chrono::Utc.timestamp_millis_opt(ts).single().unwrap().with_timezone(&chrono::FixedOffset::east_opt(offset).unwrap()).ordinal()
}

/// `IsoWeek::week` of `Datelike::iso_week`, which chrono documents to lie between 1 and 53.
#[verifier::external_body]
fn iso_week_of(ts: i64, offset: i32) -> (r: u32)
    requires
        chrono_millis_in_range(ts),
        offset_in_range(offset),
    ensures
        r == calendar_iso_week(ts, offset),
        1 <= r <= 53,
{
    chrono::Utc.timestamp_millis_opt(ts).single().unwrap().with_timezone(&chrono::FixedOffset::east_opt(offset).unwrap()).iso_week().week()
}

/// `Datelike::weekday`, one variant for each of chrono's.
#[verifier::external_body]
fn weekday_of(ts: i64, offset: i32) -> (r: Weekday)
    requires
        chrono_millis_in_range(ts),
        offset_in_range(offset),
    ensures
        r == calendar_weekday(ts, offset),
{
    match chrono::Utc.timestamp_millis_opt(ts).single().unwrap().with_timezone(&chrono::FixedOffset::east_opt(offset).unwrap()).weekday() {
        chrono::Weekday::Mon => Weekday::Mon,
        chrono::Weekday::Tue => Weekday::Tue,
        chrono::Weekday::Wed => Weekday::Wed,
        chrono::Weekday::Thu => Weekday::Thu,
        chrono::Weekday::Fri => Weekday::Fri,
        chrono::Weekday::Sat => Weekday::Sat,
        chrono::Weekday::Sun => Weekday::Sun,
    }
}

/// A point in time and the offset from UTC in which it is shown.
#[derive(Debug, Clone, Copy, PartialEq, Eq, Structural)]
pub struct Date {
    ts: i64,
    offset: i32,
}

/// The number of a weekday, counting from Sunday as 0.
pub open spec fn weekday_number(w: Weekday) -> u8 {
    match w {
        Weekday::Sun => 0,
        Weekday::Mon => 1,
        Weekday::Tue => 2,
        Weekday::Wed => 3,
        Weekday::Thu => 4,
        Weekday::Fri => 5,
        Weekday::Sat => 6,
    }
}

/// The Gregorian leap-year rule.
pub open spec fn leap_year(y: int) -> bool {
    (y % 4 == 0 && y % 100 != 0) || y % 400 == 0
}

/// Two decimal digits of `n`, below 100.
pub open spec fn two_digits(n: int) -> Seq<char> {
    seq![((n / 10) + '0' as int) as char, ((n % 10) + '0' as int) as char]
}

/// An offset as `+HH:MM` or `-HH:MM`.
pub open spec fn offset_text(offset: int) -> Seq<char> {
    let sign = if offset >= 0 { '+' } else { '-' };
    let secs = if offset >= 0 { offset } else { -offset };
    seq![sign] + two_digits(secs / 3600) + seq![':'] + two_digits((secs % 3600) / 60)
}

impl Date {
    #[verifier::type_invariant]
    spec fn offset_fits(self) -> bool {
        offset_in_range(self.offset)
    }

    /// The instant, in milliseconds since the Unix epoch.
    pub closed spec fn millis(self) -> i64 {
        self.ts
    }

    /// The date `by` milliseconds later, at the same offset.
    pub closed spec fn shifted(self, by: int) -> Date {
        Date { ts: (self.ts + by) as i64, offset: self.offset }
    }

    /// Shifting a date by some milliseconds and back by as many gives the same date.
    pub proof fn shift_then_back(self, by: int)
        requires
            i64::MIN <= self.millis() + by <= i64::MAX,
        ensures
            self.shifted(by).shifted(-by) == self,
    {
    }

    /// Shifting moves the instant and keeps the offset.
    pub proof fn lemma_shifted(self, by: int)
        requires
            i64::MIN <= self.millis() + by <= i64::MAX,
        ensures
            self.shifted(by).millis() == self.millis() + by,
            self.shifted(by).offset_secs() == self.offset_secs(),
    {
    }

    /// The offset from UTC, in seconds.
    pub closed spec fn offset_secs(self) -> i32 {
        self.offset
    }

    /// The date `ts` milliseconds after the Unix epoch, shown at `tz` seconds east of UTC
    /// (UTC where `tz` is `None`); an error where chrono cannot represent it.
    pub fn from_timestamp_millis(ts: i64, tz: Option<i32>) -> (r: Result<Date, DateError>)
        requires
            tz matches Some(o) ==> offset_in_range(o),
        ensures
            chrono_millis_in_range(ts) ==> (r matches Ok(d) && d.millis() == ts && d.offset_secs() == match tz {
                Some(o) => o,
                None => 0i32,
            }),
            !chrono_millis_in_range(ts) ==> (r matches Err(DateError::InvalidTimestamp { timestamp }) && timestamp == ts),
    {
        let offset: i32 = match tz {
            Some(o) => o,
            None => 0,
        };
        if millis_in_range(ts) {
            Ok(Date { ts, offset })
        } else {
            Err(DateError::InvalidTimestamp { timestamp: ts })
        }
    }

    /// The date an RFC 3339 text stands for.
    pub fn from_iso_string(text: &str) -> (r: Result<Date, DateError>)
        ensures
            rfc3339_parsed(text@) matches Ok((ts, offset)) ==> (r matches Ok(d) && d.millis() == ts
                && d.offset_secs() == offset),
            rfc3339_parsed(text@) matches Err(kind) ==> (r matches Err(DateError::IsoParse { kind: k }) && k == kind),
    {
        match parse_rfc3339(text) {
            Ok((ts, offset)) => Ok(Date { ts, offset }),
            Err(kind) => Err(DateError::IsoParse { kind }),
        }
    }

    /// Whether chrono can represent the instant of this date, which the calendar needs.
    pub fn in_range(&self) -> (r: bool)
        ensures
            r == chrono_millis_in_range(self.millis()),
    {
        millis_in_range(self.ts)
    }

    /// The same instant, shown at the offset that the zone `name` has then.
    pub fn with_named_timezone(&self, name: &str) -> (r: Result<Date, DateError>)
        requires
            zone_known(name@) ==> chrono_millis_in_range(self.millis()),
        ensures
            zone_known(name@) ==> (r matches Ok(d) && d.millis() == self.millis()
                && d.offset_secs() == zone_offset_at(name@, self.millis())),
            !zone_known(name@) ==> (r matches Err(DateError::InvalidTimeZone { name: n }) && n@ == name@),
    {
        if !is_known_zone(name) {
            return Err(DateError::InvalidTimeZone { name: name.to_owned() });
        }
        let offset = zone_offset(name, self.ts);
        Ok(Date { ts: self.ts, offset })
    }

    /// The offset as `+HH:MM` or `-HH:MM`.
    pub fn to_offset_string(&self) -> (r: String)
        ensures
            r@ == offset_text(self.offset_secs() as int),
    {
        proof {
            use_type_invariant(self);
        }
        let total: i32 = self.offset;
        let sign = if total >= 0 { '+' } else { '-' };
        let secs: i32 = if total >= 0 { total } else { -total };
        let hours: i32 = secs / 3600;
        let minutes: i32 = (secs % 3600) / 60;
        let mut out = String::new();
        push_char(&mut out, sign);
        push_two_digits(&mut out, hours);
        push_char(&mut out, ':');
        push_two_digits(&mut out, minutes);
        proof {
            assert(out@ =~= offset_text(self.offset as int));
        }
        out
    }

    /// The RFC 3339 text of the date.
    pub fn to_iso_string(&self) -> (r: String)
        requires
            chrono_millis_in_range(self.millis()),
        ensures
            r@ == rfc3339_text(self.millis(), self.offset_secs()),
    {
        proof {
            use_type_invariant(self);
        }
        format_rfc3339(self.ts, self.offset)
    }

    /// The instant, in milliseconds since the Unix epoch.
    pub fn to_timestamp_millis(&self) -> (r: i64)
        ensures
            r == self.millis(),
    {
        self.ts
    }

    /// The year.
    pub fn year(&self) -> (r: i32)
        requires
            chrono_millis_in_range(self.millis()),
        ensures
            r == calendar_year(self.millis(), self.offset_secs()),
    {
        proof {
            use_type_invariant(self);
        }
        year_of(self.ts, self.offset)
    }

    /// The month, from 1 to 12.
    pub fn month(&self) -> (r: u32)
        requires
            chrono_millis_in_range(self.millis()),
        ensures
            r == calendar_month(self.millis(), self.offset_secs()),
            1 <= r <= 12,
    {
        proof {
            use_type_invariant(self);
        }
        month_of(self.ts, self.offset)
    }

    /// The day of the month, from 1 to 31.
    pub fn day(&self) -> (r: u32)
        requires
            chrono_millis_in_range(self.millis()),
        ensures
            r == calendar_day(self.millis(), self.offset_secs()),
            1 <= r <= 31,
    {
        proof {
            use_type_invariant(self);
        }
        day_of(self.ts, self.offset)
    }

    /// The hour, from 0 to 23.
    pub fn hour(&self) -> (r: u32)
        requires
            chrono_millis_in_range(self.millis()),
        ensures
            r == calendar_hour(self.millis(), self.offset_secs()),
            r <= 23,
    {
        proof {
            use_type_invariant(self);
        }
        hour_of(self.ts, self.offset)
    }

    /// The minute, from 0 to 59.
    pub fn minute(&self) -> (r: u32)
        requires
            chrono_millis_in_range(self.millis()),
        ensures
            r == calendar_minute(self.millis(), self.offset_secs()),
            r <= 59,
    {
        proof {
            use_type_invariant(self);
        }
        minute_of(self.ts, self.offset)
    }

    /// The second, from 0 to 59.
    pub fn second(&self) -> (r: u32)
        requires
            chrono_millis_in_range(self.millis()),
        ensures
            r == calendar_second(self.millis(), self.offset_secs()),
            r <= 59,
    {
        proof {
            use_type_invariant(self);
        }
        second_of(self.ts, self.offset)
    }

    /// The day of the week, counting from Sunday as 0.
    pub fn weekday(&self) -> (r: u8)
        requires
            chrono_millis_in_range(self.millis()),
        ensures
            r == weekday_number(calendar_weekday(self.millis(), self.offset_secs())),
            r <= 6,
    {
        proof {
            use_type_invariant(self);
        }
        match weekday_of(self.ts, self.offset) {
            Weekday::Sun => 0,
            Weekday::Mon => 1,
            Weekday::Tue => 2,
            Weekday::Wed => 3,
            Weekday::Thu => 4,
            Weekday::Fri => 5,
            Weekday::Sat => 6,
        }
    }

    /// The day of the year, from 1 to 366.
    pub fn ordinal(&self) -> (r: u32)
        requires
            chrono_millis_in_range(self.millis()),
        ensures
            r == calendar_ordinal(self.millis(), self.offset_secs()),
            1 <= r <= 366,
    {
        proof {
            use_type_invariant(self);
        }
        ordinal_of(self.ts, self.offset)
    }

    /// The ISO 8601 week number, from 1 to 53.
    pub fn iso_week(&self) -> (r: u32)
        requires
            chrono_millis_in_range(self.millis()),
        ensures
            r == calendar_iso_week(self.millis(), self.offset_secs()),
            1 <= r <= 53,
    {
        proof {
            use_type_invariant(self);
        }
        iso_week_of(self.ts, self.offset)
    }

    /// Whether the year of the date is a leap year.
    pub fn is_leap_year(&self) -> (r: bool)
        requires
            chrono_millis_in_range(self.millis()),
        ensures
            r == leap_year(calendar_year(self.millis(), self.offset_secs()) as int),
    {
        let year = self.year();
        (divisible(year, 4) && !divisible(year, 100)) || divisible(year, 400)
    }
}

/// The calendar fields of a date, as the `Data` module hands them out.
#[derive(Debug, Clone)]
pub struct Calendar {
    pub year: i32,
    pub month: u32,
    pub day: u32,
    pub hour: u32,
    pub minute: u32,
    pub second: u32,
    pub weekday: u8,
    pub ordinal: u32,
    pub iso_week: u32,
    pub leap_year: bool,
    pub iso: String,
}

impl Date {
    /// The calendar fields and the RFC 3339 text of the date; `None` where chrono cannot
    /// represent its instant.
    pub fn calendar(&self) -> (r: Option<Calendar>)
        ensures
            !chrono_millis_in_range(self.millis()) ==> r is None,
            chrono_millis_in_range(self.millis()) ==> (r matches Some(c) && {
                let (ts, o) = (self.millis(), self.offset_secs());
                &&& c.year == calendar_year(ts, o)
                &&& c.month == calendar_month(ts, o)
                &&& c.day == calendar_day(ts, o)
                &&& c.hour == calendar_hour(ts, o)
                &&& c.minute == calendar_minute(ts, o)
                &&& c.second == calendar_second(ts, o)
                &&& c.weekday == weekday_number(calendar_weekday(ts, o))
                &&& c.ordinal == calendar_ordinal(ts, o)
                &&& c.iso_week == calendar_iso_week(ts, o)
                &&& c.leap_year == leap_year(calendar_year(ts, o) as int)
                &&& c.iso@ == rfc3339_text(ts, o)
            }),
    {
        if !self.in_range() {
            return None;
        }
        Some(Calendar {
            year: self.year(),
            month: self.month(),
            day: self.day(),
            hour: self.hour(),
            minute: self.minute(),
            second: self.second(),
            weekday: self.weekday(),
            ordinal: self.ordinal(),
            iso_week: self.iso_week(),
            leap_year: self.is_leap_year(),
            iso: self.to_iso_string(),
        })
    }

    /// `with_named_timezone` where it can run: `None` where the zone is known but chrono
    /// cannot represent the instant.
    pub fn in_zone(&self, name: &str) -> (r: Option<Result<Date, DateError>>)
        ensures
            zone_known(name@) && !chrono_millis_in_range(self.millis()) ==> r is None,
            zone_known(name@) && chrono_millis_in_range(self.millis()) ==> (r matches Some(Ok(d))
                && d.millis() == self.millis() && d.offset_secs() == zone_offset_at(name@, self.millis())),
            !zone_known(name@) ==> (r matches Some(Err(DateError::InvalidTimeZone { name: n })) && n@ == name@),
    {
        if is_known_zone(name) && !self.in_range() {
            return None;
        }
        Some(self.with_named_timezone(name))
    }
}

impl core::ops::Add<i64> for Date {
    type Output = Date;

    /// The date `rhs` milliseconds later, at the same offset.
    fn add(self, rhs: i64) -> (r: Date) {
        proof {
            use_type_invariant(&self);
        }
        Date { ts: self.ts + rhs, offset: self.offset }
    }
}

impl vstd::std_specs::ops::AddSpecImpl<i64> for Date {
    open spec fn obeys_add_spec() -> bool {
        true
    }

    open spec fn add_req(self, rhs: i64) -> bool {
        i64::MIN <= self.millis() + rhs <= i64::MAX
    }

    open spec fn add_spec(self, rhs: i64) -> Date {
        self.shifted(rhs as int)
    }
}

impl core::ops::Sub<i64> for Date {
    type Output = Date;

    /// The date `rhs` milliseconds earlier, at the same offset.
    fn sub(self, rhs: i64) -> (r: Date) {
        proof {
            use_type_invariant(&self);
        }
        Date { ts: self.ts - rhs, offset: self.offset }
    }
}

impl vstd::std_specs::ops::SubSpecImpl<i64> for Date {
    open spec fn obeys_sub_spec() -> bool {
        true
    }

    open spec fn sub_req(self, rhs: i64) -> bool {
        i64::MIN <= self.millis() - rhs <= i64::MAX
    }

    open spec fn sub_spec(self, rhs: i64) -> Date {
        self.shifted(-(rhs as int))
    }
}

impl PartialOrd for Date {
    /// Dates are ordered by their instants alone, whatever their offsets.
    fn partial_cmp(&self, other: &Date) -> (r: Option<Ordering>) {
        if self.ts < other.ts {
            Some(Ordering::Less)
        } else if self.ts == other.ts {
            Some(Ordering::Equal)
        } else {
            Some(Ordering::Greater)
        }
    }
}

impl PartialOrdSpecImpl for Date {
    open spec fn obeys_partial_cmp_spec() -> bool {
        true
    }

    open spec fn partial_cmp_spec(&self, other: &Date) -> Option<Ordering> {
        if self.millis() < other.millis() {
            Some(Ordering::Less)
        } else if self.millis() == other.millis() {
            Some(Ordering::Equal)
        } else {
            Some(Ordering::Greater)
        }
    }
}

/// A number and its negation have the same divisors.
proof fn lemma_divisible_negated(y: int, d: int)
    requires
        d > 0,
    ensures
        (y % d == 0) == ((-y) % d == 0),
{
    vstd::arithmetic::div_mod::lemma_fundamental_div_mod(y, d);
    vstd::arithmetic::div_mod::lemma_fundamental_div_mod(-y, d);
    let q = y / d;
    let p = (-y) / d;
    if y % d == 0 {
        assert(-y == (-q) * d) by (nonlinear_arith)
            requires
                y == d * q,
        ;
        vstd::arithmetic::div_mod::lemma_mod_multiples_basic(-q, d);
    }
    if (-y) % d == 0 {
        assert(y == (-p) * d) by (nonlinear_arith)
            requires
                -y == d * p,
        ;
        vstd::arithmetic::div_mod::lemma_mod_multiples_basic(-p, d);
    }
}

/// Whether `d` divides `y`.
fn divisible(y: i32, d: i32) -> (r: bool)
    requires
        0 < d <= 400,
    ensures
        r == (y as int % d as int == 0),
{
    let a: i64 = if y >= 0 { y as i64 } else { -(y as i64) };
    let m: i64 = a % (d as i64);
    proof {
        let yi = y as int;
        let di = d as int;
        if yi < 0 {
            lemma_divisible_negated(yi, di);
        }
    }
    m == 0
}

/// Appends the two decimal digits of `n`, below 100.
fn push_two_digits(out: &mut String, n: i32)
    requires
        0 <= n < 100,
    ensures
        final(out)@ == old(out)@ + two_digits(n as int),
{
    let tens = char_of_digit(n / 10);
    let ones = char_of_digit(n % 10);
    push_char(out, tens);
    push_char(out, ones);
    assert(final(out)@ =~= old(out)@ + two_digits(n as int));
}

/// The character of a decimal digit.
fn char_of_digit(d: i32) -> (r: char)
    requires
        0 <= d < 10,
    ensures
        r == ((d as int) + '0' as int) as char,
{
    let b: u8 = (d as u8) + 48;
    b as char
}

} // verus!
