//! Calendar dates and points in time, as far as tags carry them.
//!
//! The text forms are those of the `chrono` crate, which reads and writes
//! them. A value of this module holds plain numbers; it is well-formed when
//! `chrono` can write it and reads what it wrote as the same value, so what
//! a tag renders can always be parsed again.

use vstd::pervasive::unreached;
use vstd::prelude::*;
use chrono::{DateTime as ChronoDateTime, Datelike, FixedOffset, NaiveDate};
use crate::attribute::Codec;
use crate::error::{invalid, Error, Reason};
use crate::quoted::{quoted_text, unquoted, QuotedString};
use crate::text::{has_char, push_str, str_to_chars};

verus! {

/// Year, month and day of the calendar date that `chrono` reads from
/// `text` in the form `%Y-%m-%d`; `None` where it refuses the text.
pub uninterp spec fn date_from_text(text: Seq<char>) -> Option<(i32, u32, u32)>;

/// The text that `chrono` writes for a calendar date in the form
/// `%Y-%m-%d`; `None` where it has no such date.
pub uninterp spec fn date_to_text(year: i32, month: u32, day: u32) -> Option<Seq<char>>;

/// Seconds since the epoch, nanoseconds beyond them, and the offset from
/// UTC in seconds, of the point in time that `chrono` reads from `text`;
/// `None` where it refuses the text.
pub uninterp spec fn date_time_from_text(text: Seq<char>) -> Option<(i64, u32, i32)>;

/// The RFC 3339 text that `chrono` writes for a point in time at an offset
/// from UTC; `None` where it has no such point or no such offset.
pub uninterp spec fn date_time_to_text(secs: i64, nanos: u32, offset: i32) -> Option<Seq<char>>;

/// Reads a calendar date with `chrono`.
///
/// Trusted: the result is what `NaiveDate::parse_from_str` with the format
/// `%Y-%m-%d` makes of the text, given as the year, month and day of the
/// date, and depends on the text alone.
#[verifier::external_body]
fn chrono_parse_date(text: &str) -> (r: Option<(i32, u32, u32)>)
    ensures
        r == date_from_text(text@),
{
    match NaiveDate::parse_from_str(text, "%Y-%m-%d") {
        Ok(date) => Some((date.year(), date.month(), date.day())),
        Err(_) => None,
    }
}

/// Writes a calendar date with `chrono`.
///
/// Trusted: the result is what `NaiveDate::format` with the format
/// `%Y-%m-%d` writes for the date that `NaiveDate::from_ymd_opt` makes of
/// the three numbers, `None` where that makes no date, and depends on the
/// numbers alone.
#[verifier::external_body]
fn chrono_format_date(year: i32, month: u32, day: u32) -> (r: Option<String>)
    ensures
        r is Some <==> date_to_text(year, month, day) is Some,
        r is Some ==> r->0@ == date_to_text(year, month, day)->0,
{
    match NaiveDate::from_ymd_opt(year, month, day) {
        Some(date) => Some(date.format("%Y-%m-%d").to_string()),
        None => None,
    }
}

/// Reads a point in time with `chrono`.
///
/// Trusted: the result is what the `FromStr` of `DateTime<FixedOffset>`
/// makes of the text, given as its `timestamp`, its
/// `timestamp_subsec_nanos` and the `local_minus_utc` of its offset, and
/// depends on the text alone.
#[verifier::external_body]
fn chrono_parse_date_time(text: &str) -> (r: Option<(i64, u32, i32)>)
    ensures
        r == date_time_from_text(text@),
{
    match text.parse::<ChronoDateTime<FixedOffset>>() {
        Ok(t) => Some((t.timestamp(), t.timestamp_subsec_nanos(), t.offset().local_minus_utc())),
        Err(_) => None,
    }
}

/// Writes a point in time with `chrono`.
///
/// Trusted: the result is what `DateTime::to_rfc3339` writes for the point
/// that `DateTime::from_timestamp` makes of `secs` and `nanos`, seen at the
/// offset that `FixedOffset::east_opt` makes of `offset`; `None` where
/// either makes nothing; it depends on the three numbers alone.
#[verifier::external_body]
fn chrono_format_date_time(secs: i64, nanos: u32, offset: i32) -> (r: Option<String>)
    ensures
        r is Some <==> date_time_to_text(secs, nanos, offset) is Some,
        r is Some ==> r->0@ == date_time_to_text(secs, nanos, offset)->0,
{
    match (ChronoDateTime::from_timestamp(secs, nanos), FixedOffset::east_opt(offset)) {
        (Some(utc), Some(zone)) => Some(utc.with_timezone(&zone).to_rfc3339()),
        _ => None,
    }
}

/// Whether the three numbers are a calendar date that can be written
/// between quotes and read back.
pub open spec fn is_date(year: i32, month: u32, day: u32) -> bool {
    &&& date_to_text(year, month, day) is Some
    &&& !date_to_text(year, month, day)->0.contains('"')
    &&& date_from_text(date_to_text(year, month, day)->0) == Some((year, month, day))
}

/// Whether the three numbers are a point in time at an offset that can be
/// written and read back.
pub open spec fn is_date_time(secs: i64, nanos: u32, offset: i32) -> bool {
    &&& date_time_to_text(secs, nanos, offset) is Some
    &&& date_time_from_text(date_time_to_text(secs, nanos, offset)->0) == Some(
        (secs, nanos, offset),
    )
}

// ---------------------------------------------------------------------------
// Calendar dates

/// A calendar date.
#[derive(Debug, Clone, Copy, PartialEq, Eq, Hash, Structural)]
pub struct Date {
    year: i32,
    month: u32,
    day: u32,
}

impl Date {
    /// The year of the date.
    pub closed spec fn spec_year(self) -> i32 {
        self.year
    }

    /// The month of the date.
    pub closed spec fn spec_month(self) -> u32 {
        self.month
    }

    /// The day of the date.
    pub closed spec fn spec_day(self) -> u32 {
        self.day
    }

    /// The date of the three numbers.
    pub closed spec fn of(year: i32, month: u32, day: u32) -> Date {
        Date { year, month, day }
    }

    /// The date can be written and read back. Every value that code holds
    /// is well-formed.
    #[verifier::type_invariant]
    pub closed spec fn wf(self) -> bool {
        is_date(self.year, self.month, self.day)
    }

    /// The text of the date, without quotes.
    pub open spec fn text(self) -> Seq<char> {
        date_to_text(self.spec_year(), self.spec_month(), self.spec_day())->0
    }

    /// The date that the text `s`, without quotes, spells.
    pub open spec fn from_text(s: Seq<char>) -> Option<Date> {
        match date_from_text(s) {
            Some((year, month, day)) => if is_date(year, month, day) {
                Some(Date::of(year, month, day))
            } else {
                None
            },
            None => None,
        }
    }

    /// A date is its three numbers, and nothing more.
    pub proof fn lemma_parts(self)
        ensures
            self.wf() <==> is_date(self.spec_year(), self.spec_month(), self.spec_day()),
            Date::of(self.spec_year(), self.spec_month(), self.spec_day()) == self,
    {
    }

    /// `of` builds the date with the numbers it is given.
    pub proof fn lemma_of(year: i32, month: u32, day: u32)
        ensures
            Date::of(year, month, day).spec_year() == year,
            Date::of(year, month, day).spec_month() == month,
            Date::of(year, month, day).spec_day() == day,
    {
    }

    /// The date of the three numbers; `None` where they are no date that
    /// can be written and read back.
    pub fn new(year: i32, month: u32, day: u32) -> (r: Option<Date>)
        ensures
            match r {
                Some(date) => is_date(year, month, day) && date == Date::of(year, month, day)
                    && date.wf(),
                None => !is_date(year, month, day),
            },
    {
        let text = match chrono_format_date(year, month, day) {
            Some(text) => text,
            None => {
                return None;
            },
        };
        let chars = str_to_chars(text.as_str());
        if has_char(chars.as_slice(), '"') {
            return None;
        }
        match chrono_parse_date(text.as_str()) {
            Some((y, m, d)) => {
                if y == year && m == month && d == day {
                    Some(Date { year, month, day })
                } else {
                    None
                }
            },
            None => None,
        }
    }

    /// The year of the date.
    #[verifier::when_used_as_spec(spec_year)]
    pub fn year(self) -> (y: i32)
        ensures
            y == self.spec_year(),
    {
        self.year
    }

    /// The month of the date.
    #[verifier::when_used_as_spec(spec_month)]
    pub fn month(self) -> (m: u32)
        ensures
            m == self.spec_month(),
    {
        self.month
    }

    /// The day of the date.
    #[verifier::when_used_as_spec(spec_day)]
    pub fn day(self) -> (d: u32)
        ensures
            d == self.spec_day(),
    {
        self.day
    }

    /// Reads a date, without quotes.
    pub fn parse(s: &str) -> (r: Result<Date, Error>)
        ensures
            match r {
                Ok(date) => Date::from_text(s@) == Some(date) && date.wf(),
                Err(e) => Date::from_text(s@) is None && e == invalid(Reason::InvalidValue),
            },
    {
        match chrono_parse_date(s) {
            Some((year, month, day)) => match Date::new(year, month, day) {
                Some(date) => Ok(date),
                None => Err(Error::invalid_input(Reason::InvalidValue)),
            },
            None => Err(Error::invalid_input(Reason::InvalidValue)),
        }
    }

    /// The text of the date, without quotes.
    pub fn render(&self) -> (r: String)
        ensures
            r@ == self.text(),
    {
        proof {
            use_type_invariant(self);
        }
        match chrono_format_date(self.year, self.month, self.day) {
            Some(text) => text,
            None => unreached(),
        }
    }

    /// The text of the date between quotes, as characters.
    pub fn to_chars(&self) -> (r: Vec<char>)
        ensures
            r@ == quoted_text(self.text()),
    {
        let text = self.render();
        let mut buf: Vec<char> = Vec::new();
        buf.push('"');
        push_str(&mut buf, text.as_str());
        buf.push('"');
        assert(buf@ =~= quoted_text(self.text()));
        buf
    }
}

impl Codec for Date {
    type Value = Date;

    open spec fn value(&self) -> Date {
        *self
    }

    /// As the value of an attribute a date stands between quotes.
    open spec fn decode(s: Seq<char>) -> Option<Date> {
        match unquoted(s) {
            Some(inner) => Date::from_text(inner),
            None => None,
        }
    }

    fn parse_chars(s: &[char]) -> (r: Result<Date, Error>) {
        match QuotedString::parse_chars(s) {
            Ok(inner) => Date::parse(inner.as_str()),
            Err(e) => Err(e),
        }
    }
}

/// Reading back the text of a well-formed date gives the date.
pub proof fn lemma_date_round_trip(d: Date)
    requires
        d.wf(),
    ensures
        Date::from_text(d.text()) == Some(d),
        !d.text().contains('"'),
{
    d.lemma_parts();
}

// ---------------------------------------------------------------------------
// Points in time

/// A point in time, seen at an offset from UTC.
#[derive(Debug, Clone, Copy, PartialEq, Eq, Hash, Structural)]
pub struct DateTime {
    secs: i64,
    nanos: u32,
    offset: i32,
}

impl DateTime {
    /// The seconds from the epoch to the point, leap seconds not counted.
    pub closed spec fn spec_timestamp(self) -> i64 {
        self.secs
    }

    /// The nanoseconds beyond the whole seconds.
    pub closed spec fn spec_timestamp_subsec_nanos(self) -> u32 {
        self.nanos
    }

    /// The offset from UTC, in seconds to the east.
    pub closed spec fn spec_offset_seconds(self) -> i32 {
        self.offset
    }

    /// The point of the three numbers.
    pub closed spec fn of(secs: i64, nanos: u32, offset: i32) -> DateTime {
        DateTime { secs, nanos, offset }
    }

    /// The point can be written and read back. Every value that code
    /// holds is well-formed.
    #[verifier::type_invariant]
    pub closed spec fn wf(self) -> bool {
        is_date_time(self.secs, self.nanos, self.offset)
    }

    /// The RFC 3339 text of the point.
    pub open spec fn text(self) -> Seq<char> {
        date_time_to_text(
            self.spec_timestamp(),
            self.spec_timestamp_subsec_nanos(),
            self.spec_offset_seconds(),
        )->0
    }

    /// The point that the text `s` spells.
    pub open spec fn from_text(s: Seq<char>) -> Option<DateTime> {
        match date_time_from_text(s) {
            Some((secs, nanos, offset)) => if is_date_time(secs, nanos, offset) {
                Some(DateTime::of(secs, nanos, offset))
            } else {
                None
            },
            None => None,
        }
    }

    /// A point is its three numbers, and nothing more.
    pub proof fn lemma_parts(self)
        ensures
            self.wf() <==> is_date_time(
                self.spec_timestamp(),
                self.spec_timestamp_subsec_nanos(),
                self.spec_offset_seconds(),
            ),
            DateTime::of(
                self.spec_timestamp(),
                self.spec_timestamp_subsec_nanos(),
                self.spec_offset_seconds(),
            ) == self,
    {
    }

    /// `of` builds the point with the numbers it is given.
    pub proof fn lemma_of(secs: i64, nanos: u32, offset: i32)
        ensures
            DateTime::of(secs, nanos, offset).spec_timestamp() == secs,
            DateTime::of(secs, nanos, offset).spec_timestamp_subsec_nanos() == nanos,
            DateTime::of(secs, nanos, offset).spec_offset_seconds() == offset,
    {
    }

    /// The point of the three numbers; `None` where they are no point
    /// that can be written and read back.
    pub fn new(secs: i64, nanos: u32, offset: i32) -> (r: Option<DateTime>)
        ensures
            match r {
                Some(t) => is_date_time(secs, nanos, offset) && t == DateTime::of(
                    secs,
                    nanos,
                    offset,
                ) && t.wf(),
                None => !is_date_time(secs, nanos, offset),
            },
    {
        let text = match chrono_format_date_time(secs, nanos, offset) {
            Some(text) => text,
            None => {
                return None;
            },
        };
        match chrono_parse_date_time(text.as_str()) {
            Some((s, n, o)) => {
                if s == secs && n == nanos && o == offset {
                    Some(DateTime { secs, nanos, offset })
                } else {
                    None
                }
            },
            None => None,
        }
    }

    /// The seconds from the epoch to the point, leap seconds not counted.
    #[verifier::when_used_as_spec(spec_timestamp)]
    pub fn timestamp(self) -> (s: i64)
        ensures
            s == self.spec_timestamp(),
    {
        self.secs
    }

    /// The nanoseconds beyond the whole seconds.
    #[verifier::when_used_as_spec(spec_timestamp_subsec_nanos)]
    pub fn timestamp_subsec_nanos(self) -> (n: u32)
        ensures
            n == self.spec_timestamp_subsec_nanos(),
    {
        self.nanos
    }

    /// The offset from UTC, in seconds to the east.
    #[verifier::when_used_as_spec(spec_offset_seconds)]
    pub fn offset_seconds(self) -> (o: i32)
        ensures
            o == self.spec_offset_seconds(),
    {
        self.offset
    }

    /// Reads a point in time.
    pub fn parse(s: &str) -> (r: Result<DateTime, Error>)
        ensures
            match r {
                Ok(t) => DateTime::from_text(s@) == Some(t) && t.wf(),
                Err(e) => DateTime::from_text(s@) is None && e == invalid(Reason::InvalidValue),
            },
    {
        match chrono_parse_date_time(s) {
            Some((secs, nanos, offset)) => match DateTime::new(secs, nanos, offset) {
                Some(t) => Ok(t),
                None => Err(Error::invalid_input(Reason::InvalidValue)),
            },
            None => Err(Error::invalid_input(Reason::InvalidValue)),
        }
    }

    /// The RFC 3339 text of the point.
    pub fn render(&self) -> (r: String)
        ensures
            r@ == self.text(),
    {
        proof {
            use_type_invariant(self);
        }
        match chrono_format_date_time(self.secs, self.nanos, self.offset) {
            Some(text) => text,
            None => unreached(),
        }
    }
}

/// Reading back the text of a well-formed point in time gives the point.
pub proof fn lemma_date_time_round_trip(t: DateTime)
    requires
        t.wf(),
    ensures
        DateTime::from_text(t.text()) == Some(t),
{
    t.lemma_parts();
}

} // verus!
