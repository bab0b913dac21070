//! Dates and times of the log files, in whatever zone the logs use, and
//! the parsing of the two timestamp encodings found in access logs.
use vstd::prelude::*;

use crate::text::{chars_of, parse_uint, parsed_uint, range_equals};

verus! {

/// Why a date or a time could not be read.
#[derive(Debug, Clone, PartialEq, Eq)]
pub enum ParseDateTimeError {
    UnexpectedEnd,
    InvalidDay(u8),
    AmbiguousDate(String),
    InvalidMonth(u8),
    UnrecognizedMonth(String),
    InvalidHour(u8),
    InvalidMinute(u8),
    InvalidSecond(u8),
    IntExpected,
}

/// The content of a [`ParseDateTimeError`], with strings as character sequences.
pub ghost enum DateTimeErrorView {
    UnexpectedEnd,
    InvalidDay(u8),
    AmbiguousDate(Seq<char>),
    InvalidMonth(u8),
    UnrecognizedMonth(Seq<char>),
    InvalidHour(u8),
    InvalidMinute(u8),
    InvalidSecond(u8),
    IntExpected,
}

impl View for ParseDateTimeError {
    type V = DateTimeErrorView;

    open spec fn view(&self) -> DateTimeErrorView {
        match self {
            ParseDateTimeError::UnexpectedEnd => DateTimeErrorView::UnexpectedEnd,
            ParseDateTimeError::InvalidDay(d) => DateTimeErrorView::InvalidDay(*d),
            ParseDateTimeError::AmbiguousDate(s) => DateTimeErrorView::AmbiguousDate(s@),
            ParseDateTimeError::InvalidMonth(m) => DateTimeErrorView::InvalidMonth(*m),
            ParseDateTimeError::UnrecognizedMonth(s) => DateTimeErrorView::UnrecognizedMonth(s@),
            ParseDateTimeError::InvalidHour(h) => DateTimeErrorView::InvalidHour(*h),
            ParseDateTimeError::InvalidMinute(m) => DateTimeErrorView::InvalidMinute(*m),
            ParseDateTimeError::InvalidSecond(s) => DateTimeErrorView::InvalidSecond(*s),
            ParseDateTimeError::IntExpected => DateTimeErrorView::IntExpected,
        }
    }
}

/// A result with its error seen through its view.
pub open spec fn res_view<T>(r: Result<T, ParseDateTimeError>) -> Result<T, DateTimeErrorView> {
    match r {
        Ok(v) => Ok(v),
        Err(e) => Err(e@),
    }
}

/// Whether an executable result is the one a specification gives, errors compared by view.
pub open spec fn same_result<T>(
    r: Result<T, ParseDateTimeError>,
    s: Result<T, DateTimeErrorView>,
) -> bool {
    res_view(r) == s
}

/// A day, as the log files give it. The year fits 16 bits; the month is in
/// 1..=12 and the day in 1..=31, with no check of the length of the month.
#[derive(Debug, Clone, Copy, PartialEq, Eq, Structural, Hash, PartialOrd, Ord)]
pub struct Date {
    pub year: u16,
    pub month: u8,
    pub day: u8,
}

/// A time of day: hour in 0..=23, minute and second in 0..=59.
#[derive(Debug, Clone, Copy, PartialEq, Eq, Structural, Hash, PartialOrd, Ord)]
pub struct Time {
    pub hour: u8,
    pub minute: u8,
    pub second: u8,
}

/// A date with a time of day.
#[derive(Debug, Clone, Copy, PartialEq, Eq, Structural, Hash, PartialOrd, Ord)]
pub struct DateTime {
    pub date: Date,
    pub time: Time,
}

/// The month (1..=12) whose three-letter name is `s`, if any.
pub open spec fn month_of_name(s: Seq<char>) -> Option<u8> {
    if s == "Jan"@ {
        Some(1)
    } else if s == "Feb"@ {
        Some(2)
    } else if s == "Mar"@ {
        Some(3)
    } else if s == "Apr"@ {
        Some(4)
    } else if s == "May"@ {
        Some(5)
    } else if s == "Jun"@ {
        Some(6)
    } else if s == "Jul"@ {
        Some(7)
    } else if s == "Aug"@ {
        Some(8)
    } else if s == "Sep"@ {
        Some(9)
    } else if s == "Oct"@ {
        Some(10)
    } else if s == "Nov"@ {
        Some(11)
    } else if s == "Dec"@ {
        Some(12)
    } else {
        None
    }
}

impl Date {
    pub open spec fn wf(self) -> bool {
        1 <= self.month <= 12 && 1 <= self.day <= 31
    }

    /// The order of days: by year, then month, then day.
    pub open spec fn precedes(self, o: Date) -> bool {
        self.year < o.year || (self.year == o.year && (self.month < o.month || (self.month
            == o.month && self.day < o.day)))
    }

    pub open spec fn spec_new(year: u16, month: u8, day: u8) -> Result<Date, DateTimeErrorView> {
        if day < 1 || day > 31 {
            Err(DateTimeErrorView::InvalidDay(day))
        } else if month < 1 || month > 12 {
            Err(DateTimeErrorView::InvalidMonth(month))
        } else {
            Ok(Date { year, month, day })
        }
    }

    pub fn new(year: u16, month: u8, day: u8) -> (r: Result<Self, ParseDateTimeError>)
        ensures
            same_result(r, Date::spec_new(year, month, day)),
            r matches Ok(d) ==> d.wf(),
    {
        if day < 1 || day > 31 {
            return Err(ParseDateTimeError::InvalidDay(day));
        }
        if month < 1 || month > 12 {
            return Err(ParseDateTimeError::InvalidMonth(month));
        }
        Ok(Date { year, month, day })
    }

    /// Whether `self` is a day before `other`.
    pub fn is_before(&self, other: &Date) -> (r: bool)
        ensures
            r == self.precedes(*other),
    {
        self.year < other.year || (self.year == other.year && (self.month < other.month || (
        self.month == other.month && self.day < other.day)))
    }

    /// What reading the date part of a log timestamp gives.
    pub open spec fn spec_from_nginx(s: Seq<char>) -> Result<Date, DateTimeErrorView> {
        if s.len() < 11 {
            Err(DateTimeErrorView::UnexpectedEnd)
        } else if parsed_uint(s.subrange(0, 4), 65535) is Some {
            date_res(
                u16_tok(s.subrange(0, 4)),
                u8_tok(s.subrange(5, 7)),
                u8_tok(s.subrange(8, 10)),
            )
        } else if month_of_name(s.subrange(3, 6)) is None {
            Err(DateTimeErrorView::UnrecognizedMonth(s))
        } else if u8_tok(s.subrange(0, 2)) is None {
            Err(DateTimeErrorView::IntExpected)
        } else {
            date_res(u16_tok(s.subrange(7, 11)), month_of_name(s.subrange(3, 6)), u8_tok(s.subrange(0, 2)))
        }
    }

    /// Reads the date part of a log timestamp, in either the common log
    /// format (`10/Jan/2021:10:27:01 +0000`) or the ISO 8601 one
    /// (`1977-04-22T01:00:00-05:00`). The zone offset is not read.
    pub fn from_nginx(s: &str) -> (r: Result<Self, ParseDateTimeError>)
        ensures
            same_result(r, Date::spec_from_nginx(s@)),
            r matches Ok(d) ==> d.wf(),
    {
        let c = chars_of(s);
        if c.len() < 11 {
            return Err(ParseDateTimeError::UnexpectedEnd);
        }
        if let Some(year) = parse_uint(&c, 0, 4, 65535) {
            let month = parse_u8(&c, 5, 7);
            let day = parse_u8(&c, 8, 10);
            date_of(Some(year as u16), month, day)
        } else {
            let month = month_from_name(&c, 3);
            if month.is_none() {
                return Err(ParseDateTimeError::UnrecognizedMonth(crate::text::string_of(c.as_slice())));
            }
            let day = parse_u8(&c, 0, 2);
            if day.is_none() {
                return Err(ParseDateTimeError::IntExpected);
            }
            let year = parse_u16(&c, 7, 11);
            date_of(year, month, day)
        }
    }
}

/// The date of the parsed fields, or the first error: a field that is not a
/// number, then a day or month out of range.
pub open spec fn date_res(y: Option<u16>, m: Option<u8>, d: Option<u8>) -> Result<Date, DateTimeErrorView> {
    if y is None || m is None || d is None {
        Err(DateTimeErrorView::IntExpected)
    } else {
        Date::spec_new(y->Some_0, m->Some_0, d->Some_0)
    }
}

/// The time of the parsed fields, or the first error.
pub open spec fn time_res(h: Option<u8>, m: Option<u8>, s: Option<u8>) -> Result<Time, DateTimeErrorView> {
    if h is None || m is None || s is None {
        Err(DateTimeErrorView::IntExpected)
    } else {
        Time::spec_new(h->Some_0, m->Some_0, s->Some_0)
    }
}

pub open spec fn u8_tok(t: Seq<char>) -> Option<u8> {
    match parsed_uint(t, 255) {
        Some(v) => Some(v as u8),
        None => None,
    }
}

pub open spec fn u16_tok(t: Seq<char>) -> Option<u16> {
    match parsed_uint(t, 65535) {
        Some(v) => Some(v as u16),
        None => None,
    }
}

pub fn parse_u8(c: &Vec<char>, start: usize, end: usize) -> (r: Option<u8>)
    requires
        start <= end <= c.len(),
    ensures
        r == u8_tok(c@.subrange(start as int, end as int)),
{
    match parse_uint(c, start, end, 255) {
        Some(v) => Some(v as u8),
        None => None,
    }
}

pub fn parse_u16(c: &Vec<char>, start: usize, end: usize) -> (r: Option<u16>)
    requires
        start <= end <= c.len(),
    ensures
        r == u16_tok(c@.subrange(start as int, end as int)),
{
    match parse_uint(c, start, end, 65535) {
        Some(v) => Some(v as u16),
        None => None,
    }
}

pub fn date_of(y: Option<u16>, m: Option<u8>, d: Option<u8>) -> (r: Result<Date, ParseDateTimeError>)
    ensures
        same_result(r, date_res(y, m, d)),
        r matches Ok(d) ==> d.wf(),
{
    match (y, m, d) {
        (Some(y), Some(m), Some(d)) => Date::new(y, m, d),
        _ => Err(ParseDateTimeError::IntExpected),
    }
}

pub fn time_of(h: Option<u8>, m: Option<u8>, s: Option<u8>) -> (r: Result<Time, ParseDateTimeError>)
    ensures
        same_result(r, time_res(h, m, s)),
        r matches Ok(t) ==> t.wf(),
{
    match (h, m, s) {
        (Some(h), Some(m), Some(s)) => Time::new(h, m, s),
        _ => Err(ParseDateTimeError::IntExpected),
    }
}

/// The month named by the three characters at `start`, if they name one.
fn month_from_name(c: &Vec<char>, start: usize) -> (r: Option<u8>)
    requires
        start + 3 <= c.len(),
    ensures
        r == month_of_name(c@.subrange(start as int, start + 3)),
{
    if range_equals(c, start, start + 3, "Jan") {
        Some(1)
    } else if range_equals(c, start, start + 3, "Feb") {
        Some(2)
    } else if range_equals(c, start, start + 3, "Mar") {
        Some(3)
    } else if range_equals(c, start, start + 3, "Apr") {
        Some(4)
    } else if range_equals(c, start, start + 3, "May") {
        Some(5)
    } else if range_equals(c, start, start + 3, "Jun") {
        Some(6)
    } else if range_equals(c, start, start + 3, "Jul") {
        Some(7)
    } else if range_equals(c, start, start + 3, "Aug") {
        Some(8)
    } else if range_equals(c, start, start + 3, "Sep") {
        Some(9)
    } else if range_equals(c, start, start + 3, "Oct") {
        Some(10)
    } else if range_equals(c, start, start + 3, "Nov") {
        Some(11)
    } else if range_equals(c, start, start + 3, "Dec") {
        Some(12)
    } else {
        None
    }
}

impl Time {
    pub open spec fn wf(self) -> bool {
        self.hour <= 23 && self.minute <= 59 && self.second <= 59
    }

    /// The order of times of day: by hour, then minute, then second.
    pub open spec fn precedes(self, o: Time) -> bool {
        self.hour < o.hour || (self.hour == o.hour && (self.minute < o.minute || (self.minute
            == o.minute && self.second < o.second)))
    }

    pub open spec fn spec_new(hour: u8, minute: u8, second: u8) -> Result<Time, DateTimeErrorView> {
        if second > 59 {
            Err(DateTimeErrorView::InvalidSecond(second))
        } else if minute > 59 {
            Err(DateTimeErrorView::InvalidMinute(minute))
        } else if hour > 23 {
            Err(DateTimeErrorView::InvalidHour(hour))
        } else {
            Ok(Time { hour, minute, second })
        }
    }

    pub fn new(hour: u8, minute: u8, second: u8) -> (r: Result<Self, ParseDateTimeError>)
        ensures
            same_result(r, Time::spec_new(hour, minute, second)),
            r matches Ok(t) ==> t.wf(),
    {
        if second > 59 {
            return Err(ParseDateTimeError::InvalidSecond(second));
        }
        if minute > 59 {
            return Err(ParseDateTimeError::InvalidMinute(minute));
        }
        if hour > 23 {
            return Err(ParseDateTimeError::InvalidHour(hour));
        }
        Ok(Time { hour, minute, second })
    }

    /// Whether `self` comes before `other` in the day.
    pub fn is_before(&self, other: &Time) -> (r: bool)
        ensures
            r == self.precedes(*other),
    {
        self.hour < other.hour || (self.hour == other.hour && (self.minute < other.minute || (
        self.minute == other.minute && self.second < other.second)))
    }

    /// What reading a time written `HH`, `HH:MM` or `HH:MM:S` gives.
    pub open spec fn spec_from_str(s: Seq<char>) -> Result<Time, DateTimeErrorView> {
        if s.len() < 2 {
            Err(DateTimeErrorView::UnexpectedEnd)
        } else if u8_tok(s.subrange(0, 2)) is None {
            Err(DateTimeErrorView::IntExpected)
        } else if s.len() <= 4 {
            time_res(u8_tok(s.subrange(0, 2)), Some(0), Some(0))
        } else if u8_tok(s.subrange(3, 5)) is None {
            Err(DateTimeErrorView::IntExpected)
        } else if s.len() <= 6 {
            time_res(u8_tok(s.subrange(0, 2)), u8_tok(s.subrange(3, 5)), Some(0))
        } else {
            time_res(u8_tok(s.subrange(0, 2)), u8_tok(s.subrange(3, 5)), u8_tok(s.subrange(6, 7)))
        }
    }

    /// Reads a time of day: the hour in the first two characters, the
    /// minute in the fourth and fifth when there are more than four, and a
    /// second from the seventh character when there are more than six.
    pub fn from_str(s: &str) -> (r: Result<Self, ParseDateTimeError>)
        ensures
            same_result(r, Time::spec_from_str(s@)),
            r matches Ok(t) ==> t.wf(),
    {
        let c = chars_of(s);
        if c.len() < 2 {
            return Err(ParseDateTimeError::UnexpectedEnd);
        }
        let hour = parse_u8(&c, 0, 2);
        if hour.is_none() {
            return Err(ParseDateTimeError::IntExpected);
        }
        let mut minute: Option<u8> = Some(0);
        let mut second: Option<u8> = Some(0);
        if c.len() > 4 {
            minute = parse_u8(&c, 3, 5);
            if minute.is_none() {
                return Err(ParseDateTimeError::IntExpected);
            }
            if c.len() > 6 {
                second = parse_u8(&c, 6, 7);
            }
        }
        time_of(hour, minute, second)
    }
}

impl DateTime {
    pub open spec fn wf(self) -> bool {
        self.date.wf() && self.time.wf()
    }

    /// The order of instants: by date, then by time.
    pub open spec fn precedes(self, o: DateTime) -> bool {
        self.date.precedes(o.date) || (self.date == o.date && self.time.precedes(o.time))
    }

    pub open spec fn spec_new(
        year: u16,
        month: u8,
        day: u8,
        hour: u8,
        minute: u8,
        second: u8,
    ) -> Result<DateTime, DateTimeErrorView> {
        match Date::spec_new(year, month, day) {
            Err(e) => Err(e),
            Ok(date) => match Time::spec_new(hour, minute, second) {
                Err(e) => Err(e),
                Ok(time) => Ok(DateTime { date, time }),
            },
        }
    }

    pub fn new(year: u16, month: u8, day: u8, hour: u8, minute: u8, second: u8) -> (r: Result<
        Self,
        ParseDateTimeError,
    >)
        ensures
            same_result(r, DateTime::spec_new(year, month, day, hour, minute, second)),
            r matches Ok(d) ==> d.wf(),
    {
        let date = match Date::new(year, month, day) {
            Ok(d) => d,
            Err(e) => return Err(e),
        };
        let time = match Time::new(hour, minute, second) {
            Ok(t) => t,
            Err(e) => return Err(e),
        };
        Ok(DateTime { date, time })
    }

    /// Whether `self` is an instant before `other`.
    pub fn is_before(&self, other: &DateTime) -> (r: bool)
        ensures
            r == self.precedes(*other),
    {
        self.date.is_before(&other.date) || (self.date == other.date && self.time.is_before(
            &other.time,
        ))
    }

    /// What reading a log timestamp gives.
    pub open spec fn spec_from_nginx(s: Seq<char>) -> Result<DateTime, DateTimeErrorView> {
        if s.len() < 20 {
            Err(DateTimeErrorView::UnexpectedEnd)
        } else if parsed_uint(s.subrange(0, 4), 65535) is Some {
            date_time_res(
                date_res(u16_tok(s.subrange(0, 4)), u8_tok(s.subrange(5, 7)), u8_tok(s.subrange(8, 10))),
                time_res(u8_tok(s.subrange(11, 13)), u8_tok(s.subrange(14, 16)), u8_tok(s.subrange(17, 19))),
            )
        } else if month_of_name(s.subrange(3, 6)) is None {
            Err(DateTimeErrorView::UnrecognizedMonth(s))
        } else if u8_tok(s.subrange(0, 2)) is None {
            Err(DateTimeErrorView::IntExpected)
        } else {
            date_time_res(
                date_res(u16_tok(s.subrange(7, 11)), month_of_name(s.subrange(3, 6)), u8_tok(s.subrange(0, 2))),
                time_res(u8_tok(s.subrange(12, 14)), u8_tok(s.subrange(15, 17)), u8_tok(s.subrange(18, 20))),
            )
        }
    }

    /// Reads a log timestamp, in either the common log format
    /// (`10/Jan/2021:10:27:01 +0000`) or the ISO 8601 one
    /// (`1977-04-22T01:00:00-05:00`). The zone offset is not read.
    pub fn from_nginx(s: &str) -> (r: Result<Self, ParseDateTimeError>)
        ensures
            same_result(r, DateTime::spec_from_nginx(s@)),
            r matches Ok(d) ==> d.wf(),
    {
        let c = chars_of(s);
        DateTime::from_nginx_chars(&c)
    }

    pub fn from_nginx_chars(c: &Vec<char>) -> (r: Result<Self, ParseDateTimeError>)
        ensures
            same_result(r, DateTime::spec_from_nginx(c@)),
            r matches Ok(d) ==> d.wf(),
    {
        if c.len() < 20 {
            return Err(ParseDateTimeError::UnexpectedEnd);
        }
        if let Some(year) = parse_uint(c, 0, 4, 65535) {
            let month = parse_u8(c, 5, 7);
            let day = parse_u8(c, 8, 10);
            let date = date_of(Some(year as u16), month, day);
            let time = if date.is_ok() {
                time_of(parse_u8(c, 11, 13), parse_u8(c, 14, 16), parse_u8(c, 17, 19))
            } else {
                Err(ParseDateTimeError::IntExpected)
            };
            date_time_of(date, time)
        } else {
            let month = month_from_name(c, 3);
            if month.is_none() {
                return Err(ParseDateTimeError::UnrecognizedMonth(crate::text::string_of(c.as_slice())));
            }
            let day = parse_u8(c, 0, 2);
            if day.is_none() {
                return Err(ParseDateTimeError::IntExpected);
            }
            let year = parse_u16(c, 7, 11);
            let date = date_of(year, month, day);
            let time = if date.is_ok() {
                time_of(parse_u8(c, 12, 14), parse_u8(c, 15, 17), parse_u8(c, 18, 20))
            } else {
                Err(ParseDateTimeError::IntExpected)
            };
            date_time_of(date, time)
        }
    }

    /// The instant that ends the given day, or the given time of it.
    pub fn round_up(date: Date, time: Option<Time>) -> (r: Self)
        ensures
            r.date == date,
            r.time == (match time {
                Some(t) => t,
                None => Time { hour: 23, minute: 59, second: 59 },
            }),
    {
        DateTime {
            date,
            time: match time {
                Some(t) => t,
                None => Time { hour: 23, minute: 59, second: 59 },
            },
        }
    }

    /// The instant that starts the given day, or the given time of it.
    pub fn round_down(date: Date, time: Option<Time>) -> (r: Self)
        ensures
            r.date == date,
            r.time == (match time {
                Some(t) => t,
                None => Time { hour: 0, minute: 0, second: 0 },
            }),
    {
        DateTime {
            date,
            time: match time {
                Some(t) => t,
                None => Time { hour: 0, minute: 0, second: 0 },
            },
        }
    }
}

/// The date and time together, or the first error of the two.
pub open spec fn date_time_res(
    d: Result<Date, DateTimeErrorView>,
    t: Result<Time, DateTimeErrorView>,
) -> Result<DateTime, DateTimeErrorView> {
    match d {
        Err(e) => Err(e),
        Ok(date) => match t {
            Err(e) => Err(e),
            Ok(time) => Ok(DateTime { date, time }),
        },
    }
}

fn date_time_of(d: Result<Date, ParseDateTimeError>, t: Result<Time, ParseDateTimeError>) -> (r:
    Result<DateTime, ParseDateTimeError>)
    ensures
        res_view(r) == date_time_res(res_view(d), res_view(t)),
{
    match d {
        Err(e) => Err(e),
        Ok(date) => match t {
            Err(e) => Err(e),
            Ok(time) => Ok(DateTime { date, time }),
        },
    }
}

/// Every day 1 to 31 of every month 1 to 12 makes a date; a day of 0 or
/// 32 is refused as an invalid day, and a month of 0 or 13 (with a valid
/// day) as an invalid month.
pub proof fn lemma_date_new_ranges(year: u16, month: u8, day: u8)
    ensures
        1 <= day <= 31 && 1 <= month <= 12 ==> Date::spec_new(year, month, day) == Ok::<Date, DateTimeErrorView>(
            Date { year, month, day },
        ),
        day == 0 || day == 32 ==> Date::spec_new(year, month, day) == Err::<Date, DateTimeErrorView>(
            DateTimeErrorView::InvalidDay(day),
        ),
        1 <= day <= 31 && (month == 0 || month == 13) ==> Date::spec_new(year, month, day) == Err::<
            Date,
            DateTimeErrorView,
        >(DateTimeErrorView::InvalidMonth(month)),
{
}

} // verus!
