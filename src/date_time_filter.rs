//! The filter on dates and times of hits, and the parsing of its patterns.
use vstd::prelude::*;

use crate::date_time::{
    date_of, date_res, parse_u16, parse_u8, res_view, time_of, time_res, u16_tok, u8_tok, Date,
    DateTime, DateTimeErrorView, ParseDateTimeError, Time,
};
use crate::text::{
    chars_of, find_char, first_index_of, is_digit, substring, trim_end_of, trim_range, trim_start_of,
};

verus! {

/// The runs of ASCII digits of `s`, as splitting it at every other
/// character gives them (empty runs included).
pub open spec fn digit_tokens(s: Seq<char>) -> Seq<Seq<char>>
    decreases s.len(),
{
    if s.len() == 0 {
        seq![Seq::<char>::empty()]
    } else {
        let prev = digit_tokens(s.drop_last());
        if is_digit(s.last()) {
            prev.update(prev.len() - 1, prev.last().push(s.last()))
        } else {
            prev.push(Seq::<char>::empty())
        }
    }
}

pub proof fn lemma_digit_tokens_nonempty(s: Seq<char>)
    ensures
        digit_tokens(s).len() >= 1,
    decreases s.len(),
{
    if s.len() > 0 {
        lemma_digit_tokens_nonempty(s.drop_last());
    }
}

/// Bounds of the runs of digits of `c[start..end]`.
pub fn digit_token_ranges(c: &Vec<char>, start: usize, end: usize) -> (r: Vec<(usize, usize)>)
    requires
        start <= end <= c.len(),
    ensures
        r@.len() == digit_tokens(c@.subrange(start as int, end as int)).len(),
        forall|k: int|
            0 <= k < r@.len() ==> start <= (#[trigger] r@[k]).0 <= r@[k].1 <= end && c@.subrange(
                r@[k].0 as int,
                r@[k].1 as int,
            ) == digit_tokens(c@.subrange(start as int, end as int))[k],
{
    let mut r: Vec<(usize, usize)> = Vec::new();
    let mut cur: usize = start;
    let mut i: usize = start;
    proof {
        assert(c@.subrange(start as int, start as int) =~= Seq::<char>::empty());
    }
    while i < end
        invariant
            start <= cur <= i <= end <= c.len(),
            r@.len() + 1 == digit_tokens(c@.subrange(start as int, i as int)).len(),
            forall|k: int|
                0 <= k < r@.len() ==> start <= (#[trigger] r@[k]).0 <= r@[k].1 <= i && c@.subrange(
                    r@[k].0 as int,
                    r@[k].1 as int,
                ) == digit_tokens(c@.subrange(start as int, i as int))[k],
            c@.subrange(cur as int, i as int) == digit_tokens(
                c@.subrange(start as int, i as int),
            ).last(),
        decreases end - i,
    {
        let ghost prev = digit_tokens(c@.subrange(start as int, i as int));
        proof {
            lemma_digit_tokens_nonempty(c@.subrange(start as int, i as int));
            assert(c@.subrange(start as int, i + 1).drop_last() =~= c@.subrange(start as int, i as int));
            assert(c@.subrange(start as int, i + 1).last() == c@[i as int]);
        }
        if '0' <= c[i] && c[i] <= '9' {
            i = i + 1;
            proof {
                assert(c@.subrange(cur as int, i as int) =~= c@.subrange(cur as int, i - 1).push(c@[i - 1]));
            }
        } else {
            r.push((cur, i));
            i = i + 1;
            cur = i;
            proof {
                assert(c@.subrange(cur as int, i as int) =~= Seq::<char>::empty());
            }
        }
    }
    r.push((cur, end));
    r
}

/// A date alone, or the first error.
pub open spec fn date_only(d: Result<Date, DateTimeErrorView>) -> Result<(Date, Option<Time>), DateTimeErrorView> {
    match d {
        Err(e) => Err(e),
        Ok(d) => Ok((d, None)),
    }
}

/// A date with a time, or the first error: the date's, then the time's.
pub open spec fn with_time(
    d: Result<Date, DateTimeErrorView>,
    t: Result<Time, DateTimeErrorView>,
) -> Result<(Date, Option<Time>), DateTimeErrorView> {
    match d {
        Err(e) => Err(e),
        Ok(d) => match t {
            Err(e) => Err(e),
            Ok(t) => Ok((d, Some(t))),
        },
    }
}

/// What reading a pattern date with an optional time gives: its runs of
/// digits are, by their count, a day; a month and day; a year, month and
/// day; then hour, minute and second, with the year taken from the default
/// when the first run has not four digits.
pub open spec fn spec_parse_date_optional_time(
    s: Seq<char>,
    dy: Option<u16>,
    dm: Option<u8>,
) -> Result<(Date, Option<Time>), DateTimeErrorView> {
    let t = digit_tokens(s);
    if t.len() == 1 {
        if dy is Some && dm is Some {
            date_only(date_res(dy, dm, u8_tok(t[0])))
        } else {
            Err(DateTimeErrorView::AmbiguousDate(s))
        }
    } else if t.len() == 2 {
        if dy is Some {
            date_only(date_res(dy, u8_tok(t[0]), u8_tok(t[1])))
        } else {
            Err(DateTimeErrorView::AmbiguousDate(s))
        }
    } else if t.len() == 3 {
        date_only(date_res(u16_tok(t[0]), u8_tok(t[1]), u8_tok(t[2])))
    } else if t.len() == 4 {
        if t[0].len() == 4 {
            with_time(
                date_res(u16_tok(t[0]), u8_tok(t[1]), u8_tok(t[2])),
                time_res(u8_tok(t[3]), Some(0), Some(0)),
            )
        } else if dy is Some {
            with_time(
                date_res(dy, u8_tok(t[0]), u8_tok(t[1])),
                time_res(u8_tok(t[2]), u8_tok(t[3]), Some(0)),
            )
        } else {
            Err(DateTimeErrorView::AmbiguousDate(s))
        }
    } else if t.len() == 5 {
        if t[0].len() == 4 {
            with_time(
                date_res(u16_tok(t[0]), u8_tok(t[1]), u8_tok(t[2])),
                time_res(u8_tok(t[3]), u8_tok(t[4]), Some(0)),
            )
        } else if dy is Some {
            with_time(
                date_res(dy, u8_tok(t[0]), u8_tok(t[1])),
                time_res(u8_tok(t[2]), u8_tok(t[3]), u8_tok(t[4])),
            )
        } else {
            Err(DateTimeErrorView::AmbiguousDate(s))
        }
    } else {
        with_time(
            date_res(u16_tok(t[0]), u8_tok(t[1]), u8_tok(t[2])),
            time_res(u8_tok(t[3]), u8_tok(t[4]), u8_tok(t[5])),
        )
    }
}

fn tok_u8(c: &Vec<char>, t: &Vec<(usize, usize)>, k: usize) -> (r: Option<u8>)
    requires
        k < t@.len(),
        t@[k as int].0 <= t@[k as int].1 <= c.len(),
    ensures
        r == u8_tok(c@.subrange(t@[k as int].0 as int, t@[k as int].1 as int)),
{
    parse_u8(c, t[k].0, t[k].1)
}

fn tok_u16(c: &Vec<char>, t: &Vec<(usize, usize)>, k: usize) -> (r: Option<u16>)
    requires
        k < t@.len(),
        t@[k as int].0 <= t@[k as int].1 <= c.len(),
    ensures
        r == u16_tok(c@.subrange(t@[k as int].0 as int, t@[k as int].1 as int)),
{
    parse_u16(c, t[k].0, t[k].1)
}

fn date_alone(d: Result<Date, ParseDateTimeError>) -> (r: Result<(Date, Option<Time>), ParseDateTimeError>)
    ensures
        res_view(r) == date_only(res_view(d)),
{
    match d {
        Err(e) => Err(e),
        Ok(d) => Ok((d, None)),
    }
}

fn date_and_time(
    d: Result<Date, ParseDateTimeError>,
    t: Result<Time, ParseDateTimeError>,
) -> (r: Result<(Date, Option<Time>), ParseDateTimeError>)
    ensures
        res_view(r) == with_time(res_view(d), res_view(t)),
{
    match d {
        Err(e) => Err(e),
        Ok(d) => match t {
            Err(e) => Err(e),
            Ok(t) => Ok((d, Some(t))),
        },
    }
}

/// Reads the date, with an optional time, of `c[start..end]`, taking the
/// year and month that it leaves out from the defaults.
pub fn parse_date_optional_time(
    c: &Vec<char>,
    start: usize,
    end: usize,
    dy: Option<u16>,
    dm: Option<u8>,
) -> (r: Result<(Date, Option<Time>), ParseDateTimeError>)
    requires
        start <= end <= c.len(),
    ensures
        res_view(r) == spec_parse_date_optional_time(c@.subrange(start as int, end as int), dy, dm),
        r matches Ok((d, t)) ==> d.wf() && (t matches Some(t) ==> t.wf()),
{
    let t = digit_token_ranges(c, start, end);
    let ghost s = c@.subrange(start as int, end as int);
    let ghost tk = digit_tokens(s);
    proof {
        lemma_digit_tokens_nonempty(s);
        assert forall|k: int| 0 <= k < t@.len() implies c@.subrange(t@[k].0 as int, t@[k].1 as int) == tk[k]
            && t@[k].0 <= t@[k].1 <= c.len() by {}
    }
    let n = t.len();
    if n == 1 {
        match (dy, dm) {
            (Some(_), Some(_)) => date_alone(date_of(dy, dm, tok_u8(c, &t, 0))),
            _ => Err(ParseDateTimeError::AmbiguousDate(substring(c, start, end))),
        }
    } else if n == 2 {
        match dy {
            Some(_) => date_alone(date_of(dy, tok_u8(c, &t, 0), tok_u8(c, &t, 1))),
            None => Err(ParseDateTimeError::AmbiguousDate(substring(c, start, end))),
        }
    } else if n == 3 {
        date_alone(date_of(tok_u16(c, &t, 0), tok_u8(c, &t, 1), tok_u8(c, &t, 2)))
    } else if n == 4 {
        if t[0].1 - t[0].0 == 4 {
            let d = date_of(tok_u16(c, &t, 0), tok_u8(c, &t, 1), tok_u8(c, &t, 2));
            let tm = if d.is_ok() {
                time_of(tok_u8(c, &t, 3), Some(0), Some(0))
            } else {
                Err(ParseDateTimeError::IntExpected)
            };
            date_and_time(d, tm)
        } else if dy.is_some() {
            let d = date_of(dy, tok_u8(c, &t, 0), tok_u8(c, &t, 1));
            let tm = if d.is_ok() {
                time_of(tok_u8(c, &t, 2), tok_u8(c, &t, 3), Some(0))
            } else {
                Err(ParseDateTimeError::IntExpected)
            };
            date_and_time(d, tm)
        } else {
            Err(ParseDateTimeError::AmbiguousDate(substring(c, start, end)))
        }
    } else if n == 5 {
        if t[0].1 - t[0].0 == 4 {
            let d = date_of(tok_u16(c, &t, 0), tok_u8(c, &t, 1), tok_u8(c, &t, 2));
            let tm = if d.is_ok() {
                time_of(tok_u8(c, &t, 3), tok_u8(c, &t, 4), Some(0))
            } else {
                Err(ParseDateTimeError::IntExpected)
            };
            date_and_time(d, tm)
        } else if dy.is_some() {
            let d = date_of(dy, tok_u8(c, &t, 0), tok_u8(c, &t, 1));
            let tm = if d.is_ok() {
                time_of(tok_u8(c, &t, 2), tok_u8(c, &t, 3), tok_u8(c, &t, 4))
            } else {
                Err(ParseDateTimeError::IntExpected)
            };
            date_and_time(d, tm)
        } else {
            Err(ParseDateTimeError::AmbiguousDate(substring(c, start, end)))
        }
    } else {
        let d = date_of(tok_u16(c, &t, 0), tok_u8(c, &t, 1), tok_u8(c, &t, 2));
        let tm = if d.is_ok() {
            time_of(tok_u8(c, &t, 3), tok_u8(c, &t, 4), tok_u8(c, &t, 5))
        } else {
            Err(ParseDateTimeError::IntExpected)
        };
        date_and_time(d, tm)
    }
}

/// A filter on the instant of a hit.
#[derive(Debug, Clone, Copy, PartialEq, Eq, Structural)]
pub enum DateTimeFilter {
    AfterDate(Date),
    AfterDateTime(DateTime),
    BeforeDate(Date),
    BeforeDateTime(DateTime),
    NotDate(Date),
    PreciseDate(Date),
    NotDateTime(DateTime),
    PreciseDateTime(DateTime),
    /// Both ends included.
    Range(DateTime, DateTime),
}

/// The filter that a leading `>`, `<` or `!` asks for.
pub open spec fn sigil_filter(sigil: char, d: Date, t: Option<Time>) -> DateTimeFilter {
    if sigil == '>' {
        match t {
            Some(time) => DateTimeFilter::AfterDateTime(DateTime { date: d, time }),
            None => DateTimeFilter::AfterDate(d),
        }
    } else if sigil == '<' {
        match t {
            Some(time) => DateTimeFilter::BeforeDateTime(DateTime { date: d, time }),
            None => DateTimeFilter::BeforeDate(d),
        }
    } else {
        match t {
            Some(time) => DateTimeFilter::NotDateTime(DateTime { date: d, time }),
            None => DateTimeFilter::NotDate(d),
        }
    }
}

/// An instant from six parsed fields, or the first error.
pub open spec fn date_time_fields(
    y: Option<u16>,
    mo: Option<u8>,
    d: Option<u8>,
    h: Option<u8>,
    mi: Option<u8>,
    s: Option<u8>,
) -> Result<DateTime, DateTimeErrorView> {
    if y is None || mo is None || d is None || h is None || mi is None || s is None {
        Err(DateTimeErrorView::IntExpected)
    } else {
        DateTime::spec_new(y->Some_0, mo->Some_0, d->Some_0, h->Some_0, mi->Some_0, s->Some_0)
    }
}

pub open spec fn precise_date(d: Result<Date, DateTimeErrorView>) -> Result<DateTimeFilter, DateTimeErrorView> {
    match d {
        Err(e) => Err(e),
        Ok(d) => Ok(DateTimeFilter::PreciseDate(d)),
    }
}

pub open spec fn precise_date_time(d: Result<DateTime, DateTimeErrorView>) -> Result<DateTimeFilter, DateTimeErrorView> {
    match d {
        Err(e) => Err(e),
        Ok(d) => Ok(DateTimeFilter::PreciseDateTime(d)),
    }
}

/// The whole of the given year.
pub open spec fn year_range(y: u16) -> DateTimeFilter {
    DateTimeFilter::Range(
        DateTime { date: Date { year: y, month: 1, day: 1 }, time: Time { hour: 0, minute: 0, second: 0 } },
        DateTime { date: Date { year: y, month: 12, day: 31 }, time: Time { hour: 23, minute: 59, second: 59 } },
    )
}

/// The days 1 to 31 of the given month.
pub open spec fn month_range(y: u16, m: u8) -> DateTimeFilter {
    DateTimeFilter::Range(
        DateTime { date: Date { year: y, month: m, day: 1 }, time: Time { hour: 0, minute: 0, second: 0 } },
        DateTime { date: Date { year: y, month: m, day: 31 }, time: Time { hour: 23, minute: 59, second: 59 } },
    )
}

/// What a pattern with no sigil and no `-` gives; `a` is the trimmed
/// pattern and `s` the pattern as given.
pub open spec fn spec_single_filter(
    a: Seq<char>,
    s: Seq<char>,
    dy: Option<u16>,
    dm: Option<u8>,
) -> Result<DateTimeFilter, DateTimeErrorView> {
    let t = digit_tokens(a);
    if t.len() == 1 {
        if t[0].len() == 4 {
            match u16_tok(t[0]) {
                None => Err(DateTimeErrorView::IntExpected),
                Some(y) => Ok(year_range(y)),
            }
        } else if dy is Some && dm is Some {
            precise_date(date_res(dy, dm, u8_tok(t[0])))
        } else {
            Err(DateTimeErrorView::AmbiguousDate(s))
        }
    } else if t.len() == 2 {
        if t[0].len() == 4 {
            if u16_tok(t[0]) is None || u8_tok(t[1]) is None {
                Err(DateTimeErrorView::IntExpected)
            } else {
                match Date::spec_new(u16_tok(t[0])->Some_0, u8_tok(t[1])->Some_0, 1) {
                    Err(e) => Err(e),
                    Ok(_) => Ok(month_range(u16_tok(t[0])->Some_0, u8_tok(t[1])->Some_0)),
                }
            }
        } else if dy is Some {
            precise_date(date_res(dy, u8_tok(t[0]), u8_tok(t[1])))
        } else {
            Err(DateTimeErrorView::AmbiguousDate(s))
        }
    } else if t.len() == 3 {
        precise_date(date_res(u16_tok(t[0]), u8_tok(t[1]), u8_tok(t[2])))
    } else if t.len() == 4 {
        if t[0].len() == 4 {
            precise_date_time(date_time_fields(u16_tok(t[0]), u8_tok(t[1]), u8_tok(t[2]), u8_tok(t[3]), Some(0), Some(0)))
        } else if dy is Some {
            precise_date_time(date_time_fields(dy, u8_tok(t[0]), u8_tok(t[1]), u8_tok(t[2]), u8_tok(t[3]), Some(0)))
        } else {
            Err(DateTimeErrorView::AmbiguousDate(s))
        }
    } else if t.len() == 5 {
        if t[0].len() == 4 {
            precise_date_time(date_time_fields(u16_tok(t[0]), u8_tok(t[1]), u8_tok(t[2]), u8_tok(t[3]), u8_tok(t[4]), Some(0)))
        } else if dy is Some {
            precise_date_time(date_time_fields(dy, u8_tok(t[0]), u8_tok(t[1]), u8_tok(t[2]), u8_tok(t[3]), u8_tok(t[4])))
        } else {
            Err(DateTimeErrorView::AmbiguousDate(s))
        }
    } else {
        precise_date_time(date_time_fields(u16_tok(t[0]), u8_tok(t[1]), u8_tok(t[2]), u8_tok(t[3]), u8_tok(t[4]), u8_tok(t[5])))
    }
}

/// `s[start..end]` without its leading and trailing whitespace.
pub open spec fn trimmed(s: Seq<char>, start: int, end: int) -> Seq<char> {
    s.subrange(trim_start_of(s, start, end), trim_end_of(s, trim_start_of(s, start, end), end))
}

/// The instant that starts the day, or the given time of it.
pub open spec fn spec_round_down(d: Date, t: Option<Time>) -> DateTime {
    DateTime { date: d, time: match t { Some(t) => t, None => Time { hour: 0, minute: 0, second: 0 } } }
}

/// The instant that ends the day, or the given time of it.
pub open spec fn spec_round_up(d: Date, t: Option<Time>) -> DateTime {
    DateTime { date: d, time: match t { Some(t) => t, None => Time { hour: 23, minute: 59, second: 59 } } }
}

impl DateTimeFilter {
    /// What reading the pattern `s` gives, with the given defaults for the
    /// year and the month that it leaves out.
    pub open spec fn spec_new(s: Seq<char>, dy: Option<u16>, dm: Option<u8>) -> Result<DateTimeFilter, DateTimeErrorView> {
        let n = s.len() as int;
        if n > 0 && (s[0] == '>' || s[0] == '<' || s[0] == '!') {
            match spec_parse_date_optional_time(trimmed(s, 1, n), dy, dm) {
                Err(e) => Err(e),
                Ok((d, t)) => Ok(sigil_filter(s[0], d, t)),
            }
        } else {
            match first_index_of(s, 0, n, '-') {
                Some(i) => {
                    let b_end = match first_index_of(s, i + 1, n, '-') {
                        Some(j) => j,
                        None => n,
                    };
                    match spec_parse_date_optional_time(trimmed(s, 0, i), dy, dm) {
                        Err(e) => Err(e),
                        Ok((da, ta)) => match spec_parse_date_optional_time(trimmed(s, i + 1, b_end), dy, dm) {
                            Err(e) => Err(e),
                            Ok((db, tb)) => Ok(DateTimeFilter::Range(spec_round_down(da, ta), spec_round_up(db, tb))),
                        },
                    }
                },
                None => spec_single_filter(trimmed(s, 0, n), s, dy, dm),
            }
        }
    }

    /// Reads a filter pattern: `>X` (after), `<X` (before), `!X` (not),
    /// `A-B` (range, both ends included, `B` to the end of its day when it
    /// has no time), a bare year or `year/month` (the whole of it), or a
    /// single date or date and time (that day or instant). The year and
    /// month that a date leaves out come from the defaults; without them
    /// such a date is ambiguous.
    pub fn new(s: &str, dy: Option<u16>, dm: Option<u8>) -> (r: Result<Self, ParseDateTimeError>)
        ensures
            res_view(r) == DateTimeFilter::spec_new(s@, dy, dm),
    {
        let c = chars_of(s);
        let n = c.len();
        if n > 0 && (c[0] == '>' || c[0] == '<' || c[0] == '!') {
            let (a, b) = trim_range(&c, 1, n);
            return match parse_date_optional_time(&c, a, b, dy, dm) {
                Err(e) => Err(e),
                Ok((d, t)) => Ok(
                    if c[0] == '>' {
                        match t {
                            Some(time) => DateTimeFilter::AfterDateTime(DateTime { date: d, time }),
                            None => DateTimeFilter::AfterDate(d),
                        }
                    } else if c[0] == '<' {
                        match t {
                            Some(time) => DateTimeFilter::BeforeDateTime(DateTime { date: d, time }),
                            None => DateTimeFilter::BeforeDate(d),
                        }
                    } else {
                        match t {
                            Some(time) => DateTimeFilter::NotDateTime(DateTime { date: d, time }),
                            None => DateTimeFilter::NotDate(d),
                        }
                    },
                ),
            };
        }
        match find_char(&c, 0, n, '-') {
            Some(i) => {
                proof {
                    crate::text::lemma_first_index_of(c@, 0, n as int, '-');
                }
                let b_end = match find_char(&c, i + 1, n, '-') {
                    Some(j) => j,
                    None => n,
                };
                proof {
                    crate::text::lemma_first_index_of(c@, i + 1, n as int, '-');
                }
                let (a0, a1) = trim_range(&c, 0, i);
                let (b0, b1) = trim_range(&c, i + 1, b_end);
                match parse_date_optional_time(&c, a0, a1, dy, dm) {
                    Err(e) => Err(e),
                    Ok((da, ta)) => match parse_date_optional_time(&c, b0, b1, dy, dm) {
                        Err(e) => Err(e),
                        Ok((db, tb)) => Ok(
                            DateTimeFilter::Range(DateTime::round_down(da, ta), DateTime::round_up(db, tb)),
                        ),
                    },
                }
            },
            None => {
                let (a0, a1) = trim_range(&c, 0, n);
                single_filter(&c, a0, a1, s, dy, dm)
            },
        }
    }

    /// Whether the instant passes the filter.
    pub open spec fn spec_contains(self, c: DateTime) -> bool {
        match self {
            DateTimeFilter::AfterDate(d) => d.precedes(c.date),
            DateTimeFilter::AfterDateTime(dt) => dt.precedes(c),
            DateTimeFilter::BeforeDate(d) => c.date.precedes(d),
            DateTimeFilter::BeforeDateTime(dt) => c.precedes(dt),
            DateTimeFilter::NotDate(d) => d != c.date,
            DateTimeFilter::NotDateTime(dt) => dt != c,
            DateTimeFilter::PreciseDate(d) => d == c.date,
            DateTimeFilter::PreciseDateTime(dt) => dt == c,
            DateTimeFilter::Range(a, b) => !c.precedes(a) && !b.precedes(c),
        }
    }

    pub fn contains(self, candidate: DateTime) -> (r: bool)
        ensures
            r == self.spec_contains(candidate),
    {
        match self {
            DateTimeFilter::AfterDate(d) => d.is_before(&candidate.date),
            DateTimeFilter::AfterDateTime(dt) => dt.is_before(&candidate),
            DateTimeFilter::BeforeDate(d) => candidate.date.is_before(&d),
            DateTimeFilter::BeforeDateTime(dt) => candidate.is_before(&dt),
            DateTimeFilter::NotDate(d) => d != candidate.date,
            DateTimeFilter::NotDateTime(dt) => dt != candidate,
            DateTimeFilter::PreciseDate(d) => d == candidate.date,
            DateTimeFilter::PreciseDateTime(dt) => dt == candidate,
            DateTimeFilter::Range(a, b) => !candidate.is_before(&a) && !b.is_before(&candidate),
        }
    }

    /// Whether some instant of the day may pass the filter; a filter that
    /// excludes one instant still overlaps every day.
    pub open spec fn spec_overlaps(self, c: Date) -> bool {
        match self {
            DateTimeFilter::AfterDate(d) => d.precedes(c),
            DateTimeFilter::AfterDateTime(dt) => !c.precedes(dt.date),
            DateTimeFilter::BeforeDate(d) => c.precedes(d),
            DateTimeFilter::BeforeDateTime(dt) => !dt.date.precedes(c),
            DateTimeFilter::NotDate(d) => d != c,
            DateTimeFilter::NotDateTime(_) => true,
            DateTimeFilter::PreciseDate(d) => d == c,
            DateTimeFilter::PreciseDateTime(dt) => dt.date == c,
            DateTimeFilter::Range(a, b) => !c.precedes(a.date) && !b.date.precedes(c),
        }
    }

    pub fn overlaps(self, candidate: Date) -> (r: bool)
        ensures
            r == self.spec_overlaps(candidate),
    {
        match self {
            DateTimeFilter::AfterDate(d) => d.is_before(&candidate),
            DateTimeFilter::AfterDateTime(dt) => !candidate.is_before(&dt.date),
            DateTimeFilter::BeforeDate(d) => candidate.is_before(&d),
            DateTimeFilter::BeforeDateTime(dt) => !dt.date.is_before(&candidate),
            DateTimeFilter::NotDate(d) => d != candidate,
            DateTimeFilter::NotDateTime(_) => true,
            DateTimeFilter::PreciseDate(d) => d == candidate,
            DateTimeFilter::PreciseDateTime(dt) => dt.date == candidate,
            DateTimeFilter::Range(a, b) => !candidate.is_before(&a.date) && !b.date.is_before(&candidate),
        }
    }
}

/// A filter overlaps the day of every instant it contains: `overlaps` is
/// coarser than `contains`.
pub proof fn lemma_contains_implies_overlaps(f: DateTimeFilter, c: DateTime)
    ensures
        f.spec_contains(c) ==> f.spec_overlaps(c.date),
{
}

fn precise_date_of(d: Result<Date, ParseDateTimeError>) -> (r: Result<DateTimeFilter, ParseDateTimeError>)
    ensures
        res_view(r) == precise_date(res_view(d)),
{
    match d {
        Err(e) => Err(e),
        Ok(d) => Ok(DateTimeFilter::PreciseDate(d)),
    }
}

fn precise_date_time_of(
    y: Option<u16>,
    mo: Option<u8>,
    d: Option<u8>,
    h: Option<u8>,
    mi: Option<u8>,
    s: Option<u8>,
) -> (r: Result<DateTimeFilter, ParseDateTimeError>)
    ensures
        res_view(r) == precise_date_time(date_time_fields(y, mo, d, h, mi, s)),
{
    match (y, mo, d, h, mi, s) {
        (Some(y), Some(mo), Some(d), Some(h), Some(mi), Some(s)) => match DateTime::new(y, mo, d, h, mi, s) {
            Err(e) => Err(e),
            Ok(dt) => Ok(DateTimeFilter::PreciseDateTime(dt)),
        },
        _ => Err(ParseDateTimeError::IntExpected),
    }
}

/// The filter of a pattern with no sigil and no `-`, whose trimmed text is `c[a..b]`.
fn single_filter(c: &Vec<char>, a: usize, b: usize, s: &str, dy: Option<u16>, dm: Option<u8>) -> (r: Result<
    DateTimeFilter,
    ParseDateTimeError,
>)
    requires
        a <= b <= c.len(),
        c@ == s@,
    ensures
        res_view(r) == spec_single_filter(c@.subrange(a as int, b as int), s@, dy, dm),
{
    let t = digit_token_ranges(c, a, b);
    let ghost tk = digit_tokens(c@.subrange(a as int, b as int));
    proof {
        lemma_digit_tokens_nonempty(c@.subrange(a as int, b as int));
    }
    let n = t.len();
    let first_len = t[0].1 - t[0].0;
    if n == 1 {
        if first_len == 4 {
            match tok_u16(c, &t, 0) {
                None => Err(ParseDateTimeError::IntExpected),
                Some(y) => Ok(
                    DateTimeFilter::Range(
                        DateTime { date: Date { year: y, month: 1, day: 1 }, time: Time { hour: 0, minute: 0, second: 0 } },
                        DateTime { date: Date { year: y, month: 12, day: 31 }, time: Time { hour: 23, minute: 59, second: 59 } },
                    ),
                ),
            }
        } else if dy.is_some() && dm.is_some() {
            precise_date_of(date_of(dy, dm, tok_u8(c, &t, 0)))
        } else {
            Err(ParseDateTimeError::AmbiguousDate(crate::text::string_of(c.as_slice())))
        }
    } else if n == 2 {
        if first_len == 4 {
            match (tok_u16(c, &t, 0), tok_u8(c, &t, 1)) {
                (Some(y), Some(m)) => match Date::new(y, m, 1) {
                    Err(e) => Err(e),
                    Ok(_) => Ok(
                        DateTimeFilter::Range(
                            DateTime { date: Date { year: y, month: m, day: 1 }, time: Time { hour: 0, minute: 0, second: 0 } },
                            DateTime { date: Date { year: y, month: m, day: 31 }, time: Time { hour: 23, minute: 59, second: 59 } },
                        ),
                    ),
                },
                _ => Err(ParseDateTimeError::IntExpected),
            }
        } else if dy.is_some() {
            precise_date_of(date_of(dy, tok_u8(c, &t, 0), tok_u8(c, &t, 1)))
        } else {
            Err(ParseDateTimeError::AmbiguousDate(crate::text::string_of(c.as_slice())))
        }
    } else if n == 3 {
        precise_date_of(date_of(tok_u16(c, &t, 0), tok_u8(c, &t, 1), tok_u8(c, &t, 2)))
    } else if n == 4 {
        if first_len == 4 {
            precise_date_time_of(tok_u16(c, &t, 0), tok_u8(c, &t, 1), tok_u8(c, &t, 2), tok_u8(c, &t, 3), Some(0), Some(0))
        } else if dy.is_some() {
            precise_date_time_of(dy, tok_u8(c, &t, 0), tok_u8(c, &t, 1), tok_u8(c, &t, 2), tok_u8(c, &t, 3), Some(0))
        } else {
            Err(ParseDateTimeError::AmbiguousDate(crate::text::string_of(c.as_slice())))
        }
    } else if n == 5 {
        if first_len == 4 {
            precise_date_time_of(tok_u16(c, &t, 0), tok_u8(c, &t, 1), tok_u8(c, &t, 2), tok_u8(c, &t, 3), tok_u8(c, &t, 4), Some(0))
        } else if dy.is_some() {
            precise_date_time_of(dy, tok_u8(c, &t, 0), tok_u8(c, &t, 1), tok_u8(c, &t, 2), tok_u8(c, &t, 3), tok_u8(c, &t, 4))
        } else {
            Err(ParseDateTimeError::AmbiguousDate(crate::text::string_of(c.as_slice())))
        }
    } else {
        precise_date_time_of(tok_u16(c, &t, 0), tok_u8(c, &t, 1), tok_u8(c, &t, 2), tok_u8(c, &t, 3), tok_u8(c, &t, 4), tok_u8(c, &t, 5))
    }
}

} // verus!
