//! A filter on the day of a hit, with dates written `year/month/day` and
//! the leading parts left implicit when the logs cover one year or month.
use vstd::prelude::*;

use crate::date_time::{
    date_of, date_res, parse_u16, parse_u8, res_view, u16_tok, u8_tok, Date, DateTimeErrorView,
    ParseDateTimeError,
};
use crate::str_filter::{regex_compiles, regex_matches, text_matches};
use crate::text::{
    chars_of, find_char, first_index_of, lemma_first_index_of, string_of, substring,
};

verus! {

/// End of the `/`-separated part of `s` that starts at `from`.
pub open spec fn part_end(s: Seq<char>, from: int) -> int {
    match first_index_of(s, from, s.len() as int, '/') {
        Some(i) => i,
        None => s.len() as int,
    }
}

/// What reading a date with implicit parts gives: three parts are a year,
/// a month and a day; two, a month and a day of the default year; one, a
/// day of the default year and month.
pub open spec fn spec_with_implicit(s: Seq<char>, dy: Option<u16>, dm: Option<u8>) -> Result<Date, DateTimeErrorView> {
    let e0 = part_end(s, 0);
    if e0 == s.len() {
        if dy is Some && dm is Some {
            date_res(dy, dm, u8_tok(s))
        } else {
            Err(DateTimeErrorView::AmbiguousDate(s))
        }
    } else {
        let e1 = part_end(s, e0 + 1);
        if e1 == s.len() {
            if dy is Some {
                date_res(dy, u8_tok(s.subrange(0, e0)), u8_tok(s.subrange(e0 + 1, e1)))
            } else {
                Err(DateTimeErrorView::AmbiguousDate(s))
            }
        } else {
            date_res(
                u16_tok(s.subrange(0, e0)),
                u8_tok(s.subrange(e0 + 1, e1)),
                u8_tok(s.subrange(e1 + 1, part_end(s, e1 + 1))),
            )
        }
    }
}

fn part_end_of(c: &Vec<char>, from: usize) -> (r: usize)
    requires
        from <= c.len(),
    ensures
        r == part_end(c@, from as int),
        from <= r <= c.len(),
{
    proof {
        lemma_first_index_of(c@, from as int, c.len() as int, '/');
    }
    match find_char(c, from, c.len(), '/') {
        Some(i) => i,
        None => c.len(),
    }
}

impl Date {
    /// Reads a date written `year/month/day`, `month/day` or `day`, the
    /// parts left out taken from the defaults.
    pub fn with_implicit(s: &str, dy: Option<u16>, dm: Option<u8>) -> (r: Result<Date, ParseDateTimeError>)
        ensures
            res_view(r) == spec_with_implicit(s@, dy, dm),
            r matches Ok(d) ==> d.wf(),
    {
        let c = chars_of(s);
        with_implicit_chars(&c, dy, dm)
    }
}

fn with_implicit_chars(c: &Vec<char>, dy: Option<u16>, dm: Option<u8>) -> (r: Result<Date, ParseDateTimeError>)
    ensures
        res_view(r) == spec_with_implicit(c@, dy, dm),
        r matches Ok(d) ==> d.wf(),
{
    let n = c.len();
    let e0 = part_end_of(c, 0);
    if e0 == n {
        assert(c@.subrange(0, n as int) =~= c@);
        if dy.is_some() && dm.is_some() {
            date_of(dy, dm, parse_u8(c, 0, n))
        } else {
            Err(ParseDateTimeError::AmbiguousDate(string_of(c.as_slice())))
        }
    } else {
        let e1 = part_end_of(c, e0 + 1);
        if e1 == n {
            if dy.is_some() {
                date_of(dy, parse_u8(c, 0, e0), parse_u8(c, e0 + 1, e1))
            } else {
                Err(ParseDateTimeError::AmbiguousDate(string_of(c.as_slice())))
            }
        } else {
            let e2 = part_end_of(c, e1 + 1);
            date_of(parse_u16(c, 0, e0), parse_u8(c, e0 + 1, e1), parse_u8(c, e1 + 1, e2))
        }
    }
}

/// The expression of a year alone.
pub open spec fn year_expr() -> Seq<char> {
    "^(\\d{4})$"@
}

/// The expression of a year and a month: `year/MM`.
pub open spec fn year_month_expr() -> Seq<char> {
    "^(\\d{4})/(\\d\\d)$"@
}

/// Whether `s` is a year alone: the expression `^(\d{4})$` matches it.
pub open spec fn is_year_text(s: Seq<char>) -> bool {
    regex_compiles(year_expr()) && regex_matches(year_expr(), s)
}

/// Whether `s` is a year and a month: the expression `^(\d{4})/(\d\d)$`
/// matches it, its groups being the characters 0 to 4 and 5 to 7.
pub open spec fn is_year_month_text(s: Seq<char>) -> bool {
    regex_compiles(year_month_expr()) && regex_matches(year_month_expr(), s) && s.len() == 7
}

/// A filter on the day of a hit.
#[derive(Debug, Clone, Copy, PartialEq, Eq, Structural)]
pub enum DateFilter {
    After(Date),
    Before(Date),
    Not(Date),
    Precise(Date),
    /// Both ends included.
    Range(Date, Date),
}

pub open spec fn date_filter_of(
    d: Result<Date, DateTimeErrorView>,
    sigil: char,
) -> Result<DateFilter, DateTimeErrorView> {
    match d {
        Err(e) => Err(e),
        Ok(d) => Ok(
            if sigil == '>' {
                DateFilter::After(d)
            } else if sigil == '<' {
                DateFilter::Before(d)
            } else if sigil == '!' {
                DateFilter::Not(d)
            } else {
                DateFilter::Precise(d)
            },
        ),
    }
}

impl DateFilter {
    /// What reading the pattern `s` gives.
    pub open spec fn spec_new(s: Seq<char>, dy: Option<u16>, dm: Option<u8>) -> Result<DateFilter, DateTimeErrorView> {
        let n = s.len() as int;
        if n > 0 && (s[0] == '>' || s[0] == '<' || s[0] == '!') {
            date_filter_of(spec_with_implicit(s.subrange(1, n), dy, dm), s[0])
        } else {
            match first_index_of(s, 0, n, '-') {
                Some(i) => {
                    let b_end = match first_index_of(s, i + 1, n, '-') {
                        Some(j) => j,
                        None => n,
                    };
                    match spec_with_implicit(s.subrange(0, i), dy, dm) {
                        Err(e) => Err(e),
                        Ok(a) => match spec_with_implicit(s.subrange(i + 1, b_end), dy, dm) {
                            Err(e) => Err(e),
                            Ok(b) => Ok(DateFilter::Range(a, b)),
                        },
                    }
                },
                None => if is_year_text(s) {
                    match u16_tok(s) {
                        Some(y) => Ok(DateFilter::Range(
                            Date { year: y, month: 1, day: 1 },
                            Date { year: y, month: 12, day: 31 },
                        )),
                        None => Err(DateTimeErrorView::IntExpected),
                    }
                } else if is_year_month_text(s) {
                    match date_res(u16_tok(s.subrange(0, 4)), u8_tok(s.subrange(5, 7)), Some(1u8)) {
                        Err(e) => Err(e),
                        Ok(a) => Ok(DateFilter::Range(a, Date { day: 31, ..a })),
                    }
                } else {
                    date_filter_of(spec_with_implicit(s, dy, dm), ' ')
                },
            }
        }
    }

    /// Reads a filter pattern: `>D`, `<D`, `!D`, `A-B` (both included), a
    /// bare year or `year/month` (the whole of it), or a single date.
    pub fn new(s: &str, dy: Option<u16>, dm: Option<u8>) -> (r: Result<Self, ParseDateTimeError>)
        ensures
            res_view(r) == DateFilter::spec_new(s@, dy, dm),
    {
        let c = chars_of(s);
        let n = c.len();
        if n > 0 && (c[0] == '>' || c[0] == '<' || c[0] == '!') {
            let rest = substring(&c, 1, n);
            let rc = chars_of(rest.as_str());
            return match with_implicit_chars(&rc, dy, dm) {
                Err(e) => Err(e),
                Ok(d) => Ok(
                    if c[0] == '>' {
                        DateFilter::After(d)
                    } else if c[0] == '<' {
                        DateFilter::Before(d)
                    } else {
                        DateFilter::Not(d)
                    },
                ),
            };
        }
        proof {
            lemma_first_index_of(c@, 0, n as int, '-');
        }
        match find_char(&c, 0, n, '-') {
            Some(i) => {
                let b_end = match find_char(&c, i + 1, n, '-') {
                    Some(j) => j,
                    None => n,
                };
                proof {
                    lemma_first_index_of(c@, i + 1, n as int, '-');
                }
                let a_text = substring(&c, 0, i);
                let b_text = substring(&c, i + 1, b_end);
                match with_implicit_chars(&chars_of(a_text.as_str()), dy, dm) {
                    Err(e) => Err(e),
                    Ok(a) => match with_implicit_chars(&chars_of(b_text.as_str()), dy, dm) {
                        Err(e) => Err(e),
                        Ok(b) => Ok(DateFilter::Range(a, b)),
                    },
                }
            },
            None => {
                assert(c@.subrange(0, n as int) =~= c@);
                if text_matches("^(\\d{4})$", s) {
                    match parse_u16(&c, 0, n) {
                        Some(y) => Ok(DateFilter::Range(
                            Date { year: y, month: 1, day: 1 },
                            Date { year: y, month: 12, day: 31 },
                        )),
                        None => Err(ParseDateTimeError::IntExpected),
                    }
                } else if text_matches("^(\\d{4})/(\\d\\d)$", s) && n == 7 {
                    match date_of(parse_u16(&c, 0, 4), parse_u8(&c, 5, 7), Some(1)) {
                        Err(e) => Err(e),
                        Ok(a) => Ok(DateFilter::Range(a, Date { day: 31, ..a })),
                    }
                } else {
                    match with_implicit_chars(&c, dy, dm) {
                        Err(e) => Err(e),
                        Ok(d) => Ok(DateFilter::Precise(d)),
                    }
                }
            },
        }
    }

    pub open spec fn spec_contains(self, c: Date) -> bool {
        match self {
            DateFilter::After(d) => d.precedes(c),
            DateFilter::Before(d) => c.precedes(d),
            DateFilter::Not(d) => d != c,
            DateFilter::Precise(d) => d == c,
            DateFilter::Range(a, b) => !c.precedes(a) && !b.precedes(c),
        }
    }

    /// Whether the day passes the filter.
    pub fn contains(self, candidate: Date) -> (r: bool)
        ensures
            r == self.spec_contains(candidate),
    {
        match self {
            DateFilter::After(d) => d.is_before(&candidate),
            DateFilter::Before(d) => candidate.is_before(&d),
            DateFilter::Not(d) => d != candidate,
            DateFilter::Precise(d) => d == candidate,
            DateFilter::Range(a, b) => !candidate.is_before(&a) && !b.is_before(&candidate),
        }
    }
}

/// The year, and the month, that all the days from `start` to `end` share, if any.
pub fn unique_year_month(start_date: Date, end_date: Date) -> (r: (Option<u16>, Option<u8>))
    ensures
        r == (if start_date.year != end_date.year {
            (None::<u16>, None::<u8>)
        } else if start_date.month != end_date.month {
            (Some(start_date.year), None::<u8>)
        } else {
            (Some(start_date.year), Some(start_date.month))
        }),
{
    if start_date.year == end_date.year {
        if start_date.month == end_date.month {
            (Some(start_date.year), Some(start_date.month))
        } else {
            (Some(start_date.year), None)
        }
    } else {
        (None, None)
    }
}

} // verus!
