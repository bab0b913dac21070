//! Filters on the status code, the method and the time of day of hits.
use vstd::prelude::*;

use crate::date_time::{DateTimeErrorView, ParseDateTimeError, Time};
use crate::log_line::Method;
use crate::text::{
    chars_of, find_char, first_index_of, lemma_first_index_of, parse_uint,
    parsed_uint, range_equals, substring, trim_end_of, trim_range, trim_start_of,
};

verus! {

/// Why a status filter pattern could not be read.
#[derive(Debug, Clone, Copy, PartialEq, Eq, Structural)]
pub enum ParseStatusFilterError {
    ParseInt,
}

/// A filter on status codes: inclusive ranges to accept, and inclusive
/// ranges to reject, which win.
#[derive(Debug, Clone)]
pub struct StatusFilter {
    accepted: Vec<(u16, u16)>,
    rejected: Vec<(u16, u16)>,
}

pub open spec fn in_ranges(ranges: Seq<(u16, u16)>, status: u16) -> bool {
    exists|i: int| 0 <= i < ranges.len() && (#[trigger] ranges[i]).0 <= status <= ranges[i].1
}

/// Whether the status is in one of the ranges.
pub fn ranges_contains(ranges: &Vec<(u16, u16)>, status: u16) -> (r: bool)
    ensures
        r == in_ranges(ranges@, status),
{
    let mut i: usize = 0;
    while i < ranges.len()
        invariant
            0 <= i <= ranges.len(),
            forall|k: int| 0 <= k < i ==> !((#[trigger] ranges@[k]).0 <= status <= ranges@[k].1),
        decreases ranges.len() - i,
    {
        if ranges[i].0 <= status && status <= ranges[i].1 {
            return true;
        }
        i = i + 1;
    }
    false
}

/// The range that a token of a status pattern names: a class (`2xx` to
/// `5xx`), `A-B`, or a single code.
pub open spec fn spec_parse_range(s: Seq<char>, a: int, b: int) -> Option<(u16, u16)> {
    let t = s.subrange(a, b);
    if t == "2xx"@ {
        Some((200u16, 299u16))
    } else if t == "3xx"@ {
        Some((300u16, 399u16))
    } else if t == "4xx"@ {
        Some((400u16, 499u16))
    } else if t == "5xx"@ {
        Some((500u16, 599u16))
    } else {
        match first_index_of(s, a, b, '-') {
            Some(i) => {
                let j = match first_index_of(s, i + 1, b, '-') {
                    Some(j) => j,
                    None => b,
                };
                match (parsed_uint(s.subrange(a, i), 65535), parsed_uint(s.subrange(i + 1, j), 65535)) {
                    (Some(x), Some(y)) => Some((x as u16, y as u16)),
                    _ => None,
                }
            },
            None => match parsed_uint(t, 65535) {
                Some(v) => Some((v as u16, v as u16)),
                None => None,
            },
        }
    }
}

/// Reads the range that `c[a..b]` names.
pub fn parse_range(c: &Vec<char>, a: usize, b: usize) -> (r: Result<(u16, u16), ParseStatusFilterError>)
    requires
        a <= b <= c.len(),
    ensures
        match r {
            Ok(v) => spec_parse_range(c@, a as int, b as int) == Some(v),
            Err(_) => spec_parse_range(c@, a as int, b as int) is None,
        },
{
    if range_equals(c, a, b, "2xx") {
        return Ok((200, 299));
    }
    if range_equals(c, a, b, "3xx") {
        return Ok((300, 399));
    }
    if range_equals(c, a, b, "4xx") {
        return Ok((400, 499));
    }
    if range_equals(c, a, b, "5xx") {
        return Ok((500, 599));
    }
    proof {
        lemma_first_index_of(c@, a as int, b as int, '-');
    }
    match find_char(c, a, b, '-') {
        Some(i) => {
            proof {
                lemma_first_index_of(c@, i + 1, b as int, '-');
            }
            let j = match find_char(c, i + 1, b, '-') {
                Some(j) => j,
                None => b,
            };
            match (parse_uint(c, a, i, 65535), parse_uint(c, i + 1, j, 65535)) {
                (Some(x), Some(y)) => Ok((x as u16, y as u16)),
                _ => Err(ParseStatusFilterError::ParseInt),
            }
        },
        None => match parse_uint(c, a, b, 65535) {
            Some(v) => Ok((v as u16, v as u16)),
            None => Err(ParseStatusFilterError::ParseInt),
        },
    }
}

/// End of the comma-separated part of `s` that starts at `from`.
pub open spec fn comma_end(s: Seq<char>, from: int) -> int {
    match first_index_of(s, from, s.len() as int, ',') {
        Some(i) => i,
        None => s.len() as int,
    }
}

/// The ranges of the part `s[from..end]`: whether they rejected, and the range.
pub open spec fn spec_status_part(s: Seq<char>, from: int, end: int) -> Option<(bool, (u16, u16))> {
    let a = trim_start_of(s, from, end);
    let b = trim_end_of(s, a, end);
    if a < b && s[a] == '!' {
        let a2 = trim_start_of(s, a + 1, b);
        let b2 = trim_end_of(s, a2, b);
        match spec_parse_range(s, a2, b2) {
            Some(r) => Some((true, r)),
            None => None,
        }
    } else {
        match spec_parse_range(s, a, b) {
            Some(r) => Some((false, r)),
            None => None,
        }
    }
}

/// The included and excluded ranges of the parts of `s` from `from` on.
pub open spec fn spec_status_parts(s: Seq<char>, from: int) -> Option<(Seq<(u16, u16)>, Seq<(u16, u16)>)>
    decreases s.len() - from,
{
    if from < 0 || from > s.len() {
        None
    } else {
        let end = comma_end(s, from);
        match spec_status_part(s, from, end) {
            None => None,
            Some((ex, r)) => {
                let rest = if end >= s.len() {
                    Some((Seq::<(u16, u16)>::empty(), Seq::<(u16, u16)>::empty()))
                } else if end < from {
                    None
                } else {
                    spec_status_parts(s, end + 1)
                };
                match rest {
                    None => None,
                    Some((inc, exc)) => if ex {
                        Some((inc, seq![r] + exc))
                    } else {
                        Some((seq![r] + inc, exc))
                    },
                }
            },
        }
    }
}

fn status_parts(c: &Vec<char>, from: usize) -> (r: Result<(Vec<(u16, u16)>, Vec<(u16, u16)>), ParseStatusFilterError>)
    requires
        from <= c.len(),
    ensures
        match r {
            Ok((i, e)) => spec_status_parts(c@, from as int) == Some((i@, e@)),
            Err(_) => spec_status_parts(c@, from as int) is None,
        },
    decreases c.len() - from,
{
    let n = c.len();
    proof {
        lemma_first_index_of(c@, from as int, n as int, ',');
    }
    let end = match find_char(c, from, n, ',') {
        Some(i) => i,
        None => n,
    };
    let (a, b) = trim_range(c, from, end);
    let part = if a < b && c[a] == '!' {
        let (a2, b2) = trim_range(c, a + 1, b);
        match parse_range(c, a2, b2) {
            Ok(r) => Ok((true, r)),
            Err(e) => Err(e),
        }
    } else {
        match parse_range(c, a, b) {
            Ok(r) => Ok((false, r)),
            Err(e) => Err(e),
        }
    };
    let (ex, r) = match part {
        Ok(p) => p,
        Err(e) => return Err(e),
    };
    let (mut inc, mut exc) = if end >= n {
        (Vec::new(), Vec::new())
    } else {
        match status_parts(c, end + 1) {
            Ok(p) => p,
            Err(e) => return Err(e),
        }
    };
    let ghost (inc0, exc0) = (inc@, exc@);
    if ex {
        exc.insert(0, r);
        assert(exc@ =~= seq![r] + exc0);
    } else {
        inc.insert(0, r);
        assert(inc@ =~= seq![r] + inc0);
    }
    Ok((inc, exc))
}

impl StatusFilter {
    pub closed spec fn included(&self) -> Seq<(u16, u16)> {
        self.accepted@
    }

    pub closed spec fn excluded(&self) -> Seq<(u16, u16)> {
        self.rejected@
    }

    /// Whether the status passes: it is in no excluded range, and in an
    /// included one when there are any.
    pub open spec fn spec_accepts(&self, status: u16) -> bool {
        !in_ranges(self.excluded(), status) && (self.included().len() == 0 || in_ranges(
            self.included(),
            status,
        ))
    }

    pub fn accepts(&self, status: u16) -> (r: bool)
        ensures
            r == self.spec_accepts(status),
    {
        if ranges_contains(&self.rejected, status) {
            false
        } else if self.accepted.len() == 0 {
            true
        } else {
            ranges_contains(&self.accepted, status)
        }
    }

    /// Reads a pattern of comma-separated parts, each a code, a range `A-B`
    /// or a class `2xx` to `5xx`, excluded when it starts with `!`.
    pub fn from_str(value: &str) -> (r: Result<StatusFilter, ParseStatusFilterError>)
        ensures
            match r {
                Ok(f) => spec_status_parts(value@, 0) == Some((f.included(), f.excluded())),
                Err(_) => spec_status_parts(value@, 0) is None,
            },
    {
        let c = chars_of(value);
        match status_parts(&c, 0) {
            Ok((accepted, rejected)) => Ok(StatusFilter { accepted, rejected }),
            Err(e) => Err(e),
        }
    }
}

/// A filter on the method of hits: equal to a method, or different from it.
#[derive(Debug, Clone, Copy, PartialEq, Eq, Structural)]
pub struct MethodFilter {
    pub negative: bool,
    pub method: Method,
}

impl MethodFilter {
    /// Reads `METHOD` or `!METHOD`.
    pub fn from_string(pattern: &str) -> (r: MethodFilter)
        ensures
            r.negative == (pattern@.len() > 0 && pattern@[0] == '!'),
            r.method == Method::spec_from(
                ({
                    let s = pattern@;
                    let start = if r.negative { 1int } else { 0int };
                    let a = trim_start_of(s, start, s.len() as int);
                    s.subrange(a, trim_end_of(s, a, s.len() as int))
                }),
            ),
    {
        let c = chars_of(pattern);
        let negative = c.len() > 0 && c[0] == '!';
        let start: usize = if negative { 1 } else { 0 };
        let (a, b) = trim_range(&c, start, c.len());
        MethodFilter { negative, method: Method::from_range(&c, a, b) }
    }

    pub open spec fn spec_contains(self, m: Method) -> bool {
        if self.negative { self.method != m } else { self.method == m }
    }

    pub fn contains(self, candidate: Method) -> (r: bool)
        ensures
            r == self.spec_contains(candidate),
    {
        if self.negative {
            self.method != candidate
        } else {
            self.method == candidate
        }
    }
}

/// Why a time filter pattern could not be read.
#[derive(Debug, Clone, PartialEq, Eq)]
pub enum ParseTimeFilterError {
    InvalidFormat,
    TimeParse(ParseDateTimeError),
}

/// A filter on the time of day of hits.
#[derive(Debug, Clone, Copy, PartialEq, Eq, Structural)]
pub enum TimeFilter {
    After(Time),
    Before(Time),
    /// Both ends included; when the first end is the later one, the range
    /// wraps over midnight.
    Range(Time, Time),
}

/// A bound of a time range: the text from `a` to `b` without its leading
/// whitespace, or its last character when it is all whitespace.
pub open spec fn range_bound(s: Seq<char>, a: int, b: int) -> Seq<char> {
    let t = trim_start_of(s, a, b);
    if t < b { s.subrange(t, b) } else { s.subrange(b - 1, b) }
}

/// The two bounds of a time range pattern: one `-`, with at least one
/// character on each side.
pub open spec fn range_bounds(s: Seq<char>) -> Option<(Seq<char>, Seq<char>)> {
    match first_index_of(s, 0, s.len() as int, '-') {
        None => None,
        Some(i) => if first_index_of(s, i + 1, s.len() as int, '-') is Some || i == 0 || i + 1
            == s.len() {
            None
        } else {
            Some((range_bound(s, 0, i), range_bound(s, i + 1, s.len() as int)))
        },
    }
}

impl TimeFilter {
    pub open spec fn spec_from_str(s: Seq<char>) -> Result<TimeFilter, Option<DateTimeErrorView>> {
        let n = s.len() as int;
        if n > 0 && (s[0] == '>' || s[0] == '<') {
            let a = trim_start_of(s, 1, n);
            match Time::spec_from_str(s.subrange(a, trim_end_of(s, a, n))) {
                Err(e) => Err(Some(e)),
                Ok(t) => Ok(if s[0] == '>' { TimeFilter::After(t) } else { TimeFilter::Before(t) }),
            }
        } else {
            match range_bounds(s) {
                None => Err(None),
                Some((x, y)) => match Time::spec_from_str(x) {
                    Err(e) => Err(Some(e)),
                    Ok(tx) => match Time::spec_from_str(y) {
                        Err(e) => Err(Some(e)),
                        Ok(ty) => Ok(TimeFilter::Range(tx, ty)),
                    },
                },
            }
        }
    }

    /// Reads `>T`, `<T` or `A-B`, each time written `HH`, `HH:MM` or `HH:MM:S`.
    pub fn from_str(s: &str) -> (r: Result<TimeFilter, ParseTimeFilterError>)
        ensures
            match r {
                Ok(f) => TimeFilter::spec_from_str(s@) == Ok::<TimeFilter, Option<DateTimeErrorView>>(f),
                Err(ParseTimeFilterError::InvalidFormat) => TimeFilter::spec_from_str(s@)
                    == Err::<TimeFilter, Option<DateTimeErrorView>>(None),
                Err(ParseTimeFilterError::TimeParse(e)) => TimeFilter::spec_from_str(s@)
                    == Err::<TimeFilter, Option<DateTimeErrorView>>(Some(e@)),
            },
    {
        let c = chars_of(s);
        let n = c.len();
        if n > 0 && (c[0] == '>' || c[0] == '<') {
            let (a, b) = trim_range(&c, 1, n);
            let text = substring(&c, a, b);
            return match Time::from_str(text.as_str()) {
                Err(e) => Err(ParseTimeFilterError::TimeParse(e)),
                Ok(t) => Ok(if c[0] == '>' { TimeFilter::After(t) } else { TimeFilter::Before(t) }),
            };
        }
        proof {
            lemma_first_index_of(c@, 0, n as int, '-');
        }
        let i = match find_char(&c, 0, n, '-') {
            None => return Err(ParseTimeFilterError::InvalidFormat),
            Some(i) => i,
        };
        proof {
            lemma_first_index_of(c@, i + 1, n as int, '-');
        }
        if find_char(&c, i + 1, n, '-').is_some() || i == 0 || i + 1 == n {
            return Err(ParseTimeFilterError::InvalidFormat);
        }
        let x = range_bound_text(&c, 0, i);
        let y = range_bound_text(&c, i + 1, n);
        match Time::from_str(x.as_str()) {
            Err(e) => Err(ParseTimeFilterError::TimeParse(e)),
            Ok(tx) => match Time::from_str(y.as_str()) {
                Err(e) => Err(ParseTimeFilterError::TimeParse(e)),
                Ok(ty) => Ok(TimeFilter::Range(tx, ty)),
            },
        }
    }

    pub open spec fn spec_contains(self, t: Time) -> bool {
        match self {
            TimeFilter::After(a) => a.precedes(t),
            TimeFilter::Before(b) => t.precedes(b),
            TimeFilter::Range(a, b) => if !b.precedes(a) {
                !t.precedes(a) && !b.precedes(t)
            } else {
                !t.precedes(a) || !b.precedes(t)
            },
        }
    }

    pub fn contains(self, candidate: Time) -> (r: bool)
        ensures
            r == self.spec_contains(candidate),
    {
        match self {
            TimeFilter::After(a) => a.is_before(&candidate),
            TimeFilter::Before(b) => candidate.is_before(&b),
            TimeFilter::Range(a, b) => if !b.is_before(&a) {
                !candidate.is_before(&a) && !b.is_before(&candidate)
            } else {
                !candidate.is_before(&a) || !b.is_before(&candidate)
            },
        }
    }
}

fn range_bound_text(c: &Vec<char>, a: usize, b: usize) -> (r: String)
    requires
        a < b <= c.len(),
    ensures
        r@ == range_bound(c@, a as int, b as int),
{
    let (t, _) = trim_range(c, a, b);
    if t < b {
        substring(c, t, b)
    } else {
        substring(c, b - 1, b)
    }
}

} // verus!
