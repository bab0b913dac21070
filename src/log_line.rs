//! One hit of the access log: the HTTP method, the cursor that cuts a line
//! into fields, and the parser of a line.
use vstd::prelude::*;

use crate::date_time::{DateTime, DateTimeErrorView, Date, ParseDateTimeError, Time};
use crate::text::{chars_of, first_index_of, lemma_first_index_of, parse_uint, parsed_uint, range_equals, substring};

verus! {

/// An HTTP method.
#[derive(Debug, Clone, Copy, PartialEq, Eq, Structural, Hash)]
pub enum Method {
    Get,
    Post,
    Put,
    Head,
    Delete,
    Connect,
    Options,
    Trace,
    Patch,
    /// No method in the request.
    Missing,
    /// An unknown method.
    Other,
}

impl Method {
    /// The method named `s`.
    pub open spec fn spec_from(s: Seq<char>) -> Method {
        if s == "GET"@ {
            Method::Get
        } else if s == "POST"@ {
            Method::Post
        } else if s == "PUT"@ {
            Method::Put
        } else if s == "HEAD"@ {
            Method::Head
        } else if s == "DELETE"@ {
            Method::Delete
        } else if s == "CONNECT"@ {
            Method::Connect
        } else if s == "OPTIONS"@ {
            Method::Options
        } else if s == "TRACE"@ {
            Method::Trace
        } else if s == "PATCH"@ {
            Method::Patch
        } else if s == ""@ || s == "none"@ {
            Method::Missing
        } else {
            Method::Other
        }
    }

    /// The method named `s`: one of the upper case names, `none` or nothing
    /// for no method, and `Other` for any other text.
    pub fn from(s: &str) -> (r: Method)
        ensures
            r == Method::spec_from(s@),
    {
        let c = chars_of(s);
        assert(c@.subrange(0, c@.len() as int) =~= c@);
        Method::from_range(&c, 0, c.len())
    }

    /// The method named by `c[start..end]`.
    pub fn from_range(c: &Vec<char>, start: usize, end: usize) -> (r: Method)
        requires
            start <= end <= c.len(),
        ensures
            r == Method::spec_from(c@.subrange(start as int, end as int)),
    {
        if range_equals(c, start, end, "GET") {
            Method::Get
        } else if range_equals(c, start, end, "POST") {
            Method::Post
        } else if range_equals(c, start, end, "PUT") {
            Method::Put
        } else if range_equals(c, start, end, "HEAD") {
            Method::Head
        } else if range_equals(c, start, end, "DELETE") {
            Method::Delete
        } else if range_equals(c, start, end, "CONNECT") {
            Method::Connect
        } else if range_equals(c, start, end, "OPTIONS") {
            Method::Options
        } else if range_equals(c, start, end, "TRACE") {
            Method::Trace
        } else if range_equals(c, start, end, "PATCH") {
            Method::Patch
        } else if range_equals(c, start, end, "") || range_equals(c, start, end, "none") {
            Method::Missing
        } else {
            Method::Other
        }
    }
}

/// Why a log line could not be read.
#[derive(Debug, Clone, PartialEq, Eq)]
pub enum ParseLogError {
    CharNotFound(char),
    InvalidDateTime(ParseDateTimeError),
    IntExpected,
}

pub ghost enum LogErrorView {
    CharNotFound(char),
    InvalidDateTime(DateTimeErrorView),
    IntExpected,
}

impl View for ParseLogError {
    type V = LogErrorView;

    open spec fn view(&self) -> LogErrorView {
        match self {
            ParseLogError::CharNotFound(c) => LogErrorView::CharNotFound(*c),
            ParseLogError::InvalidDateTime(e) => LogErrorView::InvalidDateTime(e@),
            ParseLogError::IntExpected => LogErrorView::IntExpected,
        }
    }
}

/// Where a [`Ranger`] stands: the next character to read, the start of
/// the next field, and the delimiter found last.
pub ghost struct RangerState {
    pub next: int,
    pub pos: int,
    pub last: Option<char>,
}

/// What looking for `end` from the state gives: the bounds of the field
/// that ends there, or the missing character; and the state after.
pub open spec fn spec_until(s: Seq<char>, st: RangerState, end: char) -> (Result<(int, int), char>, RangerState) {
    match first_index_of(s, st.next, s.len() as int, end) {
        Some(i) => (Ok((st.pos, i)), RangerState { next: i + 1, pos: i, last: Some(end) }),
        None => (Err(end), RangerState { next: s.len() as int, pos: st.pos, last: None }),
    }
}

/// What looking for the text between the next `start` and the `end` after
/// it gives. When the last delimiter found was `start`, it opens the field.
/// After a failure no delimiter is remembered.
pub open spec fn spec_between(s: Seq<char>, st: RangerState, start: char, end: char) -> (Result<(int, int), char>, RangerState) {
    if st.last == Some(start) {
        spec_until(s, RangerState { pos: st.pos + 1, ..st }, end)
    } else {
        match first_index_of(s, st.next, s.len() as int, start) {
            Some(i) => match first_index_of(s, i + 1, s.len() as int, end) {
                Some(j) => (Ok((i + 1, j)), RangerState { next: j + 1, pos: j, last: Some(end) }),
                None => (Err(end), RangerState { next: s.len() as int, pos: st.pos, last: None }),
            },
            None => (Err(start), RangerState { next: s.len() as int, pos: st.pos, last: None }),
        }
    }
}

/// A cursor over a line, cutting it into fields at delimiters, never
/// reading a character twice.
pub struct Ranger {
    chars: Vec<char>,
    next: usize,
    pos: usize,
    last: Option<char>,
}

impl Ranger {
    pub closed spec fn text(&self) -> Seq<char> {
        self.chars@
    }

    pub closed spec fn state(&self) -> RangerState {
        RangerState { next: self.next as int, pos: self.pos as int, last: self.last }
    }

    pub closed spec fn wf(&self) -> bool {
        &&& self.pos <= self.next <= self.chars.len()
        &&& self.last is Some ==> self.next == self.pos + 1
    }

    pub fn new(s: &str) -> (r: Ranger)
        ensures
            r.wf(),
            r.text() == s@,
            r.state() == (RangerState { next: 0, pos: 0, last: None }),
    {
        Ranger { chars: chars_of(s), next: 0, pos: 0, last: None }
    }

    /// The characters of the line between the given bounds.
    pub fn slice(&self, start: usize, end: usize) -> (r: String)
        requires
            start <= end <= self.text().len(),
        ensures
            r@ == self.text().subrange(start as int, end as int),
    {
        substring(&self.chars, start, end)
    }

    /// Bounds of the text from the current field start to the next `end`.
    pub fn until(&mut self, end: char) -> (r: Result<(usize, usize), ParseLogError>)
        requires
            old(self).wf(),
        ensures
            final(self).wf(),
            final(self).text() == old(self).text(),
            ({
                let (sr, st) = spec_until(old(self).text(), old(self).state(), end);
                &&& final(self).state() == st
                &&& match r {
                    Ok((a, b)) => sr == Ok::<(int, int), char>((a as int, b as int)) && a <= b
                        <= old(self).text().len(),
                    Err(e) => sr == Err::<(int, int), char>(end) && e == ParseLogError::CharNotFound(end),
                }
            }),
    {
        proof {
            lemma_first_index_of(self.chars@, self.next as int, self.chars.len() as int, end);
        }
        let n = self.chars.len();
        let mut i: usize = self.next;
        while i < n
            invariant
                self.next <= i <= n == self.chars.len(),
                self.pos <= self.next,
                *self == *old(self),
                first_index_of(self.chars@, self.next as int, n as int, end) == first_index_of(self.chars@, i as int, n as int, end),
            decreases n - i,
        {
            if self.chars[i] == end {
                let start = self.pos;
                self.pos = i;
                self.next = i + 1;
                self.last = Some(end);
                return Ok((start, i));
            }
            i = i + 1;
        }
        self.next = n;
        self.last = None;
        Err(ParseLogError::CharNotFound(end))
    }

    /// Bounds of the text between the next `start` and the `end` after it.
    pub fn between(&mut self, start: char, end: char) -> (r: Result<(usize, usize), ParseLogError>)
        requires
            old(self).wf(),
        ensures
            final(self).wf(),
            final(self).text() == old(self).text(),
            ({
                let (sr, st) = spec_between(old(self).text(), old(self).state(), start, end);
                &&& final(self).state() == st
                &&& match r {
                    Ok((a, b)) => sr == Ok::<(int, int), char>((a as int, b as int)) && a <= b
                        <= old(self).text().len(),
                    Err(e) => sr matches Err(c) && e == ParseLogError::CharNotFound(c),
                }
            }),
    {
        if self.last == Some(start) {
            self.pos = self.pos + 1;
            self.last = None;
            let r = self.until(end);
            return r;
        }
        let n = self.chars.len();
        proof {
            lemma_first_index_of(self.chars@, self.next as int, n as int, start);
        }
        let mut i: usize = self.next;
        while i < n
            invariant
                self.next <= i <= n == self.chars.len(),
                *self == *old(self),
                self.pos <= self.next,
                self.last != Some(start),
                first_index_of(self.chars@, self.next as int, n as int, start) == first_index_of(self.chars@, i as int, n as int, start),
            decreases n - i,
        {
            if self.chars[i] == start {
                proof {
                    lemma_first_index_of(self.chars@, i + 1, n as int, end);
                }
                let mut j: usize = i + 1;
                while j < n
                    invariant
                        i < j <= n == self.chars.len(),
                        *self == *old(self),
                        self.pos <= self.next <= i,
                        self.last != Some(start),
                        first_index_of(self.chars@, self.next as int, n as int, start) == Some(i as int),
                        first_index_of(self.chars@, i + 1, n as int, end) == first_index_of(self.chars@, j as int, n as int, end),
                    decreases n - j,
                {
                    if self.chars[j] == end {
                        self.pos = j;
                        self.next = j + 1;
                        self.last = Some(end);
                        return Ok((i + 1, j));
                    }
                    j = j + 1;
                }
                self.next = n;
                self.last = None;
                return Err(ParseLogError::CharNotFound(end));
            }
            i = i + 1;
        }
        self.next = n;
        self.last = None;
        Err(ParseLogError::CharNotFound(start))
    }
}

/// One hit: a parsed line of the access log.
#[derive(Debug, Clone)]
pub struct LogLine {
    pub remote_addr: String,
    pub date_time: DateTime,
    /// Index of the day of the hit among the days of the logs, set when the
    /// hit is stored.
    pub date_idx: usize,
    pub method: Method,
    /// The requested path, without its query.
    pub path: String,
    pub status: u16,
    pub bytes_sent: u64,
    pub referer: String,
}

/// The content of a [`LogLine`], with strings as character sequences.
pub ghost struct LogLineView {
    pub remote_addr: Seq<char>,
    pub date_time: DateTime,
    pub date_idx: int,
    pub method: Method,
    pub path: Seq<char>,
    pub status: u16,
    pub bytes_sent: u64,
    pub referer: Seq<char>,
}

impl View for LogLine {
    type V = LogLineView;

    open spec fn view(&self) -> LogLineView {
        LogLineView {
            remote_addr: self.remote_addr@,
            date_time: self.date_time,
            date_idx: self.date_idx as int,
            method: self.method,
            path: self.path@,
            status: self.status,
            bytes_sent: self.bytes_sent,
            referer: self.referer@,
        }
    }
}

pub open spec fn ends_with(s: Seq<char>, suffix: Seq<char>) -> bool {
    s.len() >= suffix.len() && s.subrange(s.len() - suffix.len(), s.len() as int) == suffix
}

fn ends_with_str(c: &Vec<char>, suffix: &str) -> (r: bool)
    ensures
        r == ends_with(c@, suffix@),
{
    let k = chars_of(suffix).len();
    if c.len() < k {
        false
    } else {
        range_equals(c, c.len() - k, c.len(), suffix)
    }
}

/// The request part of a line: its first word is the method and its second
/// the path when it holds a space, else it is all path.
pub open spec fn request_method(q: Seq<char>) -> Method {
    match first_index_of(q, 0, q.len() as int, ' ') {
        Some(i) => Method::spec_from(q.subrange(0, i)),
        None => Method::Missing,
    }
}

/// The path of a request, with its query cut off.
pub open spec fn request_path(q: Seq<char>) -> Seq<char> {
    let p = match first_index_of(q, 0, q.len() as int, ' ') {
        Some(i) => q.subrange(
            i + 1,
            match first_index_of(q, i + 1, q.len() as int, ' ') {
                Some(j) => j,
                None => q.len() as int,
            },
        ),
        None => q,
    };
    match first_index_of(p, 0, p.len() as int, '?') {
        Some(k) => p.subrange(0, k),
        None => p,
    }
}

/// The number of `q`, as an unsigned integer no greater than `max`.
pub open spec fn spec_number(q: Seq<char>, max: nat) -> Result<nat, LogErrorView> {
    match parsed_uint(q, max) {
        Some(v) => Ok(v),
        None => Err(LogErrorView::IntExpected),
    }
}

pub open spec fn field(s: Seq<char>, r: (int, int)) -> Seq<char> {
    s.subrange(r.0, r.1)
}

/// What parsing the line `s` gives.
pub open spec fn spec_parse_line(s: Seq<char>) -> Result<LogLineView, LogErrorView> {
    let st0 = RangerState { next: 0, pos: 0, last: None };
    let (r1, st1) = spec_until(s, st0, ' ');
    let (r2, st2) = spec_between(s, st1, '[', ']');
    let (r3, st3) = spec_between(s, st2, '"', '"');
    let (r4, st4) = spec_between(s, st3, ' ', ' ');
    let (r5, st5) = spec_between(s, st4, ' ', ' ');
    let (r6, st6) = spec_between(s, st5, '"', '"');
    if r1 is Err {
        Err(LogErrorView::CharNotFound(r1->Err_0))
    } else if r2 is Err {
        Err(LogErrorView::CharNotFound(r2->Err_0))
    } else if DateTime::spec_from_nginx(field(s, r2->Ok_0)) is Err {
        Err(LogErrorView::InvalidDateTime(DateTime::spec_from_nginx(field(s, r2->Ok_0))->Err_0))
    } else if r3 is Err {
        Err(LogErrorView::CharNotFound(r3->Err_0))
    } else if r4 is Err {
        Err(LogErrorView::CharNotFound(r4->Err_0))
    } else if spec_number(field(s, r4->Ok_0), 65535) is Err {
        Err(LogErrorView::IntExpected)
    } else if r5 is Err {
        Err(LogErrorView::CharNotFound(r5->Err_0))
    } else if spec_number(field(s, r5->Ok_0), 18446744073709551615) is Err {
        Err(LogErrorView::IntExpected)
    } else if r6 is Err {
        Err(LogErrorView::CharNotFound(r6->Err_0))
    } else {
        Ok(LogLineView {
            remote_addr: field(s, r1->Ok_0),
            date_time: DateTime::spec_from_nginx(field(s, r2->Ok_0))->Ok_0,
            date_idx: 0,
            method: request_method(field(s, r3->Ok_0)),
            path: request_path(field(s, r3->Ok_0)),
            status: spec_number(field(s, r4->Ok_0), 65535)->Ok_0 as u16,
            bytes_sent: spec_number(field(s, r5->Ok_0), 18446744073709551615)->Ok_0 as u64,
            referer: field(s, r6->Ok_0),
        })
    }
}

pub open spec fn spec_is_resource(p: Seq<char>) -> bool {
    ends_with(p, ".png"@) || ends_with(p, ".css"@) || ends_with(p, ".svg"@) || ends_with(p, ".jpg"@)
        || ends_with(p, ".jpeg"@) || ends_with(p, ".gif"@) || ends_with(p, ".ico"@) || ends_with(p, ".js"@)
        || ends_with(p, ".woff2"@) || ends_with(p, ".webp"@)
}

impl LogLine {
    /// Whether the path names a static resource (image, style, script, font).
    pub fn is_resource(&self) -> (r: bool)
        ensures
            r == spec_is_resource(self.path@),
    {
        let c = chars_of(self.path.as_str());
        ends_with_str(&c, ".png") || ends_with_str(&c, ".css") || ends_with_str(&c, ".svg")
            || ends_with_str(&c, ".jpg") || ends_with_str(&c, ".jpeg") || ends_with_str(&c, ".gif")
            || ends_with_str(&c, ".ico") || ends_with_str(&c, ".js") || ends_with_str(&c, ".woff2")
            || ends_with_str(&c, ".webp")
    }

    pub fn date(&self) -> (r: Date)
        ensures
            r == self.date_time.date,
    {
        self.date_time.date
    }

    pub fn time(&self) -> (r: Time)
        ensures
            r == self.date_time.time,
    {
        self.date_time.time
    }

    /// Parses a line of the access log:
    /// `<addr> - - [<timestamp>] "<METHOD> <path> HTTP/x.x" <status> <bytes> "<referer>"`.
    pub fn from_str(s: &str) -> (r: Result<LogLine, ParseLogError>)
        ensures
            match r {
                Ok(l) => spec_parse_line(s@) == Ok::<LogLineView, LogErrorView>(l@) && l.date_time.wf(),
                Err(e) => spec_parse_line(s@) == Err::<LogLineView, LogErrorView>(e@),
            },
    {
        let mut ranger = Ranger::new(s);
        let (a0, a1) = match ranger.until(' ') {
            Ok(b) => b,
            Err(e) => return Err(e),
        };
        let remote_addr = ranger.slice(a0, a1);
        let (d0, d1) = match ranger.between('[', ']') {
            Ok(b) => b,
            Err(e) => return Err(e),
        };
        let date_text = ranger.slice(d0, d1);
        let date_time = match DateTime::from_nginx(date_text.as_str()) {
            Ok(d) => d,
            Err(e) => return Err(ParseLogError::InvalidDateTime(e)),
        };
        let (q0, q1) = match ranger.between('"', '"') {
            Ok(b) => b,
            Err(e) => return Err(e),
        };
        let request = chars_of(ranger.slice(q0, q1).as_str());
        let (method, path) = request_parts(&request);
        let (s0, s1) = match ranger.between(' ', ' ') {
            Ok(b) => b,
            Err(e) => return Err(e),
        };
        let status = match parse_uint(&ranger.chars, s0, s1, 65535) {
            Some(v) => v as u16,
            None => return Err(ParseLogError::IntExpected),
        };
        let (b0, b1) = match ranger.between(' ', ' ') {
            Ok(b) => b,
            Err(e) => return Err(e),
        };
        let bytes_sent = match parse_uint(&ranger.chars, b0, b1, 18446744073709551615) {
            Some(v) => v,
            None => return Err(ParseLogError::IntExpected),
        };
        let (r0, r1) = match ranger.between('"', '"') {
            Ok(b) => b,
            Err(e) => return Err(e),
        };
        let referer = ranger.slice(r0, r1);
        Ok(LogLine { remote_addr, date_time, date_idx: 0, method, path, status, bytes_sent, referer })
    }
}

/// The method and the path, query cut off, of a request.
fn request_parts(q: &Vec<char>) -> (r: (Method, String))
    ensures
        r.0 == request_method(q@),
        r.1@ == request_path(q@),
{
    let n = q.len();
    proof {
        lemma_first_index_of(q@, 0, n as int, ' ');
    }
    let (method, p0, p1) = match crate::text::find_char(q, 0, n, ' ') {
        Some(i) => {
            proof {
                lemma_first_index_of(q@, i + 1, n as int, ' ');
            }
            let e = match crate::text::find_char(q, i + 1, n, ' ') {
                Some(j) => j,
                None => n,
            };
            (Method::from_range(q, 0, i), i + 1, e)
        },
        None => (Method::Missing, 0, n),
    };
    let ghost p = q@.subrange(p0 as int, p1 as int);
    assert(p0 == 0 && p1 == n ==> p =~= q@);
    proof {
        lemma_first_index_of(q@, p0 as int, p1 as int, '?');
        lemma_index_shift(q@, p0 as int, p1 as int, '?');
    }
    let e = match crate::text::find_char(q, p0, p1, '?') {
        Some(k) => k,
        None => p1,
    };
    let path = substring(q, p0, e);
    assert(path@ =~= request_path(q@));
    (method, path)
}

/// Searching a slice of `s` finds the same character as searching `s`
/// between the slice's bounds, shifted.
pub proof fn lemma_index_shift(s: Seq<char>, a: int, b: int, c: char)
    requires
        0 <= a <= b <= s.len(),
    ensures
        match first_index_of(s, a, b, c) {
            Some(i) => first_index_of(s.subrange(a, b), 0, b - a, c) == Some(i - a),
            None => first_index_of(s.subrange(a, b), 0, b - a, c) is None,
        },
    decreases b - a,
{
    lemma_index_shift_from(s, a, b, a, c);
}

proof fn lemma_index_shift_from(s: Seq<char>, a: int, b: int, k: int, c: char)
    requires
        0 <= a <= k <= b <= s.len(),
    ensures
        match first_index_of(s, k, b, c) {
            Some(i) => first_index_of(s.subrange(a, b), k - a, b - a, c) == Some(i - a),
            None => first_index_of(s.subrange(a, b), k - a, b - a, c) is None,
        },
    decreases b - k,
{
    if k < b {
        lemma_index_shift_from(s, a, b, k + 1, c);
    }
}

} // verus!
