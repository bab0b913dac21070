//! The set of filters of one run, built from the user's patterns, and the
//! count of hits that each of them removed.
use vstd::prelude::*;

use crate::date_filter::unique_year_month;
use crate::date_time::{Date, ParseDateTimeError};
use crate::date_time_filter::DateTimeFilter;
use crate::log_line::{LogLine, LogLineView};
use crate::status_filter::{
    MethodFilter, ParseStatusFilterError, ParseTimeFilterError, StatusFilter, TimeFilter,
};
use crate::str_filter::{ParseStrFilterError, StrFilter};

verus! {

/// A setting with an automatic choice.
#[derive(Debug, Clone, Copy, PartialEq, Eq, Structural, Default)]
pub enum TriBool {
    #[default]
    Auto,
    Yes,
    No,
}

impl TriBool {
    /// The setting, with `f` deciding the automatic choice.
    pub fn unwrap_or_else<F: FnOnce() -> bool>(self, f: F) -> (r: bool)
        requires
            self == TriBool::Auto ==> f.requires(()),
        ensures
            self == TriBool::Auto ==> f.ensures((), r),
            self == TriBool::Yes ==> r,
            self == TriBool::No ==> !r,
    {
        match self {
            TriBool::Auto => f(),
            TriBool::Yes => true,
            TriBool::No => false,
        }
    }
}

/// What to count per day: hits or bytes sent.
#[derive(Debug, Clone, Copy, PartialEq, Eq, Structural, Default)]
pub enum Key {
    #[default]
    Hits,
    Bytes,
}

/// The settings of a run that the analysis reads.
#[derive(Debug, Clone, Default)]
pub struct Args {
    pub key: Key,
    pub date: Option<String>,
    pub ip: Option<String>,
    pub method: Option<String>,
    pub path: Option<String>,
    pub referer: Option<String>,
    pub status: Option<String>,
    pub time: Option<String>,
    /// Whether every file is read, whatever its name.
    pub no_name_check: bool,
}

/// Why a run could not be done.
#[derive(Debug)]
pub enum RhitError {
    NoHitInPaths,
    NoLogFileFound,
    DateTime(ParseDateTimeError),
    StatusFilter(ParseStatusFilterError),
    StrFilter(ParseStrFilterError),
    TimeFilter(ParseTimeFilterError),
}

/// One filter on hits.
#[derive(Debug)]
pub enum Filter {
    DateTime(DateTimeFilter),
    Ip(StrFilter),
    Method(MethodFilter),
    Path(StrFilter),
    Referer(StrFilter),
    Status(StatusFilter),
    Time(TimeFilter),
}

impl Filter {
    pub open spec fn spec_accepts(&self, line: LogLineView) -> bool {
        match self {
            Filter::DateTime(f) => f.spec_contains(line.date_time),
            Filter::Ip(f) => f.spec_accepts(line.remote_addr),
            Filter::Method(f) => f.spec_contains(line.method),
            Filter::Path(f) => f.spec_accepts(line.path),
            Filter::Referer(f) => f.spec_accepts(line.referer),
            Filter::Status(f) => f.spec_accepts(line.status),
            Filter::Time(f) => f.spec_contains(line.date_time.time),
        }
    }

    /// Whether the hit passes the filter.
    pub fn accepts(&self, line: &LogLine) -> (r: bool)
        ensures
            r == self.spec_accepts(line@),
    {
        match self {
            Filter::DateTime(f) => f.contains(line.date_time),
            Filter::Ip(f) => f.accepts(line.remote_addr.as_str()),
            Filter::Method(f) => f.contains(line.method),
            Filter::Path(f) => f.accepts(line.path.as_str()),
            Filter::Referer(f) => f.accepts(line.referer.as_str()),
            Filter::Status(f) => f.accepts(line.status),
            Filter::Time(f) => f.contains(line.date_time.time),
        }
    }

    /// The name of the field that the filter reads.
    pub fn field_name(&self) -> (r: &'static str)
        ensures
            r@ == match self {
                Filter::DateTime(_) => "date"@,
                Filter::Ip(_) => "remote address"@,
                Filter::Method(_) => "method"@,
                Filter::Path(_) => "path"@,
                Filter::Referer(_) => "referer"@,
                Filter::Status(_) => "status"@,
                Filter::Time(_) => "time"@,
            },
    {
        match self {
            Filter::DateTime(_) => "date",
            Filter::Ip(_) => "remote address",
            Filter::Method(_) => "method",
            Filter::Path(_) => "path",
            Filter::Referer(_) => "referer",
            Filter::Status(_) => "status",
            Filter::Time(_) => "time",
        }
    }
}

/// A filter with its pattern and the count of hits it removed.
#[derive(Debug)]
pub struct Filtering {
    pub pattern: String,
    pub filter: Filter,
    pub removed_count: usize,
}

impl Filtering {
    pub fn new(pattern: &str, filter: Filter) -> (r: Filtering)
        ensures
            r.pattern@ == pattern@,
            r.filter == filter,
            r.removed_count == 0,
    {
        Filtering { pattern: crate::text::string_of(crate::text::chars_of(pattern).as_slice()), filter, removed_count: 0 }
    }
}

/// The filters of a run, in the order date, address, method, path,
/// referer, status, time.
#[derive(Debug)]
pub struct Filterer {
    pub first_date: Date,
    pub filterings: Vec<Filtering>,
}

/// Whether the filter is the one that the pattern of the given field reads,
/// with the default year and month.
pub open spec fn filter_of(field: int, p: Seq<char>, f: Filter, dy: Option<u16>, dm: Option<u8>) -> bool {
    match f {
        Filter::DateTime(x) => field == 0 && DateTimeFilter::spec_new(p, dy, dm) == Ok::<DateTimeFilter, crate::date_time::DateTimeErrorView>(x),
        Filter::Ip(x) => field == 1 && StrFilter::spec_new(p) == Ok::<Option<crate::str_filter::ExprView>, Option<Seq<char>>>(x.expr()),
        Filter::Method(x) => field == 2 && x.negative == (p.len() > 0 && p[0] == '!') && x.method
            == crate::log_line::Method::spec_from(
            ({
                let start = if x.negative { 1int } else { 0int };
                let a = crate::text::trim_start_of(p, start, p.len() as int);
                p.subrange(a, crate::text::trim_end_of(p, a, p.len() as int))
            }),
        ),
        Filter::Path(x) => field == 3 && StrFilter::spec_new(p) == Ok::<Option<crate::str_filter::ExprView>, Option<Seq<char>>>(x.expr()),
        Filter::Referer(x) => field == 4 && StrFilter::spec_new(p) == Ok::<Option<crate::str_filter::ExprView>, Option<Seq<char>>>(x.expr()),
        Filter::Status(x) => field == 5 && crate::status_filter::spec_status_parts(p, 0) == Some((x.included(), x.excluded())),
        Filter::Time(x) => field == 6 && TimeFilter::spec_from_str(p) == Ok::<TimeFilter, Option<crate::date_time::DateTimeErrorView>>(x),
    }
}

/// Whether the pattern of the given field can be read.
pub open spec fn pattern_ok(field: int, p: Seq<char>, dy: Option<u16>, dm: Option<u8>) -> bool {
    if field == 0 {
        DateTimeFilter::spec_new(p, dy, dm) is Ok
    } else if field == 1 || field == 3 || field == 4 {
        StrFilter::spec_new(p) is Ok
    } else if field == 5 {
        crate::status_filter::spec_status_parts(p, 0) is Some
    } else if field == 6 {
        TimeFilter::spec_from_str(p) is Ok
    } else {
        true
    }
}

/// Whether every pattern given can be read.
pub open spec fn all_patterns_ok(pats: Seq<Option<Seq<char>>>, dy: Option<u16>, dm: Option<u8>) -> bool {
    forall|i: int| 0 <= i < 7 ==> (#[trigger] pats[i] matches Some(p) ==> pattern_ok(i, p, dy, dm))
}

pub open spec fn opt_seq(o: Option<String>) -> Option<Seq<char>> {
    match o {
        Some(s) => Some(s@),
        None => None,
    }
}

/// The patterns of the args, by field.
pub open spec fn patterns(a: &Args) -> Seq<Option<Seq<char>>> {
    seq![opt_seq(a.date), opt_seq(a.ip), opt_seq(a.method), opt_seq(a.path), opt_seq(a.referer), opt_seq(a.status), opt_seq(a.time)]
}

/// The fields that have a pattern, in order.
pub open spec fn given_fields(pats: Seq<Option<Seq<char>>>, upto: int) -> Seq<int>
    decreases upto,
{
    if upto <= 0 {
        Seq::empty()
    } else if pats[upto - 1] is Some {
        given_fields(pats, upto - 1).push(upto - 1)
    } else {
        given_fields(pats, upto - 1)
    }
}

/// Whether the hit passes every filter.
pub open spec fn accepts_all(fs: Seq<Filter>, line: LogLineView) -> bool {
    forall|i: int| 0 <= i < fs.len() ==> (#[trigger] fs[i]).spec_accepts(line)
}

/// The removal counts after a hit: the first filter that rejects it counts
/// one more, unless its count is at its maximum.
pub open spec fn counts_after(fs: Seq<Filter>, counts: Seq<usize>, line: LogLineView) -> Seq<usize> {
    Seq::new(
        counts.len(),
        |i: int|
            if i < fs.len() && !fs[i].spec_accepts(line) && (forall|k: int| 0 <= k < i ==> (#[trigger] fs[k]).spec_accepts(line))
                && counts[i] < usize::MAX {
                (counts[i] + 1) as usize
            } else {
                counts[i]
            },
    )
}

/// The first date filter among the filters from `from` on.
pub open spec fn first_date_filter(fs: Seq<Filter>, from: int) -> Option<DateTimeFilter>
    decreases fs.len() - from,
{
    if from < 0 || from >= fs.len() {
        None
    } else {
        match fs[from] {
            Filter::DateTime(d) => Some(d),
            _ => first_date_filter(fs, from + 1),
        }
    }
}

impl Filterer {
    /// Whether the filterings are those of the args, in order, none having
    /// removed anything.
    pub open spec fn built_from(&self, a: &Args, dy: Option<u16>, dm: Option<u8>) -> bool {
        let fields = given_fields(patterns(a), 7);
        &&& self.filterings@.len() == fields.len()
        &&& forall|i: int| 0 <= i < fields.len() ==> {
            let f = #[trigger] self.filterings@[i];
            &&& Some(f.pattern@) == patterns(a)[fields[i]]
            &&& filter_of(fields[i], f.pattern@, f.filter, dy, dm)
            &&& f.removed_count == 0
        }
    }

    /// Builds the filters of the given patterns. Dates that leave out their
    /// year (or month) take it from the logs when all of them share it, as
    /// the first and last days tell.
    #[verifier::rlimit(80)]
    pub fn new(args: &Args, first_date: Date, last_date: Date) -> (r: Result<Filterer, RhitError>)
        ensures
            r is Ok <==> ({
                let (dy, dm) = if first_date.year != last_date.year {
                    (None::<u16>, None::<u8>)
                } else if first_date.month != last_date.month {
                    (Some(first_date.year), None::<u8>)
                } else {
                    (Some(first_date.year), Some(first_date.month))
                };
                all_patterns_ok(patterns(args), dy, dm)
            }),
            r matches Ok(f) ==> f.first_date == first_date && ({
                let (dy, dm) = if first_date.year != last_date.year {
                    (None::<u16>, None::<u8>)
                } else if first_date.month != last_date.month {
                    (Some(first_date.year), None::<u8>)
                } else {
                    (Some(first_date.year), Some(first_date.month))
                };
                f.built_from(args, dy, dm)
            }),
    {
        let (dy, dm) = unique_year_month(first_date, last_date);
        let ghost pats = patterns(args);
        let mut filterings: Vec<Filtering> = Vec::new();
        proof {
            reveal_with_fuel(given_fields, 8);
        }
        if let Some(s) = &args.date {
            match DateTimeFilter::new(s.as_str(), dy, dm) {
                Ok(f) => filterings.push(Filtering::new(s.as_str(), Filter::DateTime(f))),
                Err(e) => return Err(RhitError::DateTime(e)),
            }
        }
        let ghost n0 = filterings@.len();
        assert(n0 == given_fields(pats, 1).len());
        if let Some(s) = &args.ip {
            match StrFilter::new(s.as_str()) {
                Ok(f) => filterings.push(Filtering::new(s.as_str(), Filter::Ip(f))),
                Err(e) => return Err(RhitError::StrFilter(e)),
            }
        }
        if let Some(s) = &args.method {
            filterings.push(Filtering::new(s.as_str(), Filter::Method(MethodFilter::from_string(s.as_str()))));
        }
        if let Some(s) = &args.path {
            match StrFilter::new(s.as_str()) {
                Ok(f) => filterings.push(Filtering::new(s.as_str(), Filter::Path(f))),
                Err(e) => return Err(RhitError::StrFilter(e)),
            }
        }
        if let Some(s) = &args.referer {
            match StrFilter::new(s.as_str()) {
                Ok(f) => filterings.push(Filtering::new(s.as_str(), Filter::Referer(f))),
                Err(e) => return Err(RhitError::StrFilter(e)),
            }
        }
        if let Some(s) = &args.status {
            match StatusFilter::from_str(s.as_str()) {
                Ok(f) => filterings.push(Filtering::new(s.as_str(), Filter::Status(f))),
                Err(e) => return Err(RhitError::StatusFilter(e)),
            }
        }
        if let Some(s) = &args.time {
            match TimeFilter::from_str(s.as_str()) {
                Ok(f) => filterings.push(Filtering::new(s.as_str(), Filter::Time(f))),
                Err(e) => return Err(RhitError::TimeFilter(e)),
            }
        }
        let r = Filterer { first_date, filterings };
        assert(r.built_from(args, dy, dm));
        assert(all_patterns_ok(pats, dy, dm));
        Ok(r)
    }

    /// The first date filter, as `date_filter` returns it.
    pub open spec fn date_filter_spec(&self) -> Option<DateTimeFilter> {
        first_date_filter(self.filterings@.map_values(|f: Filtering| f.filter), 0)
    }

    /// The date filter, which reports use to pick the days to show.
    pub fn date_filter(&self) -> (r: Option<DateTimeFilter>)
        ensures
            r == self.date_filter_spec(),
    {
        let ghost fs = self.filterings@.map_values(|f: Filtering| f.filter);
        let mut i: usize = 0;
        while i < self.filterings.len()
            invariant
                0 <= i <= self.filterings.len(),
                fs == self.filterings@.map_values(|f: Filtering| f.filter),
                first_date_filter(fs, 0) == first_date_filter(fs, i as int),
            decreases self.filterings.len() - i,
        {
            if let Filter::DateTime(f) = &self.filterings[i].filter {
                return Some(*f);
            }
            i = i + 1;
        }
        None
    }

    pub open spec fn spec_accepts(&self, line: LogLineView) -> bool {
        accepts_all(self.filters(), line)
    }

    /// The filters, in order.
    pub open spec fn filters(&self) -> Seq<Filter> {
        self.filterings@.map_values(|f: Filtering| f.filter)
    }

    /// The counts of hits removed by each filter.
    pub open spec fn removed_counts(&self) -> Seq<usize> {
        self.filterings@.map_values(|f: Filtering| f.removed_count)
    }

    /// Whether the hit passes every filter. The first filter that rejects
    /// it counts one more removed hit (the count stops at its maximum).
    pub fn accepts(&mut self, line: &LogLine) -> (r: bool)
        ensures
            r == old(self).spec_accepts(line@),
            final(self).filters() == old(self).filters(),
            final(self).removed_counts() == counts_after(old(self).filters(), old(self).removed_counts(), line@),
            final(self).first_date == old(self).first_date,
            final(self).filterings@.len() == old(self).filterings@.len(),
            forall|i: int| 0 <= i < old(self).filterings@.len() ==> {
                let (o, f) = (#[trigger] old(self).filterings@[i], final(self).filterings@[i]);
                &&& f.pattern == o.pattern
                &&& f.filter == o.filter
                &&& f.removed_count == if !o.filter.spec_accepts(line@) && (forall|k: int| 0 <= k < i ==> old(self).filterings@[k].filter.spec_accepts(line@)) && o.removed_count < usize::MAX {
                    (o.removed_count + 1) as usize
                } else {
                    o.removed_count
                }
            },
    {
        let n = self.filterings.len();
        let mut i: usize = 0;
        proof {
            assert forall|k: int| 0 <= k < n implies #[trigger] old(self).filters()[k] == old(self).filterings@[k].filter by {}
        }
        while i < n
            invariant
                0 <= i <= n == self.filterings@.len(),
                *self == *old(self),
                forall|k: int| 0 <= k < i ==> self.filterings@[k].filter.spec_accepts(line@),
            decreases n - i,
        {
            if !self.filterings[i].filter.accepts(line) {
                let c = self.filterings[i].removed_count;
                if c < usize::MAX {
                    self.filterings[i].removed_count = c + 1;
                }
                proof {
                    assert(self.filters() =~= old(self).filters());
                    assert(!old(self).filters()[i as int].spec_accepts(line@));
                    assert forall|j: int| 0 <= j < n implies #[trigger] self.removed_counts()[j] == counts_after(old(self).filters(), old(self).removed_counts(), line@)[j] by {
                        if j < i {
                            assert(old(self).filters()[j].spec_accepts(line@));
                        } else if j > i {
                            assert(!(forall|k: int| 0 <= k < j ==> (#[trigger] old(self).filters()[k]).spec_accepts(line@)));
                        }
                    }
                    assert(self.removed_counts() =~= counts_after(old(self).filters(), old(self).removed_counts(), line@));
                }
                return false;
            }
            i = i + 1;
        }
        proof {
            assert forall|j: int| 0 <= j < n implies #[trigger] self.removed_counts()[j] == counts_after(old(self).filters(), old(self).removed_counts(), line@)[j] by {
                assert(old(self).filters()[j].spec_accepts(line@));
            }
            assert(self.removed_counts() =~= counts_after(old(self).filters(), old(self).removed_counts(), line@));
        }
        true
    }

    pub fn has_filters(&self) -> (r: bool)
        ensures
            r == (self.filterings@.len() > 0),
    {
        self.filterings.len() > 0
    }
}

} // verus!
