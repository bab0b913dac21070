//! Reading hits into a base: the two day histograms built in one pass (all
//! hits, and hits kept by the filters), the kept hits, and the order in
//! which log files are read.
use vstd::prelude::*;

use crate::date_time::Date;
use crate::filterer::{Filterer, RhitError};
use crate::filterer::{accepts_all, counts_after, Filter};
use crate::log_line::{spec_parse_line, LogLine, LogLineView};

verus! {

broadcast use vstd::seq_lib::group_to_multiset_ensures;

/// The hits of one day, and the bytes they sent.
#[derive(Debug, Clone, Copy, PartialEq, Eq, Structural)]
pub struct DateBar {
    pub date: Date,
    pub hits: u64,
    pub bytes_sent: u64,
}

impl DateBar {
    pub fn new(date: Date) -> (r: DateBar)
        ensures
            r == (DateBar { date, hits: 0, bytes_sent: 0 }),
    {
        DateBar { date, hits: 0, bytes_sent: 0 }
    }
}

/// Bars by day, in the order the days were met.
#[derive(Debug, Clone, Default)]
pub struct DateHistogram {
    pub bars: Vec<DateBar>,
}

pub open spec fn sum_hits(bars: Seq<DateBar>) -> nat
    decreases bars.len(),
{
    if bars.len() == 0 { 0 } else { sum_hits(bars.drop_last()) + bars.last().hits as nat }
}

pub open spec fn sum_bytes(bars: Seq<DateBar>) -> nat
    decreases bars.len(),
{
    if bars.len() == 0 { 0 } else { sum_bytes(bars.drop_last()) + bars.last().bytes_sent as nat }
}

impl DateHistogram {
    pub fn total_hits(&self) -> (r: u64)
        requires
            sum_hits(self.bars@) <= u64::MAX,
        ensures
            r == sum_hits(self.bars@),
    {
        let mut t: u64 = 0;
        let mut i: usize = 0;
        while i < self.bars.len()
            invariant
                0 <= i <= self.bars.len(),
                sum_hits(self.bars@) <= u64::MAX,
                t == sum_hits(self.bars@.subrange(0, i as int)),
            decreases self.bars.len() - i,
        {
            proof {
                assert(self.bars@.subrange(0, i + 1).drop_last() =~= self.bars@.subrange(0, i as int));
                lemma_sum_hits_prefix(self.bars@, i + 1);
            }
            t = t + self.bars[i].hits;
            i = i + 1;
        }
        assert(self.bars@.subrange(0, i as int) =~= self.bars@);
        t
    }

    pub fn total_bytes_sent(&self) -> (r: u64)
        requires
            sum_bytes(self.bars@) <= u64::MAX,
        ensures
            r == sum_bytes(self.bars@),
    {
        let mut t: u64 = 0;
        let mut i: usize = 0;
        while i < self.bars.len()
            invariant
                0 <= i <= self.bars.len(),
                sum_bytes(self.bars@) <= u64::MAX,
                t == sum_bytes(self.bars@.subrange(0, i as int)),
            decreases self.bars.len() - i,
        {
            proof {
                assert(self.bars@.subrange(0, i + 1).drop_last() =~= self.bars@.subrange(0, i as int));
                lemma_sum_bytes_prefix(self.bars@, i + 1);
            }
            t = t + self.bars[i].bytes_sent;
            i = i + 1;
        }
        assert(self.bars@.subrange(0, i as int) =~= self.bars@);
        t
    }
}

/// A sum over a prefix is no more than the sum over all.
pub proof fn lemma_sum_hits_prefix(bars: Seq<DateBar>, k: int)
    requires
        0 <= k <= bars.len(),
    ensures
        sum_hits(bars.subrange(0, k)) <= sum_hits(bars),
    decreases bars.len() - k,
{
    if k < bars.len() {
        lemma_sum_hits_prefix(bars, k + 1);
        assert(bars.subrange(0, k + 1).drop_last() =~= bars.subrange(0, k));
    } else {
        assert(bars.subrange(0, k) =~= bars);
    }
}

pub proof fn lemma_sum_bytes_prefix(bars: Seq<DateBar>, k: int)
    requires
        0 <= k <= bars.len(),
    ensures
        sum_bytes(bars.subrange(0, k)) <= sum_bytes(bars),
    decreases bars.len() - k,
{
    if k < bars.len() {
        lemma_sum_bytes_prefix(bars, k + 1);
        assert(bars.subrange(0, k + 1).drop_last() =~= bars.subrange(0, k));
    } else {
        assert(bars.subrange(0, k) =~= bars);
    }
}

/// `a + b`, or the largest `u64` when that is more.
pub open spec fn sat_add(a: u64, b: u64) -> u64 {
    if a + b > u64::MAX { u64::MAX } else { (a + b) as u64 }
}

/// The content of a base being built: the kept hits, the index of the
/// current day, and the two histograms, whose bars go in step.
#[derive(Debug, Clone, Default)]
pub struct BaseContent {
    pub lines: Vec<LogLine>,
    pub bar_idx: usize,
    pub unfiltered_histogram: DateHistogram,
    pub filtered_histogram: DateHistogram,
}

/// The day indices of the hits never decrease.
pub open spec fn idx_sorted(lines: Seq<LogLine>) -> bool {
    forall|a: int, b: int| 0 <= a < b < lines.len() ==> (#[trigger] lines[a]).date_idx <= (#[trigger] lines[b]).date_idx
}

/// How many hits have the day index `k`.
pub open spec fn count_at(lines: Seq<LogLine>, k: int) -> nat
    decreases lines.len(),
{
    if lines.len() == 0 {
        0
    } else {
        count_at(lines.drop_last(), k) + if lines.last().date_idx == k { 1nat } else { 0nat }
    }
}

/// No more hits have an index than there are hits, and none has an index
/// above all of theirs.
pub proof fn lemma_count_at(lines: Seq<LogLine>, k: int)
    ensures
        count_at(lines, k) <= lines.len(),
        (forall|j: int| 0 <= j < lines.len() ==> (#[trigger] lines[j]).date_idx < k) ==> count_at(lines, k) == 0,
    decreases lines.len(),
{
    if lines.len() > 0 {
        lemma_count_at(lines.drop_last(), k);
        if forall|j: int| 0 <= j < lines.len() ==> (#[trigger] lines[j]).date_idx < k {
            assert forall|j: int| 0 <= j < lines.drop_last().len() implies (#[trigger] lines.drop_last()[j]).date_idx < k by {
                assert(lines.drop_last()[j] == lines[j]);
            }
        }
    }
}

/// The bar after one more hit of `bytes` bytes.
pub open spec fn add_hit(b: DateBar, bytes: u64) -> DateBar {
    DateBar { date: b.date, hits: sat_add(b.hits, 1), bytes_sent: sat_add(b.bytes_sent, bytes) }
}

impl BaseContent {
    pub fn new() -> (r: BaseContent)
        ensures
            r.lines@.len() == 0,
            r.bar_idx == 0,
            r.unfiltered_histogram.bars@.len() == 0,
            r.filtered_histogram.bars@.len() == 0,
    {
        BaseContent {
            lines: Vec::new(),
            bar_idx: 0,
            unfiltered_histogram: DateHistogram { bars: Vec::new() },
            filtered_histogram: DateHistogram { bars: Vec::new() },
        }
    }

    /// Both histograms have the same days, the current one last; every
    /// filtered bar is within its unfiltered bar; the kept hits point to
    /// their day.
    pub open spec fn wf(&self) -> bool {
        let u = self.unfiltered_histogram.bars@;
        let f = self.filtered_histogram.bars@;
        &&& u.len() >= 1
        &&& u.len() == f.len()
        &&& self.bar_idx == u.len() - 1
        &&& forall|i: int| 0 <= i < u.len() ==> (#[trigger] u[i]).date == f[i].date && f[i].hits <= u[i].hits
            && f[i].bytes_sent <= u[i].bytes_sent
        &&& forall|j: int| 0 <= j < self.lines@.len() ==> (#[trigger] self.lines@[j]).date_idx < u.len()
            && self.lines@[j].date_time.date == u[self.lines@[j].date_idx as int].date
        &&& idx_sorted(self.lines@)
        &&& forall|i: int| 0 <= i < f.len() ==> (#[trigger] f[i]).hits == count_at(self.lines@, i)
    }

    /// Starts the histograms on the first day of the logs.
    pub fn start_eating(&mut self, first_date: Date)
        requires
            old(self).lines@.len() == 0,
            old(self).bar_idx == 0,
            old(self).unfiltered_histogram.bars@.len() == 0,
            old(self).filtered_histogram.bars@.len() == 0,
        ensures
            final(self).wf(),
            final(self).lines@.len() == 0,
            final(self).unfiltered_histogram.bars@ == seq![DateBar::new_spec(first_date)],
            final(self).filtered_histogram.bars@ == seq![DateBar::new_spec(first_date)],
    {
        self.unfiltered_histogram.bars.push(DateBar::new(first_date));
        self.filtered_histogram.bars.push(DateBar::new(first_date));
        assert(self.unfiltered_histogram.bars@ =~= seq![DateBar::new_spec(first_date)]);
        assert(self.filtered_histogram.bars@ =~= seq![DateBar::new_spec(first_date)]);
    }

    /// Counts a hit in the unfiltered histogram and, when it is kept, in the
    /// filtered one, storing it with the index of its day. A hit of another
    /// day than the current one opens a new day in both histograms.
    pub fn eat_line(&mut self, line: LogLine, filtered_out: bool)
        requires
            old(self).wf(),
            old(self).lines@.len() < usize::MAX,
        ensures
            final(self).wf(),
            final(self).content_view() == eat_view(old(self).content_view(), line@, filtered_out),
            ({
                let (ou, of) = (old(self).unfiltered_histogram.bars@, old(self).filtered_histogram.bars@);
                let d = line.date_time.date;
                let new_day = d != ou.last().date;
                let (u0, f0) = if new_day {
                    (ou.push(DateBar::new_spec(d)), of.push(DateBar::new_spec(d)))
                } else {
                    (ou, of)
                };
                let k = u0.len() - 1;
                &&& final(self).unfiltered_histogram.bars@ == u0.update(k, add_hit(u0[k], line.bytes_sent))
                &&& final(self).filtered_histogram.bars@ == if filtered_out { f0 } else { f0.update(k, add_hit(f0[k], line.bytes_sent)) }
                &&& final(self).lines@ == if filtered_out {
                    old(self).lines@
                } else {
                    old(self).lines@.push(LogLine { date_idx: k as usize, ..line })
                }
            }),
    {
        let d = line.date_time.date;
        let cur = self.unfiltered_histogram.bars[self.bar_idx].date;
        let ghost ou = self.unfiltered_histogram.bars@;
        let ghost of = self.filtered_histogram.bars@;
        if d != cur {
            self.unfiltered_histogram.bars.push(DateBar::new(d));
            self.filtered_histogram.bars.push(DateBar::new(d));
            self.bar_idx = self.unfiltered_histogram.bars.len() - 1;
        }
        let k = self.bar_idx;
        proof {
            lemma_count_at(self.lines@, k as int);
            assert(usize::MAX as int <= u64::MAX as int);
            if d != cur {
                assert forall|j: int| 0 <= j < self.lines@.len() implies (#[trigger] self.lines@[j]).date_idx < k by {}
            }
        }
        let b = self.unfiltered_histogram.bars[k];
        self.unfiltered_histogram.bars.set(k, DateBar {
            date: b.date,
            hits: b.hits.saturating_add(1),
            bytes_sent: b.bytes_sent.saturating_add(line.bytes_sent),
        });
        if !filtered_out {
            let fb = self.filtered_histogram.bars[k];
            self.filtered_histogram.bars.set(k, DateBar {
                date: fb.date,
                hits: fb.hits.saturating_add(1),
                bytes_sent: fb.bytes_sent.saturating_add(line.bytes_sent),
            });
            let mut line = line;
            line.date_idx = k;
            let ghost l0 = self.lines@;
            let ghost lv = line@;
            self.lines.push(line);
            proof {
                assert(self.lines@.map_values(|l: LogLine| l@) =~= l0.map_values(|l: LogLine| l@).push(lv));
                assert(self.lines@.drop_last() =~= l0);
                assert forall|i: int| 0 <= i < self.filtered_histogram.bars@.len() implies (#[trigger] self.filtered_histogram.bars@[i]).hits == count_at(self.lines@, i) by {
                    assert(count_at(self.lines@, i) == count_at(l0, i) + if i == k { 1nat } else { 0nat });
                }
                assert forall|a: int, b: int| 0 <= a < b < self.lines@.len() implies (#[trigger] self.lines@[a]).date_idx <= (#[trigger] self.lines@[b]).date_idx by {
                    if b < l0.len() {
                        assert(self.lines@[a] == l0[a] && self.lines@[b] == l0[b]);
                    } else {
                        assert(self.lines@[a] == l0[a]);
                    }
                }
            }
        }
    }
}

impl DateBar {
    pub open spec fn new_spec(date: Date) -> DateBar {
        DateBar { date, hits: 0, bytes_sent: 0 }
    }
}

/// The content of a [`BaseContent`] as values: the kept hits, the
/// unfiltered bars and the filtered bars.
pub ghost struct ContentView {
    pub lines: Seq<LogLineView>,
    pub unfiltered: Seq<DateBar>,
    pub filtered: Seq<DateBar>,
}

impl BaseContent {
    pub open spec fn content_view(&self) -> ContentView {
        ContentView {
            lines: self.lines@.map_values(|l: LogLine| l@),
            unfiltered: self.unfiltered_histogram.bars@,
            filtered: self.filtered_histogram.bars@,
        }
    }
}

/// The content after one hit, as `eat_line` counts it.
pub open spec fn eat_view(c: ContentView, l: LogLineView, filtered_out: bool) -> ContentView {
    let d = l.date_time.date;
    let new_day = d != c.unfiltered.last().date;
    let (u0, f0) = if new_day {
        (c.unfiltered.push(DateBar::new_spec(d)), c.filtered.push(DateBar::new_spec(d)))
    } else {
        (c.unfiltered, c.filtered)
    };
    let k = u0.len() - 1;
    ContentView {
        lines: if filtered_out { c.lines } else { c.lines.push(LogLineView { date_idx: k, ..l }) },
        unfiltered: u0.update(k, add_hit(u0[k], l.bytes_sent)),
        filtered: if filtered_out { f0 } else { f0.update(k, add_hit(f0[k], l.bytes_sent)) },
    }
}

/// The content and removal counts after one raw line: a line that parses
/// goes through the filters, which count it if one rejects it, and is then
/// counted, kept when it passed; a line that does not parse changes nothing.
pub open spec fn ingest_step(
    c: ContentView,
    counts: Seq<usize>,
    fs: Seq<Filter>,
    raw: Seq<char>,
) -> (ContentView, Seq<usize>) {
    match spec_parse_line(raw) {
        Err(_) => (c, counts),
        Ok(l) => (eat_view(c, l, !accepts_all(fs, l)), counts_after(fs, counts, l)),
    }
}

/// The content and removal counts after the raw lines, in order.
pub open spec fn ingest_fold(
    c: ContentView,
    counts: Seq<usize>,
    fs: Seq<Filter>,
    raws: Seq<Seq<char>>,
) -> (ContentView, Seq<usize>)
    decreases raws.len(),
{
    if raws.len() == 0 {
        (c, counts)
    } else {
        let (c1, n1) = ingest_fold(c, counts, fs, raws.drop_last());
        ingest_step(c1, n1, fs, raws.last())
    }
}

/// Parses a raw line and, when it is a hit, runs it through the filters
/// and counts it. A line that does not parse changes nothing; its error
/// is returned.
pub fn ingest_line(
    content: &mut BaseContent,
    filterer: &mut Filterer,
    raw: &str,
) -> (r: Result<bool, crate::log_line::ParseLogError>)
    requires
        old(content).wf(),
        old(content).lines@.len() < usize::MAX,
    ensures
        final(content).wf(),
        final(content).lines@.len() <= old(content).lines@.len() + 1,
        final(filterer).filters() == old(filterer).filters(),
        final(filterer).first_date == old(filterer).first_date,
        (final(content).content_view(), final(filterer).removed_counts()) == ingest_step(
            old(content).content_view(),
            old(filterer).removed_counts(),
            old(filterer).filters(),
            raw@,
        ),
        spec_parse_line(raw@) is Err <==> r is Err,
        spec_parse_line(raw@) is Err ==> *final(content) == *old(content) && *final(filterer) == *old(filterer),
        r matches Ok(kept) ==> spec_parse_line(raw@) matches Ok(l) && kept == accepts_all(old(filterer).filters(), l),
{
    match LogLine::from_str(raw) {
        Err(e) => Err(e),
        Ok(line) => {
            let kept = filterer.accepts(&line);
            content.eat_line(line, !kept);
            Ok(kept)
        },
    }
}

/// How many of the lines do not parse.
pub open spec fn count_malformed(lines: Seq<String>) -> nat
    decreases lines.len(),
{
    if lines.len() == 0 {
        0
    } else {
        count_malformed(lines.drop_last()) + if spec_parse_line(lines.last()@) is Err { 1nat } else { 0nat }
    }
}

/// Reads the lines of one file, in order: each line that parses goes
/// through the filters and is counted, kept when it passed, as
/// `ingest_fold` states. Returns the count of lines that did not parse;
/// those change nothing, neither the content nor the removal counts.
pub fn ingest_lines(
    content: &mut BaseContent,
    filterer: &mut Filterer,
    lines: &Vec<String>,
) -> (errors: usize)
    requires
        old(content).wf(),
        old(content).lines@.len() + lines@.len() < usize::MAX,
    ensures
        final(content).wf(),
        final(filterer).filters() == old(filterer).filters(),
        final(filterer).first_date == old(filterer).first_date,
        (final(content).content_view(), final(filterer).removed_counts()) == ingest_fold(
            old(content).content_view(),
            old(filterer).removed_counts(),
            old(filterer).filters(),
            lines@.map_values(|l: String| l@),
        ),
        errors == count_malformed(lines@),
        errors <= lines@.len(),
        final(content).lines@.len() <= old(content).lines@.len() + lines@.len(),
        (forall|i: int| 0 <= i < lines@.len() ==> spec_parse_line((#[trigger] lines@[i])@) is Err)
            ==> *final(content) == *old(content) && *final(filterer) == *old(filterer) && errors == lines@.len(),
{
    let mut errors: usize = 0;
    let mut i: usize = 0;
    let ghost raws = lines@.map_values(|l: String| l@);
    assert(raws.subrange(0, 0) =~= Seq::<Seq<char>>::empty());
    while i < lines.len()
        invariant
            0 <= i <= lines.len(),
            raws == lines@.map_values(|l: String| l@),
            content.wf(),
            content.lines@.len() <= old(content).lines@.len() + i,
            old(content).lines@.len() + lines@.len() < usize::MAX,
            filterer.filters() == old(filterer).filters(),
            filterer.first_date == old(filterer).first_date,
            (content.content_view(), filterer.removed_counts()) == ingest_fold(
                old(content).content_view(),
                old(filterer).removed_counts(),
                old(filterer).filters(),
                raws.subrange(0, i as int),
            ),
            errors <= i,
            errors == count_malformed(lines@.subrange(0, i as int)),
            (forall|k: int| 0 <= k < lines@.len() ==> spec_parse_line((#[trigger] lines@[k])@) is Err)
                ==> *content == *old(content) && *filterer == *old(filterer) && errors == i,
        decreases lines.len() - i,
    {
        proof {
            assert(lines@.subrange(0, i + 1).drop_last() =~= lines@.subrange(0, i as int));
            assert(raws.subrange(0, i + 1).drop_last() =~= raws.subrange(0, i as int));
            assert(raws.subrange(0, i + 1).last() == lines@[i as int]@);
        }
        match ingest_line(content, filterer, lines[i].as_str()) {
            Ok(_) => {},
            Err(_) => {
                errors = errors + 1;
            },
        }
        i = i + 1;
    }
    assert(lines@.subrange(0, i as int) =~= lines@);
    assert(raws.subrange(0, i as int) =~= raws);
    errors
}

/// The lines of all the files read.
pub open spec fn total_lines(files: Seq<Option<Vec<String>>>) -> nat
    decreases files.len(),
{
    if files.len() == 0 {
        0
    } else {
        total_lines(files.drop_last()) + match files.last() {
            Some(v) => v@.len(),
            None => 0,
        }
    }
}

/// The content and removal counts after the files, in order, each read
/// line by line; a file that could not be read (`None`) adds nothing.
pub open spec fn files_fold(
    c: ContentView,
    counts: Seq<usize>,
    fs: Seq<Filter>,
    files: Seq<Option<Vec<String>>>,
) -> (ContentView, Seq<usize>)
    decreases files.len(),
{
    if files.len() == 0 {
        (c, counts)
    } else {
        let (c1, n1) = files_fold(c, counts, fs, files.drop_last());
        match files.last() {
            Some(v) => ingest_fold(c1, n1, fs, v@.map_values(|l: String| l@)),
            None => (c1, n1),
        }
    }
}

/// The index of the first file that could not be read, if any.
pub open spec fn first_unread(files: Seq<Option<Vec<String>>>, from: int) -> Option<int>
    decreases files.len() - from,
{
    if from < 0 || from >= files.len() {
        None
    } else if files[from] is None {
        Some(from)
    } else {
        first_unread(files, from + 1)
    }
}

/// Reads the files in turn, each file's lines in order. A file that could
/// not be read (`None`) ends the reading when `stop_on_error` holds, with
/// its index, the files before it read; else it is skipped and the others
/// are read. Returns the count of lines that did not parse.
pub fn ingest_files(
    content: &mut BaseContent,
    filterer: &mut Filterer,
    files: &Vec<Option<Vec<String>>>,
    stop_on_error: bool,
) -> (r: Result<usize, usize>)
    requires
        old(content).wf(),
        old(content).lines@.len() + total_lines(files@) < usize::MAX,
    ensures
        final(content).wf(),
        final(filterer).filters() == old(filterer).filters(),
        final(filterer).first_date == old(filterer).first_date,
        stop_on_error && first_unread(files@, 0) is Some ==> ({
            let i = first_unread(files@, 0)->Some_0;
            &&& r == Err::<usize, usize>(i as usize)
            &&& (final(content).content_view(), final(filterer).removed_counts()) == files_fold(
                old(content).content_view(),
                old(filterer).removed_counts(),
                old(filterer).filters(),
                files@.subrange(0, i),
            )
        }),
        !(stop_on_error && first_unread(files@, 0) is Some) ==> r is Ok
            && (final(content).content_view(), final(filterer).removed_counts()) == files_fold(
                old(content).content_view(),
                old(filterer).removed_counts(),
                old(filterer).filters(),
                files@,
            ),
{
    let mut errors: usize = 0;
    let mut i: usize = 0;
    assert(files@.subrange(0, 0) =~= Seq::<Option<Vec<String>>>::empty());
    while i < files.len()
        invariant
            0 <= i <= files@.len(),
            content.wf(),
            content.lines@.len() <= old(content).lines@.len() + total_lines(files@.subrange(0, i as int)),
            old(content).lines@.len() + total_lines(files@) < usize::MAX,
            filterer.filters() == old(filterer).filters(),
            filterer.first_date == old(filterer).first_date,
            (content.content_view(), filterer.removed_counts()) == files_fold(
                old(content).content_view(),
                old(filterer).removed_counts(),
                old(filterer).filters(),
                files@.subrange(0, i as int),
            ),
            errors <= total_lines(files@.subrange(0, i as int)),
            stop_on_error ==> first_unread(files@, 0) == first_unread(files@, i as int),
        decreases files.len() - i,
    {
        proof {
            assert(files@.subrange(0, i + 1).drop_last() =~= files@.subrange(0, i as int));
            lemma_total_lines_prefix(files@, i + 1);
        }
        match &files[i] {
            None => {
                if stop_on_error {
                    return Err(i);
                }
            },
            Some(lines) => {
                let e = ingest_lines(content, filterer, lines);
                errors = errors + e;
            },
        }
        i = i + 1;
    }
    assert(files@.subrange(0, i as int) =~= files@);
    proof {
        if stop_on_error {
            lemma_first_unread_none(files@, i as int);
        }
    }
    Ok(errors)
}

/// Lines of a prefix of the files are no more than those of all.
proof fn lemma_total_lines_prefix(files: Seq<Option<Vec<String>>>, k: int)
    requires
        0 <= k <= files.len(),
    ensures
        total_lines(files.subrange(0, k)) <= total_lines(files),
    decreases files.len() - k,
{
    if k < files.len() {
        lemma_total_lines_prefix(files, k + 1);
        assert(files.subrange(0, k + 1).drop_last() =~= files.subrange(0, k));
    } else {
        assert(files.subrange(0, k) =~= files);
    }
}

proof fn lemma_first_unread_none(files: Seq<Option<Vec<String>>>, k: int)
    requires
        k == files.len(),
    ensures
        first_unread(files, k) is None,
{
}

/// The analysed logs.
#[derive(Debug)]
pub struct LogBase {
    /// The days of the logs, in the order met.
    pub dates: Vec<Date>,
    pub filterer: Filterer,
    pub lines: Vec<LogLine>,
    pub filtered_histogram: DateHistogram,
    pub filtered_count: u64,
    pub unfiltered_histogram: DateHistogram,
    pub unfiltered_count: u64,
}

impl LogBase {
    pub open spec fn wf(&self) -> bool {
        &&& self.dates@.len() >= 1
        &&& self.dates@.len() == self.unfiltered_histogram.bars@.len()
        &&& self.dates@.len() == self.filtered_histogram.bars@.len()
        &&& forall|i: int| 0 <= i < self.dates@.len() ==> #[trigger] self.dates@[i] == self.unfiltered_histogram.bars@[i].date
        &&& forall|j: int| 0 <= j < self.lines@.len() ==> (#[trigger] self.lines@[j]).date_idx < self.dates@.len()
        &&& idx_sorted(self.lines@)
        &&& forall|i: int| 0 <= i < self.dates@.len() ==> (#[trigger] self.filtered_histogram.bars@[i]).hits
            == count_at(self.lines@, i)
    }

    /// The base of a finished reading; there must have been a hit.
    pub fn from_content(content: BaseContent, filterer: Filterer) -> (r: Result<LogBase, RhitError>)
        requires
            content.wf(),
            sum_hits(content.unfiltered_histogram.bars@) <= u64::MAX,
        ensures
            sum_hits(content.unfiltered_histogram.bars@) == 0 <==> r matches Err(RhitError::NoHitInPaths),
            r is Err ==> r matches Err(RhitError::NoHitInPaths),
            r matches Ok(b) ==> b.wf() && b.lines@ == content.lines@
                && b.unfiltered_count == sum_hits(content.unfiltered_histogram.bars@)
                && b.filtered_count == sum_hits(content.filtered_histogram.bars@)
                && b.unfiltered_histogram.bars@ == content.unfiltered_histogram.bars@
                && b.filtered_histogram.bars@ == content.filtered_histogram.bars@,
    {
        let BaseContent { lines, bar_idx: _, unfiltered_histogram, filtered_histogram } = content;
        let mut dates: Vec<Date> = Vec::new();
        let mut i: usize = 0;
        while i < unfiltered_histogram.bars.len()
            invariant
                0 <= i <= unfiltered_histogram.bars@.len(),
                dates@.len() == i,
                forall|k: int| 0 <= k < i ==> #[trigger] dates@[k] == unfiltered_histogram.bars@[k].date,
            decreases unfiltered_histogram.bars.len() - i,
        {
            dates.push(unfiltered_histogram.bars[i].date);
            i = i + 1;
        }
        let unfiltered_count = unfiltered_histogram.total_hits();
        if unfiltered_count == 0 {
            return Err(RhitError::NoHitInPaths);
        }
        proof {
            lemma_filtered_le(unfiltered_histogram.bars@, filtered_histogram.bars@);
        }
        let filtered_count = filtered_histogram.total_hits();
        Ok(LogBase { dates, filterer, lines, filtered_histogram, filtered_count, unfiltered_histogram, unfiltered_count })
    }

    pub fn start_time(&self) -> (r: Date)
        requires
            self.wf(),
        ensures
            r == self.dates@[0],
    {
        self.dates[0]
    }

    pub fn end_time(&self) -> (r: Date)
        requires
            self.wf(),
        ensures
            r == self.dates@.last(),
    {
        self.dates[self.dates.len() - 1]
    }

    pub fn day_count(&self) -> (r: usize)
        ensures
            r == self.dates@.len(),
    {
        self.dates.len()
    }

    pub fn is_empty(&self) -> (r: bool)
        ensures
            r == (self.lines@.len() == 0),
    {
        self.lines.len() == 0
    }
}

/// Bars no greater, bar by bar, have a sum no greater.
pub proof fn lemma_filtered_le(u: Seq<DateBar>, f: Seq<DateBar>)
    requires
        u.len() == f.len(),
        forall|i: int| 0 <= i < u.len() ==> (#[trigger] f[i]).hits <= u[i].hits,
    ensures
        sum_hits(f) <= sum_hits(u),
    decreases u.len(),
{
    if u.len() > 0 {
        lemma_filtered_le(u.drop_last(), f.drop_last());
    }
}

/// Whether the dated files are in the order of their dates.
pub open spec fn sorted_by_date<T>(v: Seq<(Date, T)>) -> bool {
    forall|i: int, j: int| 0 <= i < j < v.len() ==> !(#[trigger] v[j]).0.precedes((#[trigger] v[i]).0)
}

/// Orders files by the date of their first hit, so that reading them in
/// turn gives hits in time order; files of the same date keep their order.
pub fn sort_dated_files<T>(files: Vec<(Date, T)>) -> (r: Vec<(Date, T)>)
    ensures
        sorted_by_date(r@),
        r@.to_multiset() == files@.to_multiset(),
{
    let mut out: Vec<(Date, T)> = Vec::new();
    let mut rest = files;
    let ghost all = rest@;
    let mut taken: usize = 0;
    let mut input: Vec<(Date, T)> = Vec::new();
    // move the items into `input` in reverse, so that popping yields them in order
    while rest.len() > 0
        invariant
            input@.len() + rest@.len() == all.len(),
            input@.to_multiset().add(rest@.to_multiset()) == all.to_multiset(),
        decreases rest.len(),
    {
        let ghost r0 = rest@;
        let x = rest.pop().unwrap();
        proof {
            assert(r0 =~= rest@.push(x));
        }
        input.push(x);
    }
    while input.len() > 0
        invariant
            sorted_by_date(out@),
            out@.to_multiset().add(input@.to_multiset()) == all.to_multiset(),
        decreases input.len(),
    {
        let ghost i0 = input@;
        let x = input.pop().unwrap();
        proof {
            assert(i0 =~= input@.push(x));
        }
        // insert after every item whose date is not after x's
        let mut p: usize = out.len();
        while p > 0 && x.0.is_before(&out[p - 1].0)
            invariant
                0 <= p <= out@.len(),
                sorted_by_date(out@),
                forall|k: int| p <= k < out@.len() ==> x.0.precedes((#[trigger] out@[k]).0),
            decreases p,
        {
            p = p - 1;
        }
        let ghost o0 = out@;
        assert(p == 0 || !x.0.precedes(o0[p - 1].0));
        out.insert(p, x);
        proof {
            vstd::seq_lib::to_multiset_insert(o0, p as int, x);
            assert forall|i: int, j: int| 0 <= i < j < out@.len() implies !(#[trigger] out@[j]).0.precedes((#[trigger] out@[i]).0) by {
                if i < p as int && j == p as int {
                } else if i == p as int {
                } else if i < p as int && j > p as int {
                    assert(out@[j] == o0[j - 1]);
                    assert(out@[i] == o0[i]);
                } else if j < p as int {
                } else {
                    assert(out@[j] == o0[j - 1]);
                    assert(out@[i] == o0[i - 1]);
                }
            }
        }
    }
    proof {
        assert(input@.to_multiset() =~= vstd::multiset::Multiset::empty());
    }
    out
}

/// Whether `t` occurs in `s`.
pub open spec fn contains_text(s: Seq<char>, t: Seq<char>) -> bool {
    exists|i: int| 0 <= i && i + t.len() <= s.len() && #[trigger] s.subrange(i, i + t.len()) == t
}

/// Whether a file name marks an access log: it holds `access.log`.
pub fn is_access_log_path(name: &str) -> (r: bool)
    ensures
        r == contains_text(name@, "access.log"@),
{
    let c = crate::text::chars_of(name);
    let k = crate::text::chars_of("access.log").len();
    proof {
        reveal_strlit("access.log");
    }
    if c.len() < k {
        proof {
            assert forall|i: int| 0 <= i && i + "access.log"@.len() <= c@.len() implies #[trigger] c@.subrange(i, i + "access.log"@.len()) != "access.log"@ by {}
        }
        return false;
    }
    let mut i: usize = 0;
    while i <= c.len() - k
        invariant
            k == "access.log"@.len(),
            k == 10,
            k <= c.len(),
            i <= c.len() - k + 1,
            c@ == name@,
            forall|j: int| 0 <= j < i ==> #[trigger] c@.subrange(j, j + k as int) != "access.log"@,
        decreases c.len() + 1 - i,
    {
        if crate::text::range_equals(&c, i, i + k, "access.log") {
            return true;
        }
        i = i + 1;
    }
    proof {
        assert forall|j: int| 0 <= j && j + "access.log"@.len() <= c@.len() implies #[trigger] c@.subrange(j, j + "access.log"@.len()) != "access.log"@ by {
            assert(j < i);
        }
    }
    false
}

/// The date of the first of the lines from `i` to `upto` that parses.
pub open spec fn first_parsed_date(lines: Seq<Seq<char>>, i: int, upto: int) -> Option<Date>
    decreases upto - i,
{
    if i >= upto || i >= lines.len() || i < 0 {
        None
    } else {
        match spec_parse_line(lines[i]) {
            Ok(l) => Some(l.date_time.date),
            Err(_) => first_parsed_date(lines, i + 1, upto),
        }
    }
}

/// The date that orders a file: that of the first of its first three lines
/// that parses, a log file possibly starting with a line or two of
/// another tool.
pub fn first_date(lines: &Vec<String>) -> (r: Option<Date>)
    ensures
        r == first_parsed_date(lines@.map_values(|l: String| l@), 0, 3),
{
    let ghost ls = lines@.map_values(|l: String| l@);
    let mut i: usize = 0;
    while i < 3 && i < lines.len()
        invariant
            0 <= i <= 3,
            ls == lines@.map_values(|l: String| l@),
            first_parsed_date(ls, 0, 3) == first_parsed_date(ls, i as int, 3),
        decreases 3 - i,
    {
        match LogLine::from_str(lines[i].as_str()) {
            Ok(l) => {
                return Some(l.date_time.date);
            },
            Err(_) => {},
        }
        i = i + 1;
    }
    None
}

/// Whether a failure to read a file ends the run: it does when file names
/// are checked, else the file is skipped.
pub fn stops_on_file_error(args: &crate::filterer::Args) -> (r: bool)
    ensures
        r == !args.no_name_check,
{
    !args.no_name_check
}

/// The order of reading: the files sorted by their first date, with the
/// first and last of those dates, which settle the implicit year and month
/// of date filters. There must be a file.
pub fn plan_reading<T>(dated_files: Vec<(Date, T)>) -> (r: Result<(Date, Date, Vec<(Date, T)>), RhitError>)
    ensures
        dated_files@.len() == 0 <==> r is Err,
        r is Err ==> r matches Err(RhitError::NoLogFileFound),
        r matches Ok((first, last, files)) ==> sorted_by_date(files@)
            && files@.to_multiset() == dated_files@.to_multiset()
            && files@.len() > 0 && first == files@[0].0 && last == files@.last().0,
{
    if dated_files.len() == 0 {
        return Err(RhitError::NoLogFileFound);
    }
    let ghost n = dated_files@.len();
    let files = sort_dated_files(dated_files);
    proof {
        assert(files@.to_multiset().len() == n);
    }
    let first = files[0].0;
    let last = files[files.len() - 1].0;
    Ok((first, last, files))
}

/// Bars for the given days, counting the hits of each day by its index.
pub open spec fn day_counts(dates: Seq<Date>, lines: Seq<LogLine>) -> Seq<DateBar>
    decreases lines.len(),
{
    if lines.len() == 0 {
        Seq::new(dates.len(), |i: int| DateBar::new_spec(dates[i]))
    } else {
        let prev = day_counts(dates, lines.drop_last());
        let l = lines.last();
        if l.date_idx < prev.len() {
            prev.update(l.date_idx as int, add_hit(prev[l.date_idx as int], l.bytes_sent))
        } else {
            prev
        }
    }
}

pub proof fn lemma_day_counts_len(dates: Seq<Date>, lines: Seq<LogLine>)
    ensures
        day_counts(dates, lines).len() == dates.len(),
    decreases lines.len(),
{
    if lines.len() > 0 {
        lemma_day_counts_len(dates, lines.drop_last());
    }
}

impl DateHistogram {
    /// The histogram of the kept hits of the base, by day.
    pub fn from(base: &LogBase) -> (r: DateHistogram)
        ensures
            r.bars@ == day_counts(base.dates@, base.lines@),
    {
        let mut bars: Vec<DateBar> = Vec::new();
        let mut i: usize = 0;
        while i < base.dates.len()
            invariant
                0 <= i <= base.dates@.len(),
                bars@ == Seq::new(i as nat, |k: int| DateBar::new_spec(base.dates@[k])),
            decreases base.dates.len() - i,
        {
            bars.push(DateBar::new(base.dates[i]));
            i = i + 1;
            assert(bars@ =~= Seq::new(i as nat, |k: int| DateBar::new_spec(base.dates@[k])));
        }
        let mut j: usize = 0;
        assert(base.lines@.subrange(0, 0) =~= Seq::<LogLine>::empty());
        while j < base.lines.len()
            invariant
                0 <= j <= base.lines@.len(),
                bars@ == day_counts(base.dates@, base.lines@.subrange(0, j as int)),
            decreases base.lines.len() - j,
        {
            proof {
                assert(base.lines@.subrange(0, j + 1).drop_last() =~= base.lines@.subrange(0, j as int));
                lemma_day_counts_len(base.dates@, base.lines@.subrange(0, j as int));
            }
            let k = base.lines[j].date_idx;
            if k < bars.len() {
                let b = bars[k];
                bars.set(k, DateBar {
                    date: b.date,
                    hits: b.hits.saturating_add(1),
                    bytes_sent: b.bytes_sent.saturating_add(base.lines[j].bytes_sent),
                });
            }
            j = j + 1;
        }
        assert(base.lines@.subrange(0, j as int) =~= base.lines@);
        DateHistogram { bars }
    }
}

} // verus!
