//! Trends: how the last two days of a group of hits compare with the days
//! before, corrected by the same ratio over all hits.
use vstd::prelude::*;

use crate::date_time_filter::DateTimeFilter;
use crate::filterer::Key;
use crate::log_base::{sat_add, LogBase};
use crate::log_line::LogLine;

verus! {

/// The most days a trend looks at.
pub const MAX_HISTO_LEN: usize = 20;

/// Counts at or above this are divided by 1024 before the trend is computed.
pub const EXACT_LIMIT: u64 = 288230376151711744;

/// The trend of a group: `1000 * (tail * f - ref) / (ref + tail * f)`,
/// rounded half away from zero, `f` being `ref_total / tail_total`; that is
/// `1000 * (t * R - r * T) / (r * T + t * R)`. It is 0 when that is undefined.
pub open spec fn trend_value(r: int, t: int, rt: int, tt: int) -> int {
    let num = t * rt - r * tt;
    let den = r * tt + t * rt;
    if den == 0 {
        0
    } else if num >= 0 {
        (2000 * num + den) / (2 * den)
    } else {
        -((2000 * (-num) + den) / (2 * den))
    }
}

/// A count as it enters the trend: divided by 1024 when one of the four
/// counts is too large to be multiplied exactly.
pub open spec fn scaled(x: u64, big: bool) -> int {
    if big { (x / 1024) as int } else { x as int }
}

pub open spec fn is_big(r: u64, t: u64, rt: u64, tt: u64) -> bool {
    r >= EXACT_LIMIT || t >= EXACT_LIMIT || rt >= EXACT_LIMIT || tt >= EXACT_LIMIT
}

/// The trend value of group counts `r`, `t` against totals `rt`, `tt`.
pub open spec fn spec_trend(r: u64, t: u64, rt: u64, tt: u64) -> int {
    let big = is_big(r, t, rt, tt);
    trend_value(scaled(r, big), scaled(t, big), scaled(rt, big), scaled(tt, big))
}

/// The value lies in `-1000..=1000`.
pub proof fn lemma_trend_value_bounds(r: int, t: int, rt: int, tt: int)
    requires
        r >= 0,
        t >= 0,
        rt >= 0,
        tt >= 0,
    ensures
        -1000 <= trend_value(r, t, rt, tt) <= 1000,
{
    let num = t * rt - r * tt;
    let den = r * tt + t * rt;
    assert(r * tt >= 0 && t * rt >= 0) by (nonlinear_arith)
        requires r >= 0, t >= 0, rt >= 0, tt >= 0;
    if den != 0 {
        if num >= 0 {
            assert(num <= den);
            assert((2000 * num + den) / (2 * den) <= 1000) by (nonlinear_arith)
                requires 0 <= num <= den, den > 0;
            assert((2000 * num + den) / (2 * den) >= 0) by (nonlinear_arith)
                requires 0 <= num <= den, den > 0;
        } else {
            assert(-num <= den);
            assert((2000 * (-num) + den) / (2 * den) <= 1000) by (nonlinear_arith)
                requires 0 <= -num <= den, den > 0;
            assert((2000 * (-num) + den) / (2 * den) >= 0) by (nonlinear_arith)
                requires 0 <= -num <= den, den > 0;
        }
    }
}

/// Every trend lies in `-1000..=1000`. A group with no hit in the window
/// has a trend of 0, and so has a group whose tail and reference counts
/// are in the ratio of the totals (as a group with as many hits every day
/// is, when all the logs have as many hits every day). A group with more
/// in its tail than that ratio has a trend of 0 or more, and one with hits
/// in its tail only has the trend 1000. The last three hold where counts are
/// below the limit of exact computation.
pub proof fn lemma_trend_laws(r: u64, t: u64, rt: u64, tt: u64)
    ensures
        -1000 <= spec_trend(r, t, rt, tt) <= 1000,
        r == 0 && t == 0 ==> spec_trend(r, t, rt, tt) == 0,
        !is_big(r, t, rt, tt) && t * rt == r * tt ==> spec_trend(r, t, rt, tt) == 0,
        !is_big(r, t, rt, tt) && t * rt > r * tt ==> spec_trend(r, t, rt, tt) >= 0,
        !is_big(r, t, rt, tt) && r == 0 && t > 0 && rt > 0 ==> spec_trend(r, t, rt, tt) == 1000,
{
    let big = is_big(r, t, rt, tt);
    lemma_trend_value_bounds(scaled(r, big), scaled(t, big), scaled(rt, big), scaled(tt, big));
    let (a, b, c, d) = (scaled(r, big), scaled(t, big), scaled(rt, big), scaled(tt, big));
    if r == 0 && t == 0 {
        assert(a == 0 && b == 0);
        assert(a * d == 0 && b * c == 0) by (nonlinear_arith)
            requires a == 0, b == 0;
    }
    if !big && t * rt == r * tt {
        let den = a * d + b * c;
        assert(b * c - a * d == 0);
        if den != 0 {
            assert(a * d >= 0 && b * c >= 0) by (nonlinear_arith)
                requires a >= 0, b >= 0, c >= 0, d >= 0;
            assert((2000 * 0 + den) / (2 * den) == 0) by (nonlinear_arith)
                requires den > 0;
        }
    }
    if !big && r == 0 && t > 0 && rt > 0 {
        assert(a == 0 && b == t && c == rt && d == tt);
        assert(a * d == 0) by (nonlinear_arith)
            requires a == 0;
        let den = b * c;
        assert(den > 0) by (nonlinear_arith)
            requires b > 0, c > 0, den == b * c;
        assert(b * c - a * d == den);
        assert(a * d + b * c == den);
        assert((2000 * den + den) / (2 * den) == 1000) by (nonlinear_arith)
            requires den > 0;
        assert(trend_value(a, b, c, d) == (2000 * den + den) / (2 * den));
    }
}

/// The trend of a group. Trends are ordered by value; among equal values,
/// positive ones by their count of hits, the others by the opposite.
#[derive(Debug, Clone)]
pub struct Trend {
    /// Count per day of the trend window.
    pub sum_per_day: Vec<u64>,
    pub value: i32,
    pub ref_count: u64,
    pub tail_count: u64,
}

pub open spec fn seq_max(s: Seq<u64>) -> u64
    decreases s.len(),
{
    if s.len() == 0 {
        0
    } else if s.len() == 1 {
        s[0]
    } else {
        let m = seq_max(s.drop_last());
        if s.last() > m { s.last() } else { m }
    }
}

impl Trend {
    /// The largest count of a day.
    pub fn max_day_count(&self) -> (r: u64)
        requires
            self.sum_per_day@.len() > 0,
        ensures
            r == seq_max(self.sum_per_day@),
    {
        let mut m: u64 = self.sum_per_day[0];
        let mut i: usize = 1;
        assert(self.sum_per_day@.subrange(0, 1).drop_last() =~= Seq::<u64>::empty());
        assert(seq_max(self.sum_per_day@.subrange(0, 1)) == self.sum_per_day@[0]);
        while i < self.sum_per_day.len()
            invariant
                1 <= i <= self.sum_per_day.len(),
                m == seq_max(self.sum_per_day@.subrange(0, i as int)),
            decreases self.sum_per_day.len() - i,
        {
            assert(self.sum_per_day@.subrange(0, i + 1).drop_last() =~= self.sum_per_day@.subrange(0, i as int));
            if self.sum_per_day[i] > m {
                m = self.sum_per_day[i];
            }
            i = i + 1;
        }
        assert(self.sum_per_day@.subrange(0, i as int) =~= self.sum_per_day@);
        m
    }

    /// Hits of the reference and tail windows together.
    pub fn sum(&self) -> (r: u64)
        requires
            self.ref_count + self.tail_count <= u64::MAX,
        ensures
            r == self.ref_count + self.tail_count,
    {
        self.ref_count + self.tail_count
    }

    /// Arrows telling the strength of the trend: one, two or three up
    /// arrows above 200, 500 and 900, down arrows below the opposites.
    pub fn markdown(&self) -> (r: &'static str)
        ensures
            r@ == if self.value > 900 {
                "`U` `U` `U`"@
            } else if self.value > 500 {
                "`U` `U`"@
            } else if self.value > 200 {
                "`U`"@
            } else if self.value < -900 {
                "`D` `D` `D`"@
            } else if self.value < -500 {
                "`D` `D`"@
            } else if self.value < -200 {
                "`D`"@
            } else {
                " "@
            },
    {
        if self.value > 200 {
            if self.value > 900 {
                "`U` `U` `U`"
            } else if self.value > 500 {
                "`U` `U`"
            } else {
                "`U`"
            }
        } else if self.value < -200 {
            if self.value < -900 {
                "`D` `D` `D`"
            } else if self.value < -500 {
                "`D` `D`"
            } else {
                "`D`"
            }
        } else {
            " "
        }
    }
}

/// The order of two counts.
pub open spec fn order_of(a: int, b: int) -> core::cmp::Ordering {
    if a < b {
        core::cmp::Ordering::Less
    } else if a > b {
        core::cmp::Ordering::Greater
    } else {
        core::cmp::Ordering::Equal
    }
}

/// The order of trends: by value, then by count of hits, decreasing when
/// the value is not positive.
pub open spec fn trend_order(a: &Trend, b: &Trend) -> core::cmp::Ordering {
    let (sa, sb) = (a.ref_count + a.tail_count, b.ref_count + b.tail_count);
    if a.value < b.value {
        core::cmp::Ordering::Less
    } else if a.value > b.value {
        core::cmp::Ordering::Greater
    } else if a.value > 0 {
        order_of(sa, sb)
    } else {
        order_of(sb, sa)
    }
}

fn cmp_counts(a: u128, b: u128) -> (r: core::cmp::Ordering)
    ensures
        r == order_of(a as int, b as int),
{
    if a < b {
        core::cmp::Ordering::Less
    } else if a > b {
        core::cmp::Ordering::Greater
    } else {
        core::cmp::Ordering::Equal
    }
}

impl Trend {
    /// Compares two trends.
    pub fn cmp(&self, other: &Trend) -> (r: core::cmp::Ordering)
        ensures
            r == trend_order(self, other),
    {
        let sa = self.ref_count as u128 + self.tail_count as u128;
        let sb = other.ref_count as u128 + other.tail_count as u128;
        if self.value < other.value {
            core::cmp::Ordering::Less
        } else if self.value > other.value {
            core::cmp::Ordering::Greater
        } else if self.value > 0 {
            cmp_counts(sa, sb)
        } else {
            cmp_counts(sb, sa)
        }
    }
}

impl PartialEq for Trend {
    /// Trends of the same value and count of hits are equal.
    fn eq(&self, other: &Trend) -> (r: bool) {
        self.value == other.value && self.ref_count as u128 + self.tail_count as u128
            == other.ref_count as u128 + other.tail_count as u128
    }
}

impl vstd::std_specs::cmp::PartialEqSpecImpl for Trend {
    open spec fn obeys_eq_spec() -> bool {
        true
    }

    open spec fn eq_spec(&self, other: &Trend) -> bool {
        self.value == other.value && self.ref_count + self.tail_count == other.ref_count
            + other.tail_count
    }
}

impl PartialOrd for Trend {
    fn partial_cmp(&self, other: &Trend) -> (r: Option<core::cmp::Ordering>) {
        Some(self.cmp(other))
    }
}

impl vstd::std_specs::cmp::PartialOrdSpecImpl for Trend {
    open spec fn obeys_partial_cmp_spec() -> bool {
        true
    }

    open spec fn partial_cmp_spec(&self, other: &Trend) -> Option<core::cmp::Ordering> {
        Some(trend_order(self, other))
    }
}

/// Computes the trends of groups of hits over the last days of the logs.
#[derive(Debug, Clone)]
pub struct TrendComputer {
    /// Number of old days left out.
    pub histo_offset: usize,
    /// Days in the window: `ref_len + tail_len`.
    pub histo_len: usize,
    pub ref_len: usize,
    pub tail_len: usize,
    /// Hits of all the logs in the reference window.
    pub ref_total: u64,
    /// Hits of all the logs in the tail window.
    pub tail_total: u64,
    pub key: Key,
}

/// The count of the days from `from` to `to` (excluded), stopping at the
/// largest `u64`.
pub open spec fn window_sum(counts: Seq<u64>, from: int, to: int) -> u64
    decreases to - from,
{
    if to <= from {
        0
    } else {
        sat_add(window_sum(counts, from, to - 1), counts[to - 1])
    }
}

/// The number of days a trend covers: all of them, or, under a date
/// filter, up to the last day that the filter overlaps.
pub open spec fn day_count_of(dates: Seq<crate::date_time::Date>, filter: Option<DateTimeFilter>) -> int
    decreases dates.len(),
{
    match filter {
        None => dates.len() as int,
        Some(f) => if dates.len() == 0 {
            0
        } else if f.spec_overlaps(dates.last()) {
            dates.len() as int
        } else {
            day_count_of(dates.drop_last(), filter)
        },
    }
}

/// Where a line falls in a histogram of `len` days starting at day
/// `offset`, with what it adds.
pub open spec fn histo_step(counts: Seq<u64>, idx: usize, bytes: u64, offset: usize, len: usize, key: Key) -> Seq<u64> {
    if idx < offset || idx - offset >= len {
        counts
    } else {
        let k = idx - offset;
        counts.update(k, sat_add(counts[k], if key == Key::Hits { 1 } else { bytes }))
    }
}

pub open spec fn histo_of(lines: Seq<&LogLine>, offset: usize, len: usize, key: Key) -> Seq<u64>
    decreases lines.len(),
{
    if lines.len() == 0 {
        Seq::new(len as nat, |i: int| 0u64)
    } else {
        histo_step(histo_of(lines.drop_last(), offset, len, key), lines.last().date_idx, lines.last().bytes_sent, offset, len, key)
    }
}

pub proof fn lemma_histo_len(lines: Seq<&LogLine>, offset: usize, len: usize, key: Key)
    ensures
        histo_of(lines, offset, len, key).len() == len,
    decreases lines.len(),
{
    if lines.len() > 0 {
        lemma_histo_len(lines.drop_last(), offset, len, key);
    }
}

impl TrendComputer {
    pub open spec fn wf(&self) -> bool {
        &&& self.tail_len == 2
        &&& self.ref_len + self.tail_len == self.histo_len
        &&& 4 <= self.histo_len <= MAX_HISTO_LEN
    }

    /// The counts of the reference and tail windows of per-day counts.
    pub fn compute_ref_tail_counts(&self, counts: &Vec<u64>) -> (r: (u64, u64))
        requires
            self.wf(),
            counts@.len() >= self.histo_len,
        ensures
            r.0 == window_sum(counts@, 0, self.ref_len as int),
            r.1 == window_sum(counts@, self.ref_len as int, self.histo_len as int),
    {
        let mut ref_count: u64 = 0;
        let mut idx: usize = 0;
        while idx < self.ref_len
            invariant
                idx <= self.ref_len <= self.histo_len <= counts@.len(),
                ref_count == window_sum(counts@, 0, idx as int),
            decreases self.ref_len - idx,
        {
            ref_count = ref_count.saturating_add(counts[idx]);
            idx = idx + 1;
        }
        let mut tail_count: u64 = 0;
        while idx < self.histo_len
            invariant
                self.ref_len <= idx <= self.histo_len <= counts@.len(),
                tail_count == window_sum(counts@, self.ref_len as int, idx as int),
            decreases self.histo_len - idx,
        {
            tail_count = tail_count.saturating_add(counts[idx]);
            idx = idx + 1;
        }
        (ref_count, tail_count)
    }

    /// The trend computer of the base, or none when the logs (up to the
    /// last day the date filter overlaps) cover fewer than four days. The
    /// window is the last twenty of those days at most, the last two the
    /// tail; the totals are the hits of all the logs in each part.
    pub fn new(base: &LogBase, key: Key) -> (r: Option<TrendComputer>)
        requires
            base.wf(),
        ensures
            ({
                let dc = day_count_of(base.dates@, base.filterer.date_filter_spec());
                let counts = base.unfiltered_histogram.bars@.map_values(|b: crate::log_base::DateBar| b.hits);
                match r {
                    None => dc < 4,
                    Some(c) => dc >= 4 && c.wf() && c.key == key
                        && c.histo_len == if dc < 20 { dc } else { 20 }
                        && c.histo_offset == dc - c.histo_len
                        && c.ref_total == window_sum(counts, c.histo_offset as int, c.histo_offset + c.ref_len)
                        && c.tail_total == window_sum(counts, c.histo_offset + c.ref_len, c.histo_offset + c.histo_len),
                }
            }),
    {
        let filter = base.filterer.date_filter();
        let dc: usize = match filter {
            None => base.dates.len(),
            Some(f) => {
                let mut dc: usize = 0;
                let mut idx: usize = 0;
                while idx < base.dates.len()
                    invariant
                        0 <= idx <= base.dates@.len(),
                        dc <= idx,
                        dc == day_count_of(base.dates@.subrange(0, idx as int), Some(f)),
                    decreases base.dates.len() - idx,
                {
                    assert(base.dates@.subrange(0, idx + 1).drop_last() =~= base.dates@.subrange(0, idx as int));
                    if f.overlaps(base.dates[idx]) {
                        dc = idx + 1;
                    }
                    idx = idx + 1;
                }
                assert(base.dates@.subrange(0, idx as int) =~= base.dates@);
                dc
            },
        };
        if dc < 4 {
            return None;
        }
        let histo_len = if dc < MAX_HISTO_LEN { dc } else { MAX_HISTO_LEN };
        let histo_offset = dc - histo_len;
        let tail_len: usize = 2;
        let ref_len = histo_len - tail_len;
        let mut window: Vec<u64> = Vec::new();
        let mut i: usize = 0;
        let ghost counts = base.unfiltered_histogram.bars@.map_values(|b: crate::log_base::DateBar| b.hits);
        proof {
            lemma_day_count_le(base.dates@, filter);
        }
        while i < histo_len
            invariant
                0 <= i <= histo_len,
                histo_offset + histo_len == dc <= base.dates@.len() == base.unfiltered_histogram.bars@.len(),
                counts == base.unfiltered_histogram.bars@.map_values(|b: crate::log_base::DateBar| b.hits),
                window@.len() == i,
                forall|k: int| 0 <= k < i ==> #[trigger] window@[k] == counts[histo_offset + k],
            decreases histo_len - i,
        {
            window.push(base.unfiltered_histogram.bars[histo_offset + i].hits);
            i = i + 1;
        }
        let mut c = TrendComputer { histo_offset, histo_len, ref_len, tail_len, ref_total: 0, tail_total: 0, key };
        let (rt, tt) = c.compute_ref_tail_counts(&window);
        proof {
            lemma_window_shift(window@, counts, histo_offset as int, 0, ref_len as int);
            lemma_window_shift(window@, counts, histo_offset as int, ref_len as int, histo_len as int);
        }
        c.ref_total = rt;
        c.tail_total = tt;
        Some(c)
    }

    /// Counts per day of the window for the group: hits, or bytes sent.
    /// Lines before the window, or after it, are left out.
    pub fn compute_histo_line(&self, lines: &Vec<&LogLine>) -> (r: Vec<u64>)
        requires
            self.wf(),
        ensures
            r@ == histo_of(lines@, self.histo_offset, self.histo_len, self.key),
    {
        let mut counts: Vec<u64> = Vec::new();
        let mut i: usize = 0;
        while i < self.histo_len
            invariant
                0 <= i <= self.histo_len,
                counts@ == Seq::new(i as nat, |k: int| 0u64),
            decreases self.histo_len - i,
        {
            counts.push(0);
            i = i + 1;
            assert(counts@ =~= Seq::new(i as nat, |k: int| 0u64));
        }
        let mut j: usize = 0;
        assert(lines@.subrange(0, 0) =~= Seq::<&LogLine>::empty());
        while j < lines.len()
            invariant
                0 <= j <= lines@.len(),
                counts@ == histo_of(lines@.subrange(0, j as int), self.histo_offset, self.histo_len, self.key),
            decreases lines.len() - j,
        {
            proof {
                assert(lines@.subrange(0, j + 1).drop_last() =~= lines@.subrange(0, j as int));
                lemma_histo_len(lines@.subrange(0, j as int), self.histo_offset, self.histo_len, self.key);
            }
            let line = lines[j];
            if line.date_idx >= self.histo_offset && line.date_idx - self.histo_offset < self.histo_len {
                let k = line.date_idx - self.histo_offset;
                let add = match self.key {
                    Key::Hits => 1,
                    Key::Bytes => line.bytes_sent,
                };
                let v = counts[k].saturating_add(add);
                counts.set(k, v);
            }
            j = j + 1;
        }
        assert(lines@.subrange(0, j as int) =~= lines@);
        counts
    }

    /// The trend of a group of hits.
    pub fn compute_trend(&self, lines: &Vec<&LogLine>) -> (r: Trend)
        requires
            self.wf(),
        ensures
            r.sum_per_day@ == histo_of(lines@, self.histo_offset, self.histo_len, self.key),
            r.ref_count == window_sum(r.sum_per_day@, 0, self.ref_len as int),
            r.tail_count == window_sum(r.sum_per_day@, self.ref_len as int, self.histo_len as int),
            r.value == spec_trend(r.ref_count, r.tail_count, self.ref_total, self.tail_total),
    {
        let sum_per_day = self.compute_histo_line(lines);
        proof {
            lemma_histo_len(lines@, self.histo_offset, self.histo_len, self.key);
        }
        let (ref_count, tail_count) = self.compute_ref_tail_counts(&sum_per_day);
        let value = trend_of(ref_count, tail_count, self.ref_total, self.tail_total);
        Trend { sum_per_day, value, ref_count, tail_count }
    }
}

/// The trend value of group counts against totals.
pub fn trend_of(r: u64, t: u64, rt: u64, tt: u64) -> (v: i32)
    ensures
        v == spec_trend(r, t, rt, tt),
{
    let big = r >= EXACT_LIMIT || t >= EXACT_LIMIT || rt >= EXACT_LIMIT || tt >= EXACT_LIMIT;
    let (a, b, c, d): (u64, u64, u64, u64) = if big {
        (r / 1024, t / 1024, rt / 1024, tt / 1024)
    } else {
        (r, t, rt, tt)
    };
    assert(a < EXACT_LIMIT && b < EXACT_LIMIT && c < EXACT_LIMIT && d < EXACT_LIMIT);
    proof {
        assert((b as int) * (c as int) < 83076749736557242056487941267521536) by (nonlinear_arith)
            requires b < 288230376151711744int, c < 288230376151711744int, b >= 0, c >= 0;
        assert((a as int) * (d as int) < 83076749736557242056487941267521536) by (nonlinear_arith)
            requires a < 288230376151711744int, d < 288230376151711744int, a >= 0, d >= 0;
        lemma_trend_value_bounds(a as int, b as int, c as int, d as int);
    }
    let x: u128 = (b as u128) * (c as u128);
    let y: u128 = (a as u128) * (d as u128);
    let den: u128 = x + y;
    if den == 0 {
        return 0;
    }
    if x >= y {
        let num: u128 = x - y;
        let q: u128 = (2000 * num + den) / (2 * den);
        assert(q <= 1000);
        q as i32
    } else {
        let num: u128 = y - x;
        let q: u128 = (2000 * num + den) / (2 * den);
        assert(q <= 1000);
        -(q as i32)
    }
}

/// The window counts read at an offset are those of the whole.
proof fn lemma_window_shift(w: Seq<u64>, counts: Seq<u64>, off: int, from: int, to: int)
    requires
        0 <= from <= to <= w.len(),
        off >= 0,
        off + w.len() <= counts.len(),
        forall|k: int| 0 <= k < w.len() ==> #[trigger] w[k] == counts[off + k],
    ensures
        window_sum(w, from, to) == window_sum(counts, off + from, off + to),
    decreases to - from,
{
    if from < to {
        lemma_window_shift(w, counts, off, from, to - 1);
    }
}

/// The trend covers no more days than the logs.
proof fn lemma_day_count_le(dates: Seq<crate::date_time::Date>, f: Option<DateTimeFilter>)
    ensures
        0 <= day_count_of(dates, f) <= dates.len(),
    decreases dates.len(),
{
    if f is Some && dates.len() > 0 {
        lemma_day_count_le(dates.drop_last(), f);
    }
}

/// The bars of a histogram line: a character per count, its height the
/// count's share of `max` in eighths (sevenths without full height),
/// rounded.
pub fn histo_line(counts: &Vec<u64>, max: u64, full_height: bool) -> (r: String)
    requires
        forall|i: int| 0 <= i < counts@.len() ==> #[trigger] counts@[i] <= max,
    ensures
        r@.len() == counts@.len(),
        forall|i: int| 0 <= i < counts@.len() ==> #[trigger] r@[i] == bar_char(
            if max == 0 { 0 } else { ((2 * (if full_height { 8int } else { 7int }) * counts@[i] + max) / (2 * max as int)) },
        ),
{
    let m: u128 = if full_height { 8 } else { 7 };
    let mut v: Vec<char> = Vec::new();
    let mut i: usize = 0;
    while i < counts.len()
        invariant
            0 <= i <= counts@.len(),
            m == if full_height { 8u128 } else { 7u128 },
            forall|k: int| 0 <= k < counts@.len() ==> #[trigger] counts@[k] <= max,
            v@.len() == i,
            forall|k: int| 0 <= k < i ==> #[trigger] v@[k] == bar_char(
                if max == 0 { 0 } else { ((2 * (if full_height { 8int } else { 7int }) * counts@[k] + max) / (2 * max as int)) },
            ),
        decreases counts.len() - i,
    {
        let c = counts[i];
        let idx: u128 = if max == 0 {
            0
        } else {
            proof {
                assert(2 * m * (c as u128) <= 16 * (max as u128)) by (nonlinear_arith)
                    requires c <= max, m <= 8;
            }
            (2 * m * (c as u128) + (max as u128)) / (2 * (max as u128))
        };
        proof {
            if max != 0 {
                assert((2 * m * (c as int) + max) / (2 * max as int) <= 8) by (nonlinear_arith)
                    requires c <= max, m <= 8, max > 0;
            }
        }
        v.push(bar_char_exec(idx as usize));
        i = i + 1;
    }
    crate::text::string_of(v.as_slice())
}

/// The block character of the given height in eighths.
pub open spec fn bar_char(h: int) -> char {
    if h <= 0 {
        ' '
    } else if h == 1 {
        '\u{2581}'
    } else if h == 2 {
        '\u{2582}'
    } else if h == 3 {
        '\u{2583}'
    } else if h == 4 {
        '\u{2584}'
    } else if h == 5 {
        '\u{2585}'
    } else if h == 6 {
        '\u{2586}'
    } else if h == 7 {
        '\u{2587}'
    } else {
        '\u{2588}'
    }
}

fn bar_char_exec(h: usize) -> (r: char)
    ensures
        r == bar_char(h as int),
{
    if h == 0 {
        ' '
    } else if h == 1 {
        '\u{2581}'
    } else if h == 2 {
        '\u{2582}'
    } else if h == 3 {
        '\u{2583}'
    } else if h == 4 {
        '\u{2584}'
    } else if h == 5 {
        '\u{2585}'
    } else if h == 6 {
        '\u{2586}'
    } else if h == 7 {
        '\u{2587}'
    } else {
        '\u{2588}'
    }
}

/// The largest of the counts is no less than each.
pub proof fn lemma_seq_max(s: Seq<u64>)
    ensures
        forall|i: int| 0 <= i < s.len() ==> #[trigger] s[i] <= seq_max(s),
    decreases s.len(),
{
    if s.len() > 1 {
        lemma_seq_max(s.drop_last());
        assert forall|i: int| 0 <= i < s.len() implies #[trigger] s[i] <= seq_max(s) by {
            if i < s.len() - 1 {
                assert(s[i] == s.drop_last()[i]);
            }
        }
    }
}

/// A group of hits sharing a value of some field, with its trend.
#[derive(Debug)]
pub struct LineGroup<'b, T> {
    pub value: T,
    /// The hits; there is at least one.
    pub lines: Vec<&'b LogLine>,
    pub trend: Trend,
    pub bytes: u64,
    /// The hits, or the bytes, as the key says.
    pub key_sum: u64,
}

pub open spec fn sum_sent(lines: Seq<&LogLine>) -> u64
    decreases lines.len(),
{
    if lines.len() == 0 { 0 } else { sat_add(sum_sent(lines.drop_last()), lines.last().bytes_sent) }
}

impl<'b, T> LineGroup<'b, T> {
    pub fn new(value: T, lines: Vec<&'b LogLine>, trend_computer: &TrendComputer) -> (r: LineGroup<'b, T>)
        requires
            trend_computer.wf(),
            lines@.len() > 0,
        ensures
            r.value == value,
            r.lines@ == lines@,
            r.trend.sum_per_day@ == histo_of(lines@, trend_computer.histo_offset, trend_computer.histo_len, trend_computer.key),
            r.trend.value == spec_trend(r.trend.ref_count, r.trend.tail_count, trend_computer.ref_total, trend_computer.tail_total),
            r.bytes == sum_sent(lines@),
            r.key_sum == if trend_computer.key == Key::Hits { lines@.len() as u64 } else { r.bytes },
    {
        let trend = trend_computer.compute_trend(&lines);
        let mut bytes: u64 = 0;
        let mut i: usize = 0;
        while i < lines.len()
            invariant
                0 <= i <= lines@.len(),
                bytes == sum_sent(lines@.subrange(0, i as int)),
            decreases lines.len() - i,
        {
            assert(lines@.subrange(0, i + 1).drop_last() =~= lines@.subrange(0, i as int));
            bytes = bytes.saturating_add(lines[i].bytes_sent);
            i = i + 1;
        }
        assert(lines@.subrange(0, i as int) =~= lines@);
        let key_sum = match trend_computer.key {
            Key::Hits => lines.len() as u64,
            Key::Bytes => bytes,
        };
        LineGroup { value, lines, trend, bytes, key_sum }
    }

    /// A hit of the group.
    pub fn any(&self) -> (r: &'b LogLine)
        requires
            self.lines@.len() > 0,
        ensures
            r == self.lines@[0],
    {
        self.lines[0]
    }

    pub fn hits(&self) -> (r: usize)
        ensures
            r == self.lines@.len(),
    {
        self.lines.len()
    }

    /// The bars of the group's days, scaled to its busiest day.
    pub fn histo_line(&self) -> (r: String)
        requires
            self.trend.sum_per_day@.len() > 0,
        ensures
            r@.len() == self.trend.sum_per_day@.len(),
            forall|i: int| 0 <= i < self.trend.sum_per_day@.len() ==> #[trigger] r@[i] == bar_char(
                if seq_max(self.trend.sum_per_day@) == 0 {
                    0
                } else {
                    (2 * 7 * self.trend.sum_per_day@[i] + seq_max(self.trend.sum_per_day@)) / (2 * seq_max(
                        self.trend.sum_per_day@,
                    ) as int)
                },
            ),
    {
        let max = self.trend.max_day_count();
        proof {
            lemma_seq_max(self.trend.sum_per_day@);
        }
        histo_line(&self.trend.sum_per_day, max, false)
    }
}

} // verus!
