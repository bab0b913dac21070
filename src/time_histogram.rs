//! The hits of the base by hour of the day.
use vstd::prelude::*;

use crate::log_base::LogBase;
use crate::log_line::LogLine;

verus! {

/// The hits of one hour of the day, and the bytes they sent.
#[derive(Debug, Clone, Copy, PartialEq, Eq, Structural)]
pub struct Bar {
    pub hour: u8,
    pub hits: u64,
    pub bytes_sent: u64,
}

impl Bar {
    pub fn new(hour: u8) -> (r: Bar)
        ensures
            r == (Bar { hour, hits: 0, bytes_sent: 0 }),
    {
        Bar { hour, hits: 0, bytes_sent: 0 }
    }
}

/// A histogram of hit times: a bar per hour.
#[derive(Debug, Clone)]
pub struct TimeHistogram {
    pub bars: Vec<Bar>,
}

/// The bars after counting the hits, each in the bar of its hour.
pub open spec fn hour_counts(lines: Seq<LogLine>) -> Seq<Bar>
    decreases lines.len(),
{
    if lines.len() == 0 {
        Seq::new(24, |i: int| Bar { hour: i as u8, hits: 0, bytes_sent: 0 })
    } else {
        let prev = hour_counts(lines.drop_last());
        let l = lines.last();
        let h = l.date_time.time.hour as int;
        if h < 24 {
            let b = prev[h];
            prev.update(h, Bar {
                hour: b.hour,
                hits: crate::log_base::sat_add(b.hits, 1),
                bytes_sent: crate::log_base::sat_add(b.bytes_sent, l.bytes_sent),
            })
        } else {
            prev
        }
    }
}

pub proof fn lemma_hour_counts_len(lines: Seq<LogLine>)
    ensures
        hour_counts(lines).len() == 24,
    decreases lines.len(),
{
    if lines.len() > 0 {
        lemma_hour_counts_len(lines.drop_last());
    }
}

impl TimeHistogram {
    /// The histogram of the kept hits of the base, by hour.
    pub fn from(base: &LogBase) -> (r: TimeHistogram)
        ensures
            r.bars@ == hour_counts(base.lines@),
    {
        let mut bars: Vec<Bar> = Vec::new();
        let mut h: u8 = 0;
        while h < 24
            invariant
                h <= 24,
                bars@ == Seq::new(h as nat, |i: int| Bar { hour: i as u8, hits: 0, bytes_sent: 0 }),
            decreases 24 - h,
        {
            bars.push(Bar::new(h));
            h = h + 1;
            assert(bars@ =~= Seq::new(h as nat, |i: int| Bar { hour: i as u8, hits: 0, bytes_sent: 0 }));
        }
        let mut j: usize = 0;
        assert(base.lines@.subrange(0, 0) =~= Seq::<LogLine>::empty());
        while j < base.lines.len()
            invariant
                0 <= j <= base.lines@.len(),
                bars@ == hour_counts(base.lines@.subrange(0, j as int)),
            decreases base.lines.len() - j,
        {
            proof {
                assert(base.lines@.subrange(0, j + 1).drop_last() =~= base.lines@.subrange(0, j as int));
                lemma_hour_counts_len(base.lines@.subrange(0, j as int));
            }
            let k = base.lines[j].date_time.time.hour as usize;
            if k < 24 {
                let b = bars[k];
                bars.set(k, Bar {
                    hour: b.hour,
                    hits: b.hits.saturating_add(1),
                    bytes_sent: b.bytes_sent.saturating_add(base.lines[j].bytes_sent),
                });
            }
            j = j + 1;
        }
        assert(base.lines@.subrange(0, j as int) =~= base.lines@);
        TimeHistogram { bars }
    }
}

} // verus!
