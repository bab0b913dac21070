//! Analysis of web server access logs: parsing of log lines and of
//! timestamps, filters on hits (dates and times, status codes, methods,
//! strings matched by boolean expressions of regular expressions), the
//! day histograms of all and of kept hits built in one pass, and the trends
//! of groups of hits over the last days.
use vstd::prelude::*;

pub mod text;
pub mod date_time;
pub mod date_text;
pub mod date_time_filter;
pub mod date_filter;
pub mod log_line;
pub mod status_filter;
pub mod str_filter;
pub mod filterer;
pub mod log_base;
pub mod trend;
pub mod time_histogram;
pub mod fields;
pub mod section;
pub mod options;

verus! {

} // verus!
