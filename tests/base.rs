use std::cmp::Ordering;
use rhit::date_time::{Date, DateTime};
use rhit::filterer::{Args, Filterer, Key, RhitError};
use rhit::log_base::{
    ingest_files, first_date, ingest_line, ingest_lines, is_access_log_path, plan_reading, sort_dated_files,
    BaseContent, DateHistogram, LogBase,
};
use rhit::time_histogram::TimeHistogram;
use rhit::log_line::{LogLine, Method};
use rhit::trend::{histo_line, trend_of, LineGroup, TrendComputer};

fn d(y: u16, m: u8, day: u8) -> Date {
    Date::new(y, m, day).unwrap()
}

fn hit(day: u8, status: u16, bytes: u64) -> LogLine {
    LogLine {
        remote_addr: "1.2.3.4".to_string(),
        date_time: DateTime::new(2021, 1, day, 10, 0, 0).unwrap(),
        date_idx: 0,
        method: Method::Get,
        path: "/".to_string(),
        status,
        bytes_sent: bytes,
        referer: "-".to_string(),
    }
}

fn started(first: Date) -> BaseContent {
    let mut c = BaseContent::new();
    c.start_eating(first);
    c
}

#[test]
fn malformed_file_changes_nothing() {
    let mut content = started(d(2021, 1, 1));
    let lines = vec!["not a log line".to_string(), "".to_string(), "1.2.3.4 - - [oops]".to_string()];
    let args = Args { status: Some("2xx".to_string()), ..Args::default() };
    let mut filterer = Filterer::new(&args, d(2021, 1, 1), d(2021, 1, 1)).unwrap();
    let errors = ingest_lines(&mut content, &mut filterer, &lines);
    assert_eq!(errors, 3);
    assert_eq!(filterer.filterings[0].removed_count, 0);
    assert!(content.lines.is_empty());
    assert_eq!(content.unfiltered_histogram.bars.len(), 1);
    assert_eq!(content.unfiltered_histogram.bars[0].hits, 0);
    assert_eq!(content.filtered_histogram.bars[0].hits, 0);
    assert!(matches!(LogBase::from_content(content, filterer), Err(RhitError::NoHitInPaths)));
}

#[test]
fn two_histograms_in_step() {
    let mut content = started(d(2021, 1, 10));
    let args = Args { status: Some("2xx".to_string()), ..Args::default() };
    let mut filterer = Filterer::new(&args, d(2021, 1, 10), d(2021, 1, 11)).unwrap();
    let lines = vec![
        r#"1.1.1.1 - - [10/Jan/2021:10:00:00 +0000] "GET /a HTTP/1.1" 200 10 "-""#.to_string(),
        r#"1.1.1.1 - - [10/Jan/2021:11:00:00 +0000] "GET /b HTTP/1.1" 404 20 "-""#.to_string(),
        "garbage".to_string(),
        r#"1.1.1.1 - - [11/Jan/2021:09:00:00 +0000] "GET /c HTTP/1.1" 201 30 "-""#.to_string(),
    ];
    let errors = ingest_lines(&mut content, &mut filterer, &lines);
    assert_eq!(errors, 1);
    let u = &content.unfiltered_histogram.bars;
    let f = &content.filtered_histogram.bars;
    assert_eq!(u.len(), 2);
    assert_eq!(f.len(), 2);
    assert_eq!((u[0].hits, u[0].bytes_sent, u[1].hits, u[1].bytes_sent), (2, 30, 1, 30));
    assert_eq!((f[0].hits, f[0].bytes_sent, f[1].hits, f[1].bytes_sent), (1, 10, 1, 30));
    assert_eq!(content.lines.len(), 2);
    assert_eq!(content.lines[1].date_idx, 1);
    assert_eq!(filterer.filterings[0].removed_count, 1);
    let base = LogBase::from_content(content, filterer).unwrap();
    assert_eq!(base.unfiltered_count, 3);
    assert_eq!(base.filtered_count, 2);
    assert_eq!(base.day_count(), 2);
    assert_eq!(base.start_time(), d(2021, 1, 10));
    assert_eq!(base.end_time(), d(2021, 1, 11));
}

#[test]
fn ingest_line_reports_kept() {
    let mut content = started(d(2021, 1, 10));
    let args = Args { path: Some("^/keep".to_string()), ..Args::default() };
    let mut filterer = Filterer::new(&args, d(2021, 1, 10), d(2021, 1, 10)).unwrap();
    let kept = ingest_line(&mut content, &mut filterer, r#"1.1.1.1 - - [10/Jan/2021:10:00:00 +0000] "GET /keep/x HTTP/1.1" 200 1 "-""#);
    assert_eq!(kept.unwrap(), true);
    let kept = ingest_line(&mut content, &mut filterer, r#"1.1.1.1 - - [10/Jan/2021:10:00:00 +0000] "GET /other HTTP/1.1" 200 1 "-""#);
    assert_eq!(kept.unwrap(), false);
    assert!(ingest_line(&mut content, &mut filterer, "bad").is_err());
}

#[test]
fn files_are_read_in_date_order() {
    let (d1, d2, d3) = (d(2021, 2, 1), d(2021, 1, 1), d(2021, 3, 1));
    let files = vec![(d1, "a"), (d3, "c"), (d2, "b")];
    let sorted = sort_dated_files(files);
    assert_eq!(sorted, vec![(d2, "b"), (d1, "a"), (d3, "c")]);
    let files = vec![(d1, "first"), (d2, "second"), (d3, "third")];
    assert_eq!(sort_dated_files(files), vec![(d2, "second"), (d1, "first"), (d3, "third")]);
}

#[test]
fn first_date_skips_banner_lines() {
    let lines = vec![
        "logrotate banner".to_string(),
        r#"1.1.1.1 - - [10/Jan/2021:10:00:00 +0000] "GET /a HTTP/1.1" 200 10 "-""#.to_string(),
    ];
    assert_eq!(first_date(&lines), Some(d(2021, 1, 10)));
    let lines = vec!["a".to_string(), "b".to_string(), "c".to_string(),
        r#"1.1.1.1 - - [10/Jan/2021:10:00:00 +0000] "GET /a HTTP/1.1" 200 10 "-""#.to_string()];
    assert_eq!(first_date(&lines), None);
}

#[test]
fn access_log_names() {
    assert!(is_access_log_path("access.log"));
    assert!(is_access_log_path("site.access.log.2.gz"));
    assert!(!is_access_log_path("error.log"));
    assert!(!is_access_log_path("log"));
}

fn base_of_days(counts: &[u64]) -> LogBase {
    let mut content = started(d(2021, 1, 1));
    let mut filterer = Filterer::new(&Args::default(), d(2021, 1, 1), d(2021, 1, 28)).unwrap();
    for (i, &n) in counts.iter().enumerate() {
        for _ in 0..n {
            let line = hit(i as u8 + 1, 200, 1);
            let kept = filterer.accepts(&line);
            content.eat_line(line, !kept);
        }
    }
    LogBase::from_content(content, filterer).unwrap()
}

#[test]
fn trend_of_uniform_days_is_zero() {
    let base = base_of_days(&[5; 20]);
    let tc = TrendComputer::new(&base, Key::Hits).unwrap();
    assert_eq!(tc.histo_len, 20);
    assert_eq!(tc.ref_len, 18);
    assert_eq!(tc.tail_len, 2);
    let lines: Vec<&LogLine> = base.lines.iter().collect();
    let trend = tc.compute_trend(&lines);
    assert_eq!(trend.value, 0);
    assert_eq!(trend.ref_count, 90);
    assert_eq!(trend.tail_count, 10);
    assert_eq!(trend.sum_per_day, vec![5; 20]);
    let tail_only: Vec<&LogLine> = base.lines.iter().filter(|l| l.date_idx >= 18).collect();
    assert_eq!(tc.compute_trend(&tail_only).value, 1000);
    let empty: Vec<&LogLine> = Vec::new();
    assert_eq!(tc.compute_trend(&empty).value, 0);
}

#[test]
fn trend_needs_four_days() {
    let base = base_of_days(&[1, 2, 3]);
    assert!(TrendComputer::new(&base, Key::Hits).is_none());
    let base = base_of_days(&[1, 2, 3, 4]);
    assert!(TrendComputer::new(&base, Key::Hits).is_some());
}

#[test]
fn trend_values() {
    assert_eq!(trend_of(18, 2, 18, 2), 0);
    assert_eq!(trend_of(0, 5, 18, 2), 1000);
    assert_eq!(trend_of(10, 0, 18, 2), -1000);
    assert_eq!(trend_of(9, 2, 18, 2), 333);
    assert_eq!(trend_of(0, 0, 18, 2), 0);
}

#[test]
fn histogram_line_chars() {
    assert_eq!(histo_line(&vec![0, 4, 8], 8, true), " \u{2584}\u{2588}");
    assert_eq!(histo_line(&vec![0, 0], 0, false), "  ");
}

#[test]
fn day_and_hour_histograms() {
    let base = base_of_days(&[2, 0, 3]);
    let h = DateHistogram::from(&base);
    assert_eq!(h.bars.len(), 2);
    assert_eq!(h.bars[0].hits, 2);
    assert_eq!(h.bars[1].hits, 3);
    assert_eq!(h.bars[1].date, d(2021, 1, 3));
    assert_eq!(h.total_hits(), 5);
    assert_eq!(h.total_bytes_sent(), 5);
    let t = TimeHistogram::from(&base);
    assert_eq!(t.bars.len(), 24);
    assert_eq!(t.bars[10].hits, 5);
    assert_eq!(t.bars[9].hits, 0);
}

#[test]
fn line_group_of_a_path() {
    let base = base_of_days(&[1, 1, 1, 1, 3]);
    let tc = TrendComputer::new(&base, Key::Bytes).unwrap();
    let lines: Vec<&LogLine> = base.lines.iter().collect();
    let g = LineGroup::new("/", lines, &tc);
    assert_eq!(g.hits(), 7);
    assert_eq!(g.bytes, 7);
    assert_eq!(g.key_sum, 7);
    assert_eq!(g.any().path, "/");
    assert_eq!(g.trend.sum_per_day, vec![1, 1, 1, 1, 3]);
    assert_eq!(g.trend.value, 0);
    assert_eq!(g.histo_line().chars().count(), 5);
}

#[test]
fn reading_plan_needs_a_file() {
    let none: Vec<(Date, &str)> = Vec::new();
    assert!(matches!(plan_reading(none), Err(RhitError::NoLogFileFound)));
    let (first, last, files) = plan_reading(vec![(d(2021, 3, 1), "c"), (d(2021, 1, 1), "a")]).unwrap();
    assert_eq!(first, d(2021, 1, 1));
    assert_eq!(last, d(2021, 3, 1));
    assert_eq!(files[0].1, "a");
}

#[test]
fn trends_are_ordered_by_value_then_hits() {
    let t = |value: i32, r: u64, t: u64| rhit::trend::Trend { sum_per_day: vec![r, t], value, ref_count: r, tail_count: t };
    assert_eq!(t(10, 1, 1).cmp(&t(20, 1, 1)), Ordering::Less);
    assert_eq!(t(20, 1, 1).cmp(&t(10, 5, 5)), Ordering::Greater);
    assert_eq!(t(10, 1, 1).cmp(&t(10, 5, 5)), Ordering::Less);
    assert_eq!(t(-10, 1, 1).cmp(&t(-10, 5, 5)), Ordering::Greater);
    assert_eq!(t(0, 2, 2).cmp(&t(0, 3, 1)), Ordering::Equal);
    assert!(t(0, 2, 2) == t(0, 1, 3));
    assert!(t(5, 2, 2) < t(6, 0, 0));
    assert_eq!(t(1, 1, 1).sum(), 2);
    assert_eq!(t(950, 1, 1).markdown(), "`U` `U` `U`");
    assert_eq!(t(-300, 1, 1).markdown(), "`D`");
    assert_eq!(t(100, 1, 1).markdown(), " ");
}

#[test]
fn files_read_in_order_and_failures_by_mode() {
    let line = |day: u8, path: &str| format!(r#"1.1.1.1 - - [{:02}/Jan/2021:10:00:00 +0000] "GET {} HTTP/1.1" 200 10 "-""#, day, path);
    let files = vec![Some(vec![line(1, "/a"), line(1, "/b")]), None, Some(vec![line(2, "/c")])];
    let mut content = started(d(2021, 1, 1));
    let mut filterer = Filterer::new(&Args::default(), d(2021, 1, 1), d(2021, 1, 2)).unwrap();
    assert_eq!(ingest_files(&mut content, &mut filterer, &files, false), Ok(0));
    let paths: Vec<&str> = content.lines.iter().map(|l| l.path.as_str()).collect();
    assert_eq!(paths, vec!["/a", "/b", "/c"]);
    assert_eq!(content.lines[2].date_idx, 1);
    let mut content = started(d(2021, 1, 1));
    assert_eq!(ingest_files(&mut content, &mut filterer, &files, true), Err(1));
    assert_eq!(content.lines.len(), 2);
}
