#![allow(clippy::bool_assert_comparison)]
#![allow(clippy::zero_prefixed_literal)]
use rhit::date_time::{Date, DateTime};
use rhit::date_time_filter::DateTimeFilter;

fn d(y: u16, m: u8, day: u8) -> Date {
    Date::new(y, m, day).unwrap()
}

fn dt(y: u16, m: u8, day: u8, h: u8, mi: u8, se: u8) -> DateTime {
    DateTime::new(y, m, day, h, mi, se).unwrap()
}

#[test]
fn date_time_filter_test_date_filter_fully_defined_range() {
        let df = DateTimeFilter::new("2021/01/03 - 2021/02/15", None, None).unwrap();
        assert_eq!(df.overlaps(d(2021, 01, 28)), true);
        assert_eq!(df.overlaps(d(2021, 02, 01)), true);
        assert_eq!(df.overlaps(d(2021, 02, 15)), true);
        assert_eq!(df.overlaps(d(2021, 02, 16)), false);
        assert_eq!(df.contains(dt(2021, 02, 16, 0, 1, 0)), false);
        assert_eq!(df.contains(dt(2021, 01, 03, 0, 1, 0)), true);
        assert_eq!(df.contains(dt(2021, 01, 03, 0, 0, 0)), true);
        assert_eq!(df.contains(dt(2021, 01, 02, 23, 59, 0)), false);
        assert_eq!(df.contains(dt(2022, 01, 04, 23, 59, 0)), false);
    }

#[test]
fn date_time_filter_test_date_filter_precise_date() {
        let df = DateTimeFilter::new("2021/02/15", Some(2021), None).unwrap();
        assert_eq!(df.overlaps(d(2021, 01, 28)), false);
        assert_eq!(df.overlaps(d(2021, 02, 15)), true);
        assert_eq!(df.overlaps(d(2021, 02, 16)), false);
        assert_eq!(df.contains(dt(2021, 02, 15, 23, 59, 0)), true);
        assert_eq!(df.contains(dt(2021, 02, 14, 23, 59, 0)), false);
        assert_eq!(df.contains(dt(2021, 02, 16, 0, 0, 0)), false);
    }

#[test]
fn date_time_filter_test_date_filter_not_date() {
        let df = DateTimeFilter::new("!2021/02/15", Some(2021), None).unwrap();
        assert_eq!(df.overlaps(d(2021, 01, 28)), true);
        assert_eq!(df.overlaps(d(2021, 02, 15)), false);
        assert_eq!(df.overlaps(d(2021, 02, 16)), true);
        assert_eq!(df.contains(dt(2021, 02, 15, 2, 0, 0)), false);
        assert_eq!(df.contains(dt(2021, 02, 16, 0, 0, 0)), true);
    }

#[test]
fn date_time_filter_test_date_filter_after_date_implicit_year() {
        let df = DateTimeFilter::new("> 02/15", Some(2021), None).unwrap();
        assert_eq!(df.overlaps(d(2020, 11, 12)), false);
        assert_eq!(df.overlaps(d(2021, 01, 28)), false);
        assert_eq!(df.overlaps(d(2021, 02, 15)), false);
        assert_eq!(df.overlaps(d(2021, 02, 16)), true);
    }

#[test]
fn date_time_filter_test_date_filter_after_date() {
        let df = DateTimeFilter::new(">2021/02/15", Some(2021), None).unwrap();
        assert_eq!(df.overlaps(d(2021, 01, 28)), false);
        assert_eq!(df.overlaps(d(2021, 02, 15)), false);
        assert_eq!(df.overlaps(d(2021, 02, 16)), true);
    }

#[test]
fn date_time_filter_test_date_filter_before_date() {
        let df = DateTimeFilter::new("<2021/02/15", Some(2021), None).unwrap();
        assert_eq!(df.overlaps(d(2021, 01, 28)), true);
        assert_eq!(df.overlaps(d(2021, 02, 15)), false);
        assert_eq!(df.overlaps(d(2021, 02, 16)), false);
    }

#[test]
fn date_time_filter_test_date_filter_default_year() {
        let df = DateTimeFilter::new("02/15", Some(2021), Some(02)).unwrap();
        assert_eq!(df.overlaps(d(2021, 01, 28)), false);
        assert_eq!(df.overlaps(d(2021, 02, 15)), true);
        assert_eq!(df.overlaps(d(2021, 02, 16)), false);
    }

#[test]
fn test_date_time_range_filter_default_year_with_hour_minute() {
        let df = DateTimeFilter::new("02/15T15h05-02/16T02:03", Some(2021), Some(02)).unwrap();
        assert_eq!(df.overlaps(d(2021, 01, 28)), false);
        assert_eq!(df.overlaps(d(2021, 02, 15)), true);
        assert_eq!(df.overlaps(d(2021, 02, 17)), false);
        assert_eq!(df.contains(dt(2021, 02, 15, 15, 02, 0)), false);
        assert_eq!(df.contains(dt(2021, 02, 15, 15, 09, 0)), true);
        assert_eq!(df.contains(dt(2020, 12, 31, 23, 59, 0)), false);
    }

#[test]
fn test_date_time_range_filter_default_year_with_hour_minute_second() {
        let df = DateTimeFilter::new("02/15T23:45:53-02/16T0:0:05", Some(2021), Some(02)).unwrap();
        assert_eq!(df.overlaps(d(2021, 01, 28)), false);
        assert_eq!(df.overlaps(d(2021, 02, 14)), false);
        assert_eq!(df.overlaps(d(2021, 02, 15)), true);
        assert_eq!(df.overlaps(d(2021, 02, 17)), false);
        assert_eq!(df.contains(dt(2021, 02, 15, 15, 02, 05)), false);
        assert_eq!(df.contains(dt(2021, 02, 15, 15, 09, 05)), false);
        assert_eq!(df.contains(dt(2020, 12, 31, 23, 59, 05)), false);
        assert_eq!(df.contains(dt(2021, 02, 15, 23, 40, 05)), false);
        assert_eq!(df.contains(dt(2021, 02, 15, 23, 45, 50)), false);
        assert_eq!(df.contains(dt(2021, 02, 15, 23, 45, 53)), true);
        assert_eq!(df.contains(dt(2021, 02, 15, 23, 45, 54)), true);
        assert_eq!(df.contains(dt(2021, 02, 16, 00, 00, 04)), true);
        assert_eq!(df.contains(dt(2021, 02, 16, 00, 00, 05)), true);
        assert_eq!(df.contains(dt(2021, 02, 16, 00, 00, 06)), false);
    }

#[test]
fn date_time_filter_test_date_filter_default_month_year() {
        let df = DateTimeFilter::new("15", Some(2021), Some(02)).unwrap();
        assert_eq!(df.overlaps(d(2021, 01, 28)), false);
        assert_eq!(df.overlaps(d(2021, 02, 15)), true);
        assert_eq!(df.overlaps(d(2021, 02, 16)), false);
        assert_eq!(df.contains(dt(2021, 01, 14, 23, 59, 0)), false);
        assert_eq!(df.contains(dt(2021, 02, 15, 0, 0, 0)), true);
        assert_eq!(df.contains(dt(2021, 02, 15, 23, 59, 0)), true);
        assert_eq!(df.contains(dt(2021, 02, 16, 0, 0, 0)), false);
    }

#[test]
fn date_time_filter_test_date_filter_month() {
        let df = DateTimeFilter::new("2021/02", Some(2021), Some(02)).unwrap();
        assert_eq!(df.overlaps(d(2021, 01, 28)), false);
        assert_eq!(df.overlaps(d(2021, 02, 15)), true);
        assert_eq!(df.overlaps(d(2021, 03, 01)), false);
    }

#[test]
fn date_time_filter_test_date_filter_year() {
        let df = DateTimeFilter::new("2021", Some(2021), Some(02)).unwrap();
        assert_eq!(df.overlaps(d(2020, 12, 28)), false);
        assert_eq!(df.overlaps(d(2021, 01, 28)), true);
        assert_eq!(df.overlaps(d(2021, 02, 15)), true);
        assert_eq!(df.overlaps(d(2022, 03, 01)), false);
        assert_eq!(df.contains(dt(2021, 02, 15, 23, 59, 0)), true);
        assert_eq!(df.contains(dt(2021, 12, 24, 23, 59, 0)), true);
        assert_eq!(df.contains(dt(2022, 01, 01, 0, 0, 0)), false);
        assert_eq!(df.contains(dt(2020, 12, 31, 23, 59, 0)), false);
    }

#[test]
fn instant_filters_overlap_their_own_day() {
    let df = DateTimeFilter::new(">2021/02/15T10:00:00", None, None).unwrap();
    assert!(df.contains(dt(2021, 2, 15, 12, 0, 0)));
    assert!(df.overlaps(d(2021, 2, 15)));
    assert!(!df.overlaps(d(2021, 2, 14)));
    let df = DateTimeFilter::new("<2021/02/15T10:00:00", None, None).unwrap();
    assert!(df.contains(dt(2021, 2, 15, 9, 0, 0)));
    assert!(df.overlaps(d(2021, 2, 15)));
    assert!(!df.overlaps(d(2021, 2, 16)));
}
