#![allow(clippy::bool_assert_comparison)]
#![allow(clippy::zero_prefixed_literal)]
use rhit::date_time::{Date, ParseDateTimeError};
use rhit::date_filter::DateFilter;

fn d(y: u16, m: u8, day: u8) -> Date {
    Date::new(y, m, day).unwrap()
}

#[test]
fn date_filter_test_date_filter_fully_defined_range() {
        let df = DateFilter::new("2021/01/03-2021/02/15", None, None).unwrap();
        assert_eq!(df.contains(d(2021, 01, 28)), true);
        assert_eq!(df.contains(d(2021, 02, 01)), true);
        assert_eq!(df.contains(d(2021, 02, 15)), true);
        assert_eq!(df.contains(d(2021, 02, 16)), false);
    }

#[test]
fn date_filter_test_date_filter_precise_date() {
        let df = DateFilter::new("2021/02/15", Some(2021), None).unwrap();
        assert_eq!(df.contains(d(2021, 01, 28)), false);
        assert_eq!(df.contains(d(2021, 02, 15)), true);
        assert_eq!(df.contains(d(2021, 02, 16)), false);
    }

#[test]
fn date_filter_test_date_filter_not_date() {
        let df = DateFilter::new("!2021/02/15", Some(2021), None).unwrap();
        assert_eq!(df.contains(d(2021, 01, 28)), true);
        assert_eq!(df.contains(d(2021, 02, 15)), false);
        assert_eq!(df.contains(d(2021, 02, 16)), true);
    }

#[test]
fn date_filter_test_date_filter_after_date_implicit_year() {
        let df = DateFilter::new(">02/15", Some(2021), None).unwrap();
        assert_eq!(df.contains(d(2020, 11, 12)), false);
        assert_eq!(df.contains(d(2021, 01, 28)), false);
        assert_eq!(df.contains(d(2021, 02, 15)), false);
        assert_eq!(df.contains(d(2021, 02, 16)), true);
    }

#[test]
fn date_filter_test_date_filter_after_date() {
        let df = DateFilter::new(">2021/02/15", Some(2021), None).unwrap();
        assert_eq!(df.contains(d(2021, 01, 28)), false);
        assert_eq!(df.contains(d(2021, 02, 15)), false);
        assert_eq!(df.contains(d(2021, 02, 16)), true);
    }

#[test]
fn date_filter_test_date_filter_before_date() {
        let df = DateFilter::new("<2021/02/15", Some(2021), None).unwrap();
        assert_eq!(df.contains(d(2021, 01, 28)), true);
        assert_eq!(df.contains(d(2021, 02, 15)), false);
        assert_eq!(df.contains(d(2021, 02, 16)), false);
    }

#[test]
fn date_filter_test_date_filter_default_year() {
        let df = DateFilter::new("02/15", Some(2021), Some(02)).unwrap();
        assert_eq!(df.contains(d(2021, 01, 28)), false);
        assert_eq!(df.contains(d(2021, 02, 15)), true);
        assert_eq!(df.contains(d(2021, 02, 16)), false);
    }

#[test]
fn date_filter_test_date_filter_default_month_year() {
        let df = DateFilter::new("15", Some(2021), Some(02)).unwrap();
        assert_eq!(df.contains(d(2021, 01, 28)), false);
        assert_eq!(df.contains(d(2021, 02, 15)), true);
        assert_eq!(df.contains(d(2021, 02, 16)), false);
    }

#[test]
fn date_filter_test_date_filter_month() {
        let df = DateFilter::new("2021/02", Some(2021), Some(02)).unwrap();
        assert_eq!(df.contains(d(2021, 01, 28)), false);
        assert_eq!(df.contains(d(2021, 02, 15)), true);
        assert_eq!(df.contains(d(2021, 03, 01)), false);
    }

#[test]
fn date_filter_test_date_filter_year() {
        let df = DateFilter::new("2021", Some(2021), Some(02)).unwrap();
        assert_eq!(df.contains(d(2020, 12, 28)), false);
        assert_eq!(df.contains(d(2021, 01, 28)), true);
        assert_eq!(df.contains(d(2021, 02, 15)), true);
        assert_eq!(df.contains(d(2022, 03, 01)), false);
    }

#[test]
fn year_of_other_digits_is_not_a_number() {
    assert_eq!(DateFilter::new("\u{662}\u{660}\u{662}\u{661}", None, None), Err(ParseDateTimeError::IntExpected));
}
