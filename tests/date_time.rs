use rhit::date_time::{Date, DateTime, ParseDateTimeError, Time};
use rhit::date_filter::unique_year_month;

#[test]
fn date_parse_nginx_date_common_log_format() {
    assert_eq!(
        Date::from_nginx("10/Jan/2021:10:27:01 +0000").unwrap(),
        Date::new(2021, 1, 10).unwrap(),
    );
}

#[test]
fn date_parse_nginx_date_iso_8601() {
    assert_eq!(
        Date::from_nginx("1977-04-22T01:00:00-05:00").unwrap(),
        Date::new(1977, 4, 22).unwrap(),
    );
}

#[test]
fn date_time_parse_nginx_date_common_log_format() {
    assert_eq!(
        DateTime::from_nginx("10/Jan/2021:11:27:02 +0000").unwrap(),
        DateTime::new(2021, 1, 10, 11, 27, 2).unwrap(),
    );
}

#[test]
fn date_time_parse_nginx_date_iso_8601() {
    assert_eq!(
        DateTime::from_nginx("1977-04-22T12:51:23-05:00").unwrap(),
        DateTime::new(1977, 4, 22, 12, 51, 23).unwrap(),
    );
}

#[test]
fn both_encodings_give_the_same_instant() {
    let a = DateTime::from_nginx("10/Jan/2021:11:27:02 +0000").unwrap();
    let b = DateTime::from_nginx("2021-01-10T11:27:02-00:00").unwrap();
    assert_eq!(a, b);
    assert_eq!(a.date.year, 2021);
    assert_eq!(a.date.month, 1);
    assert_eq!(a.date.day, 10);
    assert_eq!(a.time.hour, 11);
    assert_eq!(a.time.minute, 27);
    assert_eq!(a.time.second, 2);
}

#[test]
fn date_new_checks_ranges() {
    for month in 1..=12u8 {
        for day in 1..=31u8 {
            assert!(Date::new(2021, month, day).is_ok());
        }
    }
    assert_eq!(Date::new(2021, 1, 0), Err(ParseDateTimeError::InvalidDay(0)));
    assert_eq!(Date::new(2021, 1, 32), Err(ParseDateTimeError::InvalidDay(32)));
    assert_eq!(Date::new(2021, 0, 1), Err(ParseDateTimeError::InvalidMonth(0)));
    assert_eq!(Date::new(2021, 13, 1), Err(ParseDateTimeError::InvalidMonth(13)));
}

#[test]
fn time_new_checks_ranges() {
    assert!(Time::new(23, 59, 59).is_ok());
    assert_eq!(Time::new(24, 0, 0), Err(ParseDateTimeError::InvalidHour(24)));
    assert_eq!(Time::new(0, 60, 0), Err(ParseDateTimeError::InvalidMinute(60)));
    assert_eq!(Time::new(0, 0, 60), Err(ParseDateTimeError::InvalidSecond(60)));
}

#[test]
fn timestamp_errors() {
    assert_eq!(DateTime::from_nginx("10/Jan/2021"), Err(ParseDateTimeError::UnexpectedEnd));
    assert_eq!(
        DateTime::from_nginx("10/Jab/2021:11:27:02 +0000"),
        Err(ParseDateTimeError::UnrecognizedMonth("10/Jab/2021:11:27:02 +0000".to_string())),
    );
    assert_eq!(DateTime::from_nginx("1x/Jan/2021:11:27:02 +0000"), Err(ParseDateTimeError::IntExpected));
    assert_eq!(DateTime::from_nginx("2021-13-10T11:27:02-00:00"), Err(ParseDateTimeError::InvalidMonth(13)));
    assert_eq!(DateTime::from_nginx("2021-01-10T24:27:02-00:00"), Err(ParseDateTimeError::InvalidHour(24)));
}

#[test]
fn round_up_and_down() {
    let d = Date::new(2021, 2, 15).unwrap();
    assert_eq!(DateTime::round_up(d, None), DateTime::new(2021, 2, 15, 23, 59, 59).unwrap());
    assert_eq!(DateTime::round_down(d, None), DateTime::new(2021, 2, 15, 0, 0, 0).unwrap());
    let t = Time::new(3, 4, 5).unwrap();
    assert_eq!(DateTime::round_up(d, Some(t)).time, t);
}

#[test]
fn date_with_implicit_parts() {
    assert_eq!(Date::with_implicit("2020/03/04", None, None).unwrap(), Date::new(2020, 3, 4).unwrap());
    assert_eq!(Date::with_implicit("03/04", Some(2021), None).unwrap(), Date::new(2021, 3, 4).unwrap());
    assert_eq!(Date::with_implicit("4", Some(2021), Some(3)).unwrap(), Date::new(2021, 3, 4).unwrap());
    assert_eq!(
        Date::with_implicit("4", Some(2021), None),
        Err(ParseDateTimeError::AmbiguousDate("4".to_string())),
    );
}

#[test]
fn unique_year_and_month() {
    let a = Date::new(2021, 1, 3).unwrap();
    let b = Date::new(2021, 1, 30).unwrap();
    let c = Date::new(2021, 2, 1).unwrap();
    let e = Date::new(2022, 1, 1).unwrap();
    assert_eq!(unique_year_month(a, b), (Some(2021), Some(1)));
    assert_eq!(unique_year_month(a, c), (Some(2021), None));
    assert_eq!(unique_year_month(a, e), (None, None));
}

#[test]
fn time_from_str() {
    assert_eq!(Time::from_str("22").unwrap(), Time::new(22, 0, 0).unwrap());
    assert_eq!(Time::from_str("22:15").unwrap(), Time::new(22, 15, 0).unwrap());
    assert_eq!(Time::from_str("2"), Err(ParseDateTimeError::UnexpectedEnd));
}

#[test]
fn unknown_month_is_reported_before_a_bad_day() {
    assert_eq!(
        DateTime::from_nginx("xx/Foo/2021:11:27:02 +0000"),
        Err(ParseDateTimeError::UnrecognizedMonth("xx/Foo/2021:11:27:02 +0000".to_string())),
    );
    assert_eq!(
        Date::from_nginx("xx/Foo/2021:11:27:02 +0000"),
        Err(ParseDateTimeError::UnrecognizedMonth("xx/Foo/2021:11:27:02 +0000".to_string())),
    );
    assert_eq!(DateTime::from_nginx("xx/Jan/2021:11:27:02 +0000"), Err(ParseDateTimeError::IntExpected));
}
