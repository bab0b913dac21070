use rhit::date_time::{Date, DateTime, Time};
use rhit::date_time_filter::DateTimeFilter;
use rhit::filterer::Key;
use rhit::options::{Output, ParseKeyError, ParseOutputError, Table, Tables};
use rhit::section::View;

#[test]
fn keys() {
    assert_eq!(Key::from_str("hits").unwrap(), Key::Hits);
    assert_eq!(Key::from_str("H").unwrap(), Key::Hits);
    assert_eq!(Key::from_str("Bytes").unwrap(), Key::Bytes);
    assert_eq!(Key::from_str("kilo"), Err(ParseKeyError::UnrecognizedKey("kilo".to_string())));
}

#[test]
fn outputs() {
    assert_eq!(Output::from_str("RAW").unwrap(), Output::Raw);
    assert_eq!(Output::from_str("tbl").unwrap(), Output::Tables);
    assert_eq!(Output::from_str("c").unwrap(), Output::Csv);
    assert_eq!(Output::from_str("json").unwrap(), Output::Json);
    assert_eq!(Output::from_str("xml"), Err(ParseOutputError::UnrecognizedValue("xml".to_string())));
}

#[test]
fn tables() {
    assert_eq!(Tables::from_arg_value("all").unwrap(), Tables::all());
    assert_eq!(
        Tables::from_arg_value("Dates,STATUS,remote_addr").unwrap(),
        Tables(vec![Table::Dates, Table::Status, Table::RemoteAddresses]),
    );
    assert_eq!(Tables::from_arg_value("paths,method").unwrap(), Tables(vec![Table::Paths, Table::Methods]));
    assert_eq!(Tables::from_arg_value("paths,zzz").unwrap_err(), "Unrecognized table : \"zzz\"");
    assert_eq!(Tables::default().0.len(), 5);
}

#[test]
fn view_limits() {
    assert_eq!(View::Full.limit(), 100);
    assert_eq!(View::Limited(7).limit(), 7);
}

#[test]
fn dates_written_and_read_back() {
    let d = Date::new(2021, 2, 5).unwrap();
    assert_eq!(d.to_string(), "2021/02/05");
    let t = Time::new(7, 3, 9).unwrap();
    assert_eq!(t.to_string(), "07:03:09");
    let dt = DateTime { date: d, time: t };
    assert_eq!(dt.to_string(), "2021/02/05T07:03:09");
    let f = DateTimeFilter::new(&d.to_string(), Some(1999), Some(1)).unwrap();
    assert_eq!(f, DateTimeFilter::PreciseDate(d));
    let f = DateTimeFilter::new(&dt.to_string(), None, None).unwrap();
    assert_eq!(f, DateTimeFilter::PreciseDateTime(dt));
}
