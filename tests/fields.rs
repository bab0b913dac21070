use rhit::fields::{Field, Fields, ParseFieldError};

#[test]
fn parse_fields_explicit() {
        assert_eq!(
            Fields::from_str("paths").unwrap(),
            Fields(vec![Field::Paths]),
        );
        assert_eq!(
            Fields::from_str("p").unwrap(),
            Fields(vec![Field::Paths]),
        );
        assert_eq!(
            Fields::from_str("ip,date,ref").unwrap(),
            Fields(vec![Field::Ip, Field::Dates, Field::Referers]),
        );
        assert_eq!(
            Fields::from_str("ip+date+ref").unwrap(),
            Fields(vec![Field::Ip, Field::Dates, Field::Referers]),
        );
        assert_eq!(
            Fields::from_str("i,d,ref").unwrap(),
            Fields(vec![Field::Ip, Field::Dates, Field::Referers]),
        );
        assert_eq!(
            Fields::from_str("i+d+r").unwrap(),
            Fields(vec![Field::Ip, Field::Dates, Field::Referers]),
        );
        assert_eq!(
            Fields::from_str("method,status,ip,date,ref").unwrap(),
            Fields(vec![Field::Methods, Field::Status, Field::Ip, Field::Dates, Field::Referers]),
        );
    }

#[test]
fn parse_fields_no_duplicate() {
        assert_eq!(
            Fields::from_str("paths,p").unwrap(),
            Fields(vec![Field::Paths]),
        );
        assert_eq!(
            Fields::from_str("referer,method,status,ip,date,ref").unwrap(),
            Fields(vec![Field::Methods, Field::Status, Field::Ip, Field::Dates, Field::Referers]),
        );
    }

#[test]
fn parse_fields_all() {
        assert_eq!(
            Fields::from_str("a").unwrap(),
            Fields(vec![Field::Dates, Field::Times, Field::Methods, Field::Status, Field::Ip, Field::Referers, Field::Paths]),
        );
        assert_eq!(
            Fields::from_str("all").unwrap(),
            Fields(vec![Field::Dates, Field::Times, Field::Methods, Field::Status, Field::Ip, Field::Referers, Field::Paths]),
        );
    }

#[test]
fn parse_fields_add_remove_to_default() {
        assert_eq!(
            Fields::from_str("+r+i").unwrap(),
            Fields(vec![Field::Dates, Field::Status, Field::Paths, Field::Referers, Field::Ip]),
        );
        assert_eq!(
            Fields::from_str("+s,m").unwrap(),
            Fields(vec![Field::Dates, Field::Referers, Field::Paths, Field::Status, Field::Methods]),
        );
        assert_eq!(
            Fields::from_str("+ip-path").unwrap(),
            Fields(vec![Field::Dates, Field::Status, Field::Referers, Field::Ip]),
        );
        assert_eq!(
            Fields::from_str("-p+i,").unwrap(),
            Fields(vec![Field::Dates, Field::Status, Field::Referers, Field::Ip]),
        );
        assert_eq!(
            Fields::from_str("+i,").unwrap(),
            Fields(vec![Field::Dates, Field::Status, Field::Referers, Field::Paths, Field::Ip]),
        );
        assert_eq!(
            Fields::from_str("-date-p").unwrap(),
            Fields(vec![Field::Status, Field::Referers]),
        );
        assert_eq!(
            Fields::from_str("-d-p+i+p+m").unwrap(),
            Fields(vec![Field::Status, Field::Referers, Field::Ip, Field::Paths, Field::Methods]),
        );
    }

#[test]
fn parse_fields_algebric_no_default() {
        assert_eq!(
            Fields::from_str("all+ref+i").unwrap(),
            Fields(vec![Field::Dates, Field::Times, Field::Methods, Field::Status, Field::Paths, Field::Referers, Field::Ip]),
        );
        assert_eq!(
            Fields::from_str("all-ref-i").unwrap(),
            Fields(vec![Field::Dates, Field::Times, Field::Methods, Field::Status, Field::Paths]),
        );
        assert_eq!(
            Fields::from_str("s-m").unwrap(),
            Fields(vec![Field::Status]),
        );
        assert_eq!(
            Fields::from_str("all-i,").unwrap(),
            Fields(vec![Field::Dates, Field::Times, Field::Methods, Field::Status, Field::Referers, Field::Paths]),
        );
        assert_eq!(
            Fields::from_str("all-date-p").unwrap(),
            Fields(vec![Field::Times, Field::Methods, Field::Status, Field::Ip, Field::Referers]),
        );
    }

#[test]
fn parse_fields_unknown() {
    assert_eq!(Fields::from_str("paths,zzz"), Err(ParseFieldError::UnrecognizedFieldStart('z')));
    assert_eq!(Fields::from_str("PATHS").unwrap(), Fields(vec![Field::Paths]));
}

#[test]
fn fields_add_remove_contains() {
    let mut f = Fields::default();
    assert!(f.contains(Field::Paths));
    f.remove(Field::Paths);
    assert!(!f.contains(Field::Paths));
    f.add(Field::Dates);
    assert_eq!(f, Fields(vec![Field::Status, Field::Referers, Field::Dates]));
}
