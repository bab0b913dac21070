use rhit::log_line::{LogLine, Method, ParseLogError};

static SIO_PULL_LINE: &str = r#"10.232.28.160 - - [22/Jan/2021:02:49:30 +0000] "GET /socket.io/?EIO=3&transport=polling&t=NSd_nu- HTTP/1.1" 200 99 "https://miaou.dystroy.org/3" "Mozilla/5.0 (X11; Linux x86_64) AppleWebKit/537.36 (KHTML, like Gecko) Chrome/73.0.3683.103 Safari/537.36""#;

#[test]
fn parse_sio_line() {
    let ll = LogLine::from_str(SIO_PULL_LINE).unwrap();
    assert_eq!(&*ll.remote_addr, "10.232.28.160");
    assert_eq!(ll.method, Method::Get);
    assert_eq!(&*ll.path, "/socket.io/");
    assert_eq!(ll.status, 200);
    assert_eq!(ll.bytes_sent, 99);
    assert_eq!(&*ll.referer, "https://miaou.dystroy.org/3");
}

static NO_VERB_LINE: &str = r#"119.142.145.250 - - [10/Jan/2021:10:27:01 +0000] "\x16\x03\x01\x00u\x01\x00\x00q\x03\x039a\xDF\xCA\x90\xB1\xB4\xC2SB\x96\xF0\xB7\x96CJD\xE1\xBF\x0E\xE1Y\xA2\x87v\x1D\xED\xBDo\x05A\x9D\x00\x00\x1A\xC0/\xC0+\xC0\x11\xC0\x07\xC0\x13\xC0\x09\xC0\x14\xC0" 400 173 "-" "-""#;

#[test]
fn parse_no_method_line() {
    let ll = LogLine::from_str(NO_VERB_LINE).unwrap();
    assert_eq!(ll.method, Method::Missing);
    assert_eq!(ll.status, 400);
    assert_eq!(ll.bytes_sent, 173);
}

static ISSUE_3_LINE: &str = r#"0.0.0.0 - - [2021-03-03T09:08:37+08:00] "GET /zhly/assets/guide/audit-opinion.png HTTP/1.1" 200 3911 "http://0.0.0.0:8091/zhly/" "Mozilla/5.0 (Windows NT 10.0; Win64; x64) AppleWebKit/537.36 (KHTML, like Gecko) Chrome/90.0.4427.5 Safari/537.36" "-""#;

#[test]
fn parse_issue_3_line() {
    let ll = LogLine::from_str(ISSUE_3_LINE).unwrap();
    assert_eq!(&*ll.remote_addr, "0.0.0.0");
    assert_eq!(ll.method, Method::Get);
    assert_eq!(ll.status, 200);
}

#[test]
fn parsed_line_fields() {
    let ll = LogLine::from_str(ISSUE_3_LINE).unwrap();
    assert_eq!(ll.date().year, 2021);
    assert_eq!(ll.date().month, 3);
    assert_eq!(ll.time().hour, 9);
    assert_eq!(ll.bytes_sent, 3911);
    assert_eq!(&*ll.path, "/zhly/assets/guide/audit-opinion.png");
    assert!(ll.is_resource());
    assert!(!LogLine::from_str(SIO_PULL_LINE).unwrap().is_resource());
}

#[test]
fn malformed_lines() {
    assert_eq!(LogLine::from_str("garbage").unwrap_err(), ParseLogError::CharNotFound(' '));
    assert_eq!(LogLine::from_str("1.2.3.4 - - no date").unwrap_err(), ParseLogError::CharNotFound('['));
    assert_eq!(
        LogLine::from_str(r#"1.2.3.4 - - [10/Jan/2021:10:27:01 +0000] "GET / HTTP/1.1" abc 12 "-""#).unwrap_err(),
        ParseLogError::IntExpected,
    );
    assert!(matches!(
        LogLine::from_str(r#"1.2.3.4 - - [10/Jan/2021:10:27:0] "GET / HTTP/1.1" 200 12 "-""#),
        Err(ParseLogError::InvalidDateTime(_)),
    ));
}

#[test]
fn method_names() {
    assert_eq!(Method::from("POST"), Method::Post);
    assert_eq!(Method::from("none"), Method::Missing);
    assert_eq!(Method::from(""), Method::Missing);
    assert_eq!(Method::from("SSTP_DUPLEX_POST"), Method::Other);
}
