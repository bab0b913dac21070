#![allow(clippy::bool_assert_comparison)]
use rhit::date_time::Time;
use rhit::log_line::Method;
use rhit::status_filter::{MethodFilter, StatusFilter, TimeFilter};
use rhit::str_filter::{ParseStrFilterError, StrFilter};

#[test]
fn status_filter_test_status_filter() {
    let sf = StatusFilter::from_str("400").unwrap();
    assert_eq!(sf.accepts(400), true);
    assert_eq!(sf.accepts(401), false);
    let sf = StatusFilter::from_str("2xx,405-512").unwrap();
    assert_eq!(sf.accepts(200), true);
    assert_eq!(sf.accepts(299), true);
    assert_eq!(sf.accepts(300), false);
    assert_eq!(sf.accepts(400), false);
    assert_eq!(sf.accepts(405), true);
    assert_eq!(sf.accepts(512), true);
    assert_eq!(sf.accepts(513), false);
    let sf = StatusFilter::from_str("4xx, ! 404").unwrap();
    assert_eq!(sf.accepts(200), false);
    assert_eq!(sf.accepts(400), true);
    assert_eq!(sf.accepts(404), false);
    assert_eq!(sf.accepts(421), true);
}

#[test]
fn status_filter_exclusion_only_and_errors() {
    let sf = StatusFilter::from_str("!5xx").unwrap();
    assert!(sf.accepts(200));
    assert!(!sf.accepts(503));
    assert!(StatusFilter::from_str("4xx,abc").is_err());
    assert!(StatusFilter::from_str("").is_err());
}

#[test]
fn test_comma() {
    let f = StrFilter::new("dystroy,!miaou").unwrap();
    assert_eq!(f.accepts("a/dystroy/b"), true);
    assert_eq!(f.accepts("a/miaou/b"), false);
    assert_eq!(f.accepts("a/miaou/dystroy"), false);
}

#[test]
fn test_comma_regex() {
    let f = StrFilter::new(r"dystroy,!m\w{3}u").unwrap();
    assert_eq!(f.accepts("a/dystroy/b"), true);
    assert_eq!(f.accepts("a/miaou/b"), false);
    assert_eq!(f.accepts("a/miaou/dystroy"), false);
}

#[test]
fn test_be() {
    let f = StrFilter::new("dystroy & !( miaou | blog )").unwrap();
    assert_eq!(f.accepts("a/dystroy/b"), true);
    assert_eq!(f.accepts("dystroy/miaou/b"), false);
    assert_eq!(f.accepts("a/blog/dystroy"), false);
    assert_eq!(f.accepts("a/blog/"), false);
}

#[test]
fn test_be_regex() {
    let f = StrFilter::new(r"^/dystroy & !( m\w{3}u | blog )").unwrap();
    assert_eq!(f.accepts("/a/dystroy/b"), false);
    assert_eq!(f.accepts("/dystroy/b"), true);
    assert_eq!(f.accepts("/dystroy/mieou/b"), false);
    assert_eq!(f.accepts("/dystroy/mieaou/b"), true);
    assert_eq!(f.accepts("/z/dystroy/mieaou/b"), false);
    assert_eq!(f.accepts("/a/blog/dystroy"), false);
    assert_eq!(f.accepts("/a/blog/"), false);
}

#[test]
fn str_filter_errors() {
    assert!(matches!(StrFilter::new("a,,b"), Err(ParseStrFilterError::InvalidPattern(_, _))));
    match StrFilter::new("miaou )") {
        Err(ParseStrFilterError::InvalidPattern(p, _)) => assert_eq!(p, "miaou )"),
        _ => panic!("expected an invalid pattern"),
    }
    assert!(matches!(StrFilter::new("a & & b"), Err(ParseStrFilterError::InvalidPattern(_, _))));
    assert!(matches!(StrFilter::new("a )"), Err(ParseStrFilterError::InvalidPattern(_, _))));
    assert!(matches!(StrFilter::new("a & "), Err(ParseStrFilterError::InvalidPattern(_, _))));
    assert!(matches!(StrFilter::new("(unclosed"), Err(ParseStrFilterError::InvalidRegex(_))));
    assert!(matches!(StrFilter::new("x,(unclosed"), Err(ParseStrFilterError::InvalidRegex(_))));
}

#[test]
fn str_filter_or_and_empty() {
    let f = StrFilter::new("blog | miaou").unwrap();
    assert!(f.accepts("/blog/x"));
    assert!(f.accepts("/miaou"));
    assert!(!f.accepts("/other"));
    let f = StrFilter::new("").unwrap();
    assert!(!f.accepts("anything"));
}

#[test]
fn method_filter() {
    let f = MethodFilter::from_string("GET");
    assert!(f.contains(Method::Get));
    assert!(!f.contains(Method::Post));
    let f = MethodFilter::from_string("!GET");
    assert!(!f.contains(Method::Get));
    assert!(f.contains(Method::Post));
}

#[test]
fn time_filter() {
    let t = |h, m| Time::new(h, m, 0).unwrap();
    let f = TimeFilter::from_str(">12").unwrap();
    assert!(f.contains(t(13, 0)));
    assert!(!f.contains(t(11, 0)));
    let f = TimeFilter::from_str("22-04").unwrap();
    assert!(f.contains(t(23, 0)));
    assert!(f.contains(t(3, 0)));
    assert!(!f.contains(t(12, 0)));
    let f = TimeFilter::from_str("08:30 - 09:15").unwrap();
    assert!(f.contains(t(9, 0)));
    assert!(!f.contains(t(9, 30)));
    assert!(TimeFilter::from_str("nonsense").is_err());
}
