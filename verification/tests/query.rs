use sample_api::filter::FilterMap;
use sample_api::query::{build, parse_limit};
use sample_api::QueryError;

const BASE: &str = "SELECT moisture, humidity, temperature, DateTime, uuid FROM samples";

#[test]
fn build_no_filters_is_base_statement_with_ordering() {
    let m = FilterMap::new();
    let stmt = build(&m).unwrap();
    assert_eq!(stmt.sql().as_str(), format!("{} ORDER BY DateTime DESC", BASE));
    assert!(stmt.params().is_empty());
    assert!(stmt.limit().is_none());
}

#[test]
fn build_unrecognized_filters_apply_nothing() {
    let mut m = FilterMap::new();
    m.insert("color".to_owned(), "green".to_owned());
    let stmt = build(&m).unwrap();
    assert_eq!(stmt.sql().as_str(), format!("{} ORDER BY DateTime DESC", BASE));
    assert!(stmt.params().is_empty());
    assert!(stmt.limit().is_none());
}

#[test]
fn build_from_alone_applies_no_range() {
    let mut m = FilterMap::new();
    m.insert("from".to_owned(), "2020-01-01".to_owned());
    let stmt = build(&m).unwrap();
    assert_eq!(stmt.sql().as_str(), format!("{} ORDER BY DateTime DESC", BASE));
    assert!(stmt.params().is_empty());
}

#[test]
fn build_to_alone_applies_no_range() {
    let mut m = FilterMap::new();
    m.insert("to".to_owned(), "2020-01-02".to_owned());
    let stmt = build(&m).unwrap();
    assert_eq!(stmt.sql().as_str(), format!("{} ORDER BY DateTime DESC", BASE));
    assert!(stmt.params().is_empty());
}

#[test]
fn build_range_binds_both_values() {
    let mut m = FilterMap::new();
    m.insert("from".to_owned(), "2020-01-01".to_owned());
    m.insert("to".to_owned(), "2020-01-02".to_owned());
    let stmt = build(&m).unwrap();
    assert_eq!(
        stmt.sql().as_str(),
        format!("{} WHERE DateTime BETWEEN ? AND ? ORDER BY DateTime DESC", BASE)
    );
    assert_eq!(stmt.params().len(), 2);
    assert_eq!(stmt.params()[0], "2020-01-01");
    assert_eq!(stmt.params()[1], "2020-01-02");
    assert!(stmt.limit().is_none());
}

#[test]
fn build_limit_is_validated_and_bound() {
    let mut m = FilterMap::new();
    m.insert("limit".to_owned(), "2".to_owned());
    let stmt = build(&m).unwrap();
    assert_eq!(
        stmt.sql().as_str(),
        format!("{} ORDER BY DateTime DESC LIMIT ?", BASE)
    );
    assert!(stmt.params().is_empty());
    assert_eq!(stmt.limit(), Some(2));
}

#[test]
fn build_range_and_limit_together() {
    let mut m = FilterMap::new();
    m.insert("from".to_owned(), "a".to_owned());
    m.insert("to".to_owned(), "b".to_owned());
    m.insert("limit".to_owned(), "10".to_owned());
    let stmt = build(&m).unwrap();
    assert_eq!(
        stmt.sql().as_str(),
        format!("{} WHERE DateTime BETWEEN ? AND ? ORDER BY DateTime DESC LIMIT ?", BASE)
    );
    assert_eq!(stmt.params().len(), 2);
    assert_eq!(stmt.limit(), Some(10));
}

#[test]
fn build_non_numeric_limit_is_rejected() {
    let mut m = FilterMap::new();
    m.insert("limit".to_owned(), "abc".to_owned());
    assert_eq!(build(&m).unwrap_err(), QueryError::InvalidLimit);
}

#[test]
fn build_partially_numeric_limit_is_rejected() {
    let mut m = FilterMap::new();
    m.insert("limit".to_owned(), "12a".to_owned());
    assert_eq!(build(&m).unwrap_err(), QueryError::InvalidLimit);
}

#[test]
fn build_negative_limit_is_rejected() {
    let mut m = FilterMap::new();
    m.insert("limit".to_owned(), "-1".to_owned());
    assert_eq!(build(&m).unwrap_err(), QueryError::InvalidLimit);
}

#[test]
fn build_empty_limit_is_rejected() {
    let mut m = FilterMap::new();
    m.insert("limit".to_owned(), "".to_owned());
    assert_eq!(build(&m).unwrap_err(), QueryError::InvalidLimit);
}

#[test]
fn parse_limit_values() {
    assert_eq!(parse_limit("0").unwrap(), 0);
    assert_eq!(parse_limit("007").unwrap(), 7);
    assert_eq!(parse_limit("42").unwrap(), 42);
    assert_eq!(parse_limit("18446744073709551615").unwrap(), u64::MAX);
}

#[test]
fn parse_limit_overflow_is_rejected() {
    assert_eq!(
        parse_limit("18446744073709551616").unwrap_err(),
        QueryError::InvalidLimit
    );
    assert_eq!(
        parse_limit("99999999999999999999999").unwrap_err(),
        QueryError::InvalidLimit
    );
}
