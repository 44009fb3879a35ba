//! Log levels: parsing, rendering, ordering, and the emission rule.

use sptth::loglevel::{enabled, LogLevel};

#[test]
fn parse_valid_levels() {
    assert_eq!(LogLevel::parse("error").unwrap(), LogLevel::Error);
    assert_eq!(LogLevel::parse("info").unwrap(), LogLevel::Info);
    assert_eq!(LogLevel::parse("debug").unwrap(), LogLevel::Debug);
}

#[test]
fn parse_invalid_level() {
    let err = LogLevel::parse("warn").err().expect("should fail for unknown level");
    assert!(err.message().contains("invalid log_level"));
}

#[test]
fn level_ordering() {
    assert!(LogLevel::Error < LogLevel::Info);
    assert!(LogLevel::Info < LogLevel::Debug);
}

#[test]
fn as_str_roundtrip() {
    for level in [LogLevel::Error, LogLevel::Info, LogLevel::Debug] {
        assert_eq!(LogLevel::parse(level.as_str()).unwrap(), level);
    }
}

#[test]
fn emission_rule() {
    assert!(enabled(LogLevel::Error, LogLevel::Error));
    assert!(!enabled(LogLevel::Info, LogLevel::Error));
    assert!(enabled(LogLevel::Info, LogLevel::Info));
    assert!(!enabled(LogLevel::Debug, LogLevel::Info));
    assert!(enabled(LogLevel::Debug, LogLevel::Debug));
    assert!(enabled(LogLevel::Error, LogLevel::Debug));
}
