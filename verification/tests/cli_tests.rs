use sniffy::cli::Cli;
use sniffy::error::SniffyError;

fn base_cli() -> Cli {
    Cli {
        paths: vec![".".to_string()],
        hidden: false,
        verbose: false,
        history: false,
        since: None,
        until: None,
        last: None,
        by_day: false,
        by_week: false,
        author: None,
        format: "table".to_string(),
        jobs: 0,
        no_color: false,
    }
}

#[test]
fn test_validate_ok() {
    assert!(base_cli().validate().is_ok());
    let mut c = base_cli();
    c.format = "JSON".to_string();
    assert!(c.validate().is_ok());
    let mut c = base_cli();
    c.history = true;
    c.by_week = true;
    assert!(c.validate().is_ok());
}

#[test]
fn test_validate_by_day_and_by_week_conflict() {
    let mut c = base_cli();
    c.history = true;
    c.by_day = true;
    c.by_week = true;
    assert_eq!(
        c.validate().unwrap_err(),
        "Cannot use both --by-day and --by-week"
    );
}

#[test]
fn test_validate_history_flags_require_history() {
    let mut c = base_cli();
    c.since = Some("2024-01-15".to_string());
    assert_eq!(
        c.validate().unwrap_err(),
        "History-related flags (--since, --until, --last, --by-day, --by-week, --author) require --history"
    );
}

#[test]
fn test_validate_invalid_format() {
    let mut c = base_cli();
    c.format = "yaml".to_string();
    assert_eq!(
        c.validate().unwrap_err(),
        "Invalid format 'yaml'. Supported formats: table, json, csv"
    );
}

#[test]
fn test_error_messages() {
    assert_eq!(
        SniffyError::Io("boom".to_string()).message(),
        "IO error: boom"
    );
    assert_eq!(
        SniffyError::InvalidPath("/nope".to_string()).message(),
        "Invalid path: /nope"
    );
    assert_eq!(
        SniffyError::EncodingError {
            path: "a.rs".to_string(),
            line: 12,
        }
        .message(),
        "Encoding error in file a.rs at line 12"
    );
    assert_eq!(
        SniffyError::ProcessingError {
            path: "b.rs".to_string(),
            message: "bad".to_string(),
        }
        .message(),
        "Error processing b.rs: bad"
    );
}
