use rust_todo_cli::clock::parse_date;
use rust_todo_cli::error::TodoError;

#[test]
fn test_parse_date() {
    let result = parse_date("2025-12-31");
    assert!(result.is_ok());

    let secs = result.unwrap();
    let date = chrono::DateTime::<chrono::Utc>::from_timestamp_secs(secs).unwrap();
    assert_eq!(date.format("%Y-%m-%d").to_string(), "2025-12-31");
}

#[test]
fn test_parse_invalid_date() {
    let result = parse_date("invalid-date");
    assert!(result.is_err());

    if let Err(TodoError::InvalidDateFormat(msg)) = result {
        assert_eq!(msg, "invalid-date");
    } else {
        panic!("Expected InvalidDateFormat error");
    }
}

#[test]
fn test_parse_date_wrong_format() {
    let result = parse_date("12/31/2025");
    assert!(result.is_err());
}

#[test]
fn test_parse_date_exact_instant() {
    // 2020-01-01T23:59:59Z, the end of the named day
    assert_eq!(parse_date("2020-01-01").unwrap(), 1577923199);
}

#[test]
fn test_parse_date_rejects_impossible_days() {
    assert!(parse_date("2023-02-29").is_err());
    assert!(parse_date("2024-02-29").is_ok());
    assert!(parse_date("2023-13-01").is_err());
    assert!(parse_date("2023-04-31").is_err());
}
