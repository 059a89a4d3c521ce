use todo_queue::models::{Priority, TodoError};
use todo_queue::text::is_pure_numeric;
use todo_queue::timeparse::{parse_due_time, parse_interval, parse_priority};

const NOW: i64 = 1_700_000_000;

#[test]
fn parse_due_relative_hours() {
    assert_eq!(parse_due_time("2h", NOW), Ok(Some(NOW + 2 * 3600)));
    assert_eq!(parse_due_time("0h", NOW), Ok(Some(NOW)));
    assert_eq!(parse_due_time("-2h", NOW), Ok(Some(NOW - 2 * 3600)));
}

#[test]
fn parse_due_relative_days_and_weeks() {
    assert_eq!(parse_due_time("3d", NOW), Ok(Some(NOW + 3 * 86400)));
    assert_eq!(parse_due_time("1w", NOW), Ok(Some(NOW + 604800)));
}

#[test]
fn parse_due_relative_bad_count_fails() {
    assert_eq!(parse_due_time("xh", NOW), Err(TodoError::InvalidTimeFormat));
    assert_eq!(parse_due_time("1.5d", NOW), Err(TodoError::InvalidTimeFormat));
    assert_eq!(parse_due_time("w", NOW), Err(TodoError::InvalidTimeFormat));
}

#[test]
fn parse_due_empty_means_no_due_date() {
    assert_eq!(parse_due_time("", NOW), Ok(None));
}

#[test]
fn parse_due_unrecognized_fails() {
    assert_eq!(
        parse_due_time("not-a-date", NOW),
        Err(TodoError::InvalidTimeFormat)
    );
}

#[test]
fn parse_due_date_only_is_end_of_day_utc() {
    // 2024-01-01 starts at 1704067200; end of day is 23:59:59.
    assert_eq!(parse_due_time("2024-01-01", NOW), Ok(Some(1_704_153_599)));
    // Cross-check the expected instant with chrono directly.
    let dt = chrono::DateTime::parse_from_rfc3339("2024-01-01T23:59:59Z").unwrap();
    assert_eq!(dt.timestamp(), 1_704_153_599);
}

#[test]
fn parse_due_rfc3339_folds_offset_to_utc() {
    assert_eq!(
        parse_due_time("2024-01-01T12:00:00+02:00", NOW),
        Ok(Some(1_704_103_200))
    );
    assert_eq!(
        parse_due_time("2024-01-01T10:00:00Z", NOW),
        Ok(Some(1_704_103_200))
    );
}

#[test]
fn parse_due_date_and_minute_is_exact_utc_instant() {
    assert_eq!(
        parse_due_time("2024-01-01 10:00", NOW),
        Ok(Some(1_704_103_200))
    );
}

#[test]
fn parse_due_minute_only_lands_on_todays_utc_date() {
    // One hour into 2024-01-01: "10:00" means 10:00 of that same UTC day.
    let now = 1_704_067_200 + 3600;
    assert_eq!(parse_due_time("10:00", now), Ok(Some(1_704_103_200)));
    // A second before the epoch still belongs to 1969-12-31.
    assert_eq!(parse_due_time("00:30", -1), Ok(Some(-86400 + 1800)));
}

#[test]
fn parse_due_bad_clock_values_fail() {
    assert_eq!(parse_due_time("25:00", NOW), Err(TodoError::InvalidTimeFormat));
    assert_eq!(parse_due_time("12:60", NOW), Err(TodoError::InvalidTimeFormat));
}

#[test]
fn parse_interval_hours_and_minutes() {
    assert_eq!(parse_interval("2h"), Ok(120));
    assert_eq!(parse_interval("30m"), Ok(30));
    assert_eq!(parse_interval("45"), Ok(45));
}

#[test]
fn parse_interval_trims_and_ignores_case() {
    assert_eq!(parse_interval(" 60 "), Ok(60));
    assert_eq!(parse_interval("2H"), Ok(120));
    assert_eq!(parse_interval("15M"), Ok(15));
}

#[test]
fn parse_interval_rejects_junk() {
    assert_eq!(parse_interval("abc"), Err(TodoError::InvalidIntervalFormat));
    assert_eq!(parse_interval(""), Err(TodoError::InvalidIntervalFormat));
    assert_eq!(parse_interval("2x"), Err(TodoError::InvalidIntervalFormat));
}

#[test]
fn parse_interval_rejects_overflow() {
    // 100000000 hours do not fit into a u32 count of minutes.
    assert_eq!(
        parse_interval("100000000h"),
        Err(TodoError::InvalidIntervalFormat)
    );
    assert_eq!(
        parse_interval("99999999999999999999"),
        Err(TodoError::InvalidIntervalFormat)
    );
}

#[test]
fn parse_priority_ignores_case_and_defaults_to_medium() {
    assert_eq!(parse_priority("low"), Priority::Low);
    assert_eq!(parse_priority("LOW"), Priority::Low);
    assert_eq!(parse_priority("High"), Priority::High);
    assert_eq!(parse_priority("critical"), Priority::Critical);
    assert_eq!(parse_priority("medium"), Priority::Medium);
    assert_eq!(parse_priority("banana"), Priority::Medium);
    assert_eq!(parse_priority(""), Priority::Medium);
}

#[test]
fn priority_weights_are_ordered() {
    assert!(Priority::Low.weight() < Priority::Medium.weight());
    assert!(Priority::Medium.weight() < Priority::High.weight());
    assert!(Priority::High.weight() < Priority::Critical.weight());
}

#[test]
fn split_tags_trims_each_piece() {
    assert_eq!(
        todo_queue::text::split_tags("home, urgent ,  errands"),
        vec!["home".to_string(), "urgent".to_string(), "errands".to_string()]
    );
    assert_eq!(todo_queue::text::split_tags("solo"), vec!["solo".to_string()]);
    assert_eq!(todo_queue::text::split_tags(""), vec![String::new()]);
    assert_eq!(
        todo_queue::text::split_tags("a,,b"),
        vec!["a".to_string(), String::new(), "b".to_string()]
    );
}

#[test]
fn pure_numeric_detection() {
    assert!(is_pure_numeric("123"));
    assert!(is_pure_numeric("0"));
    assert!(!is_pure_numeric(""));
    assert!(!is_pure_numeric("12a"));
    assert!(!is_pure_numeric("1 2"));
}
