use overtime::shifts_from_line;
use overtime::total_time_from_buffer;
use overtime::Duration;
use overtime::Error;

#[test]
fn calculates_a_single_day_appropriately() {
    let lines = vec![Some(String::from("12:00-16:00 / 19:00-00:50 / 01:30-01:50"))];
    assert_eq!(
        total_time_from_buffer(&lines, 10),
        Ok(Duration::from_minutes(600))
    );
}

#[test]
fn calculates_multiple_days_appropriately() {
    let lines = vec![
        Some(String::from("12:00-16:00 / 19:00-00:50 / 01:30-01:50")),
        Some(String::from("12:30-17:00 / 19:00-23:50")),
    ];
    assert_eq!(
        total_time_from_buffer(&lines, 10),
        Ok(Duration::from_minutes(1160))
    );
}

#[test]
fn calculates_multiple_weeks_and_subtracts_weekly_time() {
    let lines = vec![
        Some(String::from("12:00-16:00 / 19:00-00:50 / 01:30-01:50")),
        Some(String::from("12:30-17:00 / 19:00-23:50")),
        Some(String::from("")),
        Some(String::from("12:30-17:00 / 19:00-23:50")),
        Some(String::from("12:00-16:00 / 19:00-00:50 / 01:30-01:50")),
    ];
    assert_eq!(
        total_time_from_buffer(&lines, 10),
        Ok(Duration::from_minutes(2320))
    );
}

#[test]
fn empty_input_still_deducts_the_open_week() {
    let lines: Vec<Option<String>> = Vec::new();
    assert_eq!(
        total_time_from_buffer(&lines, 10),
        Ok(Duration::from_minutes(-10))
    );
}

#[test]
fn comment_lines_contribute_nothing_anywhere() {
    let plain = vec![
        Some(String::from("12:00-16:00")),
        Some(String::from("")),
        Some(String::from("13:00-14:00")),
    ];
    let commented = vec![
        Some(String::from("# leading comment")),
        Some(String::from("12:00-16:00")),
        Some(String::from("   # indented comment")),
        Some(String::from("")),
        Some(String::from("// slash comment / with / separators")),
        Some(String::from("13:00-14:00")),
        Some(String::from("#")),
    ];
    let expected = Ok(Duration::from_minutes(240 - 10 + 60 - 10));
    assert_eq!(total_time_from_buffer(&plain, 10), expected);
    assert_eq!(total_time_from_buffer(&commented, 10), expected);
}

#[test]
fn a_whitespace_only_line_is_a_week_boundary() {
    let lines = vec![
        Some(String::from("12:00-16:00")),
        Some(String::from("   ")),
        Some(String::from("13:00-14:00")),
    ];
    assert_eq!(
        total_time_from_buffer(&lines, 10),
        Ok(Duration::from_minutes(240 - 10 + 60 - 10))
    );
}

#[test]
fn an_empty_token_inside_a_line_deducts_a_week() {
    let lines = vec![Some(String::from("12:00-13:00 / / 14:00-15:00"))];
    assert_eq!(
        total_time_from_buffer(&lines, 10),
        Ok(Duration::from_minutes(60 - 10 + 60 - 10))
    );
}

#[test]
fn an_unreadable_line_fails_the_whole_aggregation() {
    let lines = vec![Some(String::from("12:00-16:00")), None];
    assert_eq!(
        total_time_from_buffer(&lines, 10),
        Err(Error(String::from(
            "Error occurred while trying to read a line from file"
        )))
    );
}

#[test]
fn a_malformed_token_fails_the_whole_aggregation() {
    let lines = vec![
        Some(String::from("12:00-16:00 / nope")),
        Some(String::from("13:00-14:00")),
    ];
    assert_eq!(
        total_time_from_buffer(&lines, 10),
        Err(Error(String::from(
            "Expected shift: nope to be formated like 12:30-17:00"
        )))
    );
}

#[test]
fn shifts_from_line_splits_and_trims() {
    assert_eq!(
        shifts_from_line(Some("  12:30-17:00 / 19:00-23:50 ")),
        Ok(vec![
            String::from("12:30-17:00"),
            String::from("19:00-23:50")
        ])
    );
    assert_eq!(shifts_from_line(Some("")), Ok(vec![String::new()]));
    assert_eq!(shifts_from_line(Some("# comment")), Ok(Vec::new()));
    assert_eq!(shifts_from_line(Some("// comment")), Ok(Vec::new()));
    assert_eq!(
        shifts_from_line(None),
        Err(Error(String::from(
            "Error occurred while trying to read a line from file"
        )))
    );
}
