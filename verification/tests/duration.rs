use overtime::Duration;
use overtime::Error;

#[test]
fn it_assign_adds_correctly() {
    let mut duration = Duration::from_minutes(-50);
    duration.add_assign(Duration::from_minutes(550));
    assert_eq!(duration, Duration::from_minutes(500));

    let mut duration = Duration::from_minutes(123);
    duration.add_assign(Duration::from_minutes(550));
    assert_eq!(duration, Duration::from_minutes(673));
}

#[test]
fn an_iterator_of_durations_can_be_summed() {
    let durations = vec![
        Duration::from_minutes(-50),
        Duration::from_minutes(550),
        Duration::from_minutes(123),
    ];
    assert_eq!(Duration::sum(&durations), Duration::from_minutes(623));
}

#[test]
fn it_can_turn_strings_into_durations() {
    assert_eq!(Duration::parse("12:30-17:00"), Ok(Duration::from_minutes(270)));
    assert_eq!(Duration::parse("19:00-23:50"), Ok(Duration::from_minutes(290)));
    assert_eq!(Duration::parse("12:00-16:00"), Ok(Duration::from_minutes(240)));
    assert_eq!(Duration::parse("19:00-00:50"), Ok(Duration::from_minutes(350)));
    assert_eq!(Duration::parse("12:30-17:45"), Ok(Duration::from_minutes(315)));
    assert_eq!(Duration::parse("19:00-1:15"), Ok(Duration::from_minutes(375)));

    assert_eq!(
        Duration::parse("19:00-:15"),
        Err(Error(String::from(
            "Expected shift: 19:00-:15 to be formated like 12:30-17:00"
        )))
    );
}

#[test]
fn summing_any_permutation_gives_the_same_total() {
    let permutations = vec![
        vec![-50, 550, 123],
        vec![-50, 123, 550],
        vec![550, -50, 123],
        vec![550, 123, -50],
        vec![123, -50, 550],
        vec![123, 550, -50],
    ];
    for minutes in permutations {
        let mut durations = Vec::new();
        for m in minutes {
            durations.push(Duration::from_minutes(m));
        }
        assert_eq!(Duration::sum(&durations), Duration::from_minutes(623));
    }
}

#[test]
fn from_start_to_end_computes_the_direct_difference() {
    assert_eq!(Duration::from_start_to_end((12, 30), (17, 0)).minutes(), 270);
    assert_eq!(Duration::from_start_to_end((19, 0), (25, 15)).minutes(), 375);
    assert_eq!(Duration::from_start_to_end((2, 30), (1, 0)).minutes(), -90);
}

#[test]
fn minutes_returns_the_raw_count() {
    assert_eq!(Duration::from_minutes(-5).minutes(), -5);
    assert_eq!(Duration::from_minutes(0).minutes(), 0);
}

#[test]
fn a_match_anywhere_inside_the_token_is_accepted() {
    assert_eq!(Duration::parse("x 1:2-3:4 y"), Ok(Duration::from_minutes(122)));
    assert_eq!(Duration::parse("123:45-6:07"), Ok(Duration::from_minutes(382)));
}

#[test]
fn a_same_hour_backwards_range_yields_a_negative_span() {
    assert_eq!(Duration::parse("10:30-10:15"), Ok(Duration::from_minutes(-15)));
}

#[test]
fn malformed_tokens_are_rejected_with_their_text() {
    assert_eq!(
        Duration::parse("nope"),
        Err(Error(String::from(
            "Expected shift: nope to be formated like 12:30-17:00"
        )))
    );
    assert_eq!(
        Duration::parse(""),
        Err(Error(String::from(
            "Expected shift:  to be formated like 12:30-17:00"
        )))
    );
    assert_eq!(
        Duration::parse("12:345-17:00"),
        Err(Error(String::from(
            "Expected shift: 12:345-17:00 to be formated like 12:30-17:00"
        )))
    );
}
