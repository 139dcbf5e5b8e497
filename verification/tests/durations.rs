use bladedance::helperfuncs::Duration;

#[test]
fn duration_text_parses_back_below_a_year() {
    for d in [0u64, 1, 59, 60, 61, 3599, 3600, 86399, 86400, 604799, 604800, 694861, 31535999] {
        let text = Duration::to_string(d);
        assert_eq!(Duration::try_from_str(&text), Ok(d), "{}", text);
    }
}

#[test]
fn a_year_of_text_parses_to_a_julian_year() {
    assert_eq!(Duration::to_string(31536000), "1y");
    assert_eq!(Duration::try_from_str("1y"), Ok(31557600));
}

#[test]
fn unreadable_durations_are_the_invalid_ones() {
    for text in ["1x", "5m!", " 3s", "h-1"] {
        assert!(!Duration::is_valid(text), "{}", text);
        assert_eq!(Duration::try_from_str(text), Err(()), "{}", text);
    }
    for text in ["", "10", "1h30m", "2W3D"] {
        assert!(Duration::is_valid(text), "{}", text);
        assert!(Duration::try_from_str(text).is_ok(), "{}", text);
    }
}

#[test]
fn the_longest_brief_duration_rounds_down_to_whole_days() {
    assert_eq!(Duration::to_long_string(u64::MAX, true), "584942417355 years, 3 weeks and 5 days");
    assert_eq!(Duration::to_long_string(5400, true), "1 hour and 30 minutes");
}
