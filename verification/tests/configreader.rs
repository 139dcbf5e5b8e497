use bladedance::configreader::{
    clamp_duration, clamp_sint, clamp_uint, parse_bool, parse_character, parse_duration,
    parse_sint_with_tail, parse_uint_with_tail, validate_string_length,
};

#[test]
fn test_parse_bool() {
    assert!(parse_bool("yes", false));
    assert!(parse_bool("YES", false));
    assert!(parse_bool("true", false));
    assert!(parse_bool("True", false));
    assert!(parse_bool("on", false));
    assert!(parse_bool("ON", false));

    assert!(!parse_bool("no", true));
    assert!(!parse_bool("NO", true));
    assert!(!parse_bool("false", true));
    assert!(!parse_bool("False", true));
    assert!(!parse_bool("off", true));
    assert!(!parse_bool("OFF", true));

    assert!(parse_bool("invalid", true));
    assert!(!parse_bool("invalid", false));
    assert!(parse_bool("", true));
    assert!(!parse_bool("", false));
}

#[test]
fn test_parse_sint_basic() {
    let (val, _) = parse_sint_with_tail("42");
    assert_eq!(val, 42);

    let (val, _) = parse_sint_with_tail("-42");
    assert_eq!(val, -42);

    let (val, _) = parse_sint_with_tail("0");
    assert_eq!(val, 0);

    let (val, _) = parse_sint_with_tail("  42  ");
    assert_eq!(val, 42);
}

#[test]
fn test_parse_sint_with_magnitude() {
    let (val, idx) = parse_sint_with_tail("1K");
    assert_eq!(val, 1024);
    assert_eq!(idx, 2);

    let (val, idx) = parse_sint_with_tail("1M");
    assert_eq!(val, 1024 * 1024);
    assert_eq!(idx, 2);

    let (val, idx) = parse_sint_with_tail("1G");
    assert_eq!(val, 1024 * 1024 * 1024);
    assert_eq!(idx, 2);
}

#[test]
fn test_parse_uint_basic() {
    let (val, _) = parse_uint_with_tail("42");
    assert_eq!(val, 42);

    let (val, _) = parse_uint_with_tail("0");
    assert_eq!(val, 0);
}

#[test]
fn test_parse_uint_with_magnitude() {
    let (val, idx) = parse_uint_with_tail("1K");
    assert_eq!(val, 1024);
    assert_eq!(idx, 2);

    let (val, idx) = parse_uint_with_tail("2M");
    assert_eq!(val, 2 * 1024 * 1024);
    assert_eq!(idx, 2);
}

#[test]
fn test_parse_character() {
    assert_eq!(parse_character("a", b'x', false), b'a');
    assert_eq!(parse_character("a", b'x', false), b'a');
    assert_eq!(parse_character("", b'x', false), b'x');
    assert_eq!(parse_character("", b'x', true), 0);
    assert_eq!(parse_character("ab", b'x', false), b'x');
}

#[test]
fn test_clamp_sint() {
    assert_eq!(clamp_sint(50, 0, 100, 0), 50);
    assert_eq!(clamp_sint(-5, 0, 100, 0), 0);
    assert_eq!(clamp_sint(150, 0, 100, 0), 0);
}

#[test]
fn test_clamp_uint() {
    assert_eq!(clamp_uint(50, 0, 100, 0), 50);
    assert_eq!(clamp_uint(150, 0, 100, 0), 0);
}

#[test]
fn test_validate_string_length() {
    assert!(validate_string_length("hello", 0, 10));
    assert!(validate_string_length("hello", 5, 10));
    assert!(!validate_string_length("hello", 0, 4));
    assert!(!validate_string_length("hello", 6, 10));
}

#[test]
fn test_parse_duration_basic() {
    assert_eq!(parse_duration("60"), Some(60));
    assert_eq!(parse_duration("60s"), Some(60));
    assert_eq!(parse_duration("60S"), Some(60));
}

#[test]
fn test_parse_duration_minutes() {
    assert_eq!(parse_duration("1m"), Some(60));
    assert_eq!(parse_duration("1M"), Some(60));
    assert_eq!(parse_duration("5m"), Some(300));
}

#[test]
fn test_parse_duration_hours() {
    assert_eq!(parse_duration("1h"), Some(3600));
    assert_eq!(parse_duration("1H"), Some(3600));
    assert_eq!(parse_duration("2h"), Some(7200));
}

#[test]
fn test_parse_duration_days() {
    assert_eq!(parse_duration("1d"), Some(86400));
    assert_eq!(parse_duration("1D"), Some(86400));
}

#[test]
fn test_parse_duration_weeks() {
    assert_eq!(parse_duration("1w"), Some(604800));
    assert_eq!(parse_duration("1W"), Some(604800));
}

#[test]
fn test_parse_duration_years() {
    assert_eq!(parse_duration("1y"), Some(31557600));
    assert_eq!(parse_duration("1Y"), Some(31557600));
}

#[test]
fn test_parse_duration_combined() {
    assert_eq!(parse_duration("1h30m"), Some(5400));
    assert_eq!(parse_duration("1d2h"), Some(93600));
    assert_eq!(parse_duration("1y2w3d4h5m6s"), Some(31557600 + 1209600 + 259200 + 14400 + 300 + 6));
}

#[test]
fn test_parse_duration_invalid() {
    assert_eq!(parse_duration(""), None);
    assert_eq!(parse_duration("invalid"), None);
    assert_eq!(parse_duration("1x"), None);
}

#[test]
fn test_clamp_duration() {
    assert_eq!(clamp_duration(50, 0, 100, 0), 50);
    assert_eq!(clamp_duration(150, 0, 100, 0), 0);
    assert_eq!(clamp_duration(150, 0, 100, 10), 10);
}
