use bladedance::helperfuncs::{
    gen_random_int, gen_random_str, is_host, is_nick, is_sid, is_user, is_valid_mask, is_wordchar,
    process_colors, strip_color, Duration,
};

#[test]
fn test_duration_from_str() {
    assert_eq!(Duration::from_str("60"), 60);
    assert_eq!(Duration::from_str("1m"), 60);
    assert_eq!(Duration::from_str("1h"), 3600);
    assert_eq!(Duration::from_str("1d"), 86400);
    assert_eq!(Duration::from_str("1w"), 604800);
    assert_eq!(Duration::from_str("1y"), 31557600);
}

#[test]
fn test_duration_is_valid() {
    assert!(Duration::is_valid("60"));
    assert!(Duration::is_valid("1m"));
    assert!(Duration::is_valid("1h30m"));
    assert!(!Duration::is_valid("1x"));
}

#[test]
fn test_duration_to_string() {
    assert_eq!(Duration::to_string(0), "0s");
    assert_eq!(Duration::to_string(60), "1m");
    assert_eq!(Duration::to_string(3661), "1h1m1s");
}

#[test]
fn test_strip_color() {
    let mut s = String::from("\x02bold\x0F");
    strip_color(&mut s);
    assert_eq!(s, "bold");
}

#[test]
fn test_process_colors() {
    let mut s = String::from(r"\bbold");
    process_colors(&mut s);
    assert_eq!(s, "\x02bold");
}

#[test]
fn test_is_sid() {
    assert!(is_sid("0AA"));
    assert!(is_sid("1AB"));
    assert!(is_sid("9ZZ"));
    assert!(is_sid("0A0"));
    assert!(is_sid("123"));
    assert!(is_sid("9Z9"));

    assert!(!is_sid(""));
    assert!(!is_sid("A"));
    assert!(!is_sid("AB"));
    assert!(!is_sid("ABCD"));

    assert!(!is_sid("AAA"));
    assert!(!is_sid("BAA"));
    assert!(!is_sid("ZAA"));

    assert!(!is_sid("0aA"));
    assert!(!is_sid("0Ab"));

    assert!(!is_sid("0A-"));
    assert!(!is_sid("0A_"));
}

#[test]
fn test_is_nick() {
    assert!(is_nick("TestUser", 30));
    assert!(is_nick("user123", 30));
    assert!(is_nick("Test-User", 30));
    assert!(is_nick("a", 30));
    assert!(is_nick("A", 30));
    assert!(is_nick("Test_", 30));
    assert!(is_nick("Test}", 30));
    assert!(is_nick("t", 30));

    assert!(!is_nick("", 30));

    assert!(!is_nick("ThisNicknameIsWayTooLongForTheLimit", 30));

    assert!(!is_nick(" test", 30));
    assert!(!is_nick("~test", 30));
    assert!(!is_nick("\x1Ftest", 30));

    assert!(!is_nick("1test", 30));
    assert!(!is_nick("9user", 30));

    assert!(!is_nick("-test", 30));

    assert!(!is_nick("Test@User", 30));
    assert!(!is_nick("Test User", 30));
    assert!(!is_nick("Test(User", 30));
}

#[test]
fn test_is_user() {
    assert!(is_user("testuser", 30));
    assert!(is_user("user123", 30));
    assert!(is_user("user-name", 30));
    assert!(is_user("user.name", 30));
    assert!(is_user("a", 30));

    assert!(!is_user("", 30));

    assert!(!is_user("ThisUsernameIsWayTooLongForTheLimit", 30));

    assert!(!is_user("user@domain", 30));
    assert!(!is_user("user name", 30));
    assert!(!is_user("user!name", 30));
}

#[test]
fn test_is_valid_mask() {
    assert!(is_valid_mask("nick!user@host", 100));
    assert!(is_valid_mask("test!testuser@testhost", 100));

    assert!(!is_valid_mask("", 100));

    assert!(!is_valid_mask(&("a!b@".to_string() + &"c".repeat(100)), 10));

    assert!(!is_valid_mask("nickuser@host", 100));

    assert!(!is_valid_mask("nick!userhost", 100));

    assert!(!is_valid_mask("nick!!user@host", 100));

    assert!(!is_valid_mask("nick!user@host@domain", 100));

    assert!(!is_valid_mask("nick\x01user@host", 100));
    assert!(!is_valid_mask("nick!user\x7fhost", 100));
}

#[test]
fn test_is_host() {
    assert!(is_host("example.com", 100, false));
    assert!(is_host("sub.example.com", 100, false));
    assert!(is_host("test-host.example.com", 100, false));
    assert!(is_host("localhost", 100, true));

    assert!(is_host("my-host.example.com", 100, false));

    assert!(!is_host("", 100, false));

    assert!(!is_host(&"a".repeat(101), 100, false));

    assert!(!is_host("localhost", 100, false));

    assert!(!is_host(".example.com", 100, false));

    assert!(!is_host("example.com.", 100, false));

    assert!(!is_host("example..com", 100, false));

    assert!(!is_host("-example.com", 100, false));

    assert!(!is_host("example-.com", 100, false));

    assert!(!is_host("example--host.com", 100, false));

    assert!(!is_host("example_host.com", 100, false));
    assert!(!is_host("example@host.com", 100, false));
}

#[test]
fn test_is_wordchar() {
    assert!(is_wordchar(b'a'));
    assert!(is_wordchar(b'Z'));
    assert!(is_wordchar(b'0'));
    assert!(is_wordchar(b'9'));

    assert!(is_wordchar(b'-'));
    assert!(is_wordchar(b'.'));
    assert!(is_wordchar(b'_'));

    assert!(!is_wordchar(b' '));
    assert!(!is_wordchar(b'@'));
    assert!(!is_wordchar(b'!'));
}

#[test]
fn test_gen_random_int() {
    let result = gen_random_int(100);
    assert!(result < 100);

    assert_eq!(gen_random_int(0), 0);
    assert_eq!(gen_random_int(1), 0);
}

#[test]
fn test_gen_random_str() {
    let result = gen_random_str(10);
    assert_eq!(result.len(), 10);

    for ch in result.chars() {
        assert!(ch.is_ascii_alphanumeric());
    }

    assert_eq!(gen_random_str(0).len(), 0);
}

#[test]
fn stripping_twice_changes_nothing_more() {
    let mut s = String::from("\x0304,12ab\x04FF0000,00FF00c\x02d\x1f");
    strip_color(&mut s);
    assert_eq!(s, "abcd");
    strip_color(&mut s);
    assert_eq!(s, "abcd");
}
