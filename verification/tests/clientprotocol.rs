use bladedance::clientprotocol::{escape_tag, unescape_tag};

#[test]
fn test_escape_tag() {
    assert_eq!(escape_tag("hello world"), "hello\\sworld");
    assert_eq!(escape_tag("test;value"), "test\\:value");
    assert_eq!(escape_tag("path\\file"), "path\\\\file");
    assert_eq!(escape_tag("line1\nline2"), "line1\\nline2");
    assert_eq!(escape_tag("carriage\rreturn"), "carriage\\rreturn");
}

#[test]
fn test_unescape_tag() {
    assert_eq!(unescape_tag("hello\\sworld"), "hello world");
    assert_eq!(unescape_tag("test\\:value"), "test;value");
    assert_eq!(unescape_tag("path\\\\file"), "path\\file");
    assert_eq!(unescape_tag("line1\\nline2"), "line1\nline2");
    assert_eq!(unescape_tag("carriage\\rreturn"), "carriage\rreturn");
}

#[test]
fn test_roundtrip() {
    let original = "hello world;test\\path\nline";
    let escaped = escape_tag(original);
    let unescaped = unescape_tag(&escaped);
    assert_eq!(original, unescaped);
}
