use bladedance::hashcomp::{equals, find, insensitive_hash, insensitive_swo_compare, RustSepStream};

#[test]
fn test_equals() {
    assert!(equals("hello", "HELLO"));
    assert!(equals("world", "WORLD"));
    assert!(!equals("hello", "world"));
    assert!(equals("", ""));
}

#[test]
fn test_find() {
    assert_eq!(find("hello world", "WORLD"), Some(6));
    assert_eq!(find("HELLO", "lo"), Some(3));
    assert_eq!(find("test", "xyz"), None);
}

#[test]
fn test_insensitive_hash() {
    let h1 = insensitive_hash("hello");
    let h2 = insensitive_hash("HELLO");
    assert_eq!(h1, h2);
}

#[test]
fn test_insensitive_swo_compare() {
    assert!(insensitive_swo_compare("aaa", "bbb"));
    assert!(!insensitive_swo_compare("bbb", "aaa"));
    assert!(insensitive_swo_compare("aa", "aaa"));
}

#[test]
fn test_sepstream() {
    let mut stream = RustSepStream::new("a,b,c", ',', false);
    assert_eq!(stream.get_token(), Some("a".to_string()));
    assert_eq!(stream.get_token(), Some("b".to_string()));
    assert_eq!(stream.get_token(), Some("c".to_string()));
    assert_eq!(stream.get_token(), None);
}

#[test]
fn test_sepstream_empty() {
    let mut stream = RustSepStream::new("a,,c", ',', false);
    assert_eq!(stream.get_token(), Some("a".to_string()));
    assert_eq!(stream.get_token(), Some("c".to_string()));
}

#[test]
fn test_sepstream_allow_empty() {
    let mut stream = RustSepStream::new("a,,c", ',', true);
    assert_eq!(stream.get_token(), Some("a".to_string()));
    assert_eq!(stream.get_token(), Some("".to_string()));
    assert_eq!(stream.get_token(), Some("c".to_string()));
}

#[test]
fn equals_is_symmetric_on_mixed_case() {
    assert_eq!(equals("MiXeD", "mIxEd"), equals("mIxEd", "MiXeD"));
    assert!(!equals("abc", "abcd"));
}

#[test]
fn swo_compare_is_irreflexive() {
    assert!(!insensitive_swo_compare("Same", "sAME"));
    assert!(!insensitive_swo_compare("same", "same"));
}

#[test]
fn sepstream_remaining_and_end() {
    let mut stream = RustSepStream::new("x y z", ' ', false);
    assert!(!stream.stream_end());
    assert_eq!(stream.get_token(), Some("x".to_string()));
    assert_eq!(stream.get_remaining(), "y z");
    stream.get_token();
    stream.get_token();
    assert!(stream.stream_end());
}
