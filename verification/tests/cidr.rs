use bladedance::cidr::{normalize_cidr, parse_ip_address, rust_match_cidr_str, Family};
use bladedance::hashcomp::ascii_case_insensitive_map;
use bladedance::wildcard::{match_cidr_style, match_internal, match_mask, sepstream_space_tokens};

#[test]
fn cidr_matches_ipv4_prefix() {
    assert!(rust_match_cidr_str("127.0.0.1", "127.0.0.0/8", false));
    assert!(!rust_match_cidr_str("128.0.0.1", "127.0.0.0/8", false));
    assert!(rust_match_cidr_str("10.0.0.1", "10.0.0.1", false));
    assert!(!rust_match_cidr_str("10.0.0.2", "10.0.0.1", false));
}

#[test]
fn cidr_matches_ipv6_prefix() {
    assert!(rust_match_cidr_str("3ffe:1:5:6::8", "3ffe:1::0/32", false));
    assert!(!rust_match_cidr_str("3ffe:2:5:6::8", "3ffe:1::0/32", false));
}

#[test]
fn cidr_rejects_family_mismatch_and_bad_masks() {
    assert!(!rust_match_cidr_str("::1", "127.0.0.0/8", false));
    assert!(!rust_match_cidr_str("127.0.0.1", "127.0.0.0/", false));
    assert!(!rust_match_cidr_str("127.0.0.1", "127.0.0.0/x", false));
    assert!(!rust_match_cidr_str("127.0.0.1", "127.0.0.0/256", false));
    assert!(!rust_match_cidr_str("127.0.0.1", "host/8", false));
}

#[test]
fn cidr_matches_user_part_as_wildcard() {
    assert!(rust_match_cidr_str("user@127.0.0.1", "user@127.0.0.0/8", true));
    assert!(rust_match_cidr_str("USER@127.0.0.1", "us*@127.0.0.0/8", true));
    assert!(!rust_match_cidr_str("bob@127.0.0.1", "user@127.0.0.0/8", true));
    assert!(rust_match_cidr_str("127.0.0.1", "user@127.0.0.0/8", true));
}

#[test]
fn ip_addresses_parse_as_std_reads_them() {
    assert_eq!(parse_ip_address("1.2.3.4"), Some((vec![1, 2, 3, 4], Family::V4)));
    assert_eq!(parse_ip_address("01.2.3.4"), None);
    assert_eq!(parse_ip_address("256.2.3.4"), None);
    assert_eq!(parse_ip_address("1.2.3"), None);
    let mut v6 = vec![0u8; 16];
    v6[10] = 0xff;
    v6[11] = 0xff;
    v6[12] = 1;
    v6[13] = 2;
    v6[14] = 3;
    v6[15] = 4;
    assert_eq!(parse_ip_address("::ffff:1.2.3.4"), Some((v6, Family::V6)));
    let mut one = vec![0u8; 16];
    one[1] = 1;
    assert_eq!(parse_ip_address("1::"), Some((one, Family::V6)));
    assert_eq!(parse_ip_address("1:2:3:4:5:6:7:8:9"), None);
    assert_eq!(parse_ip_address("12345::"), None);
}

#[test]
fn normalize_keeps_prefix_bits() {
    assert_eq!(normalize_cidr(&[192, 168, 1, 255], 20, Family::V4), vec![192, 168, 0, 0]);
    assert_eq!(normalize_cidr(&[192, 168, 31, 255], 20, Family::V4), vec![192, 168, 16, 0]);
    assert_eq!(normalize_cidr(&[1, 2, 3, 4], 32, Family::V4), vec![1, 2, 3, 4]);
    assert_eq!(normalize_cidr(&[1, 2, 3, 4], 0, Family::V4), vec![0, 0, 0, 0]);
}

#[test]
fn wildcard_matching() {
    let map = ascii_case_insensitive_map();
    assert!(match_internal(b"hello", b"h*o", &map));
    assert!(match_internal(b"hello", b"h?llo", &map));
    assert!(match_internal(b"HELLO", b"hello", &map));
    assert!(!match_internal(b"hello", b"h?lo", &map));
    assert!(match_internal(b"", b"*", &map));
    assert!(!match_internal(b"a", b"", &map));
}

#[test]
fn space_tokens_skip_empty_runs() {
    let toks = sepstream_space_tokens(b"  a  bc ");
    assert_eq!(toks, vec![b"a".to_vec(), b"bc".to_vec()]);
    assert!(sepstream_space_tokens(b"   ").is_empty());
}

#[test]
fn masks_match_host_or_address() {
    let map = ascii_case_insensitive_map();
    assert!(match_mask("foo.example.com *.test", "host.test", "1.2.3.4", &map));
    assert!(match_mask("10.0.0.0/8", "host", "10.1.2.3", &map));
    assert!(!match_mask("a b", "c", "d", &map));
    assert!(match_cidr_style(b"10.1.2.3", b"10.*", &map));
}

#[test]
fn star_matches_everything_and_patterns_match_themselves() {
    let map = ascii_case_insensitive_map();
    for s in [&b""[..], b"a", b"nick!user@host.example", b"??", b"*!*@*"] {
        assert!(match_internal(s, b"*", &map));
    }
    for s in [&b""[..], b"a", b"nick!user@host.example", b"??x"] {
        assert!(match_internal(s, s, &map));
    }
}
