use bladedance::xline::split_user_host;

#[test]
fn test_split_user_host_full() {
    let pair = split_user_host("user@host.com");
    assert_eq!(pair.user, "user");
    assert_eq!(pair.host, "host.com");
}

#[test]
fn test_split_user_host_only_host() {
    let pair = split_user_host("host.com");
    assert_eq!(pair.user, "");
    assert_eq!(pair.host, "host.com");
}

#[test]
fn test_split_user_host_empty_parts() {
    let pair = split_user_host("@");
    assert_eq!(pair.user, "*");
    assert_eq!(pair.host, "*");
}

#[test]
fn test_split_user_host_no_at() {
    let pair = split_user_host("justhost");
    assert_eq!(pair.user, "");
    assert_eq!(pair.host, "justhost");
}
