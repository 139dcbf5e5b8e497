use bladedance::stringutils::{
    base64_decode, base64_encode, base64_table, hex_decode, hex_encode, percent_decode, percent_encode,
    template_replace, timing_safe_compare,
};

#[test]
fn base64_encodes_groups_with_padding() {
    let t = base64_table();
    assert_eq!(base64_encode(b"Man", &t, b'='), b"TWFu".to_vec());
    assert_eq!(base64_encode(b"Ma", &t, b'='), b"TWE=".to_vec());
    assert_eq!(base64_encode(b"M", &t, b'='), b"TQ==".to_vec());
    assert_eq!(base64_encode(b"M", &t, 0), b"TQ".to_vec());
    assert_eq!(base64_encode(b"", &t, b'='), Vec::<u8>::new());
}

#[test]
fn base64_decodes_and_skips_foreign_bytes() {
    let t = base64_table();
    assert_eq!(base64_decode(b"TWFu", &t), b"Man".to_vec());
    assert_eq!(base64_decode(b"TQ==", &t), b"M".to_vec());
    assert_eq!(base64_decode(b"TW E", &t), b"Ma".to_vec());
}

#[test]
fn base64_round_trip() {
    let t = base64_table();
    let data: Vec<u8> = (0u8..=255).collect();
    assert_eq!(base64_decode(&base64_encode(&data, &t, b'='), &t), data);
    assert_eq!(base64_decode(&base64_encode(b"hello!", &t, 0), &t), b"hello!".to_vec());
}

#[test]
fn percent_round_trip() {
    let table = b"ABCDEFGHIJKLMNOPQRSTUVWXYZabcdefghijklmnopqrstuvwxyz0123456789-_.~";
    let enc = percent_encode(b"a b/c", table, true);
    assert_eq!(enc, b"a%20b%2Fc".to_vec());
    assert_eq!(percent_decode(&enc), b"a b/c".to_vec());
}

#[test]
fn hex_round_trip() {
    let table = b"0123456789abcdef";
    let enc = hex_encode(&[0x12, 0xab], table, b':');
    assert_eq!(enc, b"12:ab".to_vec());
    assert_eq!(hex_decode(&enc, table, b':'), vec![0x12, 0xab]);
    assert_eq!(hex_encode(&[0x0f], table, 0), b"0f".to_vec());
}

#[test]
fn timing_safe_compare_compares_contents() {
    assert!(timing_safe_compare(b"abc", b"abc"));
    assert!(!timing_safe_compare(b"abc", b"abd"));
    assert!(!timing_safe_compare(b"abc", b"ab"));
}

#[test]
fn template_variables_are_replaced() {
    let vars = vec![(b"name".to_vec(), b"World".to_vec())];
    assert_eq!(template_replace(b"Hello %name%!", &vars), b"Hello World!".to_vec());
}

#[test]
fn base64_decode_inverts_encode() {
    let t = base64_table();
    let data: Vec<u8> = (0u8..=255).chain([0, 1, 2, 250, 255].into_iter()).collect();
    for len in 0..data.len() {
        let d = &data[..len];
        assert_eq!(base64_decode(&base64_encode(d, &t, b'='), &t), d.to_vec());
        assert_eq!(base64_decode(&base64_encode(d, &t, 0), &t), d.to_vec());
    }
}
