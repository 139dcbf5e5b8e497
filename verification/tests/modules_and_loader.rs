use bladedance::bladedance::{
    config_mongo_uri, default_mongo_uri, level_without_lookup, needs_database_init, whoami_message,
};
use bladedance::dynamic::{
    classify_abi, flatten_error_text, init_failed_message, is_module_file_name, no_abi_symbol_message,
    no_extension_message, AbiKind,
};

#[test]
fn abi_numbers_name_module_kinds() {
    assert_eq!(classify_abi(4011), AbiKind::Rust);
    assert_eq!(classify_abi(4010), AbiKind::Cpp);
    assert_eq!(classify_abi(1), AbiKind::Mismatch);
}

#[test]
fn loader_messages() {
    assert!(is_module_file_name("m_foo.so", ".so"));
    assert!(!is_module_file_name("m_foo", ".so"));
    assert_eq!(no_extension_message("m_foo", ".so"), "m_foo is not a module (no .so extension)");
    assert_eq!(no_abi_symbol_message("m.so"), "m.so is not a module (no ABI symbol)");
    assert_eq!(init_failed_message("m.so"), "Failed to initialize module m.so");
    assert_eq!(flatten_error_text("a\r\nb"), "a  b");
}

#[test]
fn database_configuration() {
    assert_eq!(default_mongo_uri(), "mongodb://127.0.0.1:27017");
    assert_eq!(config_mongo_uri("x mongouri=mongodb://h:1 y"), Some("mongodb://h:1".to_string()));
    assert_eq!(config_mongo_uri("mongouri=abc"), Some("abc".to_string()));
    assert_eq!(config_mongo_uri("nothing"), None);
    assert!(needs_database_init(false, false));
    assert!(!needs_database_init(true, false));
    assert!(!needs_database_init(false, true));
}

#[test]
fn user_levels_and_whoami() {
    assert_eq!(level_without_lookup(true, None), Some(4));
    assert_eq!(level_without_lookup(false, None), Some(0));
    assert_eq!(level_without_lookup(false, Some("")), Some(0));
    assert_eq!(level_without_lookup(false, Some("bob")), None);
    assert_eq!(whoami_message(Some("bob"), -3), "Account: bob | Level: -3");
    assert_eq!(whoami_message(None, 4), "Account: none | Level: 4");
}
