use bladedance::logging::{log_level_to_string, FileMethodRegistry};
use bladedance::mode::{get_mode_index, is_mode_char};
use bladedance::modulemanager::ModuleManager;
use bladedance::modules::{module_property_string, service_type_string, shrink_mod_name, VF_CORE, VF_COMMON};
use bladedance::server::{get_uid, init_uid};

#[test]
fn uids_count_up_in_base_36() {
    let mut g = init_uid("0AB");
    assert_eq!(get_uid(&mut g), "0ABAAAAAA");
    assert_eq!(get_uid(&mut g), "0ABAAAAAB");
    for _ in 0..23 {
        get_uid(&mut g);
    }
    assert_eq!(get_uid(&mut g), "0ABAAAAAZ");
    assert_eq!(get_uid(&mut g), "0ABAAAAA0");
    for _ in 0..8 {
        get_uid(&mut g);
    }
    assert_eq!(get_uid(&mut g), "0ABAAAAA9");
    assert_eq!(get_uid(&mut g), "0ABAAAABA");
}

#[test]
fn module_names() {
    assert_eq!(shrink_mod_name("m_foo.so"), "foo");
    assert_eq!(shrink_mod_name("core_bar"), "core_bar");
    let m = ModuleManager::new();
    assert_eq!(m.expand_mod_name("foo"), "m_foo.so");
    assert_eq!(m.expand_mod_name("core_x.so"), "core_x.so");
    assert!(m.module_name_contains_path("dir/m_foo.so"));
    assert!(!m.module_name_contains_path("m_foo.so"));
}

#[test]
fn module_descriptions() {
    assert_eq!(service_type_string(0), "command");
    assert_eq!(service_type_string(4), "data service");
    assert_eq!(service_type_string(99), "unknown service");
    assert_eq!(module_property_string(VF_CORE | VF_COMMON), "R-C--");
    assert_eq!(module_property_string(0), "-----");
    assert_eq!(log_level_to_string(3), "debug");
    assert_eq!(log_level_to_string(9), "unknown");
}

#[test]
fn mode_letters_have_distinct_indices() {
    assert!(is_mode_char(b'a'));
    assert!(is_mode_char(b'Z'));
    assert!(is_mode_char(b'1'));
    assert!(!is_mode_char(b'!'));
    assert_eq!(get_mode_index(b'!'), 64);
    assert_ne!(get_mode_index(b'a'), get_mode_index(b'A'));
    assert_ne!(get_mode_index(b'b'), get_mode_index(b'c'));
}

#[test]
fn file_methods_get_fresh_handles() {
    let mut reg = FileMethodRegistry::new();
    assert!(reg.can_create());
    assert_eq!(reg.create("", 0), None);
    let a = reg.create("ircd.log", 0).unwrap();
    let b = reg.create("stdout", 1).unwrap();
    assert_eq!((a, b), (1, 2));
    assert!(reg.contains(a) && reg.contains(b));
    reg.destroy(a);
    assert!(!reg.contains(a) && reg.contains(b));
    let c = reg.create("other.log", 2).unwrap();
    assert_eq!(c, 3);
    reg.destroy(42);
    assert!(reg.contains(b) && reg.contains(c));
}
