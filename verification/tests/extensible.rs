use bladedance::extensible::{ExtensibleStore, ExtensionManagerStore};

#[test]
fn store_set_get_unset() {
    let mut s = ExtensibleStore::new();
    assert_eq!(s.get_raw(1), 0);
    assert_eq!(s.set_raw(1, 42), 0);
    assert_eq!(s.get_raw(1), 42);
    assert_eq!(s.set_raw(1, 43), 42);
    assert_eq!(s.unset_raw(1), 43);
    assert_eq!(s.get_raw(1), 0);
    assert_eq!(s.unset_raw(1), 0);
}

#[test]
fn manager_register_case_insensitive() {
    let mut m = ExtensionManagerStore::new();
    assert!(m.register("foo-bar", 100, 1));
    assert!(!m.register("FOO-BAR", 200, 1));
    assert_eq!(m.get_item("Foo-Bar"), 100);
}

#[test]
fn manager_begin_unregister() {
    let mut m = ExtensionManagerStore::new();
    m.register("a", 1, 10);
    m.register("b", 2, 20);
    m.register("c", 3, 10);
    let removed = m.begin_unregister(10);
    assert_eq!(removed.len(), 2);
    assert_eq!(&removed[..2], &[1usize, 3usize]);
    assert_eq!(m.len(), 1);
    assert_eq!(m.name_at(0), Some("b".to_string()));
}

#[test]
fn store_read_after_write_of_other_key() {
    let mut s = ExtensibleStore::new();
    s.set_raw(1, 10);
    s.set_raw(2, 20);
    assert_eq!(s.get_raw(1), 10);
    assert_eq!(s.get_raw(2), 20);
    assert_eq!(s.len(), 2);
    s.clear();
    assert!(s.is_empty());
    assert_eq!(s.get_raw(1), 0);
}

#[test]
fn manager_lookup_after_register() {
    let mut m = ExtensionManagerStore::new();
    assert!(m.register("Ext", 7, 1));
    assert_eq!(m.get_item("EXT"), 7);
    assert_eq!(m.get_item("other"), 0);
    assert_eq!(m.entry_at(0), Some(7));
    assert_eq!(m.entry_at(1), None);
}
