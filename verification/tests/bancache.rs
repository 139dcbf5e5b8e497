use bladedance::bancache::{is_expired, BanCacheHit, BanCacheManager, BanCacheModule};

#[test]
fn hit_added_is_found_until_it_expires() {
    let mut m = BanCacheManager::new();
    assert_eq!(m.AddHit("1.2.3.4", "K", "banned", 100, 1000), Some(0));
    assert_eq!(m.AddHit("1.2.3.4", "G", "other", 100, 1000), None);
    let i = m.GetHit("1.2.3.4", 1050).unwrap();
    let hit = m.hit_at(i);
    assert!(hit.IsPositive());
    assert_eq!(hit.Type.as_bytes(), b"K");
    assert_eq!(hit.Reason.as_bytes(), b"banned");
    assert_eq!(hit.Expiry, 1100);
    assert_eq!(m.GetHit("1.2.3.4", 1100), None);
    assert_eq!(m.len(), 0);
}

#[test]
fn default_duration_is_one_day() {
    let h = BanCacheHit::new("", "", 0, 10);
    assert_eq!(h.Expiry, 10 + 86400);
    assert!(!h.IsPositive());
    assert!(!is_expired(&h, 10));
    assert!(is_expired(&h, 10 + 86400));
}

#[test]
fn removal_targets_positive_hits_of_a_type() {
    let mut m = BanCacheManager::new();
    m.AddHit("a", "K", "r1", 100, 0);
    m.AddHit("b", "G", "r2", 100, 0);
    m.AddHit("c", "", "", 100, 0);
    m.AddHit("d", "K", "r3", 5, 0);
    m.RemoveEntries("K", true, 10);
    assert_eq!(m.len(), 2);
    assert!(m.find("a").is_none());
    assert!(m.find("d").is_none());
    assert!(m.find("b").is_some());
    assert!(m.find("c").is_some());
    m.RemoveEntries("", false, 10);
    assert_eq!(m.len(), 1);
    assert!(m.find("b").is_some());
}

#[test]
fn expired_entry_is_removed_on_demand() {
    let mut m = BanCacheManager::new();
    m.AddHit("x", "Z", "z", 1, 0);
    assert!(!m.RemoveIfExpiredByIp("x", 0));
    assert!(m.RemoveIfExpiredByIp("x", 1));
    assert!(!m.RemoveIfExpiredByIp("x", 1));
    let module = BanCacheModule::new();
    assert_eq!(module.manager.len(), 0);
}
