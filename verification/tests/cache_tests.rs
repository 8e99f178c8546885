use rustql::cache::MemoryCache;

#[test]
fn ttl_five_seconds_hit_then_miss() {
    // TTL = 5 s: set("u1", {"id":1}) at t = 0; get at t = 4 s returns the
    // document; get at t = 6 s returns nothing.
    let mut cache = MemoryCache::new(5_000);
    cache.set(String::from("u1"), String::from("{\"id\":1}"), None, 0);
    assert_eq!(cache.get("u1", 4_000), Some(String::from("{\"id\":1}")));
    assert_eq!(cache.get("u1", 6_000), None);
}

#[test]
fn get_at_exact_expiry_misses() {
    let mut cache = MemoryCache::new(1_000);
    cache.set(String::from("k"), String::from("v"), None, 0);
    assert_eq!(cache.get("k", 999), Some(String::from("v")));
    assert_eq!(cache.get("k", 1_000), None);
}

#[test]
fn explicit_ttl_overrides_default() {
    let mut cache = MemoryCache::new(1_000);
    cache.set(String::from("k"), String::from("v"), Some(10_000), 0);
    assert_eq!(cache.get("k", 5_000), Some(String::from("v")));
}

#[test]
fn set_replaces_value_and_expiry() {
    let mut cache = MemoryCache::new(1_000);
    cache.set(String::from("k"), String::from("first"), None, 0);
    cache.set(String::from("k"), String::from("second"), None, 500);
    assert_eq!(cache.get("k", 600), Some(String::from("second")));
    assert_eq!(cache.get("k", 1_400), Some(String::from("second")));
    assert_eq!(cache.get("k", 1_500), None);
}

#[test]
fn delete_is_idempotent() {
    let mut cache = MemoryCache::new(1_000);
    cache.set(String::from("k"), String::from("v"), None, 0);
    cache.delete("k");
    assert_eq!(cache.get("k", 1), None);
    cache.delete("k");
    assert_eq!(cache.get("k", 1), None);
}

#[test]
fn cleanup_removes_only_expired() {
    let mut cache = MemoryCache::new(10_000);
    cache.set(String::from("short"), String::from("a"), Some(100), 0);
    cache.set(String::from("long"), String::from("b"), Some(10_000), 0);
    cache.cleanup_expired(5_000);
    assert_eq!(cache.get("short", 5_000), None);
    assert_eq!(cache.get("long", 5_000), Some(String::from("b")));
}

#[test]
fn expired_entry_survives_until_swept_but_never_answers() {
    let mut cache = MemoryCache::new(100);
    cache.set(String::from("k"), String::from("v"), None, 0);
    // expired but physically present: indistinguishable from absent
    assert_eq!(cache.get("k", 200), None);
    // a later set revives the key
    cache.set(String::from("k"), String::from("w"), None, 300);
    assert_eq!(cache.get("k", 350), Some(String::from("w")));
}

#[test]
fn huge_ttl_saturates_instead_of_wrapping() {
    let mut cache = MemoryCache::new(1_000);
    cache.set(String::from("k"), String::from("v"), Some(u64::MAX), 10);
    assert_eq!(cache.get("k", u64::MAX - 1), Some(String::from("v")));
}
