use songlink_proxy::cache::{ResponseCache, CACHE_SIZE, CACHE_TTL_MS};

fn key(i: usize) -> String {
    format!("k{}", i)
}

#[test]
fn overflow_evicts_least_recently_used() {
    let mut c = ResponseCache::new(3, 100);
    for i in 0..4 {
        c.put(key(i), format!("v{}", i), 0);
    }
    assert_eq!(c.get(&key(0), 1), None);
    assert_eq!(c.get(&key(1), 1), Some("v1".to_string()));
    assert_eq!(c.get(&key(2), 1), Some("v2".to_string()));
    assert_eq!(c.get(&key(3), 1), Some("v3".to_string()));
}

#[test]
fn reading_protects_from_eviction() {
    let mut c = ResponseCache::new(2, 100);
    c.put(key(0), "a".to_string(), 0);
    c.put(key(1), "b".to_string(), 0);
    assert_eq!(c.get(&key(0), 1), Some("a".to_string()));
    c.put(key(2), "c".to_string(), 1);
    assert_eq!(c.get(&key(1), 1), None);
    assert_eq!(c.get(&key(0), 1), Some("a".to_string()));
}

#[test]
fn stale_entry_reads_absent() {
    let mut c = ResponseCache::new(10, 50);
    c.put(key(0), "a".to_string(), 100);
    assert_eq!(c.get(&key(0), 149), Some("a".to_string()));
    assert_eq!(c.get(&key(0), 150), None);
    assert_eq!(c.get(&key(0), 1000), None);
}

#[test]
fn put_refreshes_payload_expiry_and_recency() {
    let mut c = ResponseCache::new(2, 50);
    c.put(key(0), "old".to_string(), 0);
    c.put(key(1), "b".to_string(), 0);
    c.put(key(0), "new".to_string(), 40);
    assert_eq!(c.get(&key(0), 60), Some("new".to_string()));
    c.put(key(2), "c".to_string(), 60);
    assert_eq!(c.get(&key(1), 61), None);
    assert_eq!(c.get(&key(0), 61), Some("new".to_string()));
}

#[test]
fn expiry_saturates_at_the_end_of_time() {
    let mut c = ResponseCache::new(1, 10);
    c.put(key(0), "a".to_string(), u64::MAX - 3);
    assert_eq!(c.get(&key(0), u64::MAX - 1), Some("a".to_string()));
}

#[test]
fn missing_key_reads_absent() {
    let mut c = ResponseCache::new(1, 10);
    assert_eq!(c.get(&key(0), 0), None);
}

#[test]
fn default_configuration() {
    let c = ResponseCache::with_defaults();
    assert_eq!(c.capacity(), 1000);
    assert_eq!(CACHE_SIZE, 1000);
    assert_eq!(c.ttl(), 30 * 24 * 60 * 60 * 1000);
    assert_eq!(CACHE_TTL_MS, 2_592_000_000);
}

#[test]
fn full_default_cache_keeps_its_bound() {
    let mut c = ResponseCache::with_defaults();
    for i in 0..=CACHE_SIZE {
        c.put(key(i), "x".to_string(), 0);
    }
    assert_eq!(c.get(&key(0), 1), None);
    assert_eq!(c.get(&key(1), 1), Some("x".to_string()));
    assert_eq!(c.get(&key(CACHE_SIZE), 1), Some("x".to_string()));
}
