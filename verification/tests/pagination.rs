use std::time::{Duration, SystemTime, UNIX_EPOCH};

use mcp_dap::context::pagination::{generate_token, CacheEntry, PaginationCache};
use mcp_dap::json::{JsonNumber, JsonValue};

fn nanos(t: SystemTime) -> u128 {
    t.duration_since(UNIX_EPOCH).unwrap().as_nanos()
}

fn list(items: &[u64]) -> JsonValue {
    JsonValue::Array(items.iter().map(|i| JsonValue::Number(JsonNumber::PosInt(*i))).collect())
}

fn make_entry(expr: &str) -> CacheEntry {
    CacheEntry {
        value: list(&[1, 2, 3]),
        expression: expr.into(),
        value_type: "list".into(),
        total_count: 3,
        is_array: true,
        created_at: nanos(SystemTime::now()),
    }
}

#[test]
fn insert_and_get() {
    let mut cache = PaginationCache::new(10, 300);
    let token = cache.insert(make_entry("x"));
    assert!(token.starts_with("pg_"));
    let entry = cache.get(&token).unwrap();
    assert_eq!(entry.expression, "x");
    assert_eq!(entry.total_count, 3);
}

#[test]
fn missing_token_returns_none() {
    let mut cache = PaginationCache::new(10, 300);
    assert!(cache.get("pg_nonexistent").is_none());
}

#[test]
fn ttl_expiry() {
    let mut cache = PaginationCache::new(10, 0); // 0s TTL
    let entry = CacheEntry {
        value: list(&[1]),
        expression: "y".into(),
        value_type: "list".into(),
        total_count: 1,
        is_array: true,
        created_at: nanos(SystemTime::now() - Duration::from_secs(1)),
    };
    let token = cache.insert(entry);
    assert!(cache.get(&token).is_none());
}

#[test]
fn capacity_eviction() {
    let mut cache = PaginationCache::new(2, 300);
    let t1 = cache.insert(CacheEntry {
        value: list(&[1]),
        expression: "first".into(),
        value_type: "list".into(),
        total_count: 1,
        is_array: true,
        created_at: nanos(SystemTime::now() - Duration::from_secs(10)),
    });
    let _t2 = cache.insert(make_entry("second"));
    // At capacity — next insert evicts oldest (t1).
    let _t3 = cache.insert(make_entry("third"));
    assert!(cache.get(&t1).is_none());
}

#[test]
fn clear_drops_all() {
    let mut cache = PaginationCache::new(10, 300);
    cache.insert(make_entry("a"));
    cache.insert(make_entry("b"));
    cache.clear();
    assert_eq!(cache.len(), 0);
}

#[test]
fn unique_tokens() {
    let t1 = generate_token(1_700_000_000, 0);
    let t2 = generate_token(1_700_000_000, 1);
    assert_ne!(t1, t2);
}

#[test]
fn token_format_is_hex() {
    assert_eq!(generate_token(255, 16), "pg_ff10");
    assert_eq!(generate_token(0, 0), "pg_00");
}

#[test]
fn insert_at_is_deterministic() {
    let mut cache = PaginationCache::new(10, 300);
    let t = cache.insert_at(make_entry("a"), 0x10);
    assert_eq!(t, "pg_100");
    let t = cache.insert_at(make_entry("b"), 0x10);
    assert_eq!(t, "pg_101");
    assert_eq!(cache.len(), 2);
}

#[test]
fn get_at_expires_exactly_after_ttl() {
    let mut cache = PaginationCache::new(10, 1);
    let mut e = make_entry("a");
    e.created_at = 5_000_000_000;
    let t = cache.insert_at(e, 5);
    assert!(cache.get_at(&t, 6_000_000_000).is_some());
    assert!(cache.get_at(&t, 6_000_000_001).is_none());
    assert_eq!(cache.len(), 0);
}

#[test]
fn zero_capacity_still_stores_latest() {
    let mut cache = PaginationCache::new(0, 300);
    cache.insert_at(make_entry("a"), 1);
    cache.insert_at(make_entry("b"), 1);
    assert_eq!(cache.len(), 1);
}

#[test]
fn insert_token_carries_nanosecond_clock() {
    let mut cache = PaginationCache::new(10, 300);
    let t = cache.insert(make_entry("n"));
    let hex = &t[3..];
    assert!(t.starts_with("pg_"));
    assert!(hex.chars().all(|c| c.is_ascii_hexdigit() && !c.is_ascii_uppercase()));
    // Nanoseconds since the epoch take 16 hex digits today; the counter adds at least one.
    assert!(hex.len() >= 17, "token {t}");
}
