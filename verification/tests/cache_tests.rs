use shibei::commands::{cache_list, cache_set_limit, cached_ids, preload_summary, touch_cache};
use shibei::cache::{CacheEntry, CacheIndex, DEFAULT_LIMIT_BYTES, SCHEMA_VERSION};
use shibei::secure_store::{InMemoryStore, SecureStore};

#[test]
fn put_accumulates_total_bytes() {
    let mut idx = CacheIndex::default();
    idx.put("a", 100);
    idx.put("b", 200);
    assert_eq!(idx.stats().total_bytes, 300);
    assert_eq!(idx.stats().entry_count, 2);
}

#[test]
fn put_same_id_replaces_byte_count() {
    let mut idx = CacheIndex::default();
    idx.put("a", 100);
    idx.put("a", 250);
    assert_eq!(idx.stats().total_bytes, 250);
    assert_eq!(idx.stats().entry_count, 1);
}

#[test]
fn touch_updates_last_access_without_double_counting() {
    let mut idx = CacheIndex::default();
    idx.put_at("a", 100, 1_000);
    idx.touch_at("a", 1_005);
    let e = idx.entry("a").unwrap();
    assert_eq!(e.last_access_ms, 1_005);
    assert_eq!(idx.stats().total_bytes, 100);
}

#[test]
fn touch_unknown_id_is_noop() {
    let mut idx = CacheIndex::default();
    idx.touch("ghost");
    assert_eq!(idx.stats().entry_count, 0);
}

#[test]
fn evict_removes_oldest_first_until_target() {
    let mut idx = CacheIndex::default();
    idx.put_at("a", 100, 1);
    idx.put_at("b", 200, 2);
    idx.put_at("c", 400, 3);
    let evicted = idx.evict_until(400);
    assert_eq!(evicted, vec!["a".to_string(), "b".to_string()]);
    assert_eq!(idx.stats().total_bytes, 400);
    assert!(idx.contains("c"));
}

#[test]
fn evict_respects_pinned() {
    let mut idx = CacheIndex::default();
    idx.put_at("pin", 100, 1);
    idx.set_pinned("pin", true);
    idx.put_at("cold", 200, 2);
    let evicted = idx.evict_until(0);
    assert_eq!(evicted, vec!["cold".to_string()]);
    assert!(idx.contains("pin"));
}

#[test]
fn flush_and_load_roundtrip() {
    let mut idx = CacheIndex::default();
    idx.put("a", 100);
    idx.put("b", 200);
    idx.set_limit(5_000);
    let saved = idx.persisted_entries();
    let reloaded = CacheIndex::from_persisted(SCHEMA_VERSION, idx.limit_bytes(), saved);
    assert_eq!(reloaded.stats().total_bytes, 300);
    assert_eq!(reloaded.stats().entry_count, 2);
    assert_eq!(reloaded.stats().limit_bytes, 5_000);
    assert!(reloaded.contains("a"));
    assert!(reloaded.contains("b"));
}

#[test]
fn load_mismatched_version_falls_back_to_default() {
    let idx = CacheIndex::from_persisted(999, 1, vec![]);
    assert_eq!(idx.stats().limit_bytes, DEFAULT_LIMIT_BYTES);
    assert_eq!(idx.stats().entry_count, 0);
}

#[test]
fn clear_all_wipes_entries_and_files() {
    let mut idx = CacheIndex::default();
    idx.put("a", 100);
    idx.put("b", 200);
    let removed = idx.clear_all();
    assert_eq!(removed.len(), 2);
    assert_eq!(idx.stats().total_bytes, 0);
}

#[test]
fn cached_ids_filters_set() {
    let mut idx = CacheIndex::default();
    idx.put("a", 10);
    idx.put("c", 30);
    let got = idx.cached_ids(vec!["a".into(), "b".into(), "c".into(), "d".into()]);
    assert_eq!(got, vec!["a".to_string(), "c".to_string()]);
}

#[test]
fn evict_noop_when_under_target() {
    let mut idx = CacheIndex::default();
    idx.put("a", 100);
    let evicted = idx.evict_until(1000);
    assert!(evicted.is_empty());
    assert!(idx.contains("a"));
}

#[test]
fn set_limit_minimum_is_one() {
    let mut idx = CacheIndex::default();
    idx.set_limit(0);
    assert_eq!(idx.stats().limit_bytes, 1);
}

#[test]
fn list_is_most_recent_first_and_remove_drops_bytes() {
    let mut idx = CacheIndex::default();
    idx.put_at("x", 5, 10);
    idx.put_at("y", 7, 30);
    idx.put_at("z", 9, 20);
    let ids: Vec<String> = idx.list().into_iter().map(|e: CacheEntry| e.resource_id).collect();
    assert_eq!(ids, vec!["y".to_string(), "z".to_string(), "x".to_string()]);
    assert!(idx.remove("z"));
    assert!(!idx.remove("z"));
    assert_eq!(idx.stats().total_bytes, 12);
}

#[test]
fn evict_if_over_limit_respects_limit() {
    let mut idx = CacheIndex::default();
    idx.set_limit(250);
    idx.put_at("a", 100, 1);
    idx.put_at("b", 200, 2);
    assert_eq!(idx.evict_if_over_limit(), vec!["a".to_string()]);
    assert_eq!(idx.stats().total_bytes, 200);
}

#[test]
fn in_memory_round_trip() {
    let mut s = InMemoryStore::new();
    assert!(s.read("foo").unwrap().is_none());
    s.write("foo", b"bar").unwrap();
    assert_eq!(s.read("foo").unwrap(), Some(b"bar".to_vec()));
    s.delete("foo").unwrap();
    assert!(s.read("foo").unwrap().is_none());
}

#[test]
fn in_memory_overwrite_and_has_blob() {
    let mut s = InMemoryStore::new();
    s.write("x", b"old").unwrap();
    s.write("x", b"new").unwrap();
    s.write("y", b"other").unwrap();
    assert_eq!(s.read("x").unwrap(), Some(b"new".to_vec()));
    assert!(s.has_blob("y"));
    s.delete("y").unwrap();
    assert!(!s.has_blob("y"));
    s.delete("y").unwrap();
    assert_eq!(s.read("x").unwrap(), Some(b"new".to_vec()));
}

#[test]
fn cache_commands() {
    let mut idx = CacheIndex::default();
    idx.put_at("a", 100, 1);
    idx.put_at("b", 200, 2);
    assert_eq!(cached_ids(&idx, "[\"b\",\"zz\",\"a\"]"), "[\"b\",\"a\"]");
    assert_eq!(cached_ids(&idx, "oops"), "[]");

    touch_cache(&mut idx, "a", 0, 50);
    assert_eq!(idx.entry("a").unwrap().last_access_ms, 50);
    touch_cache(&mut idx, "c", 0, 60);
    assert!(!idx.contains("c"));
    touch_cache(&mut idx, "c", 30, 60);
    assert_eq!(idx.entry("c").unwrap().bytes, 30);

    let entries = idx.list();
    let meta: Vec<Option<(String, String, String)>> = entries
        .iter()
        .map(|e| if e.resource_id == "b" { None } else { Some((format!("T{}", e.resource_id), "u".to_string(), "html".to_string())) })
        .collect();
    assert_eq!(
        cache_list(&entries, &meta),
        "[{\"resourceId\":\"c\",\"title\":\"Tc\",\"url\":\"u\",\"resourceType\":\"html\",\"bytes\":30,\"lastAccessMs\":60},{\"resourceId\":\"a\",\"title\":\"Ta\",\"url\":\"u\",\"resourceType\":\"html\",\"bytes\":100,\"lastAccessMs\":50}]"
    );

    let evicted = cache_set_limit(&mut idx, 0);
    assert_eq!(idx.stats().limit_bytes, 1);
    assert_eq!(evicted, vec!["b".to_string(), "a".to_string(), "c".to_string()]);
    assert_eq!(preload_summary(3, 1, 2), "{\"ok\":3,\"failed\":1,\"skipped\":2}");
}
