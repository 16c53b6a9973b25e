use cortex::gateway::{strip_reasoning, GenCache, CACHE_TTL_SECS};

#[test]
fn stored_responses_are_served_within_the_window() {
    let mut cache = GenCache::new();
    assert!(cache.lookup_at("prompt one", 1000).is_none());
    cache.store_at("prompt one", "answer one", 1000);
    assert_eq!(cache.lookup_at("prompt one", 1000).as_deref(), Some("answer one"));
    // Just inside the window it still hits; at the boundary it misses.
    assert_eq!(
        cache.lookup_at("prompt one", 1000 + CACHE_TTL_SECS - 1).as_deref(),
        Some("answer one"),
    );
    assert!(cache.lookup_at("prompt one", 1000 + CACHE_TTL_SECS).is_none());
    // A different prompt never hits.
    assert!(cache.lookup_at("prompt two", 1000).is_none());
}

#[test]
fn storing_again_overwrites_the_entry() {
    let mut cache = GenCache::new();
    cache.store_at("p", "first", 1000);
    cache.store_at("p", "second", 2000);
    assert_eq!(cache.lookup_at("p", 2000).as_deref(), Some("second"));
}

#[test]
fn gc_deletes_only_entries_past_the_window() {
    let mut cache = GenCache::new();
    cache.store_at("old", "o", 1000);
    cache.store_at("new", "n", 500_000);
    // At the edge of the old entry's window nothing goes.
    assert_eq!(cache.gc_at(1000 + CACHE_TTL_SECS), 0);
    // One second past it the old entry goes and the new one stays.
    assert_eq!(cache.gc_at(1000 + CACHE_TTL_SECS + 1), 1);
    assert!(cache.lookup_at("new", 500_001).is_some());
    assert!(cache.lookup_at("old", 1000).is_none());
}

#[test]
fn exported_entries_rebuild_the_same_cache() {
    let mut cache = GenCache::new();
    cache.store_at("p1", "a1", 1000);
    cache.store_at("p2", "a2", 2000);
    let mut rebuilt = GenCache::new();
    for (key, entry) in cache.entries() {
        rebuilt.restore_entry(key, entry);
    }
    assert_eq!(rebuilt.lookup_at("p1", 1000).as_deref(), Some("a1"));
    assert_eq!(rebuilt.lookup_at("p2", 2000).as_deref(), Some("a2"));
}

#[test]
fn reasoning_prefix_is_stripped_and_kept_for_audit() {
    let (clean, audit) = strip_reasoning("thinking hard</think>  the actual answer");
    assert_eq!(clean, "the actual answer");
    assert_eq!(audit.as_deref(), Some("thinking hard</think>"));
}

#[test]
fn replies_without_the_marker_pass_through() {
    let (clean, audit) = strip_reasoning("a plain reply");
    assert_eq!(clean, "a plain reply");
    assert!(audit.is_none());
}
