use cat_engine::graphics::material_cache::MaterialCache;
use std::sync::Arc;

#[test]
fn material_cache_bounds_continuous_edits_and_preserves_in_flight_ownership() {
    let mut cache = MaterialCache::new(32);
    let in_flight = Arc::new(0);
    cache.insert(0, in_flight.clone());
    for value in 1..10_000 {
        cache.insert(value, Arc::new(value));
        assert!(cache.len() <= 32);
    }
    assert_eq!(*in_flight, 0);
    assert_eq!(Arc::strong_count(&in_flight), 1);
    assert_eq!(cache.evictions, 10_000 - 32);
    assert!(cache.get(&0).is_none());
    assert_eq!(**cache.get(&9_999).unwrap(), 9_999);
}

#[test]
fn material_cache_keeps_recently_used_entries_and_invalidates_resources() {
    let mut cache = MaterialCache::new(2);
    cache.insert((1, 0), 10);
    cache.insert((2, 0), 20);
    assert_eq!(cache.get(&(1, 0)), Some(&10));
    cache.insert((3, 0), 30);
    assert!(cache.get(&(2, 0)).is_none());
    cache.retain(|(texture, _), _| *texture != 1);
    assert!(cache.get(&(1, 0)).is_none());
    assert_eq!(cache.len(), 1);
}

#[test]
fn lookup_after_insert_returns_the_inserted_value() {
    let mut cache = MaterialCache::new(1);
    cache.insert(5u32, "five");
    assert_eq!(cache.get(&5), Some(&"five"));
    cache.insert(5, "cinq");
    assert_eq!(cache.get(&5), Some(&"cinq"));
    assert_eq!(cache.len(), 1);
    assert_eq!(cache.evictions, 0);
}

#[test]
fn the_entry_used_last_survives_an_eviction() {
    let mut cache = MaterialCache::new(3);
    cache.insert(1u32, 1);
    cache.insert(2, 2);
    cache.insert(3, 3);
    assert!(cache.get(&1).is_some());
    cache.insert(4, 4);
    assert!(cache.get(&2).is_none());
    assert_eq!(cache.get(&1), Some(&1));
    assert_eq!(cache.get(&3), Some(&3));
    assert_eq!(cache.get(&4), Some(&4));
    assert_eq!(cache.len(), 3);
    assert_eq!(cache.evictions, 1);
    assert_eq!(cache.hits, 4);
    assert_eq!(cache.misses, 1);
}
