use std::sync::Arc;

use tiny_maps::cache::Cache;

#[test]
fn values_are_made_once_per_id() {
    let mut cache: Cache<String> = Cache::new(100);
    let a = cache.get_or_insert(1, || (10, Arc::new("a".to_string())));
    assert_eq!(*a, "a");
    let again = cache.get_or_insert(1, || panic!("made twice"));
    assert!(Arc::ptr_eq(&a, &again));
    assert!(cache.is_cached(&1));
    assert!(!cache.is_cached(&2));
}

#[test]
fn values_nobody_holds_are_dropped_past_the_budget() {
    let mut cache: Cache<u32> = Cache::new(10);
    let first = cache.get_or_insert(1, || (20, Arc::new(1)));
    drop(first);
    let held = cache.get_or_insert(3, || (1, Arc::new(3)));
    let second = cache.get_or_insert(2, || (5, Arc::new(2)));
    assert_eq!(*second, 2);
    assert!(!cache.is_cached(&1));
    assert!(cache.is_cached(&2));
    assert!(cache.is_cached(&3));
    assert_eq!(*held, 3);
}

#[test]
fn everything_unheld_can_be_dropped() {
    let mut cache: Cache<u8> = Cache::new(1000);
    let kept = cache.get_or_insert(1, || (1, Arc::new(1)));
    drop(cache.get_or_insert(2, || (1, Arc::new(2))));
    cache.evict_all_possible();
    assert!(cache.is_cached(&1));
    assert!(!cache.is_cached(&2));
    assert_eq!(*kept, 1);
}

#[test]
fn unheld_values_are_dropped_by_their_counts() {
    let mut cache: Cache<u8> = Cache::new(1000);
    let a = cache.get_or_insert(1, || (3, Arc::new(1)));
    drop(cache.get_or_insert(2, || (4, Arc::new(2))));
    drop(cache.get_or_insert(3, || (5, Arc::new(3))));
    assert_eq!(cache.cached_bytes(), 12);
    assert_eq!(cache.holder_counts(), vec![(1, 2), (2, 1), (3, 1)]);
    cache.drop_unheld(&vec![(2, 1), (3, 2), (1, 1)]);
    assert!(!cache.is_cached(&1));
    assert!(!cache.is_cached(&2));
    assert!(cache.is_cached(&3));
    assert_eq!(cache.cached_bytes(), 5);
    assert_eq!(*a, 1);
}

#[test]
fn eviction_stops_below_half_the_budget() {
    let mut cache: Cache<u8> = Cache::new(10);
    drop(cache.get_or_insert(2, || (1, Arc::new(2))));
    drop(cache.get_or_insert(1, || (20, Arc::new(1))));
    assert_eq!(cache.cached_bytes(), 21);
    drop(cache.get_or_insert(3, || (1, Arc::new(3))));
    assert!(!cache.is_cached(&1));
    assert!(cache.is_cached(&2));
    assert!(cache.is_cached(&3));
    assert_eq!(cache.cached_bytes(), 2);
}
