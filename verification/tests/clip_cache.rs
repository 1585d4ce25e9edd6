use love_api::clip_cache::{StaticCache, STATIC_CACHE_BYTES};

#[test]
fn static_cache_stays_within_its_memory_limit() {
    let mut cache: StaticCache<Vec<i16>> = StaticCache::new();
    let samples_per_clip = STATIC_CACHE_BYTES / 8;
    for index in 0..6 {
        cache.insert(format!("sound-{index}"), vec![0; samples_per_clip], samples_per_clip);
    }
    assert!(cache.bytes() <= STATIC_CACHE_BYTES);
    assert_eq!(cache.len(), 4);
    assert!(cache.get(&"sound-0".to_string()).is_none());
    assert!(cache.get(&"sound-5".to_string()).is_some());
}

#[test]
fn oversized_and_repeated_clips_are_not_taken() {
    let mut cache: StaticCache<u32> = StaticCache::new();
    cache.insert("big".to_string(), 1, STATIC_CACHE_BYTES / 8 + 1);
    assert!(cache.get(&"big".to_string()).is_none());
    cache.insert("a".to_string(), 1, 10);
    cache.insert("a".to_string(), 2, 10);
    assert_eq!(cache.get(&"a".to_string()), Some(&1));
    assert_eq!(cache.len(), 1);
    assert_eq!(cache.bytes(), 20);
}
