use love_api::font_cache::{outline_cached, FontCache, LARGE_FONT_IDLE_NS, OUTLINE_CACHE_MAX_BYTES};

#[test]
fn idle_fonts_are_released_and_cache_hits_refresh_the_deadline() {
    let mut cache: FontCache<&str> = FontCache::new();
    cache.insert("font.ttf".to_owned(), "outlines", 0);
    let later = LARGE_FONT_IDLE_NS;
    assert!(cache.get(&"font.ttf".to_owned(), later));
    cache.release_idle(later);
    assert_eq!(cache.font(), Some(&"outlines"));
    cache.release_idle(later + LARGE_FONT_IDLE_NS);
    assert!(cache.font().is_none());
}

#[test]
fn only_the_kept_path_hits() {
    let mut cache: FontCache<u8> = FontCache::new();
    assert!(!cache.get(&"a.ttf".to_owned(), 1));
    cache.insert("a.ttf".to_owned(), 1, 1);
    assert!(!cache.get(&"b.ttf".to_owned(), 2));
    cache.release_idle(LARGE_FONT_IDLE_NS);
    assert_eq!(cache.font(), Some(&1));
    cache.clear();
    assert!(cache.font().is_none());
}

#[test]
fn small_fonts_keep_outlines() {
    assert!(outline_cached(OUTLINE_CACHE_MAX_BYTES));
    assert!(!outline_cached(OUTLINE_CACHE_MAX_BYTES + 1));
}
