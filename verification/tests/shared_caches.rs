use love_api::shared_caches::{SourceCache, Text, TextCache, TextKey, MAX_ENTRIES};
use std::sync::{Arc, Weak};

#[derive(Debug, PartialEq)]
struct Image {
    pixels: Vec<u8>,
}

fn image() -> Image {
    Image { pixels: vec![255, 255, 255, 128] }
}

/// The lookup a text renderer makes: reuse a live image, or rasterize and index it.
fn get(cache: &mut TextCache<Weak<Image>>, key: TextKey, render: impl FnOnce() -> Image) -> Arc<Image> {
    if let Some(i) = cache.lookup(&key) {
        if let Some(image) = cache.handle(i).upgrade() {
            return image;
        }
    }
    let image = Arc::new(render());
    let alive: Vec<bool> = (0..cache.len()).map(|i| cache.handle(i).strong_count() > 0).collect();
    cache.store(key, Arc::downgrade(&image), &alive);
    image
}

fn rasterize(cache: &mut TextCache<Weak<Image>>, font: u64, size: f32, text: &str, render: impl FnOnce() -> Image) -> Arc<Image> {
    get(cache, TextKey { font, size: size.to_bits(), text: Text::Plain(text.to_owned()) }, render)
}

fn rasterize_colored(
    cache: &mut TextCache<Weak<Image>>,
    font: u64,
    size: f32,
    segments: &[([u8; 4], String)],
    render: impl FnOnce() -> Image,
) -> Arc<Image> {
    get(cache, TextKey { font, size: size.to_bits(), text: Text::Colored(segments.to_vec()) }, render)
}

#[test]
fn identical_text_shares_pixels_but_does_not_keep_them_alive() {
    let mut cache = TextCache::new();
    let first = rasterize(&mut cache, 1, 50.0, "A", image);
    let second = rasterize(&mut cache, 1, 50.0, "A", || panic!("duplicate rasterization"));
    assert!(Arc::ptr_eq(&first, &second));
    let different_font = rasterize(&mut cache, 2, 50.0, "A", image);
    let different_size = rasterize(&mut cache, 1, 51.0, "A", image);
    let different_text = rasterize(&mut cache, 1, 50.0, "B", image);
    for other in [&different_font, &different_size, &different_text] {
        assert!(!Arc::ptr_eq(&first, other));
    }
    let weak = Arc::downgrade(&first);
    drop(first);
    drop(second);
    assert!(weak.upgrade().is_none());
    assert_eq!(rasterize(&mut cache, 1, 50.0, "A", image).pixels, image().pixels);
}

#[test]
fn live_keys_are_bounded() {
    let mut cache = TextCache::new();
    let images: Vec<_> = (0..MAX_ENTRIES * 2)
        .map(|n| rasterize(&mut cache, 1, 50.0, &n.to_string(), image))
        .collect();
    assert_eq!(cache.len(), MAX_ENTRIES);
    drop(images);
    rasterize(&mut cache, 1, 50.0, "new", image);
    assert_eq!(cache.len(), 1);
}

#[test]
fn colored_text_preserves_segment_boundaries_and_alpha() {
    let mut cache = TextCache::new();
    let segments = vec![([255; 4], "A".to_owned()), ([255, 0, 0, 128], "B".to_owned())];
    let first = rasterize_colored(&mut cache, 1, 50.0, &segments, image);
    let same = rasterize_colored(&mut cache, 1, 50.0, &segments, || panic!("duplicate raster"));
    assert!(Arc::ptr_eq(&first, &same));
    let plain = rasterize(&mut cache, 1, 50.0, "AB", image);
    assert!(!Arc::ptr_eq(&first, &plain));
    let mut changed = segments.clone();
    changed[1].0[3] = 255;
    let opaque = rasterize_colored(&mut cache, 1, 50.0, &changed, image);
    assert!(!Arc::ptr_eq(&first, &opaque));
    changed = segments.clone();
    changed[0].1 = "AB".to_owned();
    changed[1].1.clear();
    let shifted = rasterize_colored(&mut cache, 1, 50.0, &changed, image);
    assert!(!Arc::ptr_eq(&first, &shifted));
}

/// What loading a sound source does: reuse bytes a playing source still holds, or load them.
fn get_or_load(
    cache: &mut SourceCache<Weak<[u8]>>,
    path: &str,
    load: impl FnOnce() -> Result<Vec<u8>, String>,
) -> Result<Arc<[u8]>, String> {
    if let Some(i) = cache.lookup(&path.to_owned()) {
        if let Some(data) = cache.handle(i).upgrade() {
            return Ok(data);
        }
    }
    let data: Arc<[u8]> = load()?.into();
    let alive: Vec<bool> = (0..cache.len()).map(|i| cache.handle(i).strong_count() > 0).collect();
    cache.store(path.to_owned(), Arc::downgrade(&data), &alive);
    Ok(data)
}

#[test]
fn active_sources_share_bytes_without_retaining_finished_assets() {
    let mut cache = SourceCache::new();
    let first = get_or_load(&mut cache, "music.ogg", || Ok(vec![1, 2, 3])).unwrap();
    let again = get_or_load(&mut cache, "music.ogg", || panic!("asset was read twice")).unwrap();
    assert!(Arc::ptr_eq(&first, &again));
    let weak = Arc::downgrade(&first);
    drop(first);
    drop(again);
    assert!(weak.upgrade().is_none());
    let reloaded = get_or_load(&mut cache, "music.ogg", || Ok(vec![4, 5])).unwrap();
    assert_eq!(&*reloaded, &[4, 5]);
    assert_eq!(cache.len(), 1);
}
