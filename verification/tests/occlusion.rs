use love_api::alpha::{alpha_shape, ImageData};
use love_api::occlusion::{hidden_by, may_hide_earlier, Coverage, OpacityCache, Rect};

#[test]
fn paired_layers_check_alpha_at_atlas_rounding_edges() {
    let mut image = ImageData {
        width: 23,
        height: 21,
        pixels: vec![255; 23 * 21 * 4],
        white_alpha_mask: false,
    };
    let region = [3, 2, 17, 13];
    assert!(alpha_shape(&image, region).pair_binary);
    for (x, y) in [(20, 8), (8, 15), (20, 15)] {
        let index = (y * 23 + x) * 4 + 3;
        image.pixels[index] = 128;
        let shape = alpha_shape(&image, region);
        assert!(shape.binary);
        assert!(!shape.pair_binary);
        image.pixels[index] = 255;
    }
    image.pixels[3] = 128;
    assert!(alpha_shape(&image, region).pair_binary);
    assert!(!alpha_shape(&image, [0, 0, 23, 21]).pair_binary);
}

#[test]
fn cached_rectangle_contains_only_opaque_texels() {
    let mut image = ImageData {
        width: 19,
        height: 17,
        pixels: vec![255; 19 * 17 * 4],
        white_alpha_mask: false,
    };
    for y in 0..17 {
        for x in 0..19 {
            if x < 3 || y < 2 || (x > 13 && y > 8) {
                image.pixels[(y * 19 + x) * 4 + 3] = 200;
            }
        }
    }
    let [x0, y0, x1, y1] = alpha_shape(&image, [0, 0, 19, 17]).opaque.unwrap();
    for y in y0..y1 {
        for x in x0..x1 {
            assert_eq!(image.pixels[((y * 19 + x) * 4 + 3) as usize], 255);
        }
    }
    assert_eq!((x1 - x0) * (y1 - y0), 165);
}

#[test]
fn opacity_cache_is_bounded_and_does_not_retain_images() {
    let image = ImageData {
        width: 1024,
        height: 8,
        pixels: vec![255; 1024 * 8 * 4],
        white_alpha_mask: false,
    };
    let mut cache = OpacityCache::with_setting(None);
    for x in 0..cache.limit() + 36 {
        assert!(cache.get(1, &image, [x as u32, 0, 8, 8]).is_some());
    }
    assert_eq!(cache.len(), cache.limit());
    assert!(cache.get(1, &image, [1023, 0, 8, 8]).is_none());
}

#[test]
fn repeating_deck_regions_do_not_rescan_the_atlas() {
    let image = ImageData {
        width: 128,
        height: 8,
        pixels: vec![255; 128 * 8 * 4],
        white_alpha_mask: false,
    };
    let mut previous = OpacityCache::with_limit(64);
    let mut current = OpacityCache::with_limit(256);
    for _ in 0..3 {
        for x in 0..96 {
            let region = [x, 0, 8, 8];
            let old = previous.get(7, &image, region).unwrap();
            let new = current.get(7, &image, region).unwrap();
            assert_eq!(new.opaque, old.opaque);
            assert_eq!(new.binary, old.binary);
        }
    }
    assert_eq!(previous.misses(), 288);
    assert_eq!(current.misses(), 96);
    assert_eq!(current.hits(), 192);
}

#[test]
fn largest_rectangle_of_an_l_shape() {
    // An L of opaque texels: a 4x1 bar on top of a 1x3 column.
    let mut image = ImageData { width: 4, height: 4, pixels: vec![0; 4 * 4 * 4], white_alpha_mask: false };
    for x in 0..4 {
        image.pixels[x * 4 + 3] = 255;
    }
    for y in 1..4 {
        image.pixels[(y * 4) * 4 + 3] = 255;
    }
    let shape = alpha_shape(&image, [0, 0, 4, 4]);
    let [x0, y0, x1, y1] = shape.opaque.unwrap();
    assert_eq!((x1 - x0) * (y1 - y0), 4);
    assert!(shape.binary);
    let empty = ImageData { width: 2, height: 2, pixels: vec![0; 16], white_alpha_mask: false };
    assert_eq!(alpha_shape(&empty, [0, 0, 2, 2]).opaque, None);
}

#[test]
fn entry_limit_accepts_only_a_sane_setting() {
    assert_eq!(OpacityCache::entry_limit(Some(64)), 64);
    assert_eq!(OpacityCache::entry_limit(Some(512)), 512);
    assert_eq!(OpacityCache::entry_limit(Some(63)), 256);
    assert_eq!(OpacityCache::entry_limit(Some(513)), 256);
    assert_eq!(OpacityCache::entry_limit(None), 256);
}

#[test]
fn hidden_by_picks_the_last_largest_overlap() {
    let mut earlier = Coverage::default();
    earlier.bounds = Some(Rect([0, 0, 100, 100]));
    let mut a = Coverage::default();
    a.opaque = Some(Rect([0, 0, 20, 20]));
    let mut b = Coverage::default();
    b.opaque = Some(Rect([50, 50, 70, 70]));
    let mut small = Coverage::default();
    small.opaque = Some(Rect([90, 90, 95, 95]));
    assert_eq!(hidden_by(earlier, &[a, b, small]), Some(Rect([50, 50, 70, 70])));
    assert_eq!(hidden_by(earlier, &[small]), None);
    assert_eq!(hidden_by(Coverage::default(), &[a]), None);
}

#[test]
fn only_full_alpha_draws_with_alpha_keeping_effects_may_hide_earlier_ones() {
    for effect in 0..=11u8 {
        assert_eq!(may_hide_earlier(255, 0, effect, false), matches!(effect, 0 | 4 | 5 | 6), "effect={effect}");
    }
    assert!(may_hide_earlier(255, 4, 5, false));
    for (alpha, blend, dissolving) in [(254, 0, false), (255, 2, false), (255, 3, false), (255, 0, true)] {
        assert!(!may_hide_earlier(alpha, blend, 0, dissolving));
    }
}
