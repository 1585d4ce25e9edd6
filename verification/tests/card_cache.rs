use love_api::card_cache::{card_bytes_needed, CardCache, CardKey, LIMIT};
use std::cell::RefCell;
use std::collections::HashSet;

fn key(source: u64, region: [u32; 4], effect: u8, invert: bool) -> CardKey {
    CardKey { source, x: region[0], y: region[1], w: region[2], h: region[3], effect, invert }
}

/// The lookup a renderer makes: reuse, or make room and prepare a new card (numbered in order).
struct Cards {
    cache: CardCache<u32>,
    next: u32,
    in_use: RefCell<HashSet<u32>>,
}

impl Cards {
    fn new() -> Self {
        Cards { cache: CardCache::new(), next: 0, in_use: RefCell::new(HashSet::new()) }
    }

    fn get(&mut self, key: CardKey) -> Option<u32> {
        if self.cache.touch(&key) {
            return Some(*self.cache.last_card());
        }
        let needed = card_bytes_needed(key.w, key.h)?;
        let marks: Vec<bool> = (0..self.cache.len())
            .map(|i| {
                let k = self.cache.key_at(i);
                self.in_use.borrow().contains(&(k.x + 1000 * k.y + 7 * k.w))
            })
            .collect();
        if !self.cache.make_room_and_insert(key, self.next + 1, needed, &marks) {
            return None;
        }
        self.next += 1;
        Some(self.next)
    }
}

#[test]
fn reuses_only_matching_source_region_and_effect() {
    let mut cards = Cards::new();
    let a = cards.get(key(1, [0, 0, 71, 95], 1, false)).unwrap();
    assert_eq!(cards.get(key(1, [0, 0, 71, 95], 1, false)), Some(a));
    for other in [
        key(1, [71, 0, 71, 95], 1, false),
        key(1, [0, 0, 71, 95], 6, false),
        key(1, [0, 0, 71, 95], 6, true),
        key(2, [0, 0, 71, 95], 1, false),
    ] {
        assert_ne!(cards.get(other), Some(a));
    }
}

#[test]
fn pending_draws_cannot_push_the_cache_over_budget() {
    let mut cards = Cards::new();
    let first_key = key(1, [0, 0, 256, 256], 1, false);
    let _first = cards.get(first_key).unwrap();
    cards.in_use.borrow_mut().insert(7 * 256);
    assert!(cards.get(key(1, [1, 0, 256, 256], 1, false)).is_none());
    cards.in_use.borrow_mut().clear();
    assert!(cards.get(key(1, [1, 0, 256, 256], 1, false)).is_some());
    assert!(cards.cache.bytes() <= LIMIT);
    for n in 0..100 {
        cards.get(key(1, [n, 0, 1, 1], 1, false));
    }
    assert!(cards.cache.len() <= 32 && cards.cache.bytes() <= LIMIT);
}

#[test]
fn unsupported_regions_are_not_prepared() {
    assert_eq!(card_bytes_needed(0, 95), None);
    assert_eq!(card_bytes_needed(512, 512), None);
    assert_eq!(card_bytes_needed(1, 1), Some(17));
    assert_eq!(card_bytes_needed(256, 256), Some(257 * 257 * 4 + (257 * 257 + 7) / 8));
}

#[test]
fn the_least_recently_used_card_leaves_first() {
    let mut cards = Cards::new();
    for n in 0..32 {
        cards.get(key(1, [n, 0, 1, 1], 1, false));
    }
    cards.get(key(1, [0, 0, 1, 1], 1, false));
    cards.get(key(1, [99, 0, 1, 1], 1, false));
    assert_eq!(cards.cache.len(), 32);
    assert_eq!(cards.cache.key_at(0).x, 2);
    assert_eq!(cards.cache.key_at(30).x, 0);
}
