use vstd::prelude::*;

use crate::alpha::{alpha_shape, shape_of, AlphaShape, ImageData};
use crate::card_layers::{same_words, Layer};
use std::collections::VecDeque;

verus! {

/// An integer rectangle `[left, top, right, bottom]`, half-open on the right and bottom.
#[derive(Clone, Copy, Debug)]
pub struct Rect(pub [i32; 4]);

impl PartialEq for Rect {
    fn eq(&self, other: &Self) -> (r: bool) {
        let r = self.0[0] == other.0[0] && self.0[1] == other.0[1] && self.0[2] == other.0[2]
            && self.0[3] == other.0[3];
        proof {
            if r {
                assert(self.0@ =~= other.0@);
            }
        }
        r
    }
}

impl Eq for Rect {}

impl vstd::std_specs::cmp::PartialEqSpecImpl for Rect {
    open spec fn obeys_eq_spec() -> bool {
        true
    }

    open spec fn eq_spec(&self, other: &Rect) -> bool {
        self.0@ == other.0@
    }
}

pub open spec fn max_i(a: int, b: int) -> int { if a >= b { a } else { b } }
pub open spec fn min_i(a: int, b: int) -> int { if a <= b { a } else { b } }

impl Rect {
    pub open spec fn left(self) -> int { self.0[0] as int }
    pub open spec fn top(self) -> int { self.0[1] as int }
    pub open spec fn right(self) -> int { self.0[2] as int }
    pub open spec fn bottom(self) -> int { self.0[3] as int }

    /// The rectangle covers at least one pixel.
    pub open spec fn nonempty(self) -> bool {
        self.left() < self.right() && self.top() < self.bottom()
    }

    /// Pixel `(x, y)` lies inside the rectangle.
    pub open spec fn contains(self, x: int, y: int) -> bool {
        self.left() <= x < self.right() && self.top() <= y < self.bottom()
    }

    pub open spec fn spec_intersect(self, other: Rect) -> Option<Rect> {
        let r = Rect([
            max_i(self.left(), other.left()) as i32,
            max_i(self.top(), other.top()) as i32,
            min_i(self.right(), other.right()) as i32,
            min_i(self.bottom(), other.bottom()) as i32,
        ]);
        if r.nonempty() { Some(r) } else { None }
    }

    pub open spec fn spec_area(self) -> int {
        (self.right() - self.left()) * (self.bottom() - self.top())
    }

    /// Width and height each fit in an `i32`, so the area can be computed.
    pub open spec fn measurable(self) -> bool {
        self.right() - self.left() <= i32::MAX && self.bottom() - self.top() <= i32::MAX
            && self.left() - self.right() <= i32::MAX && self.top() - self.bottom() <= i32::MAX
    }

    /// The number of pixels the rectangle covers (negative or zero for an empty one).
    pub fn area(self) -> (area: i64)
        requires
            self.measurable(),
        ensures
            area == self.spec_area(),
    {
        let w = (self.0[2] - self.0[0]) as i64;
        let h = (self.0[3] - self.0[1]) as i64;
        assert(-0x4000_0000_0000_0000 <= w * h <= 0x4000_0000_0000_0000) by (nonlinear_arith)
            requires
                -0x8000_0000 <= w <= 0x7fff_ffff,
                -0x8000_0000 <= h <= 0x7fff_ffff,
        ;
        w * h
    }

    /// The overlap of two rectangles, or `None` where they share no pixel.
    pub fn intersect(self, other: Self) -> (result: Option<Self>)
        ensures
            result == self.spec_intersect(other),
    {
        let a = self.0;
        let b = other.0;
        let r = Rect([
            if a[0] >= b[0] { a[0] } else { b[0] },
            if a[1] >= b[1] { a[1] } else { b[1] },
            if a[2] <= b[2] { a[2] } else { b[2] },
            if a[3] <= b[3] { a[3] } else { b[3] },
        ]);
        if r.0[0] < r.0[2] && r.0[1] < r.0[3] { Some(r) } else { None }
    }
}


/// What a queued draw paints exactly: the image, the region of it, the transform (as `f32`
/// bit patterns) and the clip.
#[derive(Clone, Copy)]
pub struct Footprint {
    pub image: usize,
    pub region: [u32; 4],
    pub transform: [u32; 6],
    pub clip: Rect,
}

impl Footprint {
    pub open spec fn same(self, other: Footprint) -> bool {
        &&& self.image == other.image
        &&& self.region@ == other.region@
        &&& self.transform@ == other.transform@
        &&& self.clip.0@ == other.clip.0@
    }

    fn same_as(&self, other: &Footprint) -> (r: bool)
        ensures
            r == self.same(*other),
    {
        self.image == other.image && same_words(&self.region, &other.region) && same_words(
            &self.transform,
            &other.transform,
        ) && self.clip == other.clip
    }
}

/// What is known about the pixels a queued draw paints: the bounds it may touch, a rectangle
/// it certainly paints opaque, and, for binary-alpha draws, its exact footprint.
#[derive(Clone, Copy)]
pub struct Coverage {
    pub bounds: Option<Rect>,
    pub opaque: Option<Rect>,
    pub footprint: Option<Footprint>,
    pub layer: Option<Layer>,
}

impl Default for Coverage {
    fn default() -> (c: Self)
        ensures
            c.bounds is None && c.opaque is None && c.footprint is None && c.layer is None,
    {
        Coverage { bounds: None, opaque: None, footprint: None, layer: None }
    }
}

impl Coverage {
    pub open spec fn spec_covered_by(self, later: Coverage) -> bool {
        match (self.footprint, later.footprint) {
            (Some(a), Some(b)) => a.same(b),
            _ => false,
        }
    }

    /// A later draw with the same binary-alpha footprint repaints every pixel of this one.
    pub fn covered_by(self, later: Self) -> (r: bool)
        ensures
            r == self.spec_covered_by(later),
    {
        match (self.footprint, later.footprint) {
            (Some(a), Some(b)) => a.same_as(&b),
            _ => false,
        }
    }
}

/// Folds the later draws' opaque rectangles, clipped to `bounds`, keeping the last one of the
/// largest area.
pub open spec fn largest_hidden(bounds: Rect, later: Seq<Coverage>, acc: Option<Rect>) -> Option<Rect>
    decreases later.len(),
{
    if later.len() == 0 {
        acc
    } else {
        let next = match later[0].opaque {
            Some(o) => match bounds.spec_intersect(o) {
                Some(r) => match acc {
                    Some(a) => if r.spec_area() >= a.spec_area() { Some(r) } else { acc },
                    None => Some(r),
                },
                None => acc,
            },
            None => acc,
        };
        largest_hidden(bounds, later.drop_first(), next)
    }
}

/// The part of a draw's bounds that later opaque draws hide: the largest (last on ties)
/// overlap with a later opaque rectangle, when it spans at least 128 pixels.
pub open spec fn spec_hidden_by(coverage: Coverage, later: Seq<Coverage>) -> Option<Rect> {
    match coverage.bounds {
        None => None,
        Some(bounds) => match largest_hidden(bounds, later, None) {
            Some(r) => if r.spec_area() >= 128 { Some(r) } else { None },
            None => None,
        },
    }
}

/// The overlap of `bounds` with the rectangle a later draw certainly paints opaque.
pub open spec fn overlap(bounds: Rect, later: Coverage) -> Option<Rect> {
    match later.opaque {
        Some(o) => bounds.spec_intersect(o),
        None => None,
    }
}

proof fn lemma_largest_hidden(bounds: Rect, later: Seq<Coverage>, acc: Option<Rect>)
    ensures
        match largest_hidden(bounds, later, acc) {
            Some(r) => {
                &&& (acc == Some(r) || exists|k: int| 0 <= k < later.len() && #[trigger] overlap(bounds, later[k]) == Some(r))
                &&& (acc matches Some(a) ==> a.spec_area() <= r.spec_area())
                &&& forall|k: int|
                    0 <= k < later.len() ==> (#[trigger] overlap(bounds, later[k]) matches Some(q) ==> q.spec_area()
                        <= r.spec_area())
            },
            None => acc is None && forall|k: int| 0 <= k < later.len() ==> #[trigger] overlap(bounds, later[k]) is None,
        },
    decreases later.len(),
{
    if later.len() > 0 {
        let next = if let Some(o) = later[0].opaque {
            if let Some(r) = bounds.spec_intersect(o) {
                if acc is None || r.spec_area() >= acc->0.spec_area() { Some(r) } else { acc }
            } else {
                acc
            }
        } else {
            acc
        };
        let rest = later.drop_first();
        lemma_largest_hidden(bounds, rest, next);
        assert(overlap(bounds, later[0]) == match later[0].opaque {
            Some(o) => bounds.spec_intersect(o),
            None => None,
        });
        assert forall|k: int| 1 <= k < later.len() implies #[trigger] overlap(bounds, later[k]) == overlap(bounds, rest[k - 1]) by {
            assert(rest[k - 1] == later[k]);
        }
        match largest_hidden(bounds, rest, next) {
            Some(r) => {
                if exists|k: int| 0 <= k < rest.len() && #[trigger] overlap(bounds, rest[k]) == Some(r) {
                    let k = choose|k: int| 0 <= k < rest.len() && #[trigger] overlap(bounds, rest[k]) == Some(r);
                    assert(overlap(bounds, later[k + 1]) == Some(r));
                } else if next == Some(r) && acc != Some(r) {
                    assert(overlap(bounds, later[0]) == Some(r));
                }
                assert forall|k: int| 0 <= k < later.len() implies (#[trigger] overlap(bounds, later[k]) matches Some(q)
                    ==> q.spec_area() <= r.spec_area()) by {
                    if k > 0 {
                        assert(overlap(bounds, later[k]) == overlap(bounds, rest[k - 1]));
                    }
                }
            },
            None => {
                assert forall|k: int| 0 <= k < later.len() implies #[trigger] overlap(bounds, later[k]) is None by {
                    if k > 0 {
                        assert(overlap(bounds, later[k]) == overlap(bounds, rest[k - 1]));
                    }
                }
            },
        }
    }
}

/// A later draw overlaps `bounds` less than `r` does, if at all.
pub open spec fn overlaps_less(bounds: Rect, later: Coverage, r: Rect) -> bool {
    overlap(bounds, later) matches Some(q) ==> q.spec_area() < r.spec_area()
}

proof fn lemma_largest_hidden_is_last(bounds: Rect, later: Seq<Coverage>, acc: Option<Rect>)
    ensures
        largest_hidden(bounds, later, acc) matches Some(r) ==> {
            ||| (acc == Some(r) && forall|j: int| 0 <= j < later.len() ==> #[trigger] overlaps_less(bounds, later[j], r))
            ||| exists|k: int|
                0 <= k < later.len() && #[trigger] overlap(bounds, later[k]) == Some(r) && forall|j: int|
                    k < j < later.len() ==> #[trigger] overlaps_less(bounds, later[j], r)
        },
    decreases later.len(),
{
    if later.len() > 0 {
        let next = if let Some(o) = later[0].opaque {
            if let Some(r) = bounds.spec_intersect(o) {
                if acc is None || r.spec_area() >= acc->0.spec_area() { Some(r) } else { acc }
            } else {
                acc
            }
        } else {
            acc
        };
        let rest = later.drop_first();
        lemma_largest_hidden_is_last(bounds, rest, next);
        assert(overlap(bounds, later[0]) == match later[0].opaque {
            Some(o) => bounds.spec_intersect(o),
            None => None,
        });
        if let Some(r) = largest_hidden(bounds, rest, next) {
            if exists|k: int|
                0 <= k < rest.len() && #[trigger] overlap(bounds, rest[k]) == Some(r) && forall|j: int|
                    k < j < rest.len() ==> #[trigger] overlaps_less(bounds, rest[j], r) {
                let k = choose|k: int|
                    0 <= k < rest.len() && #[trigger] overlap(bounds, rest[k]) == Some(r) && forall|j: int|
                        k < j < rest.len() ==> #[trigger] overlaps_less(bounds, rest[j], r);
                assert(rest[k] == later[k + 1]);
                assert forall|j: int| k + 1 < j < later.len() implies #[trigger] overlaps_less(bounds, later[j], r) by {
                    assert(rest[j - 1] == later[j]);
                }
            } else {
                assert(next == Some(r));
                assert forall|j: int| 1 <= j < later.len() implies #[trigger] overlaps_less(bounds, later[j], r) by {
                    assert(rest[j - 1] == later[j]);
                }
                if overlap(bounds, later[0]) == Some(r) && (acc is None || r.spec_area() >= acc->0.spec_area()) {
                } else {
                    assert(acc == Some(r));
                    assert(overlaps_less(bounds, later[0], r));
                }
            }
        }
    }
}

/// The hidden part of a draw is its largest overlap with a later opaque rectangle: when there
/// is one, it is the overlap of the draw's bounds with some later draw's opaque rectangle, it
/// spans at least 128 pixels, no later opaque rectangle overlaps the bounds more, and every draw
/// after the one it comes from overlaps them less (of equally large overlaps the last wins);
/// when there is none, every such overlap spans fewer than 128 pixels.
pub proof fn law_hidden_is_the_largest_overlap(coverage: Coverage, later: Seq<Coverage>)
    ensures
        match spec_hidden_by(coverage, later) {
            Some(r) => {
                &&& coverage.bounds matches Some(b)
                &&& r.spec_area() >= 128
                &&& exists|k: int| 0 <= k < later.len() && #[trigger] overlap(b, later[k]) == Some(r)
                &&& forall|k: int|
                    0 <= k < later.len() ==> (#[trigger] overlap(b, later[k]) matches Some(q) ==> q.spec_area()
                        <= r.spec_area())
                &&& exists|k: int|
                    0 <= k < later.len() && #[trigger] overlap(b, later[k]) == Some(r) && forall|j: int|
                        k < j < later.len() ==> #[trigger] overlaps_less(b, later[j], r)
            },
            None => coverage.bounds matches Some(b) ==> forall|k: int|
                0 <= k < later.len() ==> (#[trigger] overlap(b, later[k]) matches Some(q) ==> q.spec_area() < 128),
        },
{
    if let Some(b) = coverage.bounds {
        lemma_largest_hidden(b, later, None);
        lemma_largest_hidden_is_last(b, later, None);
    }
}

proof fn lemma_intersect_measurable(bounds: Rect, other: Rect)
    requires
        bounds.measurable(),
    ensures
        bounds.spec_intersect(other) matches Some(r) ==> r.measurable(),
{
}

/// The region of a queued draw that the draws of `later` from position `from` on certainly
/// cover.
fn hidden_from(coverage: Coverage, later: &[Coverage], from: usize) -> (hidden: Option<Rect>)
    requires
        coverage.bounds matches Some(b) ==> b.measurable(),
        from <= later@.len(),
    ensures
        hidden == spec_hidden_by(coverage, later@.subrange(from as int, later@.len() as int)),
{
    let bounds = match coverage.bounds {
        Some(b) => b,
        None => return None,
    };
    let ghost rest = later@.subrange(from as int, later@.len() as int);
    let mut best: Option<Rect> = None;
    let mut i: usize = from;
    assert(rest.skip(0) =~= rest);
    while i < later.len()
        invariant
            from <= i <= later@.len(),
            rest == later@.subrange(from as int, later@.len() as int),
            bounds.measurable(),
            coverage.bounds == Some(bounds),
            best matches Some(r) ==> r.measurable(),
            largest_hidden(bounds, rest, None) == largest_hidden(bounds, rest.skip(i - from), best),
        decreases later@.len() - i,
    {
        proof {
            let tail = rest.skip(i - from);
            assert(tail.drop_first() =~= rest.skip(i + 1 - from));
            assert(tail[0] == later@[i as int]);
        }
        if let Some(opaque) = later[i].opaque {
            proof {
                lemma_intersect_measurable(bounds, opaque);
            }
            if let Some(r) = bounds.intersect(opaque) {
                best = match best {
                    Some(a) => if r.area() >= a.area() {
                        Some(r)
                    } else {
                        best
                    },
                    None => Some(r),
                };
            }
        }
        i += 1;
    }
    proof {
        assert(rest.skip(i - from).len() == 0);
    }
    match best {
        Some(r) => if r.area() >= 128 {
            Some(r)
        } else {
            None
        },
        None => None,
    }
}

/// The region of a queued draw that later draws certainly cover.
pub fn hidden_by(coverage: Coverage, later: &[Coverage]) -> (hidden: Option<Rect>)
    requires
        coverage.bounds matches Some(b) ==> b.measurable(),
    ensures
        hidden == spec_hidden_by(coverage, later@),
{
    assert(later@.subrange(0, later@.len() as int) =~= later@);
    hidden_from(coverage, later, 0)
}

/// A cached scan result for one region of one image, the image named by an identity that the
/// caller keeps unique while entries for it may be cached.
#[derive(Clone, Copy)]
pub struct OpacityEntry {
    pub image: u64,
    pub region: [u32; 4],
    pub shape: AlphaShape,
}

/// The position of the first entry for `image` and `region`.
pub open spec fn first_match(entries: Seq<OpacityEntry>, image: u64, region: Seq<u32>) -> Option<int>
    decreases entries.len(),
{
    if entries.len() == 0 {
        None
    } else if entries[0].image == image && entries[0].region@ == region {
        Some(0)
    } else {
        match first_match(entries.drop_first(), image, region) {
            Some(k) => Some(k + 1),
            None => None,
        }
    }
}

proof fn lemma_first_match(entries: Seq<OpacityEntry>, image: u64, region: Seq<u32>)
    ensures
        first_match(entries, image, region) matches Some(k) ==> 0 <= k < entries.len() && entries[k].image == image
            && entries[k].region@ == region,
        first_match(entries, image, region) is None ==> forall|k: int| 0 <= k < entries.len() ==> !(
        #[trigger] entries[k].image == image && entries[k].region@ == region),
    decreases entries.len(),
{
    if entries.len() > 0 {
        lemma_first_match(entries.drop_first(), image, region);
        if !(entries[0].image == image && entries[0].region@ == region) {
            assert forall|k: int| 1 <= k < entries.len() implies entries.drop_first()[k - 1] == entries[k] by {}
        }
    }
}

/// Regions the scan accepts: non-empty, at most 256 texels on a side, inside the image.
pub open spec fn scannable(image: &ImageData, region: [u32; 4]) -> bool {
    &&& region[2] != 0 && region[3] != 0
    &&& region[2] <= 256 && region[3] <= 256
    &&& region[0] + region[2] <= image.width
    &&& region[1] + region[3] <= image.height
}

/// A bounded first-in, first-out cache of region scans.
pub struct OpacityCache {
    entries: VecDeque<OpacityEntry>,
    limit: usize,
    hits: u64,
    misses: u64,
}

impl View for OpacityCache {
    type V = Seq<OpacityEntry>;

    closed spec fn view(&self) -> Seq<OpacityEntry> {
        self.entries@
    }
}

/// The entry limit a setting selects: a parsed value from 64 to 512, else 256.
pub open spec fn spec_entry_limit(setting: Option<usize>) -> usize {
    match setting {
        Some(v) => if 64 <= v <= 512 { v } else { 256 },
        None => 256,
    }
}

impl OpacityCache {
    pub closed spec fn spec_limit(&self) -> usize {
        self.limit
    }

    pub closed spec fn spec_hits(&self) -> u64 {
        self.hits
    }

    pub closed spec fn spec_misses(&self) -> u64 {
        self.misses
    }

    /// An empty cache holding at most `limit` entries.
    pub fn with_limit(limit: usize) -> (cache: Self)
        ensures
            cache@ == Seq::<OpacityEntry>::empty(),
            cache.spec_limit() == limit,
            cache.spec_hits() == 0,
            cache.spec_misses() == 0,
    {
        OpacityCache { entries: VecDeque::with_capacity(limit), limit, hits: 0, misses: 0 }
    }

    /// The entry limit for a configured value.
    pub fn entry_limit(setting: Option<usize>) -> (limit: usize)
        ensures
            limit == spec_entry_limit(setting),
    {
        match setting {
            Some(v) => if 64 <= v && v <= 512 {
                v
            } else {
                256
            },
            None => 256,
        }
    }

    /// An empty cache sized by a configured value.
    pub fn with_setting(setting: Option<usize>) -> (cache: Self)
        ensures
            cache@ == Seq::<OpacityEntry>::empty(),
            cache.spec_limit() == spec_entry_limit(setting),
            cache.spec_hits() == 0,
            cache.spec_misses() == 0,
    {
        Self::with_limit(Self::entry_limit(setting))
    }

    pub fn limit(&self) -> (limit: usize)
        ensures
            limit == self.spec_limit(),
    {
        self.limit
    }

    pub fn len(&self) -> (n: usize)
        ensures
            n == self@.len(),
    {
        self.entries.len()
    }

    /// Lookups answered from the cache.
    pub fn hits(&self) -> (n: u64)
        ensures
            n == self.spec_hits(),
    {
        self.hits
    }

    /// Lookups that scanned the image.
    pub fn misses(&self) -> (n: u64)
        ensures
            n == self.spec_misses(),
    {
        self.misses
    }

    fn find(&self, image: u64, region: &[u32; 4]) -> (found: Option<usize>)
        ensures
            found matches Some(k) ==> first_match(self@, image, region@) == Some(k as int) && k < self@.len(),
            found is None ==> first_match(self@, image, region@) is None,
    {
        let mut i: usize = 0;
        proof {
            lemma_first_match(self@, image, region@);
        }
        while i < self.entries.len()
            invariant
                i <= self@.len(),
                forall|k: int| 0 <= k < i ==> !(#[trigger] self@[k].image == image && self@[k].region@ == region@),
            decreases self@.len() - i,
        {
            let entry = &self.entries[i];
            if entry.image == image && same_words(&entry.region, region) {
                proof {
                    lemma_first_match(self@, image, region@);
                    if let Some(k) = first_match(self@, image, region@) {
                        if k < i {
                            assert(!(self@[k].image == image && self@[k].region@ == region@));
                        }
                        if k > i {
                            lemma_first_match_is_first(self@, image, region@, i as int);
                        }
                    }
                }
                return Some(i);
            }
            i += 1;
        }
        proof {
            if let Some(k) = first_match(self@, image, region@) {
                assert(!(self@[k].image == image && self@[k].region@ == region@));
            }
        }
        None
    }

    /// The scan of `region` of `image`: the cached
    /// one where this image and region were scanned before, a fresh scan (then cached,
    /// evicting the oldest entry at the limit) for a scannable region, and `None` otherwise.
    pub fn get(&mut self, image_id: u64, image: &ImageData, region: [u32; 4]) -> (result: Option<AlphaShape>)
        requires
            region[0] <= 65536 && region[1] <= 65536 && region[2] <= 65536 && region[3] <= 65536,
            old(self).spec_hits() < u64::MAX,
            old(self).spec_misses() < u64::MAX,
        ensures
            final(self).spec_limit() == old(self).spec_limit(),
            match first_match(old(self)@, image_id, region@) {
                Some(k) => {
                    &&& result == Some(old(self)@[k].shape)
                    &&& final(self)@ == old(self)@
                    &&& final(self).spec_hits() == old(self).spec_hits() + 1
                    &&& final(self).spec_misses() == old(self).spec_misses()
                },
                None => if !scannable(image, region) {
                    &&& result is None
                    &&& final(self)@ == old(self)@
                    &&& final(self).spec_hits() == old(self).spec_hits()
                    &&& final(self).spec_misses() == old(self).spec_misses()
                } else {
                    &&& result matches Some(shape)
                    &&& shape_of(image, region, shape)
                    &&& final(self)@ == (if old(self)@.len() == old(self).spec_limit() && old(self)@.len() > 0 {
                        old(self)@.drop_first()
                    } else {
                        old(self)@
                    }).push(OpacityEntry { image: image_id, region, shape })
                    &&& final(self).spec_hits() == old(self).spec_hits()
                    &&& final(self).spec_misses() == old(self).spec_misses() + 1
                },
            },
    {
        if let Some(k) = self.find(image_id, &region) {
            self.hits += 1;
            return Some(self.entries[k].shape);
        }
        let x = region[0];
        let y = region[1];
        let w = region[2];
        let h = region[3];
        if w == 0 || h == 0 || w > 256 || h > 256 || x + w > image.width || y + h > image.height {
            return None;
        }
        assert(w * h <= 65536) by (nonlinear_arith)
            requires
                w <= 256,
                h <= 256,
        ;
        let shape = alpha_shape(image, region);
        self.misses += 1;
        if self.entries.len() == self.limit {
            let _ = self.entries.pop_front();
            proof {
                assert(old(self)@.len() > 0 ==> self@ =~= old(self)@.drop_first());
            }
        }
        self.entries.push_back(OpacityEntry { image: image_id, region, shape });
        Some(shape)
    }
}

proof fn lemma_first_match_is_first(entries: Seq<OpacityEntry>, image: u64, region: Seq<u32>, i: int)
    requires
        0 <= i < entries.len(),
        entries[i].image == image && entries[i].region@ == region,
    ensures
        first_match(entries, image, region) matches Some(k) && k <= i,
    decreases entries.len(),
{
    if i > 0 && !(entries[0].image == image && entries[0].region@ == region) {
        lemma_first_match_is_first(entries.drop_first(), image, region, i - 1);
    }
}

/// The cache never holds more than its limit, once the limit is at least one.
pub proof fn law_opacity_cache_bounded(before: &OpacityCache, after: &OpacityCache, image_id: u64, image: &ImageData, region: [u32; 4], result: Option<AlphaShape>)
    requires
        before.spec_limit() >= 1,
        before@.len() <= before.spec_limit(),
        after.spec_limit() == before.spec_limit(),
        match first_match(before@, image_id, region@) {
            Some(k) => after@ == before@,
            None => if !scannable(image, region) {
                after@ == before@
            } else {
                result matches Some(shape) && after@ == (if before@.len() == before.spec_limit() && before@.len() > 0 {
                    before@.drop_first()
                } else {
                    before@
                }).push(OpacityEntry { image: image_id, region, shape })
            },
        },
    ensures
        after@.len() <= after.spec_limit(),
{
}


/// Whether a draw may hide what was drawn before it, so that its opaque rectangle and
/// footprint are worth working out: full alpha, blend mode 0 or 4, a shader effect that keeps
/// the texture's alpha (0, 4, 5 or 6), and not dissolving (a dissolve amount over 0.01, which
/// the caller compares).
pub fn may_hide_earlier(alpha: u8, blend: u8, effect: u8, dissolving: bool) -> (r: bool)
    ensures
        r == (alpha == 255 && (blend == 0 || blend == 4) && (effect == 0 || effect == 4 || effect == 5
            || effect == 6) && !dissolving),
{
    alpha == 255 && (blend == 0 || blend == 4) && (effect == 0 || effect == 4 || effect == 5 || effect == 6)
        && !dissolving
}

/// A scissor `(x, y, width, height)` as a rectangle.
pub open spec fn scissor_rect(s: (i32, i32, u32, u32)) -> Rect {
    Rect([s.0, s.1, (s.0 + s.2) as i32, (s.1 + s.3) as i32])
}

/// `x + w` clamped to `i32::MAX`.
pub open spec fn saturating_end(x: i32, w: u32) -> i32 {
    if x + w > i32::MAX { i32::MAX } else { (x + w) as i32 }
}

fn saturating_end_exec(x: i32, w: u32) -> (e: i32)
    requires
        w <= i32::MAX,
    ensures
        e == saturating_end(x, w),
{
    let sum = x as i64 + w as i64;
    if sum > i32::MAX as i64 {
        i32::MAX
    } else {
        sum as i32
    }
}

/// How a draw is replayed around a hidden rectangle.
pub enum VisiblePlan {
    /// Draw once with the current scissor.
    Whole,
    /// Draw nothing: the current scissor leaves no pixel on screen.
    Nothing,
    /// Draw once per scissor, in order, then restore the current scissor.
    Pieces(Vec<(i32, i32, u32, u32)>),
}

/// The visible area: the current scissor clipped to the screen, or the screen.
pub open spec fn visible_clip(width: u32, height: u32, scissor: Option<(i32, i32, u32, u32)>) -> Option<Rect> {
    let screen = Rect([0, 0, width as i32, height as i32]);
    match scissor {
        Some((x, y, w, h)) => Rect([x, y, saturating_end(x, w), saturating_end(y, h)]).spec_intersect(screen),
        None => Some(screen),
    }
}

/// The four bands of `clip` around `hidden`: above, below, left and right.
pub open spec fn bands(clip: Rect, hidden: Rect) -> Seq<Rect> {
    let (l, t, r, b) = (clip.0[0], clip.0[1], clip.0[2], clip.0[3]);
    let (x0, y0, x1, y1) = (hidden.0[0], hidden.0[1], hidden.0[2], hidden.0[3]);
    seq![Rect([l, t, r, y0]), Rect([l, y1, r, b]), Rect([l, y0, x0, y1]), Rect([x1, y0, r, y1])]
}

/// The scissors that replay a draw everywhere in `clip` except in `hidden`.
pub open spec fn band_scissors(clip: Rect, hidden: Rect, k: int) -> Seq<(i32, i32, u32, u32)>
    decreases 4 - k,
{
    if k >= 4 || k < 0 {
        Seq::empty()
    } else {
        let rest = band_scissors(clip, hidden, k + 1);
        match clip.spec_intersect(bands(clip, hidden)[k]) {
            Some(r) => seq![(r.0[0], r.0[1], (r.0[2] - r.0[0]) as u32, (r.0[3] - r.0[1]) as u32)] + rest,
            None => rest,
        }
    }
}

/// How many of the scissors contain pixel `(x, y)`.
pub open spec fn scissors_containing(pieces: Seq<(i32, i32, u32, u32)>, x: int, y: int) -> nat
    decreases pieces.len(),
{
    if pieces.len() == 0 {
        0
    } else {
        (if scissor_rect(pieces[0]).contains(x, y) { 1nat } else { 0nat }) + scissors_containing(
            pieces.drop_first(),
            x,
            y,
        )
    }
}

proof fn lemma_scissors_prepend(p: (i32, i32, u32, u32), rest: Seq<(i32, i32, u32, u32)>, x: int, y: int)
    ensures
        scissors_containing(seq![p] + rest, x, y) == (if scissor_rect(p).contains(x, y) { 1nat } else { 0nat })
            + scissors_containing(rest, x, y),
{
    assert((seq![p] + rest).drop_first() =~= rest);
}

/// Replaying a partly hidden draw through the planned scissors paints every visible pixel of
/// the clip exactly once and no pixel of the hidden rectangle.
pub proof fn law_visible_pieces_partition(clip: Rect, hidden: Rect, x: int, y: int)
    requires
        clip.left() <= hidden.left() < hidden.right() <= clip.right(),
        clip.top() <= hidden.top() < hidden.bottom() <= clip.bottom(),
    ensures
        scissors_containing(band_scissors(clip, hidden, 0), x, y) == if clip.contains(x, y) && !hidden.contains(x, y) {
            1nat
        } else {
            0nat
        },
{
    let bs = bands(clip, hidden);
    assert forall|k: int| 0 <= k < 4 implies (clip.spec_intersect(#[trigger] bs[k]) matches Some(r) ==> r == bs[k]
        && scissor_rect((r.0[0], r.0[1], (r.0[2] - r.0[0]) as u32, (r.0[3] - r.0[1]) as u32)).0@ == r.0@) by {
        if let Some(r) = clip.spec_intersect(bs[k]) {
            assert(r.0@ =~= bs[k].0@);
        }
    }
    let s3 = band_scissors(clip, hidden, 3);
    let s2 = band_scissors(clip, hidden, 2);
    let s1 = band_scissors(clip, hidden, 1);
    let s0 = band_scissors(clip, hidden, 0);
    assert(band_scissors(clip, hidden, 4) == Seq::<(i32, i32, u32, u32)>::empty());
    assert forall|k: int| 0 <= k < 4 implies scissors_containing(#[trigger] band_scissors(clip, hidden, k), x, y)
        == (if clip.spec_intersect(bs[k]) is Some && bs[k].contains(x, y) { 1nat } else { 0nat })
        + scissors_containing(band_scissors(clip, hidden, k + 1), x, y) by {
        if let Some(r) = clip.spec_intersect(bs[k]) {
            let p = (r.0[0], r.0[1], (r.0[2] - r.0[0]) as u32, (r.0[3] - r.0[1]) as u32);
            lemma_scissors_prepend(p, band_scissors(clip, hidden, k + 1), x, y);
        }
    }
    assert(scissors_containing(s3, x, y) == (if clip.spec_intersect(bs[3]) is Some && bs[3].contains(x, y) { 1nat } else { 0nat }));
}

/// Plans the replay of a draw that later opaque draws partly hide, on a `width` by `height`
/// screen with the current `scissor`.
pub fn visible_plan(width: u32, height: u32, scissor: Option<(i32, i32, u32, u32)>, hidden: Option<Rect>) -> (plan: VisiblePlan)
    requires
        width <= i32::MAX,
        height <= i32::MAX,
        scissor matches Some(s) ==> s.2 <= i32::MAX && s.3 <= i32::MAX,
    ensures
        match plan {
            VisiblePlan::Whole => hidden is None || (visible_clip(width, height, scissor) matches Some(clip)
                && clip.spec_intersect(hidden->Some_0) is None),
            VisiblePlan::Nothing => hidden is Some && visible_clip(width, height, scissor) is None,
            VisiblePlan::Pieces(pieces) => hidden matches Some(hd) && visible_clip(width, height, scissor) matches Some(clip)
                && clip.spec_intersect(hd) matches Some(h) && pieces@ == band_scissors(clip, h, 0),
        },
{
    let hidden = match hidden {
        Some(h) => h,
        None => return VisiblePlan::Whole,
    };
    let screen = Rect([0, 0, width as i32, height as i32]);
    let clip = match scissor {
        Some((x, y, w, h)) => {
            let scissored = Rect([x, y, saturating_end_exec(x, w), saturating_end_exec(y, h)]);
            match scissored.intersect(screen) {
                Some(c) => c,
                None => return VisiblePlan::Nothing,
            }
        },
        None => screen,
    };
    let inner = match clip.intersect(hidden) {
        Some(r) => r,
        None => return VisiblePlan::Whole,
    };
    let l = clip.0[0];
    let t = clip.0[1];
    let r = clip.0[2];
    let b = clip.0[3];
    let x0 = inner.0[0];
    let y0 = inner.0[1];
    let x1 = inner.0[2];
    let y1 = inner.0[3];
    let candidates = [Rect([l, t, r, y0]), Rect([l, y1, r, b]), Rect([l, y0, x0, y1]), Rect([x1, y0, r, y1])];
    let ghost bs = bands(clip, inner);
    assert(candidates@ =~= bs);
    let mut pieces: Vec<(i32, i32, u32, u32)> = Vec::new();
    let mut k: usize = 0;
    while k < 4
        invariant
            k <= 4,
            candidates@ == bs,
            bs == bands(clip, inner),
            0 <= clip.0[0] && 0 <= clip.0[1],
            pieces@ + band_scissors(clip, inner, k as int) == band_scissors(clip, inner, 0),
        decreases 4 - k,
    {
        let ghost before = pieces@;
        if let Some(p) = clip.intersect(candidates[k]) {
            pieces.push((p.0[0], p.0[1], (p.0[2] - p.0[0]) as u32, (p.0[3] - p.0[1]) as u32));
            proof {
                assert(pieces@ + band_scissors(clip, inner, k + 1) =~= before + band_scissors(clip, inner, k as int));
            }
        }
        k += 1;
    }
    assert(band_scissors(clip, inner, 4) =~= Seq::<(i32, i32, u32, u32)>::empty());
    assert(pieces@ =~= band_scissors(clip, inner, 0));
    VisiblePlan::Pieces(pieces)
}


/// What happens to a queued draw when its batch is drawn.
#[derive(Clone, Copy, Debug, PartialEq, Eq)]
pub enum BatchStep {
    /// A later draw repaints exactly the same pixels.
    Discard,
    /// Draw it, replaying around the hidden rectangle if there is one.
    Draw(Option<Rect>),
}

/// Some later draw of the batch covers draw `i`.
pub open spec fn covered_later(jobs: Seq<Coverage>, i: int) -> bool {
    exists|j: int| i < j < jobs.len() && #[trigger] jobs[i].spec_covered_by(jobs[j])
}

pub open spec fn spec_batch_step(jobs: Seq<Coverage>, i: int) -> BatchStep {
    if covered_later(jobs, i) {
        BatchStep::Discard
    } else {
        BatchStep::Draw(spec_hidden_by(jobs[i], jobs.subrange(i + 1, jobs.len() as int)))
    }
}

fn covered_later_exec(jobs: &[Coverage], i: usize) -> (r: bool)
    requires
        i < jobs@.len(),
    ensures
        r == covered_later(jobs@, i as int),
{
    let n = jobs.len();
    let mut j = i + 1;
    while j < n
        invariant
            n == jobs@.len(),
            i < j <= jobs@.len(),
            forall|k: int| i < k < j ==> !#[trigger] jobs@[i as int].spec_covered_by(jobs@[k]),
        decreases jobs@.len() - j,
    {
        if jobs[i].covered_by(jobs[j]) {
            return true;
        }
        j += 1;
    }
    false
}

/// Decides, for each draw of a batch in order, whether it is discarded or drawn and which
/// part of it later opaque draws hide.
pub fn plan_batch(jobs: &[Coverage]) -> (steps: Vec<BatchStep>)
    requires
        forall|i: int| 0 <= i < jobs@.len() ==> ((#[trigger] jobs@[i]).bounds matches Some(b) ==> b.measurable()),
    ensures
        steps@.len() == jobs@.len(),
        forall|i: int| 0 <= i < jobs@.len() ==> #[trigger] steps@[i] == spec_batch_step(jobs@, i),
{
    let mut steps: Vec<BatchStep> = Vec::new();
    let mut i: usize = 0;
    while i < jobs.len()
        invariant
            i <= jobs@.len(),
            steps@.len() == i,
            forall|i: int| 0 <= i < jobs@.len() ==> ((#[trigger] jobs@[i]).bounds matches Some(b) ==> b.measurable()),
            forall|k: int| 0 <= k < i ==> #[trigger] steps@[k] == spec_batch_step(jobs@, k),
        decreases jobs@.len() - i,
    {
        if covered_later_exec(jobs, i) {
            steps.push(BatchStep::Discard);
        } else {
            steps.push(BatchStep::Draw(hidden_from(jobs[i], jobs, i + 1)));
        }
        i += 1;
    }
    steps
}

proof fn lemma_last_cover(jobs: Seq<Coverage>, i: int, j: int)
    requires
        0 <= i < j < jobs.len(),
        jobs[i].spec_covered_by(jobs[j]),
    ensures
        exists|k: int| i < k < jobs.len() && #[trigger] jobs[i].spec_covered_by(jobs[k]) && !covered_later(jobs, k),
    decreases jobs.len() - j,
{
    if covered_later(jobs, j) {
        let k = choose|k: int| j < k < jobs.len() && #[trigger] jobs[j].spec_covered_by(jobs[k]);
        lemma_last_cover(jobs, i, k);
    } else {
        assert(jobs[i].spec_covered_by(jobs[j]) && !covered_later(jobs, j));
    }
}

/// Every discarded draw has the same footprint as a later draw that is drawn.
pub proof fn law_discarded_draws_are_repainted(jobs: Seq<Coverage>, i: int)
    requires
        0 <= i < jobs.len(),
        spec_batch_step(jobs, i) == BatchStep::Discard,
    ensures
        exists|k: int| i < k < jobs.len() && #[trigger] jobs[i].spec_covered_by(jobs[k]) && spec_batch_step(jobs, k) is Draw,
{
    let j = choose|j: int| i < j < jobs.len() && #[trigger] jobs[i].spec_covered_by(jobs[j]);
    lemma_last_cover(jobs, i, j);
}

/// Occlusion counts over the draws of many batches.
#[derive(Clone, Copy, Debug, Default)]
pub struct OcclusionStats {
    pub candidates: u64,
    pub clipped: u64,
    pub bounds_pixels: u64,
    pub hidden_pixels: u64,
    pub discarded_layers: u64,
}

impl OcclusionStats {
    /// Counts a draw: one with bounds is a candidate, one with a hidden part is clipped.
    pub fn record(&mut self, step: BatchStep, bounds: Option<Rect>)
        requires
            old(self).discarded_layers < u64::MAX,
            old(self).candidates < u64::MAX,
            old(self).clipped < u64::MAX,
            bounds matches Some(b) ==> b.measurable() && old(self).bounds_pixels + (b.spec_area() as u64) <= u64::MAX,
            step matches BatchStep::Draw(Some(h)) ==> h.measurable() && old(self).hidden_pixels + (h.spec_area() as u64) <= u64::MAX,
        ensures
            step is Discard ==> *final(self) == (OcclusionStats { discarded_layers: (old(self).discarded_layers + 1) as u64, ..*old(self) }),
            step matches BatchStep::Draw(hidden) ==> {
                &&& final(self).discarded_layers == old(self).discarded_layers
                &&& final(self).candidates == old(self).candidates + (if bounds is Some { 1int } else { 0 })
                &&& final(self).bounds_pixels == old(self).bounds_pixels + match bounds {
                    Some(b) => b.spec_area() as u64,
                    None => 0u64,
                }
                &&& final(self).clipped == old(self).clipped + (if hidden is Some { 1int } else { 0 })
                &&& final(self).hidden_pixels == old(self).hidden_pixels + match hidden {
                    Some(h) => h.spec_area() as u64,
                    None => 0u64,
                }
            },
    {
        match step {
            BatchStep::Discard => {
                self.discarded_layers += 1;
            },
            BatchStep::Draw(hidden) => {
                if let Some(b) = bounds {
                    self.candidates += 1;
                    self.bounds_pixels += b.area() as u64;
                }
                if let Some(h) = hidden {
                    self.clipped += 1;
                    self.hidden_pixels += h.area() as u64;
                }
            },
        }
    }
}

} // verus!
