use vstd::prelude::*;

verus! {

/// Fonts up to this size keep precomputed outlines; larger ones (CJK) are rasterized on
/// demand and only one of them is kept, while in use.
pub const OUTLINE_CACHE_MAX_BYTES: usize = 256 * 1024;

/// How long a large font is kept without use, in nanoseconds.
pub const LARGE_FONT_IDLE_NS: u64 = 250_000_000;

/// Whether a font file of `len` bytes keeps precomputed outlines.
pub fn outline_cached(len: usize) -> (r: bool)
    ensures
        r == (len <= OUTLINE_CACHE_MAX_BYTES),
{
    len <= OUTLINE_CACHE_MAX_BYTES
}

/// The one large font kept: its path, the font and when it was last used (nanoseconds of a
/// monotonic clock).
pub struct CachedFont<F> {
    pub path: String,
    pub font: F,
    pub last_used: u64,
}

/// The large font kept between uses, if any.
pub struct FontCache<F> {
    pub large: Option<CachedFont<F>>,
}

impl<F> FontCache<F> {
    /// A cache holding no font.
    pub fn new() -> (c: Self)
        ensures
            c.large is None,
    {
        FontCache { large: None }
    }

    /// The large font loaded from `path`, if it is the one kept; a hit counts as a use at
    /// `now`.
    pub fn get(&mut self, path: &String, now: u64) -> (hit: bool)
        ensures
            hit == (old(self).large matches Some(c) && c.path@ == path@),
            hit ==> (final(self).large matches Some(c) && c.path == old(self).large->0.path && c.font
                == old(self).large->0.font && c.last_used == now),
            !hit ==> final(self).large == old(self).large,
    {
        match &mut self.large {
            Some(cached) => {
                if cached.path == *path {
                    cached.last_used = now;
                    true
                } else {
                    false
                }
            },
            None => false,
        }
    }

    /// The font kept.
    pub fn font(&self) -> (f: Option<&F>)
        ensures
            match f {
                Some(f) => (self.large matches Some(c) && *f == c.font),
                None => self.large is None,
            },
    {
        match &self.large {
            Some(cached) => Some(&cached.font),
            None => None,
        }
    }

    /// Keeps `font`, loaded from `path`, as used at `now`, in place of any other.
    pub fn insert(&mut self, path: String, font: F, now: u64)
        ensures
            (final(self).large matches Some(c) && c.path == path && c.font == font && c.last_used == now),
    {
        self.large = Some(CachedFont { path, font, last_used: now });
    }

    /// Drops the font kept, before another large one is loaded.
    pub fn clear(&mut self)
        ensures
            final(self).large is None,
    {
        self.large = None;
    }

    /// Drops the large font once it has gone unused for `LARGE_FONT_IDLE_NS` at `now`.
    pub fn release_idle(&mut self, now: u64)
        ensures
            match old(self).large {
                Some(c) => if now >= c.last_used && now - c.last_used >= LARGE_FONT_IDLE_NS {
                    final(self).large is None
                } else {
                    final(self).large == old(self).large
                },
                None => final(self).large is None,
            },
    {
        let idle = match &self.large {
            Some(cached) => now >= cached.last_used && now - cached.last_used >= LARGE_FONT_IDLE_NS,
            None => false,
        };
        if idle {
            self.large = None;
        }
    }
}

} // verus!
