use vstd::prelude::*;

verus! {

/// The memory that decoded clips kept in memory may take together.
pub const STATIC_CACHE_BYTES: usize = 8 * 1024 * 1024;

/// A cached clip with the path it was loaded from and the bytes its samples take.
pub struct ClipEntry<C> {
    pub path: String,
    pub clip: C,
    pub bytes: usize,
}

/// The sum of `sizes`.
pub open spec fn total(sizes: Seq<usize>) -> int
    decreases sizes.len(),
{
    if sizes.len() == 0 {
        0
    } else {
        total(sizes.drop_last()) + sizes.last()
    }
}

/// Fewest oldest entries to drop, from `d` on, so that `incoming` more bytes fit the budget.
pub open spec fn evictions_from(sizes: Seq<usize>, incoming: int, d: int) -> int
    decreases sizes.len() - d,
{
    if d >= sizes.len() || total(sizes.subrange(d, sizes.len() as int)) + incoming <= STATIC_CACHE_BYTES {
        d
    } else {
        evictions_from(sizes, incoming, d + 1)
    }
}

/// Decoded clips kept in memory by path, oldest first, within `STATIC_CACHE_BYTES`.
pub struct StaticCache<C> {
    entries: Vec<ClipEntry<C>>,
    bytes: usize,
}

impl<C> StaticCache<C> {
    /// The paths held, oldest first.
    pub closed spec fn spec_paths(&self) -> Seq<Seq<char>> {
        Seq::new(self.entries@.len(), |i: int| self.entries@[i].path@)
    }

    /// The byte sizes of the clips held, oldest first.
    pub closed spec fn spec_sizes(&self) -> Seq<usize> {
        Seq::new(self.entries@.len(), |i: int| self.entries@[i].bytes)
    }

    /// The clips held, oldest first.
    pub closed spec fn spec_clips(&self) -> Seq<C> {
        Seq::new(self.entries@.len(), |i: int| self.entries@[i].clip)
    }

    /// The bytes the clips held take together.
    pub closed spec fn spec_bytes(&self) -> usize {
        self.bytes
    }

    /// Paths are distinct, the byte count is the sum of the sizes and within the budget.
    pub open spec fn wf(&self) -> bool {
        &&& forall|i: int, j: int|
            0 <= i < j < self.spec_paths().len() ==> self.spec_paths()[i] != self.spec_paths()[j]
        &&& self.spec_bytes() == total(self.spec_sizes())
        &&& self.spec_bytes() <= STATIC_CACHE_BYTES
    }

    /// An empty cache.
    pub fn new() -> (c: Self)
        ensures
            c.wf(),
            c.spec_paths().len() == 0,
    {
        let c = StaticCache { entries: Vec::new(), bytes: 0 };
        assert(c.spec_sizes() =~= Seq::<usize>::empty());
        c
    }

    /// Bytes the cached clips take.
    pub fn bytes(&self) -> (n: usize)
        ensures
            n == self.spec_bytes(),
    {
        self.bytes
    }

    /// Clips cached.
    pub fn len(&self) -> (n: usize)
        ensures
            n == self.spec_paths().len(),
    {
        self.entries.len()
    }

    /// The clip cached for `path`.
    pub fn get(&self, path: &String) -> (r: Option<&C>)
        requires
            self.wf(),
        ensures
            match r {
                Some(c) => exists|i: int|
                    0 <= i < self.spec_paths().len() && self.spec_paths()[i] == path@ && self.spec_clips()[i]
                        == *c,
                None => !self.spec_paths().contains(path@),
            },
    {
        let mut i: usize = 0;
        while i < self.entries.len()
            invariant
                i <= self.entries.len(),
                forall|k: int| 0 <= k < i ==> self.spec_paths()[k] != path@,
            decreases self.entries.len() - i,
        {
            if self.entries[i].path == *path {
                assert(self.spec_paths()[i as int] == path@);
                assert(self.spec_clips()[i as int] == self.entries@[i as int].clip);
                return Some(&self.entries[i].clip);
            }
            assert(self.spec_paths()[i as int] == self.entries@[i as int].path@);
            i = i + 1;
        }
        None
    }

    /// Caches a clip of `samples` 16-bit samples under `path`: a clip over a quarter of the
    /// budget, or a path already held, is not taken; otherwise the oldest clips leave until
    /// the new one fits.
    pub fn insert(&mut self, path: String, clip: C, samples: usize)
        requires
            old(self).wf(),
        ensures
            final(self).wf(),
            ({
                let bytes = samples * 2;
                if bytes > STATIC_CACHE_BYTES / 4 || old(self).spec_paths().contains(path@) {
                    &&& final(self).spec_paths() == old(self).spec_paths()
                    &&& final(self).spec_sizes() == old(self).spec_sizes()
                    &&& final(self).spec_clips() == old(self).spec_clips()
                } else {
                    let d = evictions_from(old(self).spec_sizes(), bytes, 0);
                    &&& final(self).spec_paths() == old(self).spec_paths().skip(d).push(path@)
                    &&& final(self).spec_sizes() == old(self).spec_sizes().skip(d).push(bytes as usize)
                    &&& final(self).spec_clips() == old(self).spec_clips().skip(d).push(clip)
                }
            }),
    {
        if samples > STATIC_CACHE_BYTES / 8 {
            return;
        }
        let bytes = samples * 2;
        let mut i: usize = 0;
        while i < self.entries.len()
            invariant
                i <= self.entries.len(),
                self.entries@ == old(self).entries@,
                self.bytes == old(self).bytes,
                self.wf(),
                forall|k: int| 0 <= k < i ==> self.spec_paths()[k] != path@,
            decreases self.entries.len() - i,
        {
            if self.entries[i].path == path {
                assert(self.spec_paths()[i as int] == path@);
                return;
            }
            assert(self.spec_paths()[i as int] == self.entries@[i as int].path@);
            i = i + 1;
        }
        let ghost old_paths = self.spec_paths();
        let ghost old_sizes = self.spec_sizes();
        let ghost old_clips = self.spec_clips();
        let ghost mut d: int = 0;
        while self.bytes + bytes > STATIC_CACHE_BYTES && self.entries.len() > 0
            invariant
                0 <= d <= old_sizes.len(),
                old_paths.len() == old_sizes.len(),
                old_clips.len() == old_sizes.len(),
                bytes <= STATIC_CACHE_BYTES / 4,
                self.spec_paths() == old_paths.skip(d),
                self.spec_sizes() == old_sizes.skip(d),
                self.spec_clips() == old_clips.skip(d),
                self.bytes == total(self.spec_sizes()),
                self.bytes <= STATIC_CACHE_BYTES,
                evictions_from(old_sizes, bytes as int, 0) == evictions_from(old_sizes, bytes as int, d),
            decreases self.entries.len(),
        {
            proof {
                assert(old_sizes.skip(d) =~= old_sizes.subrange(d, old_sizes.len() as int));
                lemma_total_first(self.spec_sizes());
            }
            let ghost prev = self.entries@;
            let ghost prev_clips = self.spec_clips();
            assert(forall|k: int| 0 <= k < prev.len() ==> prev_clips[k] == #[trigger] prev[k].clip);
            let first = self.entries.remove(0);
            self.bytes = self.bytes - first.bytes;
            proof {
                assert(self.entries@ =~= prev.subrange(1, prev.len() as int));
                assert(first.bytes == old_sizes.skip(d)[0]);
                let d0 = d;
                d = d + 1;
                assert forall|k: int| 0 <= k < self.entries@.len() implies self.spec_paths()[k] == old_paths.skip(d)[k]
                    && self.spec_sizes()[k] == old_sizes.skip(d)[k] && self.spec_clips()[k] == old_clips.skip(d)[k] by {
                    assert(self.entries@[k] == prev[k + 1]);
                    assert(old_paths.skip(d)[k] == old_paths[d0 + k + 1]);
                    assert(old_paths.skip(d0)[k + 1] == old_paths[d0 + k + 1]);
                    assert(old_sizes.skip(d0)[k + 1] == old_sizes[d0 + k + 1]);
                    assert(old_clips.skip(d0)[k + 1] == old_clips[d0 + k + 1]);
                    assert(old_clips.skip(d)[k] == old_clips[d0 + k + 1]);
                    assert(old_sizes.skip(d)[k] == old_sizes[d0 + k + 1]);
                    assert(prev_clips[k + 1] == prev[k + 1].clip);
                }
                assert(old_sizes.skip(d) =~= old_sizes.skip(d0).drop_first());
                assert(self.spec_paths() =~= old_paths.skip(d));
                assert(self.spec_sizes() =~= old_sizes.skip(d));
                assert(self.spec_clips() =~= old_clips.skip(d));
            }
        }
        proof {
            assert(old_sizes.skip(d) =~= old_sizes.subrange(d, old_sizes.len() as int));
            if self.entries.len() == 0 {
                assert(d == old_sizes.len());
            }
        }
        self.entries.push(ClipEntry { path, clip, bytes });
        self.bytes = self.bytes + bytes;
        proof {
            let sizes = self.spec_sizes();
            assert(sizes.drop_last() =~= old_sizes.skip(d));
            assert(self.spec_paths() =~= old_paths.skip(d).push(path@));
            assert(sizes =~= old_sizes.skip(d).push(bytes as usize));
            assert(self.spec_clips() =~= old_clips.skip(d).push(clip));
            assert forall|a: int, b: int|
                0 <= a < b < self.spec_paths().len() implies self.spec_paths()[a] != self.spec_paths()[b] by {
                if b == self.spec_paths().len() - 1 {
                    assert(old_paths[a + d] == self.spec_paths()[a]);
                    assert(old_paths.contains(old_paths[a + d]));
                } else {
                    assert(old_paths[a + d] == self.spec_paths()[a]);
                    assert(old_paths[b + d] == self.spec_paths()[b]);
                }
            }
        }
    }
}

proof fn lemma_total_first(sizes: Seq<usize>)
    requires
        sizes.len() > 0,
    ensures
        total(sizes) == sizes[0] + total(sizes.drop_first()),
        total(sizes.drop_first()) >= 0,
    decreases sizes.len(),
{
    if sizes.len() > 1 {
        lemma_total_first(sizes.drop_last());
        assert(sizes.drop_last().drop_first() =~= sizes.drop_first().drop_last());
    } else {
        assert(sizes.drop_first() =~= Seq::<usize>::empty());
        assert(sizes.drop_last() =~= Seq::<usize>::empty());
    }
    lemma_total_nonneg(sizes.drop_first());
}

proof fn lemma_total_nonneg(sizes: Seq<usize>)
    ensures
        total(sizes) >= 0,
    decreases sizes.len(),
{
    if sizes.len() > 0 {
        lemma_total_nonneg(sizes.drop_last());
    }
}

} // verus!
