use vstd::prelude::*;

use crate::text_value::ColoredSegment;

verus! {

/// Text images kept indexed at most.
pub const MAX_ENTRIES: usize = 512;

/// Text as it was rasterized: plain, or in coloured segments.
pub enum Text {
    Plain(String),
    Colored(Vec<ColoredSegment>),
}

/// The contents of a text.
pub enum TextView {
    Plain(Seq<char>),
    Colored(Seq<([u8; 4], Seq<char>)>),
}

/// What a text image was rasterized from: font, size (the bits of the `f32`) and text.
pub struct TextKey {
    pub font: u64,
    pub size: u32,
    pub text: Text,
}

impl Text {
    pub open spec fn view(&self) -> TextView {
        match self {
            Text::Plain(s) => TextView::Plain(s@),
            Text::Colored(v) => TextView::Colored(crate::text_value::segment_views(v@)),
        }
    }
}

impl TextKey {
    pub open spec fn view(&self) -> (u64, u32, TextView) {
        (self.font, self.size, self.text.view())
    }
}

fn same_segments(a: &Vec<ColoredSegment>, b: &Vec<ColoredSegment>) -> (r: bool)
    ensures
        r == (crate::text_value::segment_views(a@) == crate::text_value::segment_views(b@)),
{
    if a.len() != b.len() {
        proof {
            assert(crate::text_value::segment_views(a@).len() != crate::text_value::segment_views(b@).len());
        }
        return false;
    }
    let mut i: usize = 0;
    while i < a.len()
        invariant
            i <= a.len(),
            a.len() == b.len(),
            forall|k: int| 0 <= k < i ==> a@[k].0 == b@[k].0 && a@[k].1@ == b@[k].1@,
        decreases a.len() - i,
    {
        let ca = a[i].0;
        let cb = b[i].0;
        if !(ca[0] == cb[0] && ca[1] == cb[1] && ca[2] == cb[2] && ca[3] == cb[3]) {
            proof {
                assert(crate::text_value::segment_views(a@)[i as int] != crate::text_value::segment_views(b@)[i as int]);
            }
            return false;
        }
        assert(ca =~= cb);
        if a[i].1 != b[i].1 {
            proof {
                assert(crate::text_value::segment_views(a@)[i as int] != crate::text_value::segment_views(b@)[i as int]);
            }
            return false;
        }
        i = i + 1;
    }
    assert(crate::text_value::segment_views(a@) =~= crate::text_value::segment_views(b@));
    true
}

/// Whether two keys name the same text image.
pub fn same_key(a: &TextKey, b: &TextKey) -> (r: bool)
    ensures
        r == (a.view() == b.view()),
{
    if a.font != b.font || a.size != b.size {
        return false;
    }
    match (&a.text, &b.text) {
        (Text::Plain(x), Text::Plain(y)) => *x == *y,
        (Text::Colored(x), Text::Colored(y)) => same_segments(x, y),
        _ => false,
    }
}

/// Rasterized text images by what they were made from, held by handles (`W`) that do not
/// keep the pixels alive.
pub struct TextCache<W> {
    entries: Vec<(TextKey, W)>,
}

/// The keys of cache entries.
pub open spec fn key_views<W>(es: Seq<(TextKey, W)>) -> Seq<(u64, u32, TextView)> {
    Seq::new(es.len(), |i: int| es[i].0.view())
}

/// The entries whose images are still alive.
pub open spec fn alive_only<E>(es: Seq<E>, alive: Seq<bool>) -> Seq<E>
    decreases es.len(),
{
    if es.len() == 0 || alive.len() != es.len() {
        es
    } else {
        let rest = alive_only(es.drop_last(), alive.drop_last());
        if alive.last() {
            rest.push(es.last())
        } else {
            rest
        }
    }
}

/// The first entry for `key`, if any.
pub open spec fn index_of<W>(es: Seq<(TextKey, W)>, key: (u64, u32, TextView), i: int) -> Option<int>
    decreases es.len() - i,
{
    if i < 0 || i >= es.len() {
        None
    } else if es[i].0.view() == key {
        Some(i)
    } else {
        index_of(es, key, i + 1)
    }
}

proof fn lemma_index_of<W>(es: Seq<(TextKey, W)>, key: (u64, u32, TextView), i: int)
    requires
        0 <= i,
    ensures
        index_of(es, key, i) matches Some(k) ==> i <= k < es.len() && es[k].0.view() == key,
    decreases es.len() - i,
{
    if i < es.len() && es[i].0.view() != key {
        lemma_index_of(es, key, i + 1);
    }
}

impl<W> TextCache<W> {
    pub closed spec fn spec_entries(&self) -> Seq<(TextKey, W)> {
        self.entries@
    }

    /// An empty cache.
    pub fn new() -> (c: Self)
        ensures
            c.spec_entries().len() == 0,
    {
        TextCache { entries: Vec::new() }
    }

    /// Entries indexed.
    pub fn len(&self) -> (n: usize)
        ensures
            n == self.spec_entries().len(),
    {
        self.entries.len()
    }

    /// The handle kept at `i`.
    pub fn handle(&self, i: usize) -> (w: &W)
        requires
            i < self.spec_entries().len(),
        ensures
            *w == self.spec_entries()[i as int].1,
    {
        &self.entries[i].1
    }

    /// Where the entry for `key` is, if any.
    pub fn lookup(&self, key: &TextKey) -> (r: Option<usize>)
        ensures
            match r {
                Some(i) => index_of(self.spec_entries(), key.view(), 0) == Some(i as int),
                None => index_of(self.spec_entries(), key.view(), 0) is None,
            },
    {
        let mut i: usize = 0;
        while i < self.entries.len()
            invariant
                i <= self.entries.len(),
                index_of(self.spec_entries(), key.view(), 0) == index_of(self.spec_entries(), key.view(), i as int),
            decreases self.entries.len() - i,
        {
            if same_key(&self.entries[i].0, key) {
                return Some(i);
            }
            i = i + 1;
        }
        None
    }

    /// Keeps the handle of a freshly rasterized image for `key`. A full index first drops the
    /// entries whose images are gone (`alive` marks the entries, in order); where there is
    /// still no room the handle is not kept. An entry already there for the key is replaced.
    pub fn store(&mut self, key: TextKey, handle: W, alive: &Vec<bool>)
        requires
            alive.len() == old(self).spec_entries().len(),
        ensures
            ({
                let pruned = if old(self).spec_entries().len() >= MAX_ENTRIES {
                    alive_only(old(self).spec_entries(), alive@)
                } else {
                    old(self).spec_entries()
                };
                if pruned.len() >= MAX_ENTRIES {
                    final(self).spec_entries() == pruned
                } else {
                    match index_of(pruned, key.view(), 0) {
                        Some(i) => key_views(final(self).spec_entries()) == key_views(pruned)
                            && final(self).spec_entries().len() == pruned.len()
                            && final(self).spec_entries()[i].1 == handle
                            && forall|j: int| 0 <= j < pruned.len() && j != i ==> #[trigger] final(self).spec_entries()[j] == pruned[j],
                        None => final(self).spec_entries() == pruned.push((key, handle)),
                    }
                }
            }),
    {
        if self.entries.len() >= MAX_ENTRIES {
            retain_marked(&mut self.entries, alive);
        }
        if self.entries.len() >= MAX_ENTRIES {
            return;
        }
        proof {
            lemma_index_of(self.entries@, key.view(), 0);
        }
        match self.lookup(&key) {
            Some(i) => {
                let ghost before = self.entries@;
                let (old_key, _) = self.entries.remove(i);
                self.entries.insert(i, (old_key, handle));
                proof {
                    assert(self.entries@ =~= before.update(i as int, (before[i as int].0, handle)));
                    assert(key_views(self.entries@) =~= key_views(before));
                }
            },
            None => {
                self.entries.push((key, handle));
            },
        }
    }
}

/// Keeps the entries marked alive, in order.
pub fn retain_marked<E>(entries: &mut Vec<E>, alive: &Vec<bool>)
    requires
        alive.len() == old(entries)@.len(),
    ensures
        final(entries)@ == alive_only(old(entries)@, alive@),
{
    let ghost all = entries@;
    let mut i: usize = 0;
    let mut j: usize = 0;
    while j < alive.len()
        invariant
            j <= alive.len(),
            alive.len() == all.len(),
            i <= entries@.len(),
            entries@.subrange(0, i as int) == alive_only(all.subrange(0, j as int), alive@.subrange(0, j as int)),
            entries@.subrange(i as int, entries@.len() as int) == all.subrange(j as int, all.len() as int),
        decreases alive.len() - j,
    {
        let ghost before = entries@;
        let ghost sub = all.subrange(0, j + 1);
        let ghost asub = alive@.subrange(0, j + 1);
        assert(sub.drop_last() =~= all.subrange(0, j as int));
        assert(asub.drop_last() =~= alive@.subrange(0, j as int));
        let ghost tail = before.subrange(i as int, before.len() as int);
        assert(tail.len() == all.len() - j);
        assert(i < before.len());
        assert(tail[0] == before[i as int]);
        assert(all.subrange(j as int, all.len() as int)[0] == all[j as int]);
        if alive[j] {
            assert(i < entries.len());
            i = i + 1;
            assert(entries@.subrange(0, i as int) =~= before.subrange(0, i - 1).push(before[i - 1]));
            assert(entries@.subrange(i as int, entries@.len() as int) =~= tail.subrange(1, tail.len() as int));
            assert(all.subrange(j as int, all.len() as int).subrange(1, tail.len() as int) =~= all.subrange(j + 1, all.len() as int));
        } else {
            entries.remove(i);
            assert(entries@.subrange(0, i as int) =~= before.subrange(0, i as int));
            assert(entries@.subrange(i as int, entries@.len() as int) =~= tail.subrange(1, tail.len() as int));
            assert(all.subrange(j as int, all.len() as int).subrange(1, tail.len() as int) =~= all.subrange(j + 1, all.len() as int));
        }
        j = j + 1;
    }
    assert(all.subrange(0, all.len() as int) =~= all);
    assert(alive@.subrange(0, all.len() as int) =~= alive@);
    assert(entries@.subrange(i as int, entries@.len() as int).len() == 0);
    assert(entries@ =~= entries@.subrange(0, i as int));
}

/// Compressed sound sources by path, held by handles (`W`) that do not keep the bytes alive:
/// the playing sources own them.
pub struct SourceCache<W> {
    entries: Vec<(String, W)>,
}

/// The first entry for `path`, if any.
pub open spec fn path_index<W>(es: Seq<(String, W)>, path: Seq<char>, i: int) -> Option<int>
    decreases es.len() - i,
{
    if i < 0 || i >= es.len() {
        None
    } else if es[i].0@ == path {
        Some(i)
    } else {
        path_index(es, path, i + 1)
    }
}

proof fn lemma_path_index<W>(es: Seq<(String, W)>, path: Seq<char>, i: int)
    requires
        0 <= i,
    ensures
        path_index(es, path, i) matches Some(k) ==> i <= k < es.len() && es[k].0@ == path,
    decreases es.len() - i,
{
    if i < es.len() && es[i].0@ != path {
        lemma_path_index(es, path, i + 1);
    }
}

impl<W> SourceCache<W> {
    pub closed spec fn spec_entries(&self) -> Seq<(String, W)> {
        self.entries@
    }

    /// An empty cache.
    pub fn new() -> (c: Self)
        ensures
            c.spec_entries().len() == 0,
    {
        SourceCache { entries: Vec::new() }
    }

    /// Entries indexed.
    pub fn len(&self) -> (n: usize)
        ensures
            n == self.spec_entries().len(),
    {
        self.entries.len()
    }

    /// The handle kept at `i`.
    pub fn handle(&self, i: usize) -> (w: &W)
        requires
            i < self.spec_entries().len(),
        ensures
            *w == self.spec_entries()[i as int].1,
    {
        &self.entries[i].1
    }

    /// Where the entry for `path` is, if any.
    pub fn lookup(&self, path: &String) -> (r: Option<usize>)
        ensures
            match r {
                Some(i) => path_index(self.spec_entries(), path@, 0) == Some(i as int),
                None => path_index(self.spec_entries(), path@, 0) is None,
            },
    {
        let mut i: usize = 0;
        while i < self.entries.len()
            invariant
                i <= self.entries.len(),
                path_index(self.spec_entries(), path@, 0) == path_index(self.spec_entries(), path@, i as int),
            decreases self.entries.len() - i,
        {
            if self.entries[i].0 == *path {
                return Some(i);
            }
            i = i + 1;
        }
        None
    }

    /// Keeps the handle of freshly loaded bytes for `path`, after dropping the entries whose
    /// bytes are gone (`alive` marks the entries, in order). An entry already there for the
    /// path is replaced.
    pub fn store(&mut self, path: String, handle: W, alive: &Vec<bool>)
        requires
            alive.len() == old(self).spec_entries().len(),
        ensures
            ({
                let pruned = alive_only(old(self).spec_entries(), alive@);
                match path_index(pruned, path@, 0) {
                    Some(i) => final(self).spec_entries() == pruned.update(i, (pruned[i].0, handle)),
                    None => final(self).spec_entries() == pruned.push((path, handle)),
                }
            }),
    {
        retain_marked(&mut self.entries, alive);
        proof {
            lemma_path_index(self.entries@, path@, 0);
        }
        match self.lookup(&path) {
            Some(i) => {
                let ghost before = self.entries@;
                let (old_path, _) = self.entries.remove(i);
                self.entries.insert(i, (old_path, handle));
                assert(self.entries@ =~= before.update(i as int, (before[i as int].0, handle)));
            },
            None => {
                self.entries.push((path, handle));
            },
        }
    }
}

} // verus!
