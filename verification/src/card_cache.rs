use vstd::prelude::*;

verus! {

/// Memory that prepared cards may take together.
pub const LIMIT: usize = 512 * 1024;

/// Prepared cards kept at most.
pub const MAX_CARDS: usize = 32;

/// What a prepared card is made from: the source image (by identity), the atlas region, the
/// card effect and whether it is inverted.
#[derive(Clone, Copy, Debug, PartialEq, Eq, Structural)]
pub struct CardKey {
    pub source: u64,
    pub x: u32,
    pub y: u32,
    pub w: u32,
    pub h: u32,
    pub effect: u8,
    pub invert: bool,
}

/// A prepared card with its key and the bytes it takes.
pub struct CardEntry<C> {
    pub key: CardKey,
    pub card: C,
    pub bytes: usize,
}

/// The memory a card prepared from a `w` by `h` atlas region takes, before it is made: four bytes
/// and one bit per texel of the region grown by one in each direction. `None` for an empty
/// region or one over 256 texels on a side, which is not prepared.
pub open spec fn needed_bytes(w: u32, h: u32) -> Option<int> {
    let w = w as int;
    let h = h as int;
    if w == 0 || h == 0 || w > 256 || h > 256 {
        None
    } else {
        let texels = (w + 1) * (h + 1);
        Some(texels * 4 + (texels + 7) / 8)
    }
}

/// The memory to set aside for a card from a `w` by `h` region, or `None` where it is not prepared.
pub fn card_bytes_needed(w: u32, h: u32) -> (n: Option<usize>)
    ensures
        match n {
            Some(v) => needed_bytes(w, h) == Some(v as int),
            None => needed_bytes(w, h) is None,
        },
{
    let w = w as usize;
    let h = h as usize;
    if w == 0 || h == 0 || w > 256 || h > 256 {
        return None;
    }
    assert((w + 1) * (h + 1) <= 257 * 257) by (nonlinear_arith)
        requires
            w <= 256,
            h <= 256,
    ;
    let texels = (w + 1) * (h + 1);
    Some(texels * 4 + (texels + 7) / 8)
}

/// The sum of the entries' sizes.
pub open spec fn total_bytes<C>(es: Seq<CardEntry<C>>) -> int
    decreases es.len(),
{
    if es.len() == 0 {
        0
    } else {
        total_bytes(es.drop_last()) + es.last().bytes
    }
}

/// The position of the first entry not in use, if any.
pub open spec fn first_free_from(in_use: Seq<bool>, i: int) -> Option<int>
    decreases in_use.len() - i,
{
    if i < 0 || i >= in_use.len() {
        None
    } else if !in_use[i] {
        Some(i)
    } else {
        first_free_from(in_use, i + 1)
    }
}

/// A card of `needed` bytes fits beside `es`.
pub open spec fn fits<C>(es: Seq<CardEntry<C>>, needed: int) -> bool {
    total_bytes(es) + needed <= LIMIT && es.len() < MAX_CARDS
}

/// The entries left, with their in-use marks, after the oldest entries not in use leave one by
/// one until a card of `needed` bytes fits or none can leave.
pub open spec fn evicted<C>(es: Seq<CardEntry<C>>, in_use: Seq<bool>, needed: int) -> (Seq<CardEntry<C>>, Seq<bool>)
    decreases es.len(),
{
    if es.len() != in_use.len() || fits(es, needed) {
        (es, in_use)
    } else {
        match first_free_from(in_use, 0) {
            None => (es, in_use),
            Some(i) => if 0 <= i < es.len() {
                evicted(es.remove(i), in_use.remove(i), needed)
            } else {
                (es, in_use)
            },
        }
    }
}

/// Prepared cards, least recently used first.
pub struct CardCache<C> {
    entries: Vec<CardEntry<C>>,
    bytes: usize,
}

proof fn lemma_first_free(in_use: Seq<bool>, i: int)
    requires
        0 <= i <= in_use.len(),
    ensures
        match first_free_from(in_use, i) {
            Some(k) => i <= k < in_use.len() && !in_use[k] && forall|j: int| i <= j < k ==> #[trigger] in_use[j],
            None => forall|j: int| i <= j < in_use.len() ==> #[trigger] in_use[j],
        },
    decreases in_use.len() - i,
{
    if i < in_use.len() && in_use[i] {
        lemma_first_free(in_use, i + 1);
    }
}

proof fn lemma_total_remove<C>(es: Seq<CardEntry<C>>, i: int)
    requires
        0 <= i < es.len(),
    ensures
        total_bytes(es.remove(i)) == total_bytes(es) - es[i].bytes,
    decreases es.len(),
{
    if i < es.len() - 1 {
        assert(es.remove(i).drop_last() =~= es.drop_last().remove(i));
        lemma_total_remove(es.drop_last(), i);
    } else {
        assert(es.remove(i) =~= es.drop_last());
    }
}

proof fn lemma_total_nonneg<C>(es: Seq<CardEntry<C>>)
    ensures
        total_bytes(es) >= 0,
    decreases es.len(),
{
    if es.len() > 0 {
        lemma_total_nonneg(es.drop_last());
    }
}

proof fn lemma_entry_le_total<C>(es: Seq<CardEntry<C>>, i: int)
    requires
        0 <= i < es.len(),
    ensures
        es[i].bytes <= total_bytes(es),
{
    lemma_total_remove(es, i);
    lemma_total_nonneg(es.remove(i));
}

impl<C> CardCache<C> {
    pub closed spec fn spec_entries(&self) -> Seq<CardEntry<C>> {
        self.entries@
    }

    pub closed spec fn spec_bytes(&self) -> usize {
        self.bytes
    }

    /// The byte count is the sum of the entries' sizes.
    pub open spec fn wf(&self) -> bool {
        self.spec_bytes() == total_bytes(self.spec_entries())
    }

    /// An empty cache.
    pub fn new() -> (c: Self)
        ensures
            c.wf(),
            c.spec_entries().len() == 0,
    {
        CardCache { entries: Vec::new(), bytes: 0 }
    }

    /// Bytes the cached cards take.
    pub fn bytes(&self) -> (n: usize)
        ensures
            n == self.spec_bytes(),
    {
        self.bytes
    }

    /// Cards cached.
    pub fn len(&self) -> (n: usize)
        ensures
            n == self.spec_entries().len(),
    {
        self.entries.len()
    }

    /// The key of the card at `i`, oldest first.
    pub fn key_at(&self, i: usize) -> (k: CardKey)
        requires
            i < self.spec_entries().len(),
        ensures
            k == self.spec_entries()[i as int].key,
    {
        self.entries[i].key
    }

    /// Whether a card is cached for `key`; if so it becomes the most recently used, last in
    /// the cache.
    pub fn touch(&mut self, key: &CardKey) -> (hit: bool)
        requires
            old(self).wf(),
        ensures
            final(self).wf(),
            hit ==> exists|i: int|
                0 <= i < old(self).spec_entries().len() && old(self).spec_entries()[i].key == *key && (forall|j: int|
                    0 <= j < i ==> old(self).spec_entries()[j].key != *key) && final(self).spec_entries()
                    == old(self).spec_entries().remove(i).push(old(self).spec_entries()[i]),
            !hit ==> (forall|i: int| 0 <= i < old(self).spec_entries().len() ==> old(self).spec_entries()[i].key != *key)
                && final(self).spec_entries() == old(self).spec_entries(),
    {
        let mut i: usize = 0;
        while i < self.entries.len()
            invariant
                i <= self.entries.len(),
                self.entries@ == old(self).entries@,
                self.bytes == old(self).bytes,
                old(self).wf(),
                forall|j: int| 0 <= j < i ==> self.entries@[j].key != *key,
            decreases self.entries.len() - i,
        {
            if self.entries[i].key == *key {
                let ghost before = self.entries@;
                let entry = self.entries.remove(i);
                self.entries.push(entry);
                proof {
                    assert(self.entries@ =~= before.remove(i as int).push(before[i as int]));
                    lemma_total_remove(before, i as int);
                    assert(self.entries@.drop_last() =~= before.remove(i as int));
                    assert(total_bytes(self.entries@) == total_bytes(before.remove(i as int)) + before[i as int].bytes);
                }
                return true;
            }
            i = i + 1;
        }
        false
    }

    /// The most recently used card.
    pub fn last_card(&self) -> (c: &C)
        requires
            self.spec_entries().len() > 0,
        ensures
            *c == self.spec_entries().last().card,
    {
        &self.entries[self.entries.len() - 1].card
    }

    /// Makes room for a card of `needed` bytes: while it would not fit, the oldest card not
    /// in use (`in_use` marks the cached cards, oldest first) leaves. Returns whether it fits;
    /// cards that left stay gone either way.
    pub fn make_room(&mut self, needed: usize, in_use: &Vec<bool>) -> (r: bool)
        requires
            old(self).wf(),
            in_use.len() == old(self).spec_entries().len(),
            needed <= LIMIT,
        ensures
            final(self).wf(),
            final(self).spec_entries() == evicted(old(self).spec_entries(), in_use@, needed as int).0,
            r == fits(final(self).spec_entries(), needed as int),
    {
        let mut marks: Vec<bool> = in_use.clone();
        proof {
            assert(marks@ =~= in_use@);
        }
        while !(self.bytes <= LIMIT - needed && self.entries.len() < MAX_CARDS)
            invariant
                self.wf(),
                needed <= LIMIT,
                marks.len() == self.entries.len(),
                evicted(self.entries@, marks@, needed as int) == evicted(old(self).entries@, in_use@, needed as int),
            decreases self.entries.len(),
        {
            let ghost es = self.entries@;
            let ghost ms = marks@;
            proof {
                lemma_total_nonneg(es);
            }
            let mut i: usize = 0;
            while i < marks.len() && marks[i]
                invariant
                    i <= marks.len(),
                    marks@ == ms,
                    first_free_from(ms, 0) == first_free_from(ms, i as int),
                decreases marks.len() - i,
            {
                i = i + 1;
            }
            if i == marks.len() {
                proof {
                    assert(first_free_from(ms, i as int) is None);
                }
                return false;
            }
            proof {
                lemma_entry_le_total(es, i as int);
                lemma_total_remove(es, i as int);
            }
            let gone = self.entries.remove(i);
            marks.remove(i);
            self.bytes = self.bytes - gone.bytes;
        }
        true
    }

    /// Caches `card`, of `bytes` bytes, under `key` as the most recently used.
    pub fn insert(&mut self, key: CardKey, card: C, bytes: usize)
        requires
            old(self).wf(),
            old(self).spec_bytes() + bytes <= usize::MAX,
        ensures
            final(self).wf(),
            final(self).spec_entries() == old(self).spec_entries().push(CardEntry { key, card, bytes }),
    {
        let ghost before = self.entries@;
        self.entries.push(CardEntry { key, card, bytes });
        self.bytes = self.bytes + bytes;
        assert(self.entries@.drop_last() =~= before);
    }

    /// The cards take at most `LIMIT` bytes and there are at most `MAX_CARDS` of them.
    pub open spec fn bounded(&self) -> bool {
        self.spec_bytes() <= LIMIT && self.spec_entries().len() <= MAX_CARDS
    }

    /// Caches `card`, of `bytes` bytes, under `key` as the most recently used, once the oldest
    /// cards not in use (`in_use` marks the cached cards, oldest first) have left to make room;
    /// where no room can be made the card is not cached. Returns whether it was.
    pub fn make_room_and_insert(&mut self, key: CardKey, card: C, bytes: usize, in_use: &Vec<bool>) -> (r: bool)
        requires
            old(self).wf(),
            in_use.len() == old(self).spec_entries().len(),
            bytes <= LIMIT,
        ensures
            final(self).wf(),
            r == fits(evicted(old(self).spec_entries(), in_use@, bytes as int).0, bytes as int),
            r ==> final(self).spec_entries() == evicted(old(self).spec_entries(), in_use@, bytes as int).0.push(
                CardEntry { key, card, bytes },
            ),
            !r ==> final(self).spec_entries() == evicted(old(self).spec_entries(), in_use@, bytes as int).0,
            old(self).bounded() ==> final(self).bounded(),
    {
        proof {
            lemma_evicted_shrinks(old(self).spec_entries(), in_use@, bytes as int);
        }
        if !self.make_room(bytes, in_use) {
            return false;
        }
        let ghost left = self.spec_entries();
        self.insert(key, card, bytes);
        proof {
            assert(self.spec_entries().drop_last() =~= left);
        }
        true
    }
}

proof fn lemma_evicted_shrinks<C>(es: Seq<CardEntry<C>>, in_use: Seq<bool>, needed: int)
    ensures
        total_bytes(evicted(es, in_use, needed).0) <= total_bytes(es),
        evicted(es, in_use, needed).0.len() <= es.len(),
    decreases es.len(),
{
    if es.len() == in_use.len() && !fits(es, needed) {
        lemma_first_free(in_use, 0);
        if let Some(i) = first_free_from(in_use, 0) {
            if 0 <= i < es.len() {
                lemma_total_remove(es, i);
                lemma_evicted_shrinks(es.remove(i), in_use.remove(i), needed);
            }
        }
    }
}

/// The number of cards marked in use.
pub open spec fn in_use_count(marks: Seq<bool>) -> int
    decreases marks.len(),
{
    if marks.len() == 0 {
        0
    } else {
        in_use_count(marks.drop_last()) + if marks.last() { 1int } else { 0int }
    }
}

proof fn lemma_count_remove_free(marks: Seq<bool>, i: int)
    requires
        0 <= i < marks.len(),
        !marks[i],
    ensures
        in_use_count(marks.remove(i)) == in_use_count(marks),
    decreases marks.len(),
{
    if i < marks.len() - 1 {
        assert(marks.remove(i).drop_last() =~= marks.drop_last().remove(i));
        lemma_count_remove_free(marks.drop_last(), i);
    } else {
        assert(marks.remove(i) =~= marks.drop_last());
    }
}

/// Making room never evicts a card in use: as many cards in use are cached afterwards, and
/// the marks still go with the cards.
pub proof fn law_cards_in_use_stay<C>(entries: Seq<CardEntry<C>>, in_use: Seq<bool>, needed: int)
    requires
        entries.len() == in_use.len(),
    ensures
        evicted(entries, in_use, needed).0.len() == evicted(entries, in_use, needed).1.len(),
        in_use_count(evicted(entries, in_use, needed).1) == in_use_count(in_use),
    decreases entries.len(),
{
    if !fits(entries, needed) {
        lemma_first_free(in_use, 0);
        match first_free_from(in_use, 0) {
            Some(i) => {
                lemma_count_remove_free(in_use, i);
                law_cards_in_use_stay(entries.remove(i), in_use.remove(i), needed);
            },
            None => {},
        }
    }
}

} // verus!
