use vstd::prelude::*;

verus! {

/// The voices the mixer plays, each for one source id, in the order they started.
pub struct VoiceSet<V> {
    voices: Vec<(u64, V)>,
}

impl<V> VoiceSet<V> {
    /// The source ids of the voices, in order.
    pub closed spec fn spec_ids(&self) -> Seq<u64> {
        Seq::new(self.voices@.len(), |i: int| self.voices@[i].0)
    }

    /// The voices, in order.
    pub closed spec fn spec_voices(&self) -> Seq<V> {
        Seq::new(self.voices@.len(), |i: int| self.voices@[i].1)
    }

    /// No source has two voices.
    pub open spec fn wf(&self) -> bool {
        forall|i: int, j: int| 0 <= i < j < self.spec_ids().len() ==> self.spec_ids()[i] != self.spec_ids()[j]
    }

    /// No voices.
    pub fn new() -> (s: Self)
        ensures
            s.wf(),
            s.spec_ids().len() == 0,
    {
        VoiceSet { voices: Vec::new() }
    }

    /// Voices playing.
    pub fn len(&self) -> (n: usize)
        ensures
            n == self.spec_ids().len(),
    {
        self.voices.len()
    }

    /// Whether source `id` has a voice.
    pub fn playing(&self, id: u64) -> (r: bool)
        ensures
            r == self.spec_ids().contains(id),
    {
        let mut i: usize = 0;
        while i < self.voices.len()
            invariant
                i <= self.voices.len(),
                forall|k: int| 0 <= k < i ==> self.spec_ids()[k] != id,
            decreases self.voices.len() - i,
        {
            if self.voices[i].0 == id {
                assert(self.spec_ids()[i as int] == id);
                return true;
            }
            assert(self.spec_ids()[i as int] == self.voices@[i as int].0);
            i = i + 1;
        }
        false
    }

    /// Whether a play command for source `id` starts a voice: only for a registered source
    /// that has none, so that playing a playing source leaves its voice where it is.
    pub fn should_start(&self, id: u64, registered: bool) -> (r: bool)
        ensures
            r == (registered && !self.spec_ids().contains(id)),
    {
        registered && !self.playing(id)
    }

    /// Adds the voice of source `id`, which has none yet.
    pub fn start(&mut self, id: u64, voice: V)
        requires
            old(self).wf(),
            !old(self).spec_ids().contains(id),
        ensures
            final(self).wf(),
            final(self).spec_ids() == old(self).spec_ids().push(id),
            final(self).spec_voices() == old(self).spec_voices().push(voice),
    {
        let ghost ids = self.spec_ids();
        let ghost vs = self.spec_voices();
        self.voices.push((id, voice));
        assert(self.spec_ids() =~= ids.push(id));
        assert(self.spec_voices() =~= vs.push(voice));
        assert forall|i: int, j: int|
            0 <= i < j < self.spec_ids().len() implies self.spec_ids()[i] != self.spec_ids()[j] by {
            if j == ids.len() {
                assert(ids[i] == self.spec_ids()[i]);
            }
        }
    }

    /// Removes the voice of source `id`, if any; the others keep their order.
    pub fn stop(&mut self, id: u64)
        requires
            old(self).wf(),
        ensures
            final(self).wf(),
            final(self).spec_ids() == old(self).spec_ids().filter(|v: u64| v != id),
            !old(self).spec_ids().contains(id) ==> final(self).spec_voices() == old(self).spec_voices(),
            old(self).spec_ids().contains(id) ==> exists|i: int|
                0 <= i < old(self).spec_ids().len() && old(self).spec_ids()[i] == id
                    && final(self).spec_ids() == old(self).spec_ids().remove(i)
                    && final(self).spec_voices() == old(self).spec_voices().remove(i),
    {
        match self.position(id) {
            Some(i) => {
                let ghost before = self.spec_ids();
                self.remove_at(i);
                proof {
                    lemma_filter_remove(before, i as int, id);
                }
            },
            None => {
                proof {
                    lemma_filter_none(self.spec_ids(), id);
                }
            },
        }
    }

    /// Where the voice of source `id` is, if it has one.
    fn position(&self, id: u64) -> (r: Option<usize>)
        ensures
            match r {
                Some(i) => i < self.spec_ids().len() && self.spec_ids()[i as int] == id,
                None => forall|k: int| 0 <= k < self.spec_ids().len() ==> self.spec_ids()[k] != id,
            },
    {
        let mut i: usize = 0;
        while i < self.voices.len()
            invariant
                i <= self.voices.len(),
                forall|k: int| 0 <= k < i ==> self.spec_ids()[k] != id,
            decreases self.voices.len() - i,
        {
            assert(self.spec_ids()[i as int] == self.voices@[i as int].0);
            if self.voices[i].0 == id {
                return Some(i);
            }
            i = i + 1;
        }
        None
    }

    /// The source id of the voice at `i`.
    pub fn id_at(&self, i: usize) -> (id: u64)
        requires
            i < self.spec_ids().len(),
        ensures
            id == self.spec_ids()[i as int],
    {
        self.voices[i].0
    }

    /// The voice at `i`, to mix from.
    pub fn voice_mut(&mut self, i: usize) -> (v: &mut V)
        requires
            i < old(self).spec_ids().len(),
        ensures
            *v == old(self).spec_voices()[i as int],
            final(self).spec_ids() == old(self).spec_ids(),
            final(self).spec_voices() == old(self).spec_voices().update(i as int, *final(v)),
    {
        &mut self.voices[i].1
    }

    /// Removes the voice at `i`, one that finished.
    pub fn remove_at(&mut self, i: usize)
        requires
            old(self).wf(),
            i < old(self).spec_ids().len(),
        ensures
            final(self).wf(),
            final(self).spec_ids() == old(self).spec_ids().remove(i as int),
            final(self).spec_voices() == old(self).spec_voices().remove(i as int),
    {
        let ghost ids = self.spec_ids();
        let ghost vs = self.spec_voices();
        self.voices.remove(i);
        assert(self.spec_ids() =~= ids.remove(i as int));
        assert(self.spec_voices() =~= vs.remove(i as int));
        assert forall|a: int, b: int|
            0 <= a < b < self.spec_ids().len() implies self.spec_ids()[a] != self.spec_ids()[b] by {
            let a2 = if a < i { a } else { a + 1 };
            let b2 = if b < i { b } else { b + 1 };
            assert(self.spec_ids()[a] == ids[a2]);
            assert(self.spec_ids()[b] == ids[b2]);
        }
    }

    /// Removes every voice.
    pub fn stop_all(&mut self)
        ensures
            final(self).wf(),
            final(self).spec_ids().len() == 0,
    {
        self.voices.clear();
    }
}

/// Removing the only occurrence of `id` leaves what filtering it out leaves.
proof fn lemma_filter_remove(s: Seq<u64>, i: int, id: u64)
    requires
        0 <= i < s.len(),
        s[i] == id,
        forall|a: int, b: int| 0 <= a < b < s.len() ==> s[a] != s[b],
    ensures
        s.remove(i).filter(|v: u64| v != id) == s.filter(|v: u64| v != id),
        s.remove(i).filter(|v: u64| v != id) == s.remove(i),
{
    assert forall|k: int| 0 <= k < s.remove(i).len() implies s.remove(i)[k] != id by {
        if k < i {
            assert(s.remove(i)[k] == s[k]);
        } else {
            assert(s.remove(i)[k] == s[k + 1]);
        }
    }
    lemma_filter_none(s.remove(i), id);
    lemma_filter_split(s, i, id);
}

proof fn lemma_filter_none(s: Seq<u64>, id: u64)
    requires
        forall|k: int| 0 <= k < s.len() ==> s[k] != id,
    ensures
        s.filter(|v: u64| v != id) == s,
    decreases s.len(),
{
    reveal(Seq::filter);
    if s.len() > 0 {
        lemma_filter_none(s.drop_last(), id);
        assert(s.drop_last().push(s.last()) =~= s);
    } else {
        assert(s.filter(|v: u64| v != id) =~= s);
    }
}

proof fn lemma_filter_split(s: Seq<u64>, i: int, id: u64)
    requires
        0 <= i < s.len(),
        s[i] == id,
    ensures
        s.filter(|v: u64| v != id) == s.remove(i).filter(|v: u64| v != id),
    decreases s.len(),
{
    reveal(Seq::filter);
    if i == s.len() - 1 {
        assert(s.remove(i) =~= s.drop_last());
    } else {
        lemma_filter_split(s.drop_last(), i, id);
        assert(s.remove(i).drop_last() =~= s.drop_last().remove(i));
        assert(s.remove(i).last() == s.last());
    }
}

} // verus!
