use vstd::prelude::*;

use vstd::string::*;

use crate::text::same_bytes;

verus! {

/// How many distinct call sites the table keeps.
pub const CAPACITY: usize = 32;

/// The waits recorded for one call site, in nanoseconds.
#[derive(Clone, Copy, Debug)]
pub struct WaitEntry {
    pub file: &'static str,
    pub line: u32,
    pub calls: u64,
    pub elapsed_ns: u64,
    pub longest_ns: u64,
}

/// An unused slot.
pub open spec fn empty_entry(e: WaitEntry) -> bool {
    e.calls == 0
}

/// Slot `e` takes a wait from `file:line`: it is unused or already holds that site.
pub open spec fn takes(e: WaitEntry, file: Seq<u8>, line: u32) -> bool {
    e.calls == 0 || (e.file.spec_bytes() == file && e.line == line)
}

/// The first slot from `i` on that takes a wait from `file:line`.
pub open spec fn slot_from(entries: Seq<WaitEntry>, file: Seq<u8>, line: u32, i: int) -> Option<int>
    decreases entries.len() - i,
{
    if i >= entries.len() || i < 0 {
        None
    } else if takes(entries[i], file, line) {
        Some(i)
    } else {
        slot_from(entries, file, line, i + 1)
    }
}

pub open spec fn max_ns(a: u64, b: u64) -> u64 {
    if a >= b { a } else { b }
}

/// The slot after one more wait of `elapsed` nanoseconds from `file:line`.
pub open spec fn recorded(e: WaitEntry, file: &'static str, line: u32, elapsed: u64) -> WaitEntry {
    WaitEntry {
        file,
        line,
        calls: (e.calls + 1) as u64,
        elapsed_ns: (e.elapsed_ns + elapsed) as u64,
        longest_ns: max_ns(e.longest_ns, elapsed),
    }
}

/// Slots hold distinct call sites, and the used ones come first.
pub open spec fn tidy(entries: Seq<WaitEntry>) -> bool {
    &&& forall|i: int, j: int|
        0 <= i < j < entries.len() && empty_entry(#[trigger] entries[i]) ==> empty_entry(#[trigger] entries[j])
    &&& forall|i: int, j: int|
        #![trigger entries[i], entries[j]]
        0 <= i < j < entries.len() && !empty_entry(entries[j]) ==> !(entries[i].file.spec_bytes()
            == entries[j].file.spec_bytes() && entries[i].line == entries[j].line)
}

/// Time spent waiting for the render thread, grouped by the call site that waited.
pub struct RenderWaits {
    entries: Vec<WaitEntry>,
    dropped: u64,
}

impl View for RenderWaits {
    type V = (Seq<WaitEntry>, u64);

    closed spec fn view(&self) -> (Seq<WaitEntry>, u64) {
        (self.entries@, self.dropped)
    }
}

impl RenderWaits {
    pub open spec fn wf(&self) -> bool {
        self@.0.len() == CAPACITY
    }

    /// An empty table.
    pub fn new() -> (w: Self)
        ensures
            w.wf(),
            w@.1 == 0,
            forall|i: int| 0 <= i < CAPACITY ==> empty_entry(#[trigger] w@.0[i]),
    {
        let mut entries: Vec<WaitEntry> = Vec::new();
        let mut i: usize = 0;
        while i < CAPACITY
            invariant
                i <= CAPACITY,
                entries.len() == i,
                forall|k: int| 0 <= k < i ==> empty_entry(#[trigger] entries@[k]),
            decreases CAPACITY - i,
        {
            entries.push(WaitEntry { file: "", line: 0, calls: 0, elapsed_ns: 0, longest_ns: 0 });
            i = i + 1;
        }
        RenderWaits { entries, dropped: 0 }
    }

    /// Adds a wait of `elapsed` nanoseconds at `file:line` to the first slot that holds that
    /// site or is unused; with every slot taken by other sites, counts the wait as dropped.
    pub fn record(&mut self, file: &'static str, line: u32, elapsed: u64)
        requires
            old(self).wf(),
            old(self)@.1 < u64::MAX,
            forall|i: int|
                0 <= i < CAPACITY ==> (#[trigger] old(self)@.0[i]).calls < u64::MAX
                    && old(self)@.0[i].elapsed_ns + elapsed <= u64::MAX,
        ensures
            final(self).wf(),
            match slot_from(old(self)@.0, file.spec_bytes(), line, 0) {
                Some(k) => {
                    &&& final(self)@.0 == old(self)@.0.update(k, recorded(old(self)@.0[k], file, line, elapsed))
                    &&& final(self)@.1 == old(self)@.1
                },
                None => {
                    &&& final(self)@.0 == old(self)@.0
                    &&& final(self)@.1 == old(self)@.1 + 1
                },
            },
    {
        let mut i: usize = 0;
        while i < CAPACITY
            invariant
                i <= CAPACITY,
                self.entries.len() == CAPACITY,
                self.entries@ == old(self).entries@,
                self.dropped == old(self).dropped,
                self.dropped < u64::MAX,
                forall|k: int|
                    0 <= k < CAPACITY ==> (#[trigger] self.entries@[k]).calls < u64::MAX
                        && self.entries@[k].elapsed_ns + elapsed <= u64::MAX,
                slot_from(self.entries@, file.spec_bytes(), line, 0) == slot_from(
                    self.entries@,
                    file.spec_bytes(),
                    line,
                    i as int,
                ),
            decreases CAPACITY - i,
        {
            let e = self.entries[i];
            if e.calls == 0 || (same_bytes(e.file.as_bytes(), file.as_bytes()) && e.line == line) {
                let next = WaitEntry {
                    file,
                    line,
                    calls: e.calls + 1,
                    elapsed_ns: e.elapsed_ns + elapsed,
                    longest_ns: if e.longest_ns >= elapsed { e.longest_ns } else { elapsed },
                };
                self.entries.set(i, next);
                return;
            }
            i = i + 1;
        }
        self.dropped = self.dropped + 1;
    }

    /// Slot `i` of the table.
    pub fn entry(&self, i: usize) -> (e: WaitEntry)
        requires
            self.wf(),
            i < CAPACITY,
        ensures
            e == self@.0[i as int],
    {
        self.entries[i]
    }

    /// Waits that found no slot.
    pub fn dropped(&self) -> (n: u64)
        ensures
            n == self@.1,
    {
        self.dropped
    }

    /// The used slots, in table order, for a report.
    pub fn active(&self) -> (v: Vec<WaitEntry>)
        ensures
            v@ == self@.0.filter(|e: WaitEntry| !empty_entry(e)),
    {
        let mut v: Vec<WaitEntry> = Vec::new();
        let mut i: usize = 0;
        while i < self.entries.len()
            invariant
                i <= self.entries.len(),
                v@ == self.entries@.subrange(0, i as int).filter(|e: WaitEntry| !empty_entry(e)),
            decreases self.entries.len() - i,
        {
            let e = self.entries[i];
            proof {
                let next = self.entries@.subrange(0, i + 1);
                assert(next.drop_last() =~= self.entries@.subrange(0, i as int));
                reveal(Seq::filter);
            }
            if e.calls > 0 {
                v.push(e);
            }
            i = i + 1;
        }
        assert(self.entries@.subrange(0, self.entries.len() as int) =~= self.entries@);
        v
    }
}

proof fn lemma_slot_from(entries: Seq<WaitEntry>, file: Seq<u8>, line: u32, i: int)
    requires
        0 <= i <= entries.len(),
    ensures
        match slot_from(entries, file, line, i) {
            Some(k) => i <= k < entries.len() && takes(entries[k], file, line) && forall|j: int|
                i <= j < k ==> !takes(#[trigger] entries[j], file, line),
            None => forall|j: int| i <= j < entries.len() ==> !takes(#[trigger] entries[j], file, line),
        },
    decreases entries.len() - i,
{
    if i < entries.len() && !takes(entries[i], file, line) {
        lemma_slot_from(entries, file, line, i + 1);
    }
}

/// A call site once recorded keeps its slot: recording any wait leaves every used slot
/// holding the same site, with no fewer calls; and a tidy table stays tidy.
pub proof fn law_recorded_sites_stay(entries: Seq<WaitEntry>, file: &'static str, line: u32, elapsed: u64)
    requires
        entries.len() == CAPACITY,
        forall|i: int| 0 <= i < CAPACITY ==> (#[trigger] entries[i]).calls < u64::MAX,
    ensures
        ({
            let after = match slot_from(entries, file.spec_bytes(), line, 0) {
                Some(k) => entries.update(k, recorded(entries[k], file, line, elapsed)),
                None => entries,
            };
            &&& forall|i: int|
                0 <= i < CAPACITY && !empty_entry(#[trigger] entries[i]) ==> after[i].file.spec_bytes()
                    == entries[i].file.spec_bytes() && after[i].line == entries[i].line && after[i].calls
                    >= entries[i].calls
            &&& tidy(entries) ==> tidy(after)
        }),
{
    let fb = file.spec_bytes();
    lemma_slot_from(entries, fb, line, 0);
    match slot_from(entries, fb, line, 0) {
        Some(k) => {
            let after = entries.update(k, recorded(entries[k], file, line, elapsed));
            if tidy(entries) {
                assert forall|i: int, j: int|
                    0 <= i < j < after.len() && empty_entry(#[trigger] after[i]) implies empty_entry(
                    #[trigger] after[j],
                ) by {
                    assert(i != k);
                    if j == k {
                        assert(!takes(entries[i], fb, line));
                    }
                }
                assert forall|i: int, j: int|
                    #![trigger after[i], after[j]]
                    0 <= i < j < after.len() && !empty_entry(after[j]) implies !(
                    after[i].file.spec_bytes() == after[j].file.spec_bytes() && after[i].line
                        == after[j].line) by {
                    if j == k {
                        assert(!takes(entries[i], fb, line));
                    } else if i == k {
                        if !empty_entry(entries[k]) {
                        } else {
                            assert(empty_entry(entries[j]));
                        }
                    }
                }
            }
        },
        None => {},
    }
}

/// The calls counted in the slots.
pub open spec fn total_calls(entries: Seq<WaitEntry>) -> int
    decreases entries.len(),
{
    if entries.len() == 0 {
        0
    } else {
        total_calls(entries.drop_last()) + entries.last().calls
    }
}

proof fn lemma_total_update(entries: Seq<WaitEntry>, k: int, e: WaitEntry)
    requires
        0 <= k < entries.len(),
    ensures
        total_calls(entries.update(k, e)) == total_calls(entries) - entries[k].calls + e.calls,
    decreases entries.len(),
{
    if k < entries.len() - 1 {
        assert(entries.update(k, e).drop_last() =~= entries.drop_last().update(k, e));
        lemma_total_update(entries.drop_last(), k, e);
    } else {
        assert(entries.update(k, e).drop_last() =~= entries.drop_last());
    }
}

/// Every wait is counted once: recording one adds exactly one to the calls in the slots plus
/// the waits dropped.
pub proof fn law_every_wait_is_counted(entries: Seq<WaitEntry>, dropped: u64, file: &'static str, line: u32, elapsed: u64)
    requires
        entries.len() == CAPACITY,
        forall|i: int| 0 <= i < CAPACITY ==> (#[trigger] entries[i]).calls < u64::MAX,
    ensures
        ({
            let (after, after_dropped) = match slot_from(entries, file.spec_bytes(), line, 0) {
                Some(k) => (entries.update(k, recorded(entries[k], file, line, elapsed)), dropped as int),
                None => (entries, dropped + 1),
            };
            total_calls(after) + after_dropped == total_calls(entries) + dropped + 1
        }),
{
    lemma_slot_from(entries, file.spec_bytes(), line, 0);
    if let Some(k) = slot_from(entries, file.spec_bytes(), line, 0) {
        lemma_total_update(entries, k, recorded(entries[k], file, line, elapsed));
    }
}

} // verus!
