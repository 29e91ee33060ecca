//! Dialogue history: a rolling buffer of shown lines with monotonic indices.

use vstd::prelude::*;

use crate::strings::owned;

verus! {

/// One history line.
#[derive(Debug, Clone)]
pub struct HistoryEntry {
    /// Speaker display name (empty for narrator).
    pub speaker: String,
    /// Fully interpolated text.
    pub text: String,
    /// Scene name when shown.
    pub scene: String,
    /// Monotonic index.
    pub index: u64,
}

/// Rolling history buffer.
#[derive(Debug, Clone)]
pub struct History {
    entries: Vec<HistoryEntry>,
    next_index: u64,
    /// Max retained entries (0 = unlimited).
    pub capacity: usize,
}

impl History {
    /// Retained entries, oldest first.
    pub closed spec fn lines(&self) -> Seq<HistoryEntry> {
        self.entries@
    }

    /// Retention limit (0 = unlimited).
    pub closed spec fn cap(&self) -> usize {
        self.capacity
    }

    /// Index the next pushed line gets.
    pub closed spec fn next(&self) -> u64 {
        self.next_index
    }

    /// Retained indices strictly increase and are all below the next index.
    pub closed spec fn wf(&self) -> bool {
        &&& forall|i: int, j: int|
            0 <= i < j < self.entries@.len() ==> (#[trigger] self.entries@[i]).index
                < (#[trigger] self.entries@[j]).index
        &&& forall|i: int|
            0 <= i < self.entries@.len() ==> (#[trigger] self.entries@[i]).index < self.next_index
    }

    /// Create with capacity.
    pub fn with_capacity(capacity: usize) -> (h: Self)
        ensures
            h.wf(),
            h.lines().len() == 0,
            h.next() == 0,
            h.cap() == capacity,
    {
        History { entries: Vec::new(), next_index: 0, capacity }
    }

    /// Push a line. It gets the next index; when a capacity is set, only the
    /// newest `capacity` lines are kept.
    pub fn push(&mut self, speaker: &str, text: &str, scene: &str)
        requires
            old(self).wf(),
            old(self).next() < u64::MAX,
        ensures
            final(self).wf(),
            final(self).cap() == old(self).cap(),
            final(self).next() == old(self).next() + 1,
            ({
                let all = old(self).lines().push(
                    HistoryEntry {
                        speaker: final(self).lines().last().speaker,
                        text: final(self).lines().last().text,
                        scene: final(self).lines().last().scene,
                        index: old(self).next(),
                    },
                );
                final(self).lines() == if old(self).cap() > 0 && all.len() > old(self).cap() {
                    all.skip(all.len() - old(self).cap())
                } else {
                    all
                }
            }),
            final(self).lines().len() > 0,
            final(self).cap() > 0 ==> final(self).lines().len() <= final(self).cap(),
            final(self).lines().last().speaker@ == speaker@,
            final(self).lines().last().text@ == text@,
            final(self).lines().last().scene@ == scene@,
            final(self).lines().last().index == old(self).next(),
    {
        let entry = HistoryEntry {
            speaker: owned(speaker),
            text: owned(text),
            scene: owned(scene),
            index: self.next_index,
        };
        let ghost e = entry;
        let ghost all = self.entries@.push(e);
        self.next_index = self.next_index + 1;
        self.entries.push(entry);
        if self.capacity > 0 && self.entries.len() > self.capacity {
            let drop_n = self.entries.len() - self.capacity;
            let tail = self.entries.split_off(drop_n);
            self.entries = tail;
            assert(self.entries@ =~= all.skip(all.len() - self.capacity));
        }
        assert(self.entries@.last() == e);
    }

    /// All retained entries.
    pub fn entries(&self) -> (r: &[HistoryEntry])
        ensures
            r@ == self.lines(),
    {
        self.entries.as_slice()
    }

    /// Drop all retained entries (indices keep counting).
    pub fn clear(&mut self)
        requires
            old(self).wf(),
        ensures
            final(self).wf(),
            final(self).lines().len() == 0,
            final(self).next() == old(self).next(),
            final(self).cap() == old(self).cap(),
    {
        self.entries.clear();
    }

    /// Number of retained entries.
    pub fn len(&self) -> (r: usize)
        ensures
            r == self.lines().len(),
    {
        self.entries.len()
    }

    /// Whether no entry is retained.
    pub fn is_empty(&self) -> (r: bool)
        ensures
            r == (self.lines().len() == 0),
    {
        self.entries.is_empty()
    }
}

impl Default for History {
    fn default() -> (h: Self)
        ensures
            h.wf(),
            h.lines().len() == 0,
            h.next() == 0,
            h.cap() == 0,
    {
        History::with_capacity(0)
    }
}

/// After `clear`, the next `push` leaves exactly the pushed line, and it
/// carries the index the counter had before `clear` (indices keep counting
/// across a clear).
pub proof fn lemma_push_after_clear(h: History, c: History, p: History, e: HistoryEntry)
    requires
        c.lines().len() == 0,
        c.next() == h.next(),
        c.cap() == h.cap(),
        p.cap() == c.cap(),
        p.next() == c.next() + 1,
        e.index == c.next(),
        ({
            let all = c.lines().push(e);
            p.lines() == if c.cap() > 0 && all.len() > c.cap() {
                all.skip(all.len() - c.cap())
            } else {
                all
            }
        }),
    ensures
        p.lines() == seq![e],
        p.lines()[0].index == h.next(),
        p.next() == h.next() + 1,
{
    assert(c.lines().push(e) =~= seq![e]);
}

} // verus!
