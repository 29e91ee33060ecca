//! Rollback stack for "back" navigation: a bounded stack of frames, newest
//! last, that replaces its top instead of stacking a frame for the same
//! story position.

use vstd::prelude::*;

use crate::screens::StoryWait;
use crate::strings::chars_eq;
use crate::strings::chars_of;

verus! {

/// The story position a frame was taken at, as far as deduplication cares.
#[derive(Debug, Clone)]
pub struct RollbackCursor {
    /// Scene name.
    pub scene: String,
    /// Index into the scene's ops.
    pub op_index: usize,
    /// Wait state.
    pub wait: StoryWait,
    /// Current line text.
    pub current_text: String,
}

/// Two cursors name the same position and line.
pub open spec fn same_cursor(a: RollbackCursor, b: RollbackCursor) -> bool {
    a.scene@ == b.scene@ && a.op_index == b.op_index && a.wait == b.wait && a.current_text@
        == b.current_text@
}

/// The newest `cap` elements of `s` (all of them when there are fewer).
pub open spec fn newest<T>(s: Seq<T>, cap: nat) -> Seq<T> {
    if s.len() > cap {
        s.skip(s.len() - cap)
    } else {
        s
    }
}

/// Fixed-capacity stack of rollback frames (newest at the end), each with
/// the cursor it was taken at.
#[derive(Debug, Clone)]
pub struct RollbackStack<F> {
    frames: Vec<(RollbackCursor, F)>,
    capacity: usize,
}

impl<F> RollbackStack<F> {
    /// Frames with their cursors, oldest first.
    pub closed spec fn items(&self) -> Seq<(RollbackCursor, F)> {
        self.frames@
    }

    /// Maximum number of frames kept.
    pub closed spec fn cap(&self) -> nat {
        self.capacity as nat
    }

    /// At least one frame fits, and no more than the capacity are held.
    pub closed spec fn wf(&self) -> bool {
        1 <= self.capacity && self.frames@.len() <= self.capacity
    }

    /// Create with maximum number of steps (at least one).
    pub fn with_capacity(capacity: usize) -> (r: Self)
        ensures
            r.wf(),
            r.items().len() == 0,
            r.cap() == if capacity < 1 {
                1
            } else {
                capacity as nat
            },
    {
        RollbackStack { frames: Vec::new(), capacity: if capacity < 1 {
            1
        } else {
            capacity
        } }
    }

    /// Capacity.
    pub fn capacity(&self) -> (c: usize)
        ensures
            c == self.cap(),
    {
        self.capacity
    }

    /// Number of stored frames.
    pub fn len(&self) -> (n: usize)
        ensures
            n == self.items().len(),
    {
        self.frames.len()
    }

    /// Empty.
    pub fn is_empty(&self) -> (b: bool)
        ensures
            b == (self.items().len() == 0),
    {
        self.frames.len() == 0
    }

    /// Clear all frames.
    pub fn clear(&mut self)
        requires
            old(self).wf(),
        ensures
            final(self).wf(),
            final(self).items().len() == 0,
            final(self).cap() == old(self).cap(),
    {
        self.frames.clear();
    }

    fn trim(&mut self)
        requires
            1 <= old(self).capacity,
        ensures
            final(self).capacity == old(self).capacity,
            final(self).frames@ == newest(old(self).frames@, old(self).capacity as nat),
    {
        if self.frames.len() > self.capacity {
            let drop_n = self.frames.len() - self.capacity;
            let kept = self.frames.split_off(drop_n);
            self.frames = kept;
        }
    }

    /// Resize capacity (at least one); drops the oldest frames if needed.
    pub fn set_capacity(&mut self, capacity: usize)
        requires
            old(self).wf(),
        ensures
            final(self).wf(),
            final(self).cap() == if capacity < 1 {
                1
            } else {
                capacity as nat
            },
            final(self).items() == newest(old(self).items(), final(self).cap()),
    {
        self.capacity = if capacity < 1 {
            1
        } else {
            capacity
        };
        self.trim();
    }

    /// Push a frame taken at `cursor`. When the top frame was taken at the
    /// same position and line, it is replaced; otherwise the frame is added
    /// and the oldest dropped beyond the capacity.
    pub fn push(&mut self, cursor: RollbackCursor, frame: F)
        requires
            old(self).wf(),
        ensures
            final(self).wf(),
            final(self).cap() == old(self).cap(),
            ({
                let old_items = old(self).items();
                if old_items.len() > 0 && same_cursor(old_items.last().0, cursor) {
                    final(self).items() == old_items.update(
                        old_items.len() - 1,
                        (cursor, frame),
                    )
                } else {
                    final(self).items() == newest(old_items.push((cursor, frame)), old(self).cap())
                }
            }),
    {
        let n = self.frames.len();
        if n > 0 {
            let last = &self.frames[n - 1].0;
            let a = chars_of(last.scene.as_str());
            let b = chars_of(cursor.scene.as_str());
            let c = chars_of(last.current_text.as_str());
            let d = chars_of(cursor.current_text.as_str());
            if chars_eq(a.as_slice(), b.as_slice()) && last.op_index == cursor.op_index
                && last.wait == cursor.wait && chars_eq(c.as_slice(), d.as_slice()) {
                self.frames.set(n - 1, (cursor, frame));
                return;
            }
        }
        self.frames.push((cursor, frame));
        self.trim();
    }

    /// Peek the most recent frame without removing it.
    pub fn peek(&self) -> (r: Option<&F>)
        ensures
            self.items().len() == 0 ==> r is None,
            self.items().len() > 0 ==> r == Some(&self.items().last().1),
    {
        let n = self.frames.len();
        if n == 0 {
            None
        } else {
            Some(&self.frames[n - 1].1)
        }
    }

    /// Pop the most recent frame.
    pub fn pop(&mut self) -> (r: Option<(RollbackCursor, F)>)
        requires
            old(self).wf(),
        ensures
            final(self).wf(),
            final(self).cap() == old(self).cap(),
            old(self).items().len() == 0 ==> r is None && final(self).items() == old(self).items(),
            old(self).items().len() > 0 ==> r == Some(old(self).items().last())
                && final(self).items() == old(self).items().drop_last(),
    {
        self.frames.pop()
    }

    /// Roll back `steps` frames (as many as there are) and return the new
    /// top frame, if any; `steps == 0` only looks at the top.
    pub fn rollback(&mut self, steps: usize) -> (r: Option<&F>)
        requires
            old(self).wf(),
        ensures
            final(self).wf(),
            final(self).cap() == old(self).cap(),
            final(self).items() == old(self).items().take(
                old(self).items().len() - if steps < old(self).items().len() {
                    steps as int
                } else {
                    old(self).items().len() as int
                },
            ),
            final(self).items().len() == 0 ==> r is None,
            final(self).items().len() > 0 ==> r == Some(&final(self).items().last().1),
    {
        let n = self.frames.len();
        let remove = if steps < n {
            steps
        } else {
            n
        };
        let mut k: usize = 0;
        while k < remove
            invariant
                0 <= k <= remove,
                remove <= n,
                n == old(self).frames@.len(),
                self.capacity == old(self).capacity,
                self.frames@ == old(self).frames@.take(n - k),
            decreases remove - k,
        {
            self.frames.pop();
            k += 1;
        }
        assert(self.frames@ =~= old(self).frames@.take(n - remove));
        self.peek()
    }

    /// One step back: with two or more frames the top one is dropped and
    /// the new top is to be restored (`true`); with one frame that frame is
    /// to be restored again (`false`); with none nothing happens.
    pub fn step_back(&mut self) -> (r: (bool, Option<&F>))
        requires
            old(self).wf(),
        ensures
            final(self).wf(),
            final(self).cap() == old(self).cap(),
            old(self).items().len() >= 2 ==> r.0 && final(self).items() == old(
                self,
            ).items().drop_last() && r.1 == Some(&final(self).items().last().1),
            old(self).items().len() == 1 ==> !r.0 && final(self).items() == old(self).items()
                && r.1 == Some(&old(self).items().last().1),
            old(self).items().len() == 0 ==> !r.0 && final(self).items() == old(self).items()
                && r.1 is None,
    {
        if self.frames.len() < 2 {
            return (false, self.peek());
        }
        self.frames.pop();
        (true, self.peek())
    }

    /// Frames with their cursors, oldest first.
    pub fn frames(&self) -> (r: &[(RollbackCursor, F)])
        ensures
            r@ == self.items(),
    {
        self.frames.as_slice()
    }
}

impl<F> Default for RollbackStack<F> {
    fn default() -> (r: Self)
        ensures
            r.wf(),
            r.items().len() == 0,
            r.cap() == 50,
    {
        RollbackStack::with_capacity(50)
    }
}

/// Records rollback points when the story position or wait state changes.
#[derive(Debug, Clone)]
pub struct RollbackRecorder<F> {
    /// Stack.
    pub stack: RollbackStack<F>,
    last_wait: Option<StoryWait>,
    last_scene: String,
    last_op: usize,
}

impl<F> RollbackRecorder<F> {
    /// The stack of recorded frames.
    pub closed spec fn held(&self) -> RollbackStack<F> {
        self.stack
    }

    /// The last observed wait state, scene and op index.
    pub closed spec fn last(&self) -> (Option<StoryWait>, Seq<char>, usize) {
        (self.last_wait, self.last_scene@, self.last_op)
    }

    /// Create with capacity.
    pub fn new(capacity: usize) -> (r: Self)
        ensures
            r.held().wf(),
            r.held().items().len() == 0,
            r.held().cap() == if capacity < 1 {
                1
            } else {
                capacity as nat
            },
            r.last() == (None::<StoryWait>, Seq::<char>::empty(), 0usize),
    {
        RollbackRecorder {
            stack: RollbackStack::with_capacity(capacity),
            last_wait: None,
            last_scene: String::new(),
            last_op: 0,
        }
    }

    /// Observe the player at `cursor`: the frame is pushed when the wait
    /// state, scene or op index differs from the last observation.
    pub fn observe(&mut self, cursor: RollbackCursor, frame: F)
        requires
            old(self).held().wf(),
        ensures
            final(self).held().wf(),
            final(self).held().cap() == old(self).held().cap(),
            ({
                let changed = old(self).last() != (
                    Some(cursor.wait),
                    cursor.scene@,
                    cursor.op_index,
                );
                if changed {
                    &&& final(self).last() == (Some(cursor.wait), cursor.scene@, cursor.op_index)
                    &&& (if old(self).held().items().len() > 0 && same_cursor(
                        old(self).held().items().last().0,
                        cursor,
                    ) {
                        final(self).held().items() == old(self).held().items().update(
                            old(self).held().items().len() - 1,
                            (cursor, frame),
                        )
                    } else {
                        final(self).held().items() == newest(
                            old(self).held().items().push((cursor, frame)),
                            old(self).held().cap(),
                        )
                    })
                } else {
                    &&& final(self).last() == old(self).last()
                    &&& final(self).held().items() == old(self).held().items()
                }
            }),
    {
        let a = chars_of(self.last_scene.as_str());
        let b = chars_of(cursor.scene.as_str());
        let same_wait = match self.last_wait {
            Some(w) => w == cursor.wait,
            None => false,
        };
        let changed = !same_wait || !chars_eq(a.as_slice(), b.as_slice()) || self.last_op
            != cursor.op_index;
        if changed {
            let wait = cursor.wait;
            let scene = crate::strings::owned(cursor.scene.as_str());
            let op = cursor.op_index;
            self.stack.push(cursor, frame);
            self.last_wait = Some(wait);
            self.last_scene = scene;
            self.last_op = op;
        } else {
            assert(self.last() == (Some(cursor.wait), cursor.scene@, cursor.op_index));
        }
    }
}

/// The stack never holds more frames than its capacity, and its capacity is
/// at least one, whatever the operations.
pub proof fn lemma_rollback_bounded<F>(s: RollbackStack<F>)
    requires
        s.wf(),
    ensures
        1 <= s.cap(),
        s.items().len() <= s.cap(),
{
}

} // verus!
