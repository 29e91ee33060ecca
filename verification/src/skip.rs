//! Skip policy: which lines may be skipped, and what one skip or a batch of
//! skips does, decided from what the story player shows at each step.

use vstd::prelude::*;

use crate::screens::StoryWait;

verus! {

/// Skip mode policy.
#[derive(Debug, Clone, Copy, PartialEq, Eq, Structural)]
pub enum SkipMode {
    /// Do not skip.
    Off,
    /// Skip all text.
    All,
    /// Skip only already-read lines.
    ReadOnly,
}

impl Default for SkipMode {
    fn default() -> (m: Self)
        ensures
            m == SkipMode::Off,
    {
        SkipMode::Off
    }
}

/// Result of a skip attempt.
#[derive(Debug, Clone, Copy, PartialEq, Eq, Structural)]
pub enum SkipResult {
    /// Advanced one or more lines.
    Advanced {
        /// How many line advances occurred.
        lines: u32,
    },
    /// Stopped because of a choice.
    StoppedAtChoice,
    /// Stopped because the story ended.
    StoppedAtEnd,
    /// Skip mode is off or line is not eligible.
    NotEligible,
    /// Hit safety max steps.
    HitLimit,
}

/// Configuration for the skip engine beyond raw [`SkipMode`].
#[derive(Debug, Clone, Copy, PartialEq, Eq, Structural)]
pub struct SkipConfig {
    /// Base skip mode (usually mirrored from preferences).
    pub mode: SkipMode,
    /// Maximum lines to skip in one batch.
    pub max_batch: u32,
    /// Stop skip when a choice is reached (always recommended true).
    pub stop_on_choice: bool,
    /// Stop skip when ending is reached.
    pub stop_on_end: bool,
    /// If true, unread lines are never skipped even in `All` mode.
    pub force_read_only: bool,
    /// Ignore voice wait when skipping.
    pub ignore_voice_wait: bool,
}

impl Default for SkipConfig {
    fn default() -> (c: Self)
        ensures
            c.mode == SkipMode::Off,
            c.max_batch == 256,
            c.stop_on_choice,
            c.stop_on_end,
            !c.force_read_only,
            c.ignore_voice_wait,
    {
        SkipConfig {
            mode: SkipMode::Off,
            max_batch: 256,
            stop_on_choice: true,
            stop_on_end: true,
            force_read_only: false,
            ignore_voice_wait: true,
        }
    }
}

/// The mode in force: `force_read_only` turns `All` into `ReadOnly`.
pub open spec fn effective(c: SkipConfig) -> SkipMode {
    if c.force_read_only {
        match c.mode {
            SkipMode::Off => SkipMode::Off,
            _ => SkipMode::ReadOnly,
        }
    } else {
        c.mode
    }
}

impl SkipConfig {
    /// Effective mode after force_read_only.
    pub fn effective_mode(&self) -> (m: SkipMode)
        ensures
            m == effective(*self),
    {
        if self.force_read_only {
            match self.mode {
                SkipMode::Off => SkipMode::Off,
                SkipMode::All | SkipMode::ReadOnly => SkipMode::ReadOnly,
            }
        } else {
            self.mode
        }
    }
}

/// What the player shows at one step: its wait state, and whether the line
/// on screen was read before.
#[derive(Debug, Clone, Copy, PartialEq, Eq, Structural)]
pub struct SkipView {
    /// Wait state of the player.
    pub wait: StoryWait,
    /// The current line was already read.
    pub read: bool,
}

/// The line shown in `v` may be skipped under `c`: any line in `All` mode,
/// read lines only in `ReadOnly` mode, nothing when skipping is off.
pub open spec fn skippable(c: SkipConfig, v: SkipView) -> bool {
    match effective(c) {
        SkipMode::Off => false,
        SkipMode::All => v.wait == StoryWait::Line,
        SkipMode::ReadOnly => v.wait == StoryWait::Line && v.read,
    }
}

/// `n + 1`, staying at `u32::MAX` once there.
pub open spec fn sat_inc(n: u32) -> u32 {
    if n == u32::MAX {
        n
    } else {
        (n + 1) as u32
    }
}

/// `n + k`, capped at `u32::MAX`.
pub open spec fn sat_add(n: u32, k: nat) -> u32 {
    if n + k > u32::MAX {
        u32::MAX
    } else {
        (n + k) as u32
    }
}

/// Number of advances a batch may make: `max_batch`, at least one.
pub open spec fn batch_limit(c: SkipConfig) -> nat {
    if c.max_batch < 1 {
        1
    } else {
        c.max_batch as nat
    }
}

/// A step at which a batch stops: anything but a skippable line.
pub open spec fn halts(c: SkipConfig, v: SkipView) -> bool {
    !skippable(c, v)
}

/// A batch stopped after `lines` advances without meeting a choice or an
/// ending it stops on; `first` is what the player showed before any advance.
pub open spec fn batch_close(c: SkipConfig, first: SkipView, lines: nat) -> SkipResult {
    if lines == 0 {
        if first.wait == StoryWait::Choice {
            SkipResult::StoppedAtChoice
        } else if first.wait == StoryWait::Ended {
            SkipResult::StoppedAtEnd
        } else if c.max_batch > 0 && !skippable(c, first) {
            SkipResult::NotEligible
        } else {
            SkipResult::HitLimit
        }
    } else if lines >= batch_limit(c) {
        SkipResult::HitLimit
    } else {
        SkipResult::Advanced { lines: lines as u32 }
    }
}

/// Outcome of a batch that has made `j` advances, where `path[k]` is what the
/// player shows after `k` advances: the result and the number of advances.
pub open spec fn batch_from(c: SkipConfig, path: Seq<SkipView>, j: nat) -> (SkipResult, nat)
    decreases batch_limit(c) - j,
{
    if j >= batch_limit(c) {
        (batch_close(c, path[0], j), j)
    } else {
        let v = path[j as int];
        if v.wait == StoryWait::Choice && c.stop_on_choice {
            (
                if j > 0 {
                    SkipResult::Advanced { lines: j as u32 }
                } else {
                    SkipResult::StoppedAtChoice
                },
                j,
            )
        } else if v.wait == StoryWait::Ended && c.stop_on_end {
            (
                if j > 0 {
                    SkipResult::Advanced { lines: j as u32 }
                } else {
                    SkipResult::StoppedAtEnd
                },
                j,
            )
        } else if !skippable(c, v) {
            (batch_close(c, path[0], j), j)
        } else {
            batch_from(c, path, j + 1)
        }
    }
}

/// `path` reaches as far as a batch under `c` can read: it holds a step at
/// which the batch stops, or one step per possible advance.
pub open spec fn path_covers(c: SkipConfig, path: Seq<SkipView>) -> bool {
    path.len() >= batch_limit(c) || exists|k: int| 0 <= k < path.len() && halts(c, #[trigger] path[k])
}

/// With `force_read_only` set, only lines already read are ever skippable.
pub proof fn lemma_force_read_only_skips_read_lines(c: SkipConfig, v: SkipView)
    requires
        c.force_read_only,
        skippable(c, v),
    ensures
        v.read,
        v.wait == StoryWait::Line,
{
}

/// A batch advances at most `max_batch` lines (at least one allowed), and
/// every step it advances over shows a line that may be skipped: it never
/// moves past a choice, an ending or, in read-only mode, an unread line.
pub proof fn lemma_batch_skips_only_skippable(c: SkipConfig, path: Seq<SkipView>, j: nat)
    requires
        j <= batch_limit(c),
    ensures
        j <= batch_from(c, path, j).1 <= batch_limit(c),
        forall|k: int|
            j <= k < batch_from(c, path, j).1 ==> skippable(c, #[trigger] path[k]),
    decreases batch_limit(c) - j,
{
    if j < batch_limit(c) {
        let v = path[j as int];
        if !(v.wait == StoryWait::Choice && c.stop_on_choice) && !(v.wait == StoryWait::Ended
            && c.stop_on_end) && skippable(c, v) {
            lemma_batch_skips_only_skippable(c, path, j + 1);
        }
    }
}

/// Skip controller held by the UI / game layer.
#[derive(Debug, Clone, Copy, PartialEq, Eq, Structural)]
pub struct SkipEngine {
    /// Config.
    pub config: SkipConfig,
    /// Whether the player is holding the skip button.
    pub holding: bool,
    /// Cumulative lines skipped this hold session.
    pub session_lines: u32,
}

impl Default for SkipEngine {
    fn default() -> (e: Self)
        ensures
            e.config.mode == SkipMode::Off,
            e.config.max_batch == 256,
            e.config.stop_on_choice,
            e.config.stop_on_end,
            !e.config.force_read_only,
            e.config.ignore_voice_wait,
            !e.holding,
            e.session_lines == 0,
    {
        SkipEngine { config: SkipConfig::default(), holding: false, session_lines: 0 }
    }
}

impl SkipEngine {
    /// Begin holding skip.
    pub fn begin_hold(&mut self)
        ensures
            final(self).holding,
            final(self).session_lines == 0,
            final(self).config == old(self).config,
    {
        self.holding = true;
        self.session_lines = 0;
    }

    /// End holding skip.
    pub fn end_hold(&mut self)
        ensures
            !final(self).holding,
            final(self).session_lines == old(self).session_lines,
            final(self).config == old(self).config,
    {
        self.holding = false;
    }

    /// Whether the line the player shows can be skipped under the config.
    pub fn can_skip_current(&self, view: SkipView) -> (b: bool)
        ensures
            b == skippable(self.config, view),
    {
        match self.config.effective_mode() {
            SkipMode::Off => false,
            SkipMode::All => view.wait == StoryWait::Line,
            SkipMode::ReadOnly => view.wait == StoryWait::Line && view.read,
        }
    }

    fn note_line(&mut self)
        ensures
            final(self).session_lines == sat_inc(old(self).session_lines),
            final(self).config == old(self).config,
            final(self).holding == old(self).holding,
    {
        if self.session_lines < u32::MAX {
            self.session_lines = self.session_lines + 1;
        }
    }

    /// One skip, decided from what the player shows. `fallback_advanced` is
    /// the outcome of the player's own skip rule, consulted only when the
    /// engine itself may not skip the line (the caller advanced the player
    /// in that case exactly when it is true). Returns the result; the engine
    /// advances the player itself exactly when it returns `Advanced` with
    /// the line skippable.
    pub fn skip_once(&mut self, view: SkipView, fallback_advanced: bool) -> (r: SkipResult)
        ensures
            final(self).config == old(self).config,
            final(self).holding == old(self).holding,
            view.wait == StoryWait::Choice && old(self).config.stop_on_choice ==> r
                == SkipResult::StoppedAtChoice && final(self).session_lines == old(self).session_lines,
            view.wait == StoryWait::Ended && old(self).config.stop_on_end ==> r
                == SkipResult::StoppedAtEnd && final(self).session_lines == old(self).session_lines,
            !(view.wait == StoryWait::Choice && old(self).config.stop_on_choice) && !(view.wait
                == StoryWait::Ended && old(self).config.stop_on_end) ==> {
                if skippable(old(self).config, view) || fallback_advanced {
                    r == (SkipResult::Advanced { lines: 1 }) && final(self).session_lines
                        == sat_inc(old(self).session_lines)
                } else {
                    r == SkipResult::NotEligible && final(self).session_lines
                        == old(self).session_lines
                }
            },
    {
        if view.wait == StoryWait::Choice && self.config.stop_on_choice {
            return SkipResult::StoppedAtChoice;
        }
        if view.wait == StoryWait::Ended && self.config.stop_on_end {
            return SkipResult::StoppedAtEnd;
        }
        if !self.can_skip_current(view) {
            if fallback_advanced {
                self.note_line();
                return SkipResult::Advanced { lines: 1 };
            }
            return SkipResult::NotEligible;
        }
        if view.wait == StoryWait::Line {
            self.note_line();
            SkipResult::Advanced { lines: 1 }
        } else {
            SkipResult::NotEligible
        }
    }

    /// Skip while eligible, up to `max_batch` lines (or until a choice or the
    /// end). `path[k]` is what the player shows after `k` advances.
    pub fn skip_batch(&mut self, path: &[SkipView]) -> (r: SkipResult)
        requires
            path_covers(old(self).config, path@),
            path@.len() >= 1,
        ensures
            r == batch_from(old(self).config, path@, 0).0,
            final(self).session_lines == sat_add(
                old(self).session_lines,
                batch_from(old(self).config, path@, 0).1,
            ),
            final(self).config == old(self).config,
            final(self).holding == old(self).holding,
    {
        let limit: u32 = if self.config.max_batch < 1 {
            1
        } else {
            self.config.max_batch
        };
        let ghost c = self.config;
        let ghost s0 = self.session_lines;
        let mut lines: u32 = 0;
        let mut result: Option<SkipResult> = None;
        while lines < limit && result.is_none()
            invariant
                c == self.config,
                self.holding == old(self).holding,
                c == old(self).config,
                s0 == old(self).session_lines,
                limit == batch_limit(c),
                path@.len() >= 1,
                path_covers(c, path@),
                forall|k: int| 0 <= k < lines ==> !halts(c, #[trigger] path@[k]),
                lines <= limit,
                self.session_lines == sat_add(s0, lines as nat),
                match result {
                    Some(res) => batch_from(c, path@, 0) == (res, lines as nat),
                    None => batch_from(c, path@, 0) == batch_from(c, path@, lines as nat),
                },
            decreases limit - lines, if result.is_none() { 1int } else { 0int },
        {
            if lines as usize >= path.len() {
                proof {
                    let k = choose|k: int| 0 <= k < path@.len() && halts(c, #[trigger] path@[k]);
                    assert(!halts(c, path@[k]));
                }
            }
            let v = path[lines as usize];
            if v.wait == StoryWait::Choice && self.config.stop_on_choice {
                result = Some(
                    if lines > 0 {
                        SkipResult::Advanced { lines }
                    } else {
                        SkipResult::StoppedAtChoice
                    },
                );
            } else if v.wait == StoryWait::Ended && self.config.stop_on_end {
                result = Some(
                    if lines > 0 {
                        SkipResult::Advanced { lines }
                    } else {
                        SkipResult::StoppedAtEnd
                    },
                );
            } else if !self.can_skip_current(v) {
                result = Some(self.close_batch(path[0], lines));
            } else {
                lines = lines + 1;
                self.note_line();
            }
        }
        match result {
            Some(res) => res,
            None => self.close_batch(path[0], lines),
        }
    }

    fn close_batch(&self, first: SkipView, lines: u32) -> (r: SkipResult)
        ensures
            r == batch_close(self.config, first, lines as nat),
    {
        let limit: u32 = if self.config.max_batch < 1 {
            1
        } else {
            self.config.max_batch
        };
        if lines == 0 {
            if first.wait == StoryWait::Choice {
                SkipResult::StoppedAtChoice
            } else if first.wait == StoryWait::Ended {
                SkipResult::StoppedAtEnd
            } else if self.config.max_batch > 0 && !self.can_skip_current(first) {
                SkipResult::NotEligible
            } else {
                SkipResult::HitLimit
            }
        } else if lines >= limit {
            SkipResult::HitLimit
        } else {
            SkipResult::Advanced { lines }
        }
    }

    /// Tick while holding: if holding, batch skip; otherwise nothing.
    pub fn tick_hold(&mut self, path: &[SkipView]) -> (r: SkipResult)
        requires
            old(self).holding ==> path_covers(old(self).config, path@) && path@.len() >= 1,
        ensures
            !old(self).holding ==> r == SkipResult::NotEligible && *final(self) == *old(self),
            old(self).holding ==> r == batch_from(old(self).config, path@, 0).0
                && final(self).session_lines == sat_add(
                old(self).session_lines,
                batch_from(old(self).config, path@, 0).1,
            ) && final(self).config == old(self).config && final(self).holding,
    {
        if !self.holding {
            return SkipResult::NotEligible;
        }
        self.skip_batch(path)
    }
}

/// A scene operation as seen when counting lines that could be skipped.
#[derive(Debug, Clone, Copy, PartialEq, Eq, Structural)]
pub enum OpClass {
    /// A dialogue line, with whether it was already read.
    Line {
        /// The line was already read.
        read: bool,
    },
    /// A choice, an ending, a jump or a call: counting stops there.
    Stop,
    /// Any other operation: passed over.
    Other,
}

/// Already-read lines counted from op `idx` on, with `count` counted so far
/// and at most `max` in all.
pub open spec fn read_run(ops: Seq<OpClass>, idx: nat, count: nat, max: nat) -> nat
    decreases ops.len() - idx,
{
    if count >= max || idx >= ops.len() {
        count
    } else {
        match ops[idx as int] {
            OpClass::Line { read } => if read {
                read_run(ops, idx + 1, count + 1, max)
            } else {
                count
            },
            OpClass::Stop => count,
            OpClass::Other => read_run(ops, idx + 1, count, max),
        }
    }
}

/// How many consecutive already-read lines follow from op `start` of a
/// scene (other operations passed over), stopping at an unread line, a
/// choice, an ending, a jump or a call, and counting at most `max`.
pub fn count_skippable_read_lines(ops: &[OpClass], start: usize, max: u32) -> (n: u32)
    ensures
        n == read_run(ops@, start as nat, 0, max as nat),
{
    let mut count: u32 = 0;
    let mut idx: usize = start;
    let mut stop = false;
    while count < max && idx < ops.len() && !stop
        invariant
            count <= max,
            read_run(ops@, start as nat, 0, max as nat) == if stop {
                count as nat
            } else {
                read_run(ops@, idx as nat, count as nat, max as nat)
            },
        decreases ops@.len() - idx, if stop {
            0int
        } else {
            1int
        },
    {
        match ops[idx] {
            OpClass::Line { read } => {
                if read {
                    count += 1;
                    idx += 1;
                } else {
                    stop = true;
                }
            },
            OpClass::Stop => {
                stop = true;
            },
            OpClass::Other => {
                idx += 1;
            },
        }
    }
    count
}

} // verus!
