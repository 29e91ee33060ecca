//! Product screen state: say box with typewriter, choice menu, confirm
//! dialog, layered sprites; and the player-facing runtime records they show.

use vstd::prelude::*;

use crate::strings::{
    chars_of, owned, push_char, push_str, slice_range, str_eq, string_of, trim_end_chars, trim_right,
};

verus! {

/// What the story player is waiting on.
#[derive(Debug, Clone, Copy, PartialEq, Eq, Structural)]
pub enum StoryWait {
    /// Can step immediately (internal).
    Ready,
    /// Showing a dialogue line; advance to continue.
    Line,
    /// Waiting for a choice selection.
    Choice,
    /// Story finished.
    Ended,
}

impl Default for StoryWait {
    fn default() -> (r: Self)
        ensures
            r == StoryWait::Ready,
    {
        StoryWait::Ready
    }
}

/// Visible character on screen.
#[derive(Debug, Clone)]
pub struct VisibleCharacter {
    /// Character id.
    pub id: String,
    /// Expression tag if any.
    pub expression: Option<String>,
    /// Placement.
    pub at: Option<String>,
}

/// Choice presented to the UI.
#[derive(Debug, Clone)]
pub struct ChoiceOption {
    /// Index into current choice arms.
    pub index: usize,
    /// Display text (interpolated).
    pub text: String,
    /// Whether selectable.
    pub enabled: bool,
    /// Hidden from list.
    pub hidden: bool,
}

/// Product say-screen state (namebox + body + typewriter).
#[derive(Debug, Clone)]
pub struct SayScreen {
    /// Speaker display name (empty = narrator).
    pub namebox: String,
    /// Full line.
    pub full_text: String,
    /// Currently revealed text.
    pub visible_text: String,
    /// Typewriter complete.
    pub text_complete: bool,
    /// Whether the box is visible.
    pub visible: bool,
}

impl Default for SayScreen {
    fn default() -> (r: Self)
        ensures
            r.namebox@.len() == 0,
            r.full_text@.len() == 0,
            r.visible_text@.len() == 0,
            !r.text_complete,
            !r.visible,
    {
        SayScreen {
            namebox: String::new(),
            full_text: String::new(),
            visible_text: String::new(),
            text_complete: false,
            visible: false,
        }
    }
}

impl SayScreen {
    /// Clear back to the hidden, empty state.
    pub fn clear(&mut self)
        ensures
            final(self).namebox@.len() == 0,
            final(self).full_text@.len() == 0,
            final(self).visible_text@.len() == 0,
            !final(self).text_complete,
            !final(self).visible,
    {
        *self = SayScreen::default();
    }

    /// Show a line; the typewriter starts empty unless `instant`.
    pub fn show(&mut self, namebox: &str, text: &str, instant: bool)
        ensures
            final(self).namebox@ == namebox@,
            final(self).full_text@ == text@,
            final(self).visible_text@ == if instant {
                text@
            } else {
                Seq::<char>::empty()
            },
            final(self).text_complete == instant,
            final(self).visible,
    {
        self.namebox = owned(namebox);
        self.full_text = owned(text);
        if instant {
            self.visible_text = owned(text);
            self.text_complete = true;
        } else {
            self.visible_text = String::new();
            self.text_complete = false;
        }
        self.visible = true;
    }

    /// Reveal all remaining text.
    pub fn reveal_all(&mut self)
        ensures
            final(self).visible_text@ == old(self).full_text@,
            final(self).text_complete,
            final(self).full_text@ == old(self).full_text@,
            final(self).namebox@ == old(self).namebox@,
            final(self).visible == old(self).visible,
    {
        self.visible_text = owned(self.full_text.as_str());
        self.text_complete = true;
    }

    /// Advance the typewriter by `n` characters; returns whether the whole
    /// line is revealed. A completed line is left as it is.
    pub fn typewrite(&mut self, n: usize) -> (done: bool)
        requires
            old(self).visible_text@.len() + n <= usize::MAX,
        ensures
            final(self).full_text@ == old(self).full_text@,
            final(self).namebox@ == old(self).namebox@,
            final(self).visible == old(self).visible,
            old(self).text_complete ==> final(self).visible_text@ == old(self).visible_text@
                && final(self).text_complete,
            !old(self).text_complete ==> {
                let target = if old(self).visible_text@.len() + n < old(self).full_text@.len() {
                    old(self).visible_text@.len() + n
                } else {
                    old(self).full_text@.len() as int
                };
                &&& final(self).visible_text@ == old(self).full_text@.take(target)
                &&& final(self).text_complete == (target >= old(self).full_text@.len())
            },
            done == final(self).text_complete,
    {
        if self.text_complete {
            return true;
        }
        let full = chars_of(self.full_text.as_str());
        let vis = chars_of(self.visible_text.as_str());
        let sum = vis.len() + n;
        let target = if sum < full.len() {
            sum
        } else {
            full.len()
        };
        let t = slice_range(full.as_slice(), 0, target);
        self.visible_text = string_of(t.as_slice());
        if target >= full.len() {
            self.text_complete = true;
        }
        self.text_complete
    }
}

/// Choice menu product screen.
#[derive(Debug, Clone)]
pub struct ChoiceScreen {
    /// Options from the player.
    pub options: Vec<ChoiceOption>,
    /// Selected index into `options` (not arm id).
    pub selected: usize,
    /// Open.
    pub open: bool,
}

impl Default for ChoiceScreen {
    fn default() -> (r: Self)
        ensures
            r.options@.len() == 0,
            r.selected == 0,
            !r.open,
    {
        ChoiceScreen { options: Vec::new(), selected: 0, open: false }
    }
}

impl ChoiceScreen {
    /// The selection is on one of the options, whenever there is one.
    pub open spec fn selection_valid(&self) -> bool {
        self.options@.len() > 0 ==> self.selected < self.options@.len()
    }

    /// The story arm of the highlighted option, if the selection is on one.
    pub open spec fn arm_of(&self) -> Option<usize> {
        if self.selected < self.options@.len() {
            Some(self.options@[self.selected as int].index)
        } else {
            None
        }
    }

    /// Open with options (selection on the first one); a menu with no
    /// option stays closed.
    pub fn open_with(&mut self, options: Vec<ChoiceOption>)
        ensures
            final(self).options@ == options@,
            final(self).selected == 0,
            final(self).open == (options@.len() > 0),
            final(self).selection_valid(),
    {
        self.options = options;
        self.selected = 0;
        self.open = self.options.len() > 0;
    }

    /// Close and drop the options.
    pub fn close(&mut self)
        ensures
            final(self).options@.len() == 0,
            final(self).selected == 0,
            !final(self).open,
            final(self).selection_valid(),
    {
        self.options.clear();
        self.selected = 0;
        self.open = false;
    }

    /// Move the selection by `delta`, wrapping around the options.
    pub fn move_sel(&mut self, delta: i32)
        requires
            old(self).options@.len() <= i32::MAX,
            old(self).selected <= i32::MAX,
            i32::MIN <= old(self).selected + delta <= i32::MAX,
        ensures
            final(self).options@ == old(self).options@,
            final(self).open == old(self).open,
            old(self).options@.len() == 0 ==> final(self).selected == old(self).selected,
            old(self).options@.len() > 0 ==> final(self).selected as int == (old(self).selected
                + delta) % (old(self).options@.len() as int),
            final(self).selection_valid(),
    {
        if self.options.len() == 0 {
            return;
        }
        let n = self.options.len() as i32;
        let mut s: i32 = self.selected as i32 + delta;
        let ghost start = s as int;
        while s < 0
            invariant
                n > 0,
                (s as int) % (n as int) == start % (n as int),
            decreases if s < 0 {
                -(s as int)
            } else {
                0
            },
        {
            proof {
                vstd::arithmetic::div_mod::lemma_mod_add_multiples_vanish(s as int, n as int);
            }
            s += n;
        }
        let m = s % n;
        self.selected = m as usize;
    }

    /// Arm index of the selected option.
    pub fn selected_arm(&self) -> (r: Option<usize>)
        ensures
            r == self.arm_of(),
    {
        if self.selected < self.options.len() {
            Some(self.options[self.selected].index)
        } else {
            None
        }
    }
}

/// Whatever sequence of `open_with`, `move_sel` and `close` calls a menu
/// went through (each leaves the selection valid), the selection is on an
/// option whenever there is one, and the selected arm is the story arm of
/// that option; an empty menu has no selected arm.
pub proof fn lemma_selection_in_range(c: ChoiceScreen)
    requires
        c.selection_valid(),
    ensures
        c.options@.len() > 0 ==> c.selected < c.options@.len() && c.arm_of() == Some(
            c.options@[c.selected as int].index,
        ),
        c.options@.len() == 0 ==> c.arm_of() is None,
{
}

/// Where the selection ends after moving by each of `ds` in turn, from
/// `sel` among `n` options (each move as `move_sel` makes it).
pub open spec fn moved(sel: int, n: int, ds: Seq<i32>) -> int
    decreases ds.len(),
{
    if ds.len() == 0 || n <= 0 {
        sel
    } else {
        moved((sel + ds[0]) % n, n, ds.drop_first())
    }
}

/// Any sequence of moves keeps the selection on one of the options.
pub proof fn lemma_moves_stay_in_range(sel: int, n: int, ds: Seq<i32>)
    requires
        0 <= sel < n,
    ensures
        0 <= moved(sel, n, ds) < n,
    decreases ds.len(),
{
    if ds.len() > 0 {
        lemma_moves_stay_in_range((sel + ds[0]) % n, n, ds.drop_first());
    }
}

/// What a confirm dialog asks about.
#[derive(Debug, Clone, PartialEq, Eq)]
pub enum ConfirmKind {
    /// Idle.
    Idle,
    /// Confirm quit.
    Quit,
    /// Confirm overwriting a save slot.
    OverwriteSlot(String),
}

/// Confirm dialog state.
#[derive(Debug, Clone)]
pub struct ConfirmDialog {
    /// Kind.
    pub kind: ConfirmKind,
    /// Prompt text.
    pub message: String,
    /// Open.
    pub open: bool,
}

impl Default for ConfirmDialog {
    fn default() -> (r: Self)
        ensures
            r.kind == ConfirmKind::Idle,
            r.message@.len() == 0,
            !r.open,
    {
        ConfirmDialog { kind: ConfirmKind::Idle, message: String::new(), open: false }
    }
}

impl ConfirmDialog {
    /// Ask to quit.
    pub fn ask_quit(&mut self)
        ensures
            final(self).kind == ConfirmKind::Quit,
            final(self).message@ == "Quit the game?"@,
            final(self).open,
    {
        self.kind = ConfirmKind::Quit;
        self.message = owned("Quit the game?");
        self.open = true;
    }

    /// Ask to overwrite a save slot.
    pub fn ask_overwrite(&mut self, slot: &str)
        ensures
            final(self).kind matches ConfirmKind::OverwriteSlot(s) && s@ == slot@,
            final(self).message@ == "Overwrite save slot `"@ + slot@ + "`?"@,
            final(self).open,
    {
        let mut m = owned("Overwrite save slot `");
        push_str(&mut m, slot);
        push_str(&mut m, "`?");
        self.message = m;
        self.kind = ConfirmKind::OverwriteSlot(owned(slot));
        self.open = true;
    }

    /// Close.
    pub fn close(&mut self)
        ensures
            final(self).kind == ConfirmKind::Idle,
            final(self).message@.len() == 0,
            !final(self).open,
    {
        self.kind = ConfirmKind::Idle;
        self.message = String::new();
        self.open = false;
    }
}

/// Sprite on a presentation layer with z-order.
#[derive(Debug, Clone)]
pub struct LayeredSprite {
    /// Character / sprite id.
    pub id: String,
    /// Expression.
    pub expression: Option<String>,
    /// Placement tag (left/right/center/at coords).
    pub at: Option<String>,
    /// Z-order (higher draws later).
    pub z: i32,
}

/// Z-order of a sprite by placement: left 10, center 20, right 30,
/// anything else 15.
pub open spec fn placement_z(at: Option<Seq<char>>) -> i32 {
    match at {
        Some(a) => if a == "left"@ {
            10
        } else if a == "center"@ {
            20
        } else if a == "right"@ {
            30
        } else {
            15
        },
        None => 15,
    }
}

/// Z-order for a placement tag.
pub fn z_for_at(at: Option<&str>) -> (z: i32)
    ensures
        z == placement_z(
            match at {
                Some(a) => Some(a@),
                None => None,
            },
        ),
{
    match at {
        Some(a) => {
            if str_eq(a, "left") {
                10
            } else if str_eq(a, "center") {
                20
            } else if str_eq(a, "right") {
                30
            } else {
                15
            }
        },
        None => 15,
    }
}

/// Lines with trailing whitespace removed, empty ones dropped.
pub open spec fn kept_lines(ls: Seq<Seq<char>>) -> Seq<Seq<char>>
    decreases ls.len(),
{
    if ls.len() == 0 {
        seq![]
    } else {
        let t = trim_right(ls.last());
        if t.len() == 0 {
            kept_lines(ls.drop_last())
        } else {
            kept_lines(ls.drop_last()).push(t)
        }
    }
}

/// Lines joined with `\n` between them.
pub open spec fn joined(ls: Seq<Seq<char>>) -> Seq<char>
    decreases ls.len(),
{
    if ls.len() == 0 {
        seq![]
    } else if ls.len() == 1 {
        ls[0]
    } else {
        joined(ls.drop_last()) + seq!['\n'] + ls.last()
    }
}

/// Join dialogue lines with newlines, trimming trailing whitespace and
/// dropping lines that become empty.
pub fn join_dialogue_lines(lines: &[&str]) -> (r: String)
    ensures
        r@ == joined(kept_lines(Seq::new(lines@.len(), |i: int| lines@[i]@))),
{
    let ghost ls = Seq::new(lines@.len(), |i: int| lines@[i]@);
    let mut out = String::new();
    let ghost mut kept: Seq<Seq<char>> = seq![];
    let mut any = false;
    let mut i: usize = 0;
    while i < lines.len()
        invariant
            0 <= i <= lines@.len(),
            ls == Seq::new(lines@.len(), |i: int| lines@[i]@),
            kept == kept_lines(ls.take(i as int)),
            any == (kept.len() > 0),
            out@ == joined(kept),
        decreases lines@.len() - i,
    {
        let v = chars_of(lines[i]);
        let t = trim_end_chars(v.as_slice());
        assert(ls.take(i + 1).drop_last() =~= ls.take(i as int));
        assert(ls.take(i + 1).last() == lines@[i as int]@);
        if t.len() > 0 {
            if any {
                push_char(&mut out, '\n');
            }
            any = true;
            let ts = string_of(t.as_slice());
            push_str(&mut out, ts.as_str());
            proof {
                let k2 = kept.push(t@);
                assert(k2.drop_last() =~= kept);
                if kept.len() == 0 {
                    assert(out@ =~= joined(k2));
                }
                kept = k2;
            }
        }
        i += 1;
    }
    assert(ls.take(lines@.len() as int) =~= ls);
    out
}

} // verus!
