//! The dialogue runtime's step: what one story op does to the player's
//! cursor, nested block frames, call continuations, choice menu, visible
//! characters, seen lines and event queue. What needs the variables (a
//! condition, an assigned value, interpolated text, a choice arm's
//! requirement) or the command host comes in as [`OpFacts`]; variable writes
//! go out in [`PlayerState::writes`]. Numbers with a fraction are kept as
//! their text.

use vstd::prelude::*;

use crate::screens::{ChoiceOption, StoryWait, VisibleCharacter};
use crate::story_refs::{split_target, target_expression, target_id};
use crate::strings::{decimal, opt_view, owned, push_char, push_decimal, slice_range, chars_of, string_of, str_eq};
use crate::tags::{find_char, first_char, lemma_first_char};

verus! {

/// A story variable's value; a float is kept as its text.
#[derive(Debug, Clone)]
pub enum StoryValue {
    /// Null / unset.
    Null,
    /// Boolean.
    Bool(bool),
    /// Integer.
    Int(i64),
    /// Float, as its text.
    Float(String),
    /// String.
    String(String),
}

/// One arm of a choice menu.
#[derive(Debug)]
pub struct ChoiceArm {
    /// Display text (before interpolation).
    pub text: String,
    /// Ops run when chosen.
    pub body: Vec<StoryOp>,
    /// Variable that must be truthy for the arm to be selectable.
    pub require: Option<String>,
    /// Hidden (not only locked) when the requirement fails.
    pub hidden_if_locked: bool,
}

/// One compiled story operation.
#[derive(Debug)]
pub enum StoryOp {
    /// Does nothing.
    Nop,
    /// Jump target.
    Label {
        /// Label name.
        name: String,
    },
    /// Sets the background.
    Background {
        /// Image path.
        path: String,
    },
    /// Sets the music.
    Music {
        /// Track path.
        path: String,
        /// Fade-in seconds, as text.
        fade_in: Option<String>,
    },
    /// Shows a character (`aria.happy`).
    Show {
        /// Character id, with an optional `.expression`.
        target: String,
        /// Placement.
        at: Option<String>,
    },
    /// Hides a character.
    Hide {
        /// Character id, with an optional `.expression`.
        target: String,
    },
    /// A dialogue line.
    Dialogue {
        /// Speaker id (none for narration).
        speaker: Option<String>,
        /// Line text (before interpolation).
        text: String,
    },
    /// A choice menu.
    Choice {
        /// Arms in order.
        options: Vec<ChoiceArm>,
    },
    /// Jumps to `scene`, `scene:label` or a label of the current scene.
    Jump {
        /// Target.
        target: String,
    },
    /// Like a jump, remembering where to return.
    Call {
        /// Target.
        target: String,
    },
    /// Variable assignment (its value comes in the facts).
    Assign {
        /// Variable name.
        name: String,
    },
    /// Conditional block (its condition's value comes in the facts).
    If {
        /// Ops when the condition holds.
        then_ops: Vec<StoryOp>,
        /// Ops otherwise.
        else_ops: Vec<StoryOp>,
    },
    /// Ends the story.
    End {
        /// Ending id.
        ending: Option<String>,
    },
    /// A command for the host (`call combat.start: …`).
    HostCall {
        /// Command name.
        name: String,
        /// Named arguments, in order.
        args: Vec<(String, StoryValue)>,
    },
    /// One-shot sound.
    Sound {
        /// Asset path.
        path: String,
    },
    /// Narrative pause.
    Pause {
        /// Seconds, as text.
        seconds: Option<String>,
    },
    /// Named transition.
    Transition {
        /// Transition id.
        name: String,
    },
    /// Returns from a call.
    Return,
}

/// A nested block being run (an `if` or choice arm body).
#[derive(Debug)]
pub struct ExecFrame {
    /// The block's ops.
    pub ops: Vec<StoryOp>,
    /// Next op to run.
    pub index: usize,
}

/// Where a `return` resumes.
#[derive(Debug)]
pub struct CallContinuation {
    /// Scene.
    pub scene: String,
    /// Op index in the scene.
    pub op_index: usize,
    /// Nested blocks that were open.
    pub exec_stack: Vec<ExecFrame>,
}

/// Events for audio, render and UI hooks.
#[derive(Debug)]
pub enum StoryEvent {
    /// Background changed.
    Background(String),
    /// Music changed.
    Music {
        /// Path.
        path: String,
        /// Fade-in seconds, as text.
        fade_in: Option<String>,
    },
    /// Character shown.
    Show(VisibleCharacter),
    /// Character hidden.
    Hide(String),
    /// New dialogue line.
    Dialogue {
        /// Speaker id.
        speaker: Option<String>,
        /// Display name.
        speaker_name: String,
        /// Text.
        text: String,
    },
    /// Choices available.
    Choices(Vec<ChoiceOption>),
    /// Story ended.
    Ended {
        /// Ending id.
        ending: Option<String>,
    },
    /// Variable changed.
    Variable {
        /// Name.
        name: String,
        /// Value.
        value: StoryValue,
    },
    /// One-shot sound.
    Sound {
        /// Path.
        path: String,
    },
    /// Narrative pause.
    Pause {
        /// Seconds, as text.
        seconds: Option<String>,
    },
    /// Named transition.
    Transition {
        /// Transition id.
        name: String,
    },
    /// Host command.
    HostCall {
        /// Command name.
        name: String,
        /// Named arguments.
        args: Vec<(String, StoryValue)>,
    },
}

/// What came of handing a command to the host.
#[derive(Debug)]
pub enum HostOutcome {
    /// No host is attached.
    NoHost,
    /// The host ran it.
    Dispatched,
    /// The host failed with this message.
    Failed(String),
}

/// What the step needs from the variables and the host.
#[derive(Debug)]
pub struct OpFacts {
    /// Value of an `if`'s condition.
    pub cond: bool,
    /// An assigned variable's value after the assignment.
    pub value: StoryValue,
    /// A dialogue line's interpolated text.
    pub line_text: String,
    /// For each arm of a choice: whether its requirement holds, and its
    /// interpolated text.
    pub arms: Vec<(bool, String)>,
    /// Outcome of a host command.
    pub host: HostOutcome,
}

/// A compiled scene: its ops and the op index of each label.
#[derive(Debug)]
pub struct StoryScene {
    /// Scene name.
    pub name: String,
    /// Operations in order.
    pub ops: Vec<StoryOp>,
    /// Labels and the op index each marks, in insertion order (names
    /// distinct).
    pub labels: Vec<(String, usize)>,
}

/// What the step reads of the program: scenes with their labels, and
/// character display names.
#[derive(Debug)]
pub struct ProgramIndex {
    /// Scenes in order (names are distinct).
    pub scenes: Vec<StoryScene>,
    /// Character ids and display names.
    pub characters: Vec<(String, String)>,
}

/// The player's state.
#[derive(Debug)]
pub struct PlayerState {
    /// Current scene.
    pub scene: String,
    /// Index into the scene's ops.
    pub op_index: usize,
    /// What the player waits on.
    pub wait: StoryWait,
    /// Visible characters, in the order they appeared (ids distinct).
    pub visible: Vec<VisibleCharacter>,
    /// Background.
    pub background: Option<String>,
    /// Music.
    pub music: Option<String>,
    /// Saved (scene, return index) of each call.
    pub call_stack: Vec<(String, usize)>,
    /// Speaker of the current line.
    pub current_speaker_id: Option<String>,
    /// Speaker display name.
    pub current_speaker_name: String,
    /// Current line.
    pub current_text: String,
    /// Choices shown.
    pub choices: Vec<ChoiceOption>,
    /// Nested blocks being run, innermost last.
    pub exec_stack: Vec<ExecFrame>,
    /// Arms of the menu being waited on.
    pub pending_menu: Option<Vec<ChoiceArm>>,
    /// Whether choosing moves the scene cursor past the menu.
    pub choice_advances_scene: bool,
    /// Full continuations of the calls.
    pub call_continuations: Vec<CallContinuation>,
    /// Seen line keys `scene:op_index` (distinct).
    pub seen_lines: Vec<String>,
    /// Events since the last drain.
    pub events: Vec<StoryEvent>,
    /// Variable writes since the last drain, in order.
    pub writes: Vec<(String, StoryValue)>,
    /// Last host error.
    pub last_host_error: Option<String>,
    /// Ending id.
    pub ending: Option<String>,
}

/// A visible character as plain values.
pub struct VisView {
    /// Id.
    pub id: Seq<char>,
    /// Expression.
    pub expression: Option<Seq<char>>,
    /// Placement.
    pub at: Option<Seq<char>>,
}

/// A value as plain values.
pub enum ValView {
    /// Null.
    Null,
    /// Boolean.
    Bool(bool),
    /// Integer.
    Int(i64),
    /// Float text.
    Float(Seq<char>),
    /// String.
    Str(Seq<char>),
}

/// A shown choice as plain values.
pub struct ChoiceView {
    /// Arm index.
    pub index: usize,
    /// Text.
    pub text: Seq<char>,
    /// Selectable.
    pub enabled: bool,
    /// Hidden.
    pub hidden: bool,
}

/// An event as plain values.
pub enum EventView {
    /// Background.
    Background(Seq<char>),
    /// Music and fade-in.
    Music(Seq<char>, Option<Seq<char>>),
    /// Shown character.
    Show(VisView),
    /// Hidden id.
    Hide(Seq<char>),
    /// Speaker id, name, text.
    Dialogue(Option<Seq<char>>, Seq<char>, Seq<char>),
    /// Choices.
    Choices(Seq<ChoiceView>),
    /// Ending.
    Ended(Option<Seq<char>>),
    /// Variable and value.
    Variable(Seq<char>, ValView),
    /// Sound.
    Sound(Seq<char>),
    /// Pause.
    Pause(Option<Seq<char>>),
    /// Transition.
    Transition(Seq<char>),
    /// Host command and arguments.
    HostCall(Seq<char>, Seq<(Seq<char>, ValView)>),
}

/// The player's state as plain values (nested ops kept as they are).
pub struct PlayerView {
    /// Scene.
    pub scene: Seq<char>,
    /// Op index.
    pub op_index: usize,
    /// Wait state.
    pub wait: StoryWait,
    /// Visible characters.
    pub visible: Seq<VisView>,
    /// Background.
    pub background: Option<Seq<char>>,
    /// Music.
    pub music: Option<Seq<char>>,
    /// Call stack.
    pub call_stack: Seq<(Seq<char>, usize)>,
    /// Speaker id.
    pub speaker_id: Option<Seq<char>>,
    /// Speaker name.
    pub speaker_name: Seq<char>,
    /// Line text.
    pub text: Seq<char>,
    /// Choices.
    pub choices: Seq<ChoiceView>,
    /// Nested blocks.
    pub exec_stack: Seq<ExecFrame>,
    /// Pending menu.
    pub pending_menu: Option<Vec<ChoiceArm>>,
    /// Whether choosing advances the scene cursor.
    pub choice_advances_scene: bool,
    /// Call continuations: scene, op index, nested blocks.
    pub conts: Seq<(Seq<char>, usize, Seq<ExecFrame>)>,
    /// Seen line keys.
    pub seen: Seq<Seq<char>>,
    /// Events.
    pub events: Seq<EventView>,
    /// Variable writes.
    pub writes: Seq<(Seq<char>, ValView)>,
    /// Last host error.
    pub host_error: Option<Seq<char>>,
    /// Ending.
    pub ending: Option<Seq<char>>,
}

/// Plain values of a visible character.
pub open spec fn vis_view(v: VisibleCharacter) -> VisView {
    VisView { id: v.id@, expression: opt_view(v.expression), at: opt_view(v.at) }
}

/// Plain values of a value.
pub open spec fn val_view(v: StoryValue) -> ValView {
    match v {
        StoryValue::Null => ValView::Null,
        StoryValue::Bool(b) => ValView::Bool(b),
        StoryValue::Int(i) => ValView::Int(i),
        StoryValue::Float(t) => ValView::Float(t@),
        StoryValue::String(s) => ValView::Str(s@),
    }
}

/// Plain values of named values.
pub open spec fn pairs_view(ps: Seq<(String, StoryValue)>) -> Seq<(Seq<char>, ValView)> {
    Seq::new(ps.len(), |k: int| (ps[k].0@, val_view(ps[k].1)))
}

/// Plain values of a shown choice.
pub open spec fn choice_view(c: ChoiceOption) -> ChoiceView {
    ChoiceView { index: c.index, text: c.text@, enabled: c.enabled, hidden: c.hidden }
}

/// Plain values of shown choices.
pub open spec fn choices_view(cs: Seq<ChoiceOption>) -> Seq<ChoiceView> {
    Seq::new(cs.len(), |k: int| choice_view(cs[k]))
}

/// Plain values of an event.
pub open spec fn event_view(e: StoryEvent) -> EventView {
    match e {
        StoryEvent::Background(p) => EventView::Background(p@),
        StoryEvent::Music { path, fade_in } => EventView::Music(path@, opt_view(fade_in)),
        StoryEvent::Show(v) => EventView::Show(vis_view(v)),
        StoryEvent::Hide(id) => EventView::Hide(id@),
        StoryEvent::Dialogue { speaker, speaker_name, text } => EventView::Dialogue(
            opt_view(speaker),
            speaker_name@,
            text@,
        ),
        StoryEvent::Choices(cs) => EventView::Choices(choices_view(cs@)),
        StoryEvent::Ended { ending } => EventView::Ended(opt_view(ending)),
        StoryEvent::Variable { name, value } => EventView::Variable(name@, val_view(value)),
        StoryEvent::Sound { path } => EventView::Sound(path@),
        StoryEvent::Pause { seconds } => EventView::Pause(opt_view(seconds)),
        StoryEvent::Transition { name } => EventView::Transition(name@),
        StoryEvent::HostCall { name, args } => EventView::HostCall(name@, pairs_view(args@)),
    }
}

impl View for PlayerState {
    type V = PlayerView;

    open spec fn view(&self) -> PlayerView {
        PlayerView {
            scene: self.scene@,
            op_index: self.op_index,
            wait: self.wait,
            visible: Seq::new(self.visible@.len(), |k: int| vis_view(self.visible@[k])),
            background: opt_view(self.background),
            music: opt_view(self.music),
            call_stack: Seq::new(self.call_stack@.len(), |k: int| (self.call_stack@[k].0@, self.call_stack@[k].1)),
            speaker_id: opt_view(self.current_speaker_id),
            speaker_name: self.current_speaker_name@,
            text: self.current_text@,
            choices: choices_view(self.choices@),
            exec_stack: self.exec_stack@,
            pending_menu: self.pending_menu,
            choice_advances_scene: self.choice_advances_scene,
            conts: Seq::new(
                self.call_continuations@.len(),
                |k: int|
                    (
                        self.call_continuations@[k].scene@,
                        self.call_continuations@[k].op_index,
                        self.call_continuations@[k].exec_stack@,
                    ),
            ),
            seen: Seq::new(self.seen_lines@.len(), |k: int| self.seen_lines@[k]@),
            events: Seq::new(self.events@.len(), |k: int| event_view(self.events@[k])),
            writes: pairs_view(self.writes@),
            host_error: opt_view(self.last_host_error),
            ending: opt_view(self.ending),
        }
    }
}

/// Index of the first of `keys` equal to `k`, or -1.
pub open spec fn key_pos(keys: Seq<Seq<char>>, k: Seq<char>) -> int
    decreases keys.len(),
{
    if keys.len() == 0 {
        -1
    } else if key_pos(keys.drop_last(), k) >= 0 {
        key_pos(keys.drop_last(), k)
    } else if keys.last() == k {
        keys.len() - 1
    } else {
        -1
    }
}

/// A position found by [`key_pos`] holds the key.
pub proof fn lemma_key_pos(keys: Seq<Seq<char>>, k: Seq<char>)
    ensures
        -1 <= key_pos(keys, k) < keys.len(),
        key_pos(keys, k) >= 0 ==> keys[key_pos(keys, k)] == k,
        key_pos(keys, k) < 0 ==> forall|j: int| 0 <= j < keys.len() ==> keys[j] != k,
    decreases keys.len(),
{
    if keys.len() > 0 {
        lemma_key_pos(keys.drop_last(), k);
        assert forall|j: int| 0 <= j < keys.len() - 1 implies keys.drop_last()[j] == keys[j] by {}
    }
}

/// Names of the program's scenes.
pub open spec fn scene_names(p: ProgramIndex) -> Seq<Seq<char>> {
    Seq::new(p.scenes@.len(), |k: int| p.scenes@[k].name@)
}

/// Names of a scene's labels.
pub open spec fn label_names(sc: StoryScene) -> Seq<Seq<char>> {
    Seq::new(sc.labels@.len(), |k: int| sc.labels@[k].0@)
}

/// Ids of the program's characters.
pub open spec fn character_ids(p: ProgramIndex) -> Seq<Seq<char>> {
    Seq::new(p.characters@.len(), |k: int| p.characters@[k].0@)
}

/// Ids of visible characters.
pub open spec fn vis_ids(vs: Seq<VisView>) -> Seq<Seq<char>> {
    Seq::new(vs.len(), |k: int| vs[k].id)
}

/// Op index of `label` in scene number `i`, if it has one.
pub open spec fn label_index(p: ProgramIndex, i: int, label: Seq<char>) -> Option<usize> {
    let sc = p.scenes@[i];
    let j = key_pos(label_names(sc), label);
    if j >= 0 {
        Some(sc.labels@[j].1)
    } else {
        None
    }
}

/// A character shown (replacing the entry with its id in place, or added).
pub open spec fn vis_insert(vs: Seq<VisView>, v: VisView) -> Seq<VisView> {
    let j = key_pos(vis_ids(vs), v.id);
    if j >= 0 {
        vs.update(j, v)
    } else {
        vs.push(v)
    }
}

/// The characters with id `id` removed, the others in order.
pub open spec fn vis_remove(vs: Seq<VisView>, id: Seq<char>) -> Seq<VisView>
    decreases vs.len(),
{
    if vs.len() == 0 {
        vs
    } else if vs.last().id == id {
        vis_remove(vs.drop_last(), id)
    } else {
        vis_remove(vs.drop_last(), id).push(vs.last())
    }
}

/// The key of a seen line.
pub open spec fn line_key(scene: Seq<char>, op_index: usize) -> Seq<char> {
    scene + seq![':'] + decimal(op_index as nat)
}

/// The story ended with `ending`.
pub open spec fn end_view(s: PlayerView, ending: Option<Seq<char>>) -> PlayerView {
    PlayerView {
        ending: ending,
        wait: StoryWait::Ended,
        events: s.events.push(EventView::Ended(ending)),
        ..s
    }
}

/// Leaving the current control flow for `target`: `scene:label`, a scene,
/// or a label of the current scene; else the story ends (`bad_jump`).
pub open spec fn jump_view(s: PlayerView, target: Seq<char>, p: ProgramIndex) -> PlayerView {
    let s1 = PlayerView { exec_stack: seq![], pending_menu: None, choice_advances_scene: false, ..s };
    let c = first_char(target, ':');
    let sc = target.take(c as int);
    let lb = target.skip(c + 1int);
    let i = key_pos(scene_names(p), sc);
    if c < target.len() && i >= 0 {
        PlayerView {
            scene: sc,
            op_index: match label_index(p, i, lb) {
                Some(x) => x,
                None => 0,
            },
            wait: StoryWait::Ready,
            ..s1
        }
    } else if key_pos(scene_names(p), target) >= 0 {
        PlayerView { scene: target, op_index: 0, wait: StoryWait::Ready, ..s1 }
    } else if key_pos(scene_names(p), s.scene) >= 0 && label_index(
        p,
        key_pos(scene_names(p), s.scene),
        target,
    ) is Some {
        PlayerView {
            op_index: label_index(p, key_pos(scene_names(p), s.scene), target)->0,
            wait: StoryWait::Ready,
            ..s1
        }
    } else {
        end_view(s1, Some("bad_jump"@))
    }
}

/// The menu shown for the first `n` arms (hidden locked arms left out).
pub open spec fn menu_view(arms: Seq<ChoiceArm>, facts: Seq<(bool, String)>, n: int) -> Seq<ChoiceView>
    decreases n,
{
    if n <= 0 {
        seq![]
    } else {
        let before = menu_view(arms, facts, n - 1);
        let arm = arms[n - 1];
        let enabled = match arm.require {
            Some(_) => facts[n - 1].0,
            None => true,
        };
        if !enabled && arm.hidden_if_locked {
            before
        } else {
            before.push(
                ChoiceView { index: (n - 1) as usize, text: facts[n - 1].1@, enabled: enabled, hidden: false },
            )
        }
    }
}

/// Display name of a speaker: the character's name, else the id; empty for
/// narration.
pub open spec fn speaker_name_of(p: ProgramIndex, speaker: Option<Seq<char>>) -> Seq<char> {
    match speaker {
        Some(id) => {
            let j = key_pos(character_ids(p), id);
            if j >= 0 {
                p.characters@[j].1@
            } else {
                id
            }
        },
        None => seq![],
    }
}

/// The value of argument `key`, if it has one (the first such).
pub open spec fn arg_value(args: Seq<(String, StoryValue)>, key: Seq<char>) -> Option<StoryValue> {
    let j = key_pos(Seq::new(args.len(), |k: int| args[k].0@), key);
    if j >= 0 {
        Some(args[j].1)
    } else {
        None
    }
}

/// Variable writes of a host command: its name, the `enemy` argument when
/// it is a string, each argument under `cmd.<name>.<key>`, then the host's
/// outcome.
pub open spec fn host_writes(
    name: Seq<char>,
    args: Seq<(String, StoryValue)>,
    host: HostOutcome,
) -> Seq<(Seq<char>, ValView)> {
    let w1 = seq![("__last_command"@, ValView::Str(name))];
    let w2 = match arg_value(args, "enemy"@) {
        Some(StoryValue::String(e)) => w1.push(("cmd.enemy"@, ValView::Str(e@))),
        _ => w1,
    };
    let w3 = w2 + Seq::new(
        args.len(),
        |k: int| ("cmd."@ + name + seq!['.'] + args[k].0@, val_view(args[k].1)),
    );
    match host {
        HostOutcome::NoHost => w3,
        HostOutcome::Dispatched => w3.push(("__host_dispatched"@, ValView::Str(name))),
        HostOutcome::Failed(m) => w3.push(("__last_host_error"@, ValView::Str(m@))),
    }
}

/// What one op does to the player, and whether the scene cursor moves on by
/// itself afterwards.
pub open spec fn step_view(s: PlayerView, op: StoryOp, f: OpFacts, p: ProgramIndex) -> (PlayerView, bool) {
    match op {
        StoryOp::Nop | StoryOp::Label { .. } => (s, true),
        StoryOp::Background { path } => (
            PlayerView {
                background: Some(path@),
                events: s.events.push(EventView::Background(path@)),
                ..s
            },
            true,
        ),
        StoryOp::Music { path, fade_in } => (
            PlayerView {
                music: Some(path@),
                events: s.events.push(EventView::Music(path@, opt_view(fade_in))),
                ..s
            },
            true,
        ),
        StoryOp::Show { target, at } => {
            let v = VisView {
                id: target_id(target@),
                expression: target_expression(target@),
                at: opt_view(at),
            };
            (
                PlayerView {
                    visible: vis_insert(s.visible, v),
                    events: s.events.push(EventView::Show(v)),
                    ..s
                },
                true,
            )
        },
        StoryOp::Hide { target } => {
            let id = target_id(target@);
            (
                PlayerView {
                    visible: vis_remove(s.visible, id),
                    events: s.events.push(EventView::Hide(id)),
                    ..s
                },
                true,
            )
        },
        StoryOp::Dialogue { speaker, text } => {
            let name = speaker_name_of(p, opt_view(speaker));
            let key = line_key(s.scene, s.op_index);
            (
                PlayerView {
                    speaker_id: opt_view(speaker),
                    speaker_name: name,
                    text: f.line_text@,
                    events: s.events.push(EventView::Dialogue(opt_view(speaker), name, f.line_text@)),
                    seen: if s.seen.contains(key) {
                        s.seen
                    } else {
                        s.seen.push(key)
                    },
                    wait: StoryWait::Line,
                    ..s
                },
                false,
            )
        },
        StoryOp::Choice { options } => {
            let menu = menu_view(options@, f.arms@, options@.len() as int);
            (
                PlayerView {
                    choice_advances_scene: s.exec_stack.len() == 0,
                    pending_menu: Some(options),
                    choices: menu,
                    events: s.events.push(EventView::Choices(menu)),
                    wait: StoryWait::Choice,
                    ..s
                },
                false,
            )
        },
        StoryOp::Jump { target } => (jump_view(s, target@, p), false),
        StoryOp::Call { target } => {
            let ret = if s.exec_stack.len() == 0 {
                (s.op_index + 1) as usize
            } else {
                s.op_index
            };
            let s1 = PlayerView {
                call_stack: s.call_stack.push((s.scene, ret)),
                conts: s.conts.push((s.scene, ret, s.exec_stack)),
                ..s
            };
            (jump_view(s1, target@, p), false)
        },
        StoryOp::Assign { name } => (
            PlayerView { events: s.events.push(EventView::Variable(name@, val_view(f.value))), ..s },
            true,
        ),
        StoryOp::If { then_ops, else_ops } => {
            let body = if f.cond {
                then_ops
            } else {
                else_ops
            };
            (
                if body@.len() > 0 {
                    PlayerView { exec_stack: s.exec_stack.push(ExecFrame { ops: body, index: 0 }), ..s }
                } else {
                    s
                },
                true,
            )
        },
        StoryOp::End { ending } => (end_view(s, opt_view(ending)), false),
        StoryOp::HostCall { name, args } => (
            PlayerView {
                writes: s.writes + host_writes(name@, args@, f.host),
                host_error: match f.host {
                    HostOutcome::Failed(m) => Some(m@),
                    _ => None,
                },
                events: s.events.push(EventView::HostCall(name@, pairs_view(args@))).push(
                    EventView::Variable("__last_command"@, ValView::Str(name@)),
                ),
                ..s
            },
            true,
        ),
        StoryOp::Sound { path } => (
            PlayerView {
                writes: s.writes.push(("__last_sfx"@, ValView::Str(path@))),
                events: s.events.push(EventView::Sound(path@)),
                ..s
            },
            true,
        ),
        StoryOp::Pause { seconds } => (
            PlayerView {
                writes: s.writes.push(
                    (
                        "__last_pause"@,
                        ValView::Float(
                            match seconds {
                                Some(t) => t@,
                                None => "0"@,
                            },
                        ),
                    ),
                ),
                events: s.events.push(EventView::Pause(opt_view(seconds))),
                ..s
            },
            true,
        ),
        StoryOp::Transition { name } => (
            PlayerView {
                writes: s.writes.push(("__last_transition"@, ValView::Str(name@))),
                events: s.events.push(EventView::Transition(name@)),
                ..s
            },
            true,
        ),
        StoryOp::Return => {
            if s.conts.len() > 0 {
                let c = s.conts.last();
                (
                    PlayerView {
                        conts: s.conts.drop_last(),
                        call_stack: if s.call_stack.len() > 0 {
                            s.call_stack.drop_last()
                        } else {
                            s.call_stack
                        },
                        scene: c.0,
                        op_index: c.1,
                        exec_stack: c.2,
                        wait: StoryWait::Ready,
                        ..s
                    },
                    false,
                )
            } else if s.call_stack.len() > 0 {
                let c = s.call_stack.last();
                (
                    PlayerView {
                        call_stack: s.call_stack.drop_last(),
                        scene: c.0,
                        op_index: c.1,
                        exec_stack: seq![],
                        wait: StoryWait::Ready,
                        ..s
                    },
                    false,
                )
            } else {
                (end_view(s, None), false)
            }
        },
    }
}

/// A copy of an optional string.
fn copy_opt(o: &Option<String>) -> (r: Option<String>)
    ensures
        opt_view(r) == opt_view(*o),
{
    match o {
        Some(s) => Some(owned(s.as_str())),
        None => None,
    }
}

/// A copy of a value.
fn copy_value(v: &StoryValue) -> (r: StoryValue)
    ensures
        val_view(r) == val_view(*v),
{
    match v {
        StoryValue::Null => StoryValue::Null,
        StoryValue::Bool(b) => StoryValue::Bool(*b),
        StoryValue::Int(i) => StoryValue::Int(*i),
        StoryValue::Float(t) => StoryValue::Float(owned(t.as_str())),
        StoryValue::String(s) => StoryValue::String(owned(s.as_str())),
    }
}

/// Position of scene `name` (see [`key_pos`]).
fn find_scene(p: &ProgramIndex, name: &str) -> (r: Option<usize>)
    ensures
        match r {
            Some(i) => key_pos(scene_names(*p), name@) == i,
            None => key_pos(scene_names(*p), name@) < 0,
        },
{
    let ghost keys = scene_names(*p);
    let mut found: Option<usize> = None;
    let mut i: usize = 0;
    while i < p.scenes.len()
        invariant
            i <= p.scenes@.len(),
            keys == scene_names(*p),
            match found {
                Some(j) => key_pos(keys.take(i as int), name@) == j,
                None => key_pos(keys.take(i as int), name@) < 0,
            },
        decreases p.scenes@.len() - i,
    {
        assert(keys.take(i + 1).drop_last() =~= keys.take(i as int));
        if found.is_none() && str_eq(p.scenes[i].name.as_str(), name) {
            found = Some(i);
        }
        i += 1;
    }
    assert(keys.take(i as int) =~= keys);
    found
}

/// Position of label `label` in a scene (see [`key_pos`]).
fn find_label(sc: &StoryScene, label: &str) -> (r: Option<usize>)
    ensures
        match r {
            Some(i) => key_pos(label_names(*sc), label@) == i,
            None => key_pos(label_names(*sc), label@) < 0,
        },
{
    let ghost keys = label_names(*sc);
    let mut found: Option<usize> = None;
    let mut i: usize = 0;
    while i < sc.labels.len()
        invariant
            i <= sc.labels@.len(),
            keys == label_names(*sc),
            match found {
                Some(j) => key_pos(keys.take(i as int), label@) == j,
                None => key_pos(keys.take(i as int), label@) < 0,
            },
        decreases sc.labels@.len() - i,
    {
        assert(keys.take(i + 1).drop_last() =~= keys.take(i as int));
        if found.is_none() && str_eq(sc.labels[i].0.as_str(), label) {
            found = Some(i);
        }
        i += 1;
    }
    assert(keys.take(i as int) =~= keys);
    found
}

/// Op index of a label of scene number `i` (see [`label_index`]).
fn label_at(p: &ProgramIndex, i: usize, label: &str) -> (r: Option<usize>)
    requires
        i < p.scenes@.len(),
    ensures
        r == label_index(*p, i as int, label@),
{
    proof {
        lemma_key_pos(label_names(p.scenes@[i as int]), label@);
    }
    match find_label(&p.scenes[i], label) {
        Some(j) => Some(p.scenes[i].labels[j].1),
        None => None,
    }
}

/// Display name of a speaker (see [`speaker_name_of`]).
fn speaker_name(p: &ProgramIndex, speaker: &Option<String>) -> (r: String)
    ensures
        r@ == speaker_name_of(*p, opt_view(*speaker)),
{
    match speaker {
        None => String::new(),
        Some(id) => {
            let ghost keys = character_ids(*p);
            let mut found: Option<usize> = None;
            let mut i: usize = 0;
            while i < p.characters.len()
                invariant
                    i <= p.characters@.len(),
                    keys == character_ids(*p),
                    match found {
                        Some(j) => key_pos(keys.take(i as int), id@) == j,
                        None => key_pos(keys.take(i as int), id@) < 0,
                    },
                decreases p.characters@.len() - i,
            {
                assert(keys.take(i + 1).drop_last() =~= keys.take(i as int));
                if found.is_none() && str_eq(p.characters[i].0.as_str(), id.as_str()) {
                    found = Some(i);
                }
                i += 1;
            }
            assert(keys.take(i as int) =~= keys);
            proof {
                lemma_key_pos(keys, id@);
            }
            match found {
                Some(j) => owned(p.characters[j].1.as_str()),
                None => owned(id.as_str()),
            }
        },
    }
}

impl PlayerState {
    /// Appends an event.
    fn push_event(&mut self, e: StoryEvent)
        ensures
            final(self)@ == (PlayerView { events: old(self)@.events.push(event_view(e)), ..old(self)@ }),
    {
        let ghost before = self@;
        let ghost ev = event_view(e);
        self.events.push(e);
        assert(self@.events =~= before.events.push(ev));
    }

    /// Appends a variable write.
    fn push_write(&mut self, name: &str, v: StoryValue)
        ensures
            final(self)@ == (PlayerView {
                writes: old(self)@.writes.push((name@, val_view(v))),
                ..old(self)@
            }),
    {
        let ghost before = self@;
        let ghost vv = val_view(v);
        self.writes.push((owned(name), v));
        assert(self@.writes =~= before.writes.push((name@, vv)));
    }

    /// The story ends with `ending` (see [`end_view`]).
    fn end_story(&mut self, ending: Option<String>)
        ensures
            final(self)@ == end_view(old(self)@, opt_view(ending)),
    {
        self.ending = copy_opt(&ending);
        self.wait = StoryWait::Ended;
        self.push_event(StoryEvent::Ended { ending });
    }

    /// Leaves the current control flow for `target` (see [`jump_view`]).
    fn jump_to(&mut self, target: &str, p: &ProgramIndex)
        ensures
            final(self)@ == jump_view(old(self)@, target@, *p),
    {
        let ghost s0 = self@;
        self.exec_stack = Vec::new();
        self.pending_menu = None;
        self.choice_advances_scene = false;
        assert(self@.exec_stack =~= Seq::<ExecFrame>::empty());
        let ghost s1 = self@;
        assert(s1 == (PlayerView { exec_stack: seq![], pending_menu: None, choice_advances_scene: false, ..s0 }));
        let tv = chars_of(target);
        let c = find_char(tv.as_slice(), ':');
        proof {
            lemma_first_char(target@, ':');
        }
        if c < tv.len() {
            let sc = string_of(slice_range(tv.as_slice(), 0, c).as_slice());
            let lb = string_of(slice_range(tv.as_slice(), c + 1, tv.len()).as_slice());
            assert(sc@ =~= target@.take(c as int));
            assert(lb@ =~= target@.skip(c + 1int));
            match find_scene(p, sc.as_str()) {
                Some(i) => {
                    proof {
                        lemma_key_pos(scene_names(*p), sc@);
                    }
                    let idx = match label_at(p, i, lb.as_str()) {
                        Some(x) => x,
                        None => 0,
                    };
                    self.scene = sc;
                    self.op_index = idx;
                    self.wait = StoryWait::Ready;
                    return;
                },
                None => {},
            }
        }
        match find_scene(p, target) {
            Some(_) => {
                self.scene = owned(target);
                self.op_index = 0;
                self.wait = StoryWait::Ready;
                return;
            },
            None => {},
        }
        match find_scene(p, self.scene.as_str()) {
            Some(i) => {
                proof {
                    lemma_key_pos(scene_names(*p), s0.scene);
                }
                match label_at(p, i, target) {
                    Some(x) => {
                        self.op_index = x;
                        self.wait = StoryWait::Ready;
                        return;
                    },
                    None => {},
                }
            },
            None => {},
        }
        self.end_story(Some(owned("bad_jump")));
    }
}

/// A copy of a visible character.
fn copy_vis(v: &VisibleCharacter) -> (r: VisibleCharacter)
    ensures
        vis_view(r) == vis_view(*v),
{
    VisibleCharacter { id: owned(v.id.as_str()), expression: copy_opt(&v.expression), at: copy_opt(&v.at) }
}

/// A copy of shown choices.
fn copy_choices(cs: &Vec<ChoiceOption>) -> (r: Vec<ChoiceOption>)
    ensures
        choices_view(r@) == choices_view(cs@),
{
    let mut r: Vec<ChoiceOption> = Vec::new();
    let mut i: usize = 0;
    while i < cs.len()
        invariant
            i <= cs@.len(),
            choices_view(r@) =~= choices_view(cs@.take(i as int)),
        decreases cs@.len() - i,
    {
        let c = &cs[i];
        let ghost r0 = choices_view(r@);
        let n = ChoiceOption { index: c.index, text: owned(c.text.as_str()), enabled: c.enabled, hidden: c.hidden };
        assert(choice_view(n) == choice_view(cs@[i as int]));
        r.push(n);
        assert(choices_view(r@) =~= r0.push(choice_view(cs@[i as int])));
        assert(choices_view(cs@.take(i + 1)) =~= choices_view(cs@.take(i as int)).push(choice_view(cs@[i as int])));
        i += 1;
    }
    assert(cs@.take(i as int) =~= cs@);
    r
}

impl PlayerState {
    /// Shows a character (see [`vis_insert`]).
    fn show_character(&mut self, v: VisibleCharacter)
        ensures
            final(self)@ == (PlayerView { visible: vis_insert(old(self)@.visible, vis_view(v)), ..old(self)@ }),
    {
        let ghost before = self@;
        let ghost keys = vis_ids(before.visible);
        let mut found: Option<usize> = None;
        let mut i: usize = 0;
        while i < self.visible.len()
            invariant
                i <= self.visible@.len(),
                self@ == before,
                keys == vis_ids(before.visible),
                match found {
                    Some(j) => key_pos(keys.take(i as int), v.id@) == j,
                    None => key_pos(keys.take(i as int), v.id@) < 0,
                },
            decreases self.visible@.len() - i,
        {
            assert(keys.take(i + 1).drop_last() =~= keys.take(i as int));
            if found.is_none() && str_eq(self.visible[i].id.as_str(), v.id.as_str()) {
                found = Some(i);
            }
            i += 1;
        }
        assert(keys.take(i as int) =~= keys);
        proof {
            lemma_key_pos(keys, v.id@);
        }
        let ghost vv = vis_view(v);
        match found {
            Some(j) => {
                self.visible.set(j, v);
                assert(self@.visible =~= before.visible.update(j as int, vv));
            },
            None => {
                self.visible.push(v);
                assert(self@.visible =~= before.visible.push(vv));
            },
        }
    }

    /// Hides the characters with id `id` (see [`vis_remove`]).
    fn hide_character(&mut self, id: &str)
        ensures
            final(self)@ == (PlayerView { visible: vis_remove(old(self)@.visible, id@), ..old(self)@ }),
    {
        let ghost before = self@;
        let mut kept: Vec<VisibleCharacter> = Vec::new();
        let mut old_vis: Vec<VisibleCharacter> = Vec::new();
        std::mem::swap(&mut old_vis, &mut self.visible);
        let ghost all = Seq::new(old_vis@.len(), |k: int| vis_view(old_vis@[k]));
        assert(all =~= before.visible);
        let mut i: usize = 0;
        while i < old_vis.len()
            invariant
                i <= old_vis@.len(),
                all == Seq::new(old_vis@.len(), |k: int| vis_view(old_vis@[k])),
                Seq::new(kept@.len(), |k: int| vis_view(kept@[k])) == vis_remove(all.take(i as int), id@),
            decreases old_vis@.len() - i,
        {
            assert(all.take(i + 1).drop_last() =~= all.take(i as int));
            let ghost k0 = Seq::new(kept@.len(), |k: int| vis_view(kept@[k]));
            if !str_eq(old_vis[i].id.as_str(), id) {
                let c = copy_vis(&old_vis[i]);
                kept.push(c);
                assert(Seq::new(kept@.len(), |k: int| vis_view(kept@[k])) =~= k0.push(all[i as int]));
            }
            i += 1;
        }
        assert(all.take(i as int) =~= all);
        self.visible = kept;
    }

    /// Records a seen line key (see [`line_key`]), once.
    fn mark_seen(&mut self)
        ensures
            final(self)@ == (PlayerView {
                seen: if old(self)@.seen.contains(line_key(old(self)@.scene, old(self)@.op_index)) {
                    old(self)@.seen
                } else {
                    old(self)@.seen.push(line_key(old(self)@.scene, old(self)@.op_index))
                },
                ..old(self)@
            }),
    {
        let ghost before = self@;
        let mut key = owned(self.scene.as_str());
        push_char(&mut key, ':');
        push_decimal(&mut key, self.op_index);
        assert(key@ =~= line_key(before.scene, before.op_index));
        let mut found = false;
        let mut i: usize = 0;
        while i < self.seen_lines.len()
            invariant
                i <= self.seen_lines@.len(),
                self@ == before,
                found <==> exists|j: int| 0 <= j < i && #[trigger] before.seen[j] == key@,
            decreases self.seen_lines@.len() - i,
        {
            if str_eq(self.seen_lines[i].as_str(), key.as_str()) {
                found = true;
                assert(before.seen[i as int] == key@);
            }
            i += 1;
        }
        if found {
            let ghost j = choose|j: int| 0 <= j < i && #[trigger] before.seen[j] == key@;
            assert(before.seen[j] == key@);
        } else {
            assert forall|j: int| 0 <= j < before.seen.len() implies before.seen[j] != key@ by {}
            assert(!before.seen.contains(key@));
            let ghost kv = key@;
            self.seen_lines.push(key);
            assert(self@.seen =~= before.seen.push(kv));
        }
    }
}

/// The shown menu of a choice (see [`menu_view`]).
fn build_menu(options: &Vec<ChoiceArm>, arms: &Vec<(bool, String)>) -> (r: Vec<ChoiceOption>)
    requires
        arms@.len() == options@.len(),
    ensures
        choices_view(r@) == menu_view(options@, arms@, options@.len() as int),
{
    let mut r: Vec<ChoiceOption> = Vec::new();
    let mut i: usize = 0;
    assert(choices_view(r@) =~= menu_view(options@, arms@, 0));
    while i < options.len()
        invariant
            i <= options@.len(),
            arms@.len() == options@.len(),
            choices_view(r@) == menu_view(options@, arms@, i as int),
        decreases options@.len() - i,
    {
        let arm = &options[i];
        let enabled = match &arm.require {
            Some(_) => arms[i].0,
            None => true,
        };
        let ghost r0 = choices_view(r@);
        if !(!enabled && arm.hidden_if_locked) {
            let c = ChoiceOption { index: i, text: owned(arms[i].1.as_str()), enabled, hidden: false };
            let ghost cv = choice_view(c);
            r.push(c);
            assert(choices_view(r@) =~= r0.push(cv));
        }
        i += 1;
    }
    r
}

/// Variable writes of a host command (see [`host_writes`]), added to `st`.
fn push_host_writes(st: &mut PlayerState, name: &str, args: &Vec<(String, StoryValue)>, host: &HostOutcome)
    ensures
        final(st)@ == (PlayerView {
            writes: old(st)@.writes + host_writes(name@, args@, *host),
            ..old(st)@
        }),
{
    let ghost before = st@;
    st.push_write("__last_command", StoryValue::String(owned(name)));
    let ghost keys = Seq::new(args@.len(), |k: int| args@[k].0@);
    let mut found: Option<usize> = None;
    let mut i: usize = 0;
    while i < args.len()
        invariant
            i <= args@.len(),
            keys == Seq::new(args@.len(), |k: int| args@[k].0@),
            match found {
                Some(j) => key_pos(keys.take(i as int), "enemy"@) == j,
                None => key_pos(keys.take(i as int), "enemy"@) < 0,
            },
        decreases args@.len() - i,
    {
        assert(keys.take(i + 1).drop_last() =~= keys.take(i as int));
        if found.is_none() && str_eq(args[i].0.as_str(), "enemy") {
            found = Some(i);
        }
        i += 1;
    }
    assert(keys.take(i as int) =~= keys);
    proof {
        lemma_key_pos(keys, "enemy"@);
    }
    match found {
        Some(j) => match &args[j].1 {
            StoryValue::String(e) => {
                st.push_write("cmd.enemy", StoryValue::String(owned(e.as_str())));
            },
            _ => {},
        },
        None => {},
    }
    let ghost w2 = st@.writes;
    let ghost tail = Seq::new(
        args@.len(),
        |k: int| ("cmd."@ + name@ + seq!['.'] + args@[k].0@, val_view(args@[k].1)),
    );
    let mut q: usize = 0;
    while q < args.len()
        invariant
            q <= args@.len(),
            tail == Seq::new(
                args@.len(),
                |k: int| ("cmd."@ + name@ + seq!['.'] + args@[k].0@, val_view(args@[k].1)),
            ),
            st@ == (PlayerView { writes: w2 + tail.take(q as int), ..before }),
        decreases args@.len() - q,
    {
        let mut key = owned("cmd.");
        crate::strings::push_str(&mut key, name);
        push_char(&mut key, '.');
        crate::strings::push_str(&mut key, args[q].0.as_str());
        let v = copy_value(&args[q].1);
        assert(key@ =~= "cmd."@ + name@ + seq!['.'] + args@[q as int].0@);
        assert(tail[q as int] == (key@, val_view(v)));
        st.push_write(key.as_str(), v);
        q += 1;
        assert(w2 + tail.take(q as int) =~= (w2 + tail.take(q - 1int)).push(tail[q - 1int]));
    }
    assert(tail.take(q as int) =~= tail);
    match host {
        HostOutcome::NoHost => {},
        HostOutcome::Dispatched => {
            st.push_write("__host_dispatched", StoryValue::String(owned(name)));
        },
        HostOutcome::Failed(m) => {
            st.push_write("__last_host_error", StoryValue::String(owned(m.as_str())));
        },
    }
    assert(st@.writes =~= before.writes + host_writes(name@, args@, *host));
}

/// Runs one story op on the player (see [`step_view`]); the result says
/// whether the scene cursor moves on by itself.
pub fn exec_op(state: &mut PlayerState, op: StoryOp, facts: OpFacts, program: &ProgramIndex) -> (advance: bool)
    requires
        op matches StoryOp::Choice { options } ==> facts.arms@.len() == options@.len(),
        op is Call && old(state).exec_stack@.len() == 0 ==> old(state).op_index < usize::MAX,
    ensures
        final(state)@ == step_view(old(state)@, op, facts, *program).0,
        advance == step_view(old(state)@, op, facts, *program).1,
{
    let ghost s0 = state@;
    match op {
        StoryOp::Nop => true,
        StoryOp::Label { .. } => true,
        StoryOp::Background { path } => {
            state.background = Some(owned(path.as_str()));
            state.push_event(StoryEvent::Background(path));
            true
        },
        StoryOp::Music { path, fade_in } => {
            state.music = Some(owned(path.as_str()));
            state.push_event(StoryEvent::Music { path, fade_in });
            true
        },
        StoryOp::Show { target, at } => {
            let (id, expression) = split_target(target.as_str());
            let vis = VisibleCharacter { id, expression, at };
            let shown = copy_vis(&vis);
            state.show_character(vis);
            state.push_event(StoryEvent::Show(shown));
            true
        },
        StoryOp::Hide { target } => {
            let (id, _) = split_target(target.as_str());
            state.hide_character(id.as_str());
            state.push_event(StoryEvent::Hide(id));
            true
        },
        StoryOp::Dialogue { speaker, text } => {
            let name = speaker_name(program, &speaker);
            state.current_speaker_id = copy_opt(&speaker);
            state.current_speaker_name = owned(name.as_str());
            state.current_text = owned(facts.line_text.as_str());
            state.push_event(StoryEvent::Dialogue { speaker, speaker_name: name, text: facts.line_text });
            state.mark_seen();
            state.wait = StoryWait::Line;
            false
        },
        StoryOp::Choice { options } => {
            let menu = build_menu(&options, &facts.arms);
            let shown = copy_choices(&menu);
            state.choice_advances_scene = state.exec_stack.len() == 0;
            state.pending_menu = Some(options);
            state.choices = menu;
            state.push_event(StoryEvent::Choices(shown));
            state.wait = StoryWait::Choice;
            false
        },
        StoryOp::Jump { target } => {
            state.jump_to(target.as_str(), program);
            false
        },
        StoryOp::Call { target } => {
            let ret = if state.exec_stack.len() == 0 {
                state.op_index + 1
            } else {
                state.op_index
            };
            let ghost cs0 = state@.call_stack;
            let ghost k0 = state@.conts;
            state.call_stack.push((owned(state.scene.as_str()), ret));
            assert(state@.call_stack =~= cs0.push((s0.scene, ret)));
            let mut frames: Vec<ExecFrame> = Vec::new();
            std::mem::swap(&mut frames, &mut state.exec_stack);
            let ghost fr = frames@;
            state.call_continuations.push(
                CallContinuation { scene: owned(state.scene.as_str()), op_index: ret, exec_stack: frames },
            );
            assert(state@.conts =~= k0.push((s0.scene, ret, fr)));
            state.jump_to(target.as_str(), program);
            false
        },
        StoryOp::Assign { name } => {
            state.push_event(StoryEvent::Variable { name, value: facts.value });
            true
        },
        StoryOp::If { then_ops, else_ops } => {
            let body = if facts.cond {
                then_ops
            } else {
                else_ops
            };
            if body.len() > 0 {
                let ghost e0 = state@.exec_stack;
                let frame = ExecFrame { ops: body, index: 0 };
                let ghost fv = frame;
                state.exec_stack.push(frame);
                assert(state@.exec_stack =~= e0.push(fv));
            }
            true
        },
        StoryOp::End { ending } => {
            state.end_story(ending);
            false
        },
        StoryOp::HostCall { name, args } => {
            push_host_writes(state, name.as_str(), &args, &facts.host);
            state.last_host_error = match &facts.host {
                HostOutcome::Failed(m) => Some(owned(m.as_str())),
                _ => None,
            };
            let cmd = owned(name.as_str());
            state.push_event(StoryEvent::HostCall { name, args });
            state.push_event(StoryEvent::Variable { name: owned("__last_command"), value: StoryValue::String(cmd) });
            true
        },
        StoryOp::Sound { path } => {
            state.push_write("__last_sfx", StoryValue::String(owned(path.as_str())));
            state.push_event(StoryEvent::Sound { path });
            true
        },
        StoryOp::Pause { seconds } => {
            let t = match &seconds {
                Some(x) => owned(x.as_str()),
                None => owned("0"),
            };
            state.push_write("__last_pause", StoryValue::Float(t));
            state.push_event(StoryEvent::Pause { seconds });
            true
        },
        StoryOp::Transition { name } => {
            state.push_write("__last_transition", StoryValue::String(owned(name.as_str())));
            state.push_event(StoryEvent::Transition { name });
            true
        },
        StoryOp::Return => {
            let ghost k0 = state@.conts;
            let ghost cs0 = state@.call_stack;
            match state.call_continuations.pop() {
                Some(cont) => {
                    assert(state@.conts =~= k0.drop_last());
                    assert(k0.last() == (cont.scene@, cont.op_index, cont.exec_stack@));
                    if state.call_stack.len() > 0 {
                        state.call_stack.pop();
                        assert(state@.call_stack =~= cs0.drop_last());
                    }
                    state.scene = cont.scene;
                    state.op_index = cont.op_index;
                    state.exec_stack = cont.exec_stack;
                    state.wait = StoryWait::Ready;
                    false
                },
                None => match state.call_stack.pop() {
                    Some((scene, idx)) => {
                        assert(state@.call_stack =~= cs0.drop_last());
                        assert(cs0.last() == (scene@, idx));
                        state.scene = scene;
                        state.op_index = idx;
                        state.exec_stack = Vec::new();
                        assert(state@.exec_stack =~= Seq::<ExecFrame>::empty());
                        state.wait = StoryWait::Ready;
                        false
                    },
                    None => {
                        state.end_story(None);
                        false
                    },
                },
            }
        },
    }
}

/// The label index built from ops: each `label` op's name with its
/// position; a name seen again keeps its place and takes the later position.
pub open spec fn labels_of(ops: Seq<StoryOp>) -> Seq<(Seq<char>, usize)>
    decreases ops.len(),
{
    if ops.len() == 0 {
        seq![]
    } else {
        let prev = labels_of(ops.drop_last());
        match ops.last() {
            StoryOp::Label { name } => {
                let j = key_pos(Seq::new(prev.len(), |k: int| prev[k].0), name@);
                if j >= 0 {
                    prev.update(j, (name@, (ops.len() - 1) as usize))
                } else {
                    prev.push((name@, (ops.len() - 1) as usize))
                }
            },
            _ => prev,
        }
    }
}

/// Plain values of a label list.
pub open spec fn labels_view(ls: Seq<(String, usize)>) -> Seq<(Seq<char>, usize)> {
    Seq::new(ls.len(), |k: int| (ls[k].0@, ls[k].1))
}

impl StoryScene {
    /// Rebuilds the label index from the ops (see [`labels_of`]).
    pub fn reindex_labels(&mut self)
        ensures
            labels_view(final(self).labels@) == labels_of(final(self).ops@),
            final(self).ops@ == old(self).ops@,
            final(self).name@ == old(self).name@,
    {
        let mut labels: Vec<(String, usize)> = Vec::new();
        let mut i: usize = 0;
        assert(labels_view(labels@) =~= labels_of(self.ops@.take(0)));
        while i < self.ops.len()
            invariant
                i <= self.ops@.len(),
                labels_view(labels@) == labels_of(self.ops@.take(i as int)),
            decreases self.ops@.len() - i,
        {
            assert(self.ops@.take(i + 1).drop_last() =~= self.ops@.take(i as int));
            assert(self.ops@.take(i + 1).last() == self.ops@[i as int]);
            match &self.ops[i] {
                StoryOp::Label { name } => {
                    let ghost prev = labels_view(labels@);
                    let ghost keys = Seq::new(prev.len(), |k: int| prev[k].0);
                    let mut found: Option<usize> = None;
                    let mut q: usize = 0;
                    while q < labels.len()
                        invariant
                            q <= labels@.len(),
                            prev == labels_view(labels@),
                            keys == Seq::new(prev.len(), |k: int| prev[k].0),
                            match found {
                                Some(j) => key_pos(keys.take(q as int), name@) == j,
                                None => key_pos(keys.take(q as int), name@) < 0,
                            },
                        decreases labels@.len() - q,
                    {
                        assert(keys.take(q + 1).drop_last() =~= keys.take(q as int));
                        if found.is_none() && str_eq(labels[q].0.as_str(), name.as_str()) {
                            found = Some(q);
                        }
                        q += 1;
                    }
                    assert(keys.take(q as int) =~= keys);
                    proof {
                        lemma_key_pos(keys, name@);
                    }
                    match found {
                        Some(j) => {
                            labels.set(j, (owned(name.as_str()), i));
                            assert(labels_view(labels@) =~= prev.update(j as int, (name@, i)));
                        },
                        None => {
                            labels.push((owned(name.as_str()), i));
                            assert(labels_view(labels@) =~= prev.push((name@, i)));
                        },
                    }
                },
                _ => {},
            }
            i += 1;
        }
        assert(self.ops@.take(i as int) =~= self.ops@);
        self.labels = labels;
    }
}

/// The ids of visible characters are distinct.
pub open spec fn distinct_ids(vs: Seq<VisView>) -> bool {
    forall|i: int, j: int| 0 <= i < j < vs.len() ==> vs[i].id != vs[j].id
}

/// `v` is one of `vs`.
pub open spec fn has_member(vs: Seq<VisView>, v: VisView) -> bool {
    exists|j: int| 0 <= j < vs.len() && vs[j] == v
}

/// Every character left by [`vis_remove`] was there before, and none has
/// the removed id.
pub proof fn lemma_vis_remove_members(vs: Seq<VisView>, id: Seq<char>)
    ensures
        forall|k: int|
            0 <= k < vis_remove(vs, id).len() ==> vis_remove(vs, id)[k].id != id && has_member(
                vs,
                #[trigger] vis_remove(vs, id)[k],
            ),
    decreases vs.len(),
{
    if vs.len() > 0 {
        let d = vs.drop_last();
        lemma_vis_remove_members(d, id);
        let r = vis_remove(vs, id);
        let r0 = vis_remove(d, id);
        assert forall|k: int| 0 <= k < r.len() implies r[k].id != id && has_member(vs, #[trigger] r[k]) by {
            if k < r0.len() {
                assert(r[k] == r0[k]);
                assert(r0[k].id != id && has_member(d, r0[k]));
                let j = choose|j: int| 0 <= j < d.len() && d[j] == r0[k];
                assert(vs[j] == r[k]);
            } else {
                assert(vs[vs.len() - 1] == r[k]);
            }
        }
    }
}

/// [`vis_remove`] keeps ids distinct.
pub proof fn lemma_vis_remove_distinct(vs: Seq<VisView>, id: Seq<char>)
    requires
        distinct_ids(vs),
    ensures
        distinct_ids(vis_remove(vs, id)),
    decreases vs.len(),
{
    if vs.len() > 0 {
        let d = vs.drop_last();
        assert(distinct_ids(d));
        lemma_vis_remove_distinct(d, id);
        lemma_vis_remove_members(d, id);
        let r0 = vis_remove(d, id);
        if vs.last().id != id {
            let r = r0.push(vs.last());
            assert forall|i: int, j: int| 0 <= i < j < r.len() implies r[i].id != r[j].id by {
                if j == r.len() - 1 {
                    assert(r[i] == r0[i]);
                    assert(has_member(d, r0[i]));
                    let m = choose|m: int| 0 <= m < d.len() && d[m] == r0[i];
                    assert(vs[m] == r0[i]);
                    assert(vs[vs.len() - 1] == vs.last());
                } else {
                    assert(r[i] == r0[i] && r[j] == r0[j]);
                }
            }
        }
    }
}

/// What one op does keeps the visible characters' ids distinct.
pub proof fn lemma_step_keeps_ids_distinct(s: PlayerView, op: StoryOp, f: OpFacts, p: ProgramIndex)
    requires
        distinct_ids(s.visible),
    ensures
        distinct_ids(step_view(s, op, f, p).0.visible),
{
    match op {
        StoryOp::Show { target, at } => {
            let v = VisView { id: target_id(target@), expression: target_expression(target@), at: opt_view(at) };
            lemma_key_pos(vis_ids(s.visible), v.id);
            let r = vis_insert(s.visible, v);
            let j = key_pos(vis_ids(s.visible), v.id);
            assert forall|a: int, b: int| 0 <= a < b < r.len() implies r[a].id != r[b].id by {
                if j < 0 {
                    if b == s.visible.len() {
                        assert(vis_ids(s.visible)[a] == s.visible[a].id);
                    }
                } else {
                    if a == j {
                        assert(vis_ids(s.visible)[j] == s.visible[j].id);
                    } else if b == j {
                        assert(vis_ids(s.visible)[j] == s.visible[j].id);
                    }
                }
            }
        },
        StoryOp::Hide { target } => {
            lemma_vis_remove_distinct(s.visible, target_id(target@));
        },
        StoryOp::Jump { target } => {},
        StoryOp::Call { target } => {},
        _ => {},
    }
}

/// The seen line keys stay distinct: a line already seen is not recorded
/// again.
pub proof fn lemma_step_keeps_seen_distinct(s: PlayerView, op: StoryOp, f: OpFacts, p: ProgramIndex)
    requires
        forall|i: int, j: int| 0 <= i < j < s.seen.len() ==> s.seen[i] != s.seen[j],
    ensures
        ({
            let t = step_view(s, op, f, p).0.seen;
            forall|i: int, j: int| 0 <= i < j < t.len() ==> t[i] != t[j]
        }),
{
    match op {
        StoryOp::Dialogue { speaker, text } => {
            let key = line_key(s.scene, s.op_index);
            if !s.seen.contains(key) {
                let t = s.seen.push(key);
                assert forall|i: int, j: int| 0 <= i < j < t.len() implies t[i] != t[j] by {
                    if j == s.seen.len() {
                        assert(s.seen[i] == t[i]);
                    }
                }
            }
        },
        _ => {},
    }
}

/// A `call` followed by a `return` resumes the caller: same scene, the
/// return index (past the call at scene level, the same index inside a
/// nested block), the same nested blocks, and the call stacks as before.
pub proof fn lemma_call_then_return(
    s: PlayerView,
    target: String,
    f: OpFacts,
    g: OpFacts,
    p: ProgramIndex,
)
    requires
        s.exec_stack.len() == 0 ==> s.op_index < usize::MAX,
    ensures
        ({
            let s1 = step_view(s, StoryOp::Call { target }, f, p).0;
            let s2 = step_view(s1, StoryOp::Return, g, p).0;
            &&& s2.scene == s.scene
            &&& s2.op_index == (if s.exec_stack.len() == 0 {
                s.op_index + 1
            } else {
                s.op_index as int
            })
            &&& s2.exec_stack == s.exec_stack
            &&& s2.conts == s.conts
            &&& s2.call_stack == s.call_stack
            &&& s2.wait == StoryWait::Ready
        }),
{
    let ret = if s.exec_stack.len() == 0 {
        (s.op_index + 1) as usize
    } else {
        s.op_index
    };
    let s1a = PlayerView {
        call_stack: s.call_stack.push((s.scene, ret)),
        conts: s.conts.push((s.scene, ret, s.exec_stack)),
        ..s
    };
    let s1 = jump_view(s1a, target@, p);
    assert(s1.conts == s1a.conts && s1.call_stack == s1a.call_stack);
    assert(s1.conts.drop_last() =~= s.conts);
    assert(s1.call_stack.drop_last() =~= s.call_stack);
}

/// The text an optional string holds, if any.
pub open spec fn text_of(o: Option<String>) -> Option<Seq<char>> {
    match o {
        Some(x) => Some(x@),
        None => None,
    }
}

/// `end`: the story ends with the op's ending id, which is also the one the
/// `Ended` event carries; the cursor, scene and characters stay; the cursor
/// does not move on.
pub proof fn lemma_step_end(s: PlayerView, ending: Option<String>, f: OpFacts, p: ProgramIndex)
    ensures
        ({
            let (t, adv) = step_view(s, StoryOp::End { ending }, f, p);
            &&& t.ending == text_of(ending)
            &&& t.wait == StoryWait::Ended
            &&& t.events == s.events.push(EventView::Ended(text_of(ending)))
            &&& !adv
            &&& t.scene == s.scene && t.op_index == s.op_index && t.visible == s.visible
            &&& t.exec_stack == s.exec_stack && t.conts == s.conts
        }),
{
}

/// Events are only ever added: what was queued stays, in order.
pub proof fn lemma_step_keeps_events(s: PlayerView, op: StoryOp, f: OpFacts, p: ProgramIndex)
    ensures
        ({
            let t = step_view(s, op, f, p).0;
            &&& t.events.len() >= s.events.len()
            &&& forall|i: int| 0 <= i < s.events.len() ==> t.events[i] == s.events[i]
        }),
{
}

/// Background, music, sound, transition, pause and assignment ops: each
/// sets what it names and queues its one event, and the cursor moves on.
pub proof fn lemma_step_presentation(s: PlayerView, op: StoryOp, f: OpFacts, p: ProgramIndex)
    ensures
        ({
            let (t, adv) = step_view(s, op, f, p);
            &&& op matches StoryOp::Background { path } ==> t.background == Some(path@) && t.events == s.events.push(
                EventView::Background(path@),
            ) && adv
            &&& op matches StoryOp::Music { path, fade_in } ==> t.music == Some(path@) && t.events == s.events.push(
                EventView::Music(path@, text_of(fade_in)),
            ) && adv
            &&& op matches StoryOp::Sound { path } ==> t.writes == s.writes.push(("__last_sfx"@, ValView::Str(path@)))
                && t.events == s.events.push(EventView::Sound(path@)) && adv
            &&& op matches StoryOp::Transition { name } ==> t.writes == s.writes.push(
                ("__last_transition"@, ValView::Str(name@)),
            ) && t.events == s.events.push(EventView::Transition(name@)) && adv
            &&& op matches StoryOp::Pause { seconds } ==> t.events == s.events.push(EventView::Pause(text_of(seconds)))
                && t.writes.len() == s.writes.len() + 1 && t.writes.last().0 == "__last_pause"@ && adv
            &&& op matches StoryOp::Assign { name } ==> t.events == s.events.push(
                EventView::Variable(name@, val_view(f.value)),
            ) && adv
            &&& (op is Nop || op is Label) ==> t == s && adv
        }),
{
}

/// A dialogue line shows its speaker (the character's display name when
/// the program knows the id, else the id; none for narration) and the
/// interpolated text, waits on the line, and records the line as seen.
pub proof fn lemma_step_dialogue(
    s: PlayerView,
    speaker: Option<String>,
    text: String,
    f: OpFacts,
    p: ProgramIndex,
)
    ensures
        ({
            let (t, adv) = step_view(s, StoryOp::Dialogue { speaker, text }, f, p);
            let key = s.scene + seq![':'] + crate::strings::decimal(s.op_index as nat);
            &&& t.speaker_id == text_of(speaker)
            &&& t.text == f.line_text@
            &&& t.wait == StoryWait::Line
            &&& !adv
            &&& t.seen.contains(key)
            &&& forall|i: int| 0 <= i < s.seen.len() ==> t.seen[i] == s.seen[i]
            &&& t.seen.len() <= s.seen.len() + 1
            &&& t.events.last() == EventView::Dialogue(text_of(speaker), t.speaker_name, f.line_text@)
            &&& (speaker is None ==> t.speaker_name.len() == 0)
            &&& (speaker matches Some(id) ==> (forall|j: int|
                0 <= j < p.characters@.len() ==> p.characters@[j].0@ != id@) ==> t.speaker_name == id@)
            &&& (speaker matches Some(id) ==> forall|j: int|
                0 <= j < p.characters@.len() && p.characters@[j].0@ == id@ && (forall|m: int|
                    0 <= m < j ==> p.characters@[m].0@ != id@) ==> t.speaker_name == p.characters@[j].1@)
        }),
{
    let key = s.scene + seq![':'] + crate::strings::decimal(s.op_index as nat);
    assert(key == line_key(s.scene, s.op_index));
    if !s.seen.contains(key) {
        assert(s.seen.push(key)[s.seen.len() as int] == key);
    }
    if let Some(id) = speaker {
        lemma_key_pos(character_ids(p), id@);
        let j = key_pos(character_ids(p), id@);
        if j >= 0 {
            assert(character_ids(p)[j] == p.characters@[j].0@);
            assert forall|j2: int|
                0 <= j2 < p.characters@.len() && p.characters@[j2].0@ == id@ && (forall|m: int|
                    0 <= m < j2 ==> p.characters@[m].0@ != id@) implies speaker_name_of(p, opt_view(speaker))
                == p.characters@[j2].1@ by {
                if j2 < j {
                    assert(character_ids(p)[j2] == p.characters@[j2].0@);
                    lemma_key_pos_first(character_ids(p), id@, j2);
                }
                if j < j2 {
                    assert(p.characters@[j].0@ != id@);
                }
            }
        } else {
            assert forall|j2: int|
                0 <= j2 < p.characters@.len() && p.characters@[j2].0@ == id@ implies false by {
                assert(character_ids(p)[j2] == p.characters@[j2].0@);
            }
        }
    }
}

/// The first position of a key is at or before any position holding it.
pub proof fn lemma_key_pos_first(keys: Seq<Seq<char>>, k: Seq<char>, j: int)
    requires
        0 <= j < keys.len(),
        keys[j] == k,
    ensures
        0 <= key_pos(keys, k) <= j,
    decreases keys.len(),
{
    if j < keys.len() - 1 {
        lemma_key_pos_first(keys.drop_last(), k, j);
    } else {
        lemma_key_pos(keys.drop_last(), k);
    }
}

/// Whether arm `a` has an entry in the shown menu `m`.
pub open spec fn shown(m: Seq<ChoiceView>, a: int) -> bool {
    exists|i: int| 0 <= i < m.len() && (#[trigger] m[i]).index == a
}

/// Whether arm `a` of a menu can be chosen, given the facts.
pub open spec fn arm_enabled(arms: Seq<ChoiceArm>, facts: Seq<(bool, String)>, a: int) -> bool {
    arms[a].require is None || facts[a].0
}

/// The shown menu for the first `n` arms, described by its entries.
proof fn lemma_menu(arms: Seq<ChoiceArm>, facts: Seq<(bool, String)>, n: int)
    requires
        0 <= n <= arms.len(),
        arms.len() <= usize::MAX,
        facts.len() == arms.len(),
    ensures
        ({
            let m = menu_view(arms, facts, n);
            &&& forall|i: int|
                0 <= i < m.len() ==> {
                    let c = #[trigger] m[i];
                    &&& 0 <= c.index < n
                    &&& c.text == facts[c.index as int].1@
                    &&& c.enabled == arm_enabled(arms, facts, c.index as int)
                    &&& !c.hidden
                    &&& (c.enabled || !arms[c.index as int].hidden_if_locked)
                }
            &&& forall|i: int, j: int| 0 <= i < j < m.len() ==> m[i].index < m[j].index
            &&& forall|a: int|
                0 <= a < n && (arm_enabled(arms, facts, a) || !arms[a].hidden_if_locked) ==> #[trigger] shown(m, a)
        }),
    decreases n,
{
    if n > 0 {
        lemma_menu(arms, facts, n - 1);
        let before = menu_view(arms, facts, n - 1);
        let m = menu_view(arms, facts, n);
        let arm = arms[n - 1];
        let en = match arm.require {
            Some(_) => facts[n - 1].0,
            None => true,
        };
        assert(en == arm_enabled(arms, facts, n - 1));
        let cv = ChoiceView { index: (n - 1) as usize, text: facts[n - 1].1@, enabled: en, hidden: false };
        assert(cv.index == n - 1);
        if !en && arm.hidden_if_locked {
            assert(m == before);
        } else {
            assert(m == before.push(cv));
        }
        assert forall|a: int|
            0 <= a < n && (arm_enabled(arms, facts, a) || !arms[a].hidden_if_locked) implies #[trigger] shown(m, a) by {
            if a < n - 1 {
                assert(shown(before, a));
                let i = choose|i: int| 0 <= i < before.len() && (#[trigger] before[i]).index == a;
                assert(m[i] == before[i]);
                assert(m[i].index == a);
            } else {
                assert(m[m.len() - 1].index == a);
            }
        }
    }
}

/// A choice menu: the player waits on it and keeps its arms; each shown
/// entry is an arm in order, with the arm's interpolated text and whether
/// its requirement holds; an arm is left out exactly when it is locked and
/// hidden when locked; choosing later moves the scene cursor only for a
/// menu at scene level.
pub proof fn lemma_step_choice(s: PlayerView, options: Vec<ChoiceArm>, f: OpFacts, p: ProgramIndex)
    requires
        f.arms@.len() == options@.len(),
        options@.len() <= usize::MAX,
    ensures
        ({
            let (t, adv) = step_view(s, StoryOp::Choice { options }, f, p);
            let m = t.choices;
            &&& t.wait == StoryWait::Choice
            &&& !adv
            &&& t.pending_menu == Some(options)
            &&& t.choice_advances_scene == (s.exec_stack.len() == 0)
            &&& t.events == s.events.push(EventView::Choices(m))
            &&& forall|i: int|
                0 <= i < m.len() ==> {
                    let c = #[trigger] m[i];
                    &&& 0 <= c.index < options@.len()
                    &&& c.text == f.arms@[c.index as int].1@
                    &&& c.enabled == (options@[c.index as int].require is None || f.arms@[c.index as int].0)
                    &&& !c.hidden
                }
            &&& forall|i: int, j: int| 0 <= i < j < m.len() ==> m[i].index < m[j].index
            &&& forall|a: int|
                0 <= a < options@.len() ==> (#[trigger] shown(m, a) <==> (options@[a].require is None
                    || f.arms@[a].0 || !options@[a].hidden_if_locked))
        }),
{
    let arms = options@;
    let facts = f.arms@;
    lemma_menu(arms, facts, arms.len() as int);
    let m = menu_view(arms, facts, arms.len() as int);
    assert forall|a: int|
        0 <= a < arms.len() implies (#[trigger] shown(m, a) <==> (arms[a].require is None || facts[a].0
            || !arms[a].hidden_if_locked)) by {
        if shown(m, a) {
            let i = choose|i: int| 0 <= i < m.len() && (#[trigger] m[i]).index == a;
            assert(m[i].enabled || !arms[m[i].index as int].hidden_if_locked);
        }
        if arms[a].require is None || facts[a].0 || !arms[a].hidden_if_locked {
            assert(arm_enabled(arms, facts, a) || !arms[a].hidden_if_locked);
        }
    }
}

/// Jumping to a name without `:`: to the scene of that name when the
/// program has one (at its start), else to the first label of that name in
/// the current scene, else the story ends with `bad_jump`. Nested blocks
/// and any pending menu are left behind; the cursor does not move on by
/// itself.
pub proof fn lemma_step_jump(s: PlayerView, target: String, f: OpFacts, p: ProgramIndex)
    requires
        !target@.contains(':'),
    ensures
        ({
            let (t, adv) = step_view(s, StoryOp::Jump { target }, f, p);
            &&& !adv
            &&& t.exec_stack.len() == 0
            &&& t.pending_menu is None
            &&& !t.choice_advances_scene
            &&& (exists|j: int| 0 <= j < p.scenes@.len() && p.scenes@[j].name@ == target@) ==> t.scene
                == target@ && t.op_index == 0 && t.wait == StoryWait::Ready
            &&& forall|j: int, x: int|
                0 <= j < p.scenes@.len() && p.scenes@[j].name@ == s.scene && (forall|m: int|
                    0 <= m < j ==> p.scenes@[m].name@ != s.scene) && (forall|m: int|
                    0 <= m < p.scenes@.len() ==> p.scenes@[m].name@ != target@) && 0 <= x
                    < p.scenes@[j].labels@.len() && p.scenes@[j].labels@[x].0@ == target@ && (forall|m: int|
                    0 <= m < x ==> p.scenes@[j].labels@[m].0@ != target@) ==> t.scene == s.scene && t.op_index
                    == p.scenes@[j].labels@[x].1 && t.wait == StoryWait::Ready
            &&& ((forall|m: int| 0 <= m < p.scenes@.len() ==> p.scenes@[m].name@ != target@) && (forall|m: int|
                0 <= m < p.scenes@.len() ==> p.scenes@[m].name@ != s.scene)) ==> t.wait == StoryWait::Ended
                && t.ending == Some("bad_jump"@)
        }),
{
    lemma_first_char(target@, ':');
    lemma_key_pos(scene_names(p), target@);
    lemma_key_pos(scene_names(p), s.scene);
    if exists|j: int| 0 <= j < p.scenes@.len() && p.scenes@[j].name@ == target@ {
        let j = choose|j: int| 0 <= j < p.scenes@.len() && p.scenes@[j].name@ == target@;
        assert(scene_names(p)[j] == target@);
    }
    assert forall|j: int, x: int|
        0 <= j < p.scenes@.len() && p.scenes@[j].name@ == s.scene && (forall|m: int|
            0 <= m < j ==> p.scenes@[m].name@ != s.scene) && (forall|m: int|
            0 <= m < p.scenes@.len() ==> p.scenes@[m].name@ != target@) && 0 <= x < p.scenes@[j].labels@.len()
            && p.scenes@[j].labels@[x].0@ == target@ && (forall|m: int|
            0 <= m < x ==> p.scenes@[j].labels@[m].0@ != target@) implies step_view(
        s,
        StoryOp::Jump { target },
        f,
        p,
    ).0.op_index == p.scenes@[j].labels@[x].1 && step_view(s, StoryOp::Jump { target }, f, p).0.scene == s.scene
        && step_view(s, StoryOp::Jump { target }, f, p).0.wait == StoryWait::Ready by {
        assert(scene_names(p)[j] == s.scene);
        lemma_key_pos_first(scene_names(p), s.scene, j);
        let k = key_pos(scene_names(p), s.scene);
        if k < j {
            assert(scene_names(p)[k] == p.scenes@[k].name@);
        }
        assert(k == j);
        assert forall|m: int| 0 <= m < p.scenes@.len() implies scene_names(p)[m] != target@ by {
            assert(scene_names(p)[m] == p.scenes@[m].name@);
        }
        assert(label_names(p.scenes@[j])[x] == target@);
        lemma_key_pos_first(label_names(p.scenes@[j]), target@, x);
        let y = key_pos(label_names(p.scenes@[j]), target@);
        lemma_key_pos(label_names(p.scenes@[j]), target@);
        if y < x {
            assert(label_names(p.scenes@[j])[y] == p.scenes@[j].labels@[y].0@);
        }
        assert(y == x);
    }
    if (forall|m: int| 0 <= m < p.scenes@.len() ==> p.scenes@[m].name@ != target@) && (forall|m: int|
        0 <= m < p.scenes@.len() ==> p.scenes@[m].name@ != s.scene) {
        assert forall|m: int| 0 <= m < p.scenes@.len() implies scene_names(p)[m] != target@ && scene_names(p)[m]
            != s.scene by {
            assert(scene_names(p)[m] == p.scenes@[m].name@);
        }
        assert(step_view(s, StoryOp::Jump { target }, f, p).0.wait == StoryWait::Ended);
    }
    assert(!step_view(s, StoryOp::Jump { target }, f, p).1);
    assert(step_view(s, StoryOp::Jump { target }, f, p).0.exec_stack.len() == 0);
}

/// An `if` runs the branch its condition picks: that branch, if it has any
/// ops, becomes the innermost nested block, from its first op; the scene
/// cursor moves on.
pub proof fn lemma_step_if(s: PlayerView, then_ops: Vec<StoryOp>, else_ops: Vec<StoryOp>, f: OpFacts, p: ProgramIndex)
    ensures
        ({
            let (t, adv) = step_view(s, StoryOp::If { then_ops, else_ops }, f, p);
            let body = if f.cond {
                then_ops
            } else {
                else_ops
            };
            &&& adv
            &&& body@.len() > 0 ==> t.exec_stack.len() == s.exec_stack.len() + 1 && t.exec_stack.last().ops
                == body && t.exec_stack.last().index == 0 && t.exec_stack.drop_last() == s.exec_stack
            &&& body@.len() == 0 ==> t.exec_stack == s.exec_stack
            &&& t.events == s.events && t.scene == s.scene && t.op_index == s.op_index
        }),
{
    let body = if f.cond {
        then_ops
    } else {
        else_ops
    };
    if body@.len() > 0 {
        assert(s.exec_stack.push(ExecFrame { ops: body, index: 0 }).drop_last() =~= s.exec_stack);
    }
}

/// Every character left by [`vis_remove`] that has another id was there.
proof fn lemma_vis_remove_keeps(vs: Seq<VisView>, id: Seq<char>, k: int)
    requires
        0 <= k < vs.len(),
        vs[k].id != id,
    ensures
        has_member(vis_remove(vs, id), vs[k]),
    decreases vs.len(),
{
    let r = vis_remove(vs, id);
    if k == vs.len() - 1 {
        assert(r[r.len() - 1] == vs[k]);
    } else {
        lemma_vis_remove_keeps(vs.drop_last(), id, k);
        let r0 = vis_remove(vs.drop_last(), id);
        let j = choose|j: int| 0 <= j < r0.len() && r0[j] == vs.drop_last()[k];
        assert(r[j] == r0[j]);
    }
}

/// Showing a character: its entry (id and expression from the target, the
/// placement given) is visible, in the place of the entry it replaces if
/// one had its id, added last otherwise; other entries stay where they
/// are. Hiding one: no entry has its id, and every other entry stays.
pub proof fn lemma_step_show_hide(s: PlayerView, op: StoryOp, f: OpFacts, p: ProgramIndex)
    ensures
        ({
            let (t, adv) = step_view(s, op, f, p);
            &&& (op matches StoryOp::Show { target, at } ==> {
                let v = VisView { id: target_id(target@), expression: target_expression(target@), at: text_of(at) };
                &&& adv
                &&& has_member(t.visible, v)
                &&& forall|j: int| 0 <= j < s.visible.len() && s.visible[j].id != v.id ==> #[trigger] t.visible[j] == s.visible[j]
                &&& (forall|j: int| 0 <= j < s.visible.len() ==> s.visible[j].id != v.id) ==> t.visible == s.visible.push(v)
                &&& (exists|j: int| 0 <= j < s.visible.len() && s.visible[j].id == v.id) ==> t.visible.len() == s.visible.len()
                &&& t.events == s.events.push(EventView::Show(v))
            })
            &&& (op matches StoryOp::Hide { target } ==> {
                &&& adv
                &&& forall|j: int| 0 <= j < t.visible.len() ==> (#[trigger] t.visible[j]).id != target_id(target@)
                &&& forall|j: int| 0 <= j < t.visible.len() ==> has_member(s.visible, #[trigger] t.visible[j])
                &&& forall|j: int| 0 <= j < s.visible.len() && (#[trigger] s.visible[j]).id != target_id(target@)
                    ==> has_member(t.visible, s.visible[j])
                &&& t.events == s.events.push(EventView::Hide(target_id(target@)))
            })
        }),
{
    match op {
        StoryOp::Show { target, at } => {
            let v = VisView { id: target_id(target@), expression: target_expression(target@), at: text_of(at) };
            lemma_key_pos(vis_ids(s.visible), v.id);
            let j = key_pos(vis_ids(s.visible), v.id);
            let t = vis_insert(s.visible, v);
            if j >= 0 {
                assert(t[j] == v);
                assert forall|k: int| 0 <= k < s.visible.len() && s.visible[k].id != v.id implies #[trigger] t[k]
                    == s.visible[k] by {
                    assert(vis_ids(s.visible)[j] == s.visible[j].id);
                }
                assert(vis_ids(s.visible)[j] == s.visible[j].id);
            } else {
                assert(t[s.visible.len() as int] == v);
                assert forall|k: int| 0 <= k < s.visible.len() implies s.visible[k].id != v.id by {
                    assert(vis_ids(s.visible)[k] == s.visible[k].id);
                }
            }
        },
        StoryOp::Hide { target } => {
            let id = target_id(target@);
            lemma_vis_remove_members(s.visible, id);
            let r = vis_remove(s.visible, id);
            assert forall|j: int| 0 <= j < s.visible.len() && (#[trigger] s.visible[j]).id != id implies has_member(
                r,
                s.visible[j],
            ) by {
                lemma_vis_remove_keeps(s.visible, id, j);
            }
        },
        _ => {},
    }
}

/// A host command writes the command's name, the `enemy` argument when it
/// is a string, and each argument under `cmd.<name>.<key>`, then what the
/// host answered; keeps the host's error message when it failed (and no
/// error otherwise); and queues the command and the variable change.
pub proof fn lemma_step_host_call(
    s: PlayerView,
    name: String,
    args: Vec<(String, StoryValue)>,
    f: OpFacts,
    p: ProgramIndex,
)
    ensures
        ({
            let (t, adv) = step_view(s, StoryOp::HostCall { name, args }, f, p);
            let n = s.writes.len();
            &&& adv
            &&& t.writes.len() > n && t.writes.take(n as int) == s.writes
            &&& t.writes[n as int] == ("__last_command"@, ValView::Str(name@))
            &&& forall|k: int|
                0 <= k < args@.len() ==> t.writes.contains(
                    ("cmd."@ + name@ + seq!['.'] + (#[trigger] args@[k]).0@, val_view(args@[k].1)),
                )
            &&& (f.host matches HostOutcome::Failed(m) ==> t.host_error == Some(m@) && t.writes.last() == (
                "__last_host_error"@,
                ValView::Str(m@),
            ))
            &&& (f.host is Dispatched ==> t.host_error is None && t.writes.last() == ("__host_dispatched"@, ValView::Str(name@)))
            &&& (f.host is NoHost ==> t.host_error is None)
            &&& t.events == s.events.push(EventView::HostCall(name@, pairs_view(args@))).push(
                EventView::Variable("__last_command"@, ValView::Str(name@)),
            )
        }),
{
    let w = host_writes(name@, args@, f.host);
    let t = s.writes + w;
    let w1 = seq![("__last_command"@, ValView::Str(name@))];
    let w2 = match arg_value(args@, "enemy"@) {
        Some(StoryValue::String(e)) => w1.push(("cmd.enemy"@, ValView::Str(e@))),
        _ => w1,
    };
    let tail = Seq::new(
        args@.len(),
        |k: int| ("cmd."@ + name@ + seq!['.'] + args@[k].0@, val_view(args@[k].1)),
    );
    let w3 = w2 + tail;
    assert(w[0] == w1[0]);
    assert(t.take(s.writes.len() as int) =~= s.writes);
    assert forall|k: int| 0 <= k < args@.len() implies t.contains(
        ("cmd."@ + name@ + seq!['.'] + (#[trigger] args@[k]).0@, val_view(args@[k].1)),
    ) by {
        assert(w3[w2.len() + k] == tail[k]);
        assert(w[w2.len() + k] == tail[k]);
        assert(t[s.writes.len() + w2.len() + k] == tail[k]);
    }
}

/// `return`: with a saved continuation, resume it (its scene, index and
/// nested blocks, dropping it and the matching call-stack entry); with only
/// a saved call-stack entry (after a load), resume that scene and index at
/// scene level; with neither, the story ends without an ending id. The
/// cursor does not move on by itself.
pub proof fn lemma_step_return(s: PlayerView, f: OpFacts, p: ProgramIndex)
    ensures
        ({
            let (t, adv) = step_view(s, StoryOp::Return, f, p);
            &&& !adv
            &&& s.conts.len() > 0 ==> t.scene == s.conts.last().0 && t.op_index == s.conts.last().1 && t.exec_stack
                == s.conts.last().2 && t.conts == s.conts.drop_last() && t.wait == StoryWait::Ready && (
            s.call_stack.len() > 0 ==> t.call_stack == s.call_stack.drop_last())
            &&& (s.conts.len() == 0 && s.call_stack.len() > 0) ==> t.scene == s.call_stack.last().0 && t.op_index
                == s.call_stack.last().1 && t.exec_stack.len() == 0 && t.call_stack == s.call_stack.drop_last()
                && t.wait == StoryWait::Ready
            &&& (s.conts.len() == 0 && s.call_stack.len() == 0) ==> t.wait == StoryWait::Ended && t.ending is None
                && t.events == s.events.push(EventView::Ended(None))
        }),
{
}

/// `call`: the saved return point is past the call at scene level and the
/// same index inside a nested block; it is pushed on the call stack with
/// the current scene, together with the open nested blocks; then the
/// target is jumped to.
pub proof fn lemma_step_call(s: PlayerView, target: String, f: OpFacts, p: ProgramIndex)
    requires
        s.exec_stack.len() == 0 ==> s.op_index < usize::MAX,
    ensures
        ({
            let (t, adv) = step_view(s, StoryOp::Call { target }, f, p);
            let ret = if s.exec_stack.len() == 0 {
                s.op_index + 1
            } else {
                s.op_index as int
            };
            &&& !adv
            &&& t.call_stack.len() == s.call_stack.len() + 1
            &&& t.call_stack.last().0 == s.scene && t.call_stack.last().1 == ret
            &&& t.call_stack.drop_last() == s.call_stack
            &&& t.conts.len() == s.conts.len() + 1
            &&& t.conts.last() == (s.scene, ret as usize, s.exec_stack)
            &&& t.conts.drop_last() == s.conts
            &&& t.exec_stack.len() == 0
        }),
{
    let ret = if s.exec_stack.len() == 0 {
        (s.op_index + 1) as usize
    } else {
        s.op_index
    };
    assert(s.call_stack.push((s.scene, ret)).drop_last() =~= s.call_stack);
    assert(s.conts.push((s.scene, ret, s.exec_stack)).drop_last() =~= s.conts);
}

} // verus!
