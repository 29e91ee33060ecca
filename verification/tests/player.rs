use velvet::player::{
    exec_op, ChoiceArm, HostOutcome, OpFacts, PlayerState, ProgramIndex, StoryScene, StoryEvent,
    StoryOp, StoryValue,
};
use velvet::screens::StoryWait;

fn state(scene: &str, op_index: usize) -> PlayerState {
    PlayerState {
        scene: scene.to_string(),
        op_index,
        wait: StoryWait::Ready,
        visible: Vec::new(),
        background: None,
        music: None,
        call_stack: Vec::new(),
        current_speaker_id: None,
        current_speaker_name: String::new(),
        current_text: String::new(),
        choices: Vec::new(),
        exec_stack: Vec::new(),
        pending_menu: None,
        choice_advances_scene: false,
        call_continuations: Vec::new(),
        seen_lines: Vec::new(),
        events: Vec::new(),
        writes: Vec::new(),
        last_host_error: None,
        ending: None,
    }
}

fn facts() -> OpFacts {
    OpFacts {
        cond: false,
        value: StoryValue::Null,
        line_text: String::new(),
        arms: Vec::new(),
        host: HostOutcome::NoHost,
    }
}

fn program() -> ProgramIndex {
    ProgramIndex {
        scenes: vec![
            StoryScene { name: "start".to_string(), ops: Vec::new(), labels: vec![("mid".to_string(), 3)] },
            StoryScene { name: "sub".to_string(), ops: Vec::new(), labels: Vec::new() },
        ],
        characters: vec![("aria".to_string(), "Aria".to_string())],
    }
}

#[test]
fn player_background_sets_and_emits() {
    let mut s = state("start", 0);
    let adv = exec_op(&mut s, StoryOp::Background { path: "bg.png".to_string() }, facts(), &program());
    assert!(adv);
    assert_eq!(s.background.as_deref(), Some("bg.png"));
    assert!(matches!(&s.events[0], StoryEvent::Background(p) if p == "bg.png"));
}

#[test]
fn player_dialogue_waits_and_marks_seen_once() {
    let mut s = state("start", 2);
    let mut f = facts();
    f.line_text = "Hello, Alex.".to_string();
    let op = StoryOp::Dialogue { speaker: Some("aria".to_string()), text: "Hello, {player}.".to_string() };
    let adv = exec_op(&mut s, op, f, &program());
    assert!(!adv);
    assert_eq!(s.wait, StoryWait::Line);
    assert_eq!(s.current_speaker_name, "Aria");
    assert_eq!(s.current_text, "Hello, Alex.");
    assert_eq!(s.seen_lines, vec!["start:2".to_string()]);
    let op = StoryOp::Dialogue { speaker: Some("zed".to_string()), text: "x".to_string() };
    exec_op(&mut s, op, facts(), &program());
    assert_eq!(s.current_speaker_name, "zed");
    assert_eq!(s.seen_lines.len(), 1);
}

#[test]
fn player_choice_menu_hides_and_locks() {
    let mut s = state("start", 1);
    let arm = |t: &str, req: Option<&str>, hide: bool| ChoiceArm {
        text: t.to_string(),
        body: Vec::new(),
        require: req.map(|r| r.to_string()),
        hidden_if_locked: hide,
    };
    let options = vec![arm("Be kind", None, false), arm("Secret", Some("flag"), true), arm("Locked", Some("key"), false)];
    let mut f = facts();
    f.arms = vec![(true, "Be kind".to_string()), (false, "Secret".to_string()), (false, "Locked!".to_string())];
    let adv = exec_op(&mut s, StoryOp::Choice { options }, f, &program());
    assert!(!adv);
    assert_eq!(s.wait, StoryWait::Choice);
    assert!(s.choice_advances_scene);
    assert_eq!(s.choices.len(), 2);
    assert_eq!(s.choices[0].index, 0);
    assert!(s.choices[0].enabled);
    assert_eq!(s.choices[1].index, 2);
    assert!(!s.choices[1].enabled);
    assert_eq!(s.choices[1].text, "Locked!");
    assert_eq!(s.pending_menu.as_ref().map(|m| m.len()), Some(3));
}

#[test]
fn player_jump_targets() {
    let p = program();
    let mut s = state("start", 7);
    exec_op(&mut s, StoryOp::Jump { target: "sub".to_string() }, facts(), &p);
    assert_eq!((s.scene.as_str(), s.op_index), ("sub", 0));
    exec_op(&mut s, StoryOp::Jump { target: "start:mid".to_string() }, facts(), &p);
    assert_eq!((s.scene.as_str(), s.op_index), ("start", 3));
    s.op_index = 9;
    exec_op(&mut s, StoryOp::Jump { target: "mid".to_string() }, facts(), &p);
    assert_eq!((s.scene.as_str(), s.op_index), ("start", 3));
    let adv = exec_op(&mut s, StoryOp::Jump { target: "nowhere".to_string() }, facts(), &p);
    assert!(!adv);
    assert_eq!(s.wait, StoryWait::Ended);
    assert_eq!(s.ending.as_deref(), Some("bad_jump"));
}

#[test]
fn player_call_then_return_resumes() {
    let p = program();
    let mut s = state("start", 4);
    exec_op(&mut s, StoryOp::Call { target: "sub".to_string() }, facts(), &p);
    assert_eq!(s.scene, "sub");
    assert_eq!(s.call_stack, vec![("start".to_string(), 5)]);
    exec_op(&mut s, StoryOp::Return, facts(), &p);
    assert_eq!((s.scene.as_str(), s.op_index), ("start", 5));
    assert!(s.call_stack.is_empty());
    assert!(s.call_continuations.is_empty());
    exec_op(&mut s, StoryOp::Return, facts(), &p);
    assert_eq!(s.wait, StoryWait::Ended);
    assert_eq!(s.ending, None);
}

#[test]
fn player_if_pushes_chosen_body() {
    let p = program();
    let mut s = state("start", 0);
    let mut f = facts();
    f.cond = true;
    let op = StoryOp::If { then_ops: vec![StoryOp::Nop], else_ops: Vec::new() };
    assert!(exec_op(&mut s, op, f, &p));
    assert_eq!(s.exec_stack.len(), 1);
    assert_eq!(s.exec_stack[0].index, 0);
    let op = StoryOp::If { then_ops: vec![StoryOp::Nop], else_ops: Vec::new() };
    assert!(exec_op(&mut s, op, facts(), &p));
    assert_eq!(s.exec_stack.len(), 1);
}

#[test]
fn player_host_call_writes_and_events() {
    let mut s = state("start", 0);
    let mut f = facts();
    f.host = HostOutcome::Failed("boom".to_string());
    let op = StoryOp::HostCall {
        name: "combat.start".to_string(),
        args: vec![("enemy".to_string(), StoryValue::String("goblin".to_string()))],
    };
    assert!(exec_op(&mut s, op, f, &program()));
    let names: Vec<&str> = s.writes.iter().map(|w| w.0.as_str()).collect();
    assert_eq!(names, vec!["__last_command", "cmd.enemy", "cmd.combat.start.enemy", "__last_host_error"]);
    assert_eq!(s.last_host_error.as_deref(), Some("boom"));
    assert_eq!(s.events.len(), 2);
    assert!(matches!(&s.events[1], StoryEvent::Variable { name, value: StoryValue::String(v) }
        if name == "__last_command" && v == "combat.start"));
}

#[test]
fn player_show_replaces_in_place_and_hide_removes() {
    let p = program();
    let mut s = state("start", 0);
    exec_op(&mut s, StoryOp::Show { target: "aria.happy".to_string(), at: Some("right".to_string()) }, facts(), &p);
    exec_op(&mut s, StoryOp::Show { target: "bob".to_string(), at: None }, facts(), &p);
    exec_op(&mut s, StoryOp::Show { target: "aria.sad".to_string(), at: None }, facts(), &p);
    assert_eq!(s.visible.len(), 2);
    assert_eq!(s.visible[0].id, "aria");
    assert_eq!(s.visible[0].expression.as_deref(), Some("sad"));
    exec_op(&mut s, StoryOp::Hide { target: "aria.sad".to_string() }, facts(), &p);
    assert_eq!(s.visible.len(), 1);
    assert_eq!(s.visible[0].id, "bob");
}

#[test]
fn player_pause_without_seconds_writes_zero() {
    let mut s = state("start", 0);
    assert!(exec_op(&mut s, StoryOp::Pause { seconds: None }, facts(), &program()));
    assert_eq!(s.writes[0].0, "__last_pause");
    assert!(matches!(&s.writes[0].1, StoryValue::Float(t) if t == "0"));
}

#[test]
fn player_reindex_labels_later_duplicate_keeps_place() {
    let mut sc = StoryScene {
        name: "s".to_string(),
        ops: vec![
            StoryOp::Label { name: "a".to_string() },
            StoryOp::Nop,
            StoryOp::Label { name: "b".to_string() },
            StoryOp::Label { name: "a".to_string() },
        ],
        labels: vec![("stale".to_string(), 9)],
    };
    sc.reindex_labels();
    assert_eq!(sc.labels, vec![("a".to_string(), 3), ("b".to_string(), 2)]);
}
