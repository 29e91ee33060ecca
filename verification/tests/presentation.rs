use velvet::history::History;
use velvet::live2d::{Live2dModel, Live2dStage};
use velvet::screens::{join_dialogue_lines, z_for_at, ChoiceOption, ChoiceScreen, ConfirmDialog, ConfirmKind, SayScreen};
use velvet::selector::{selector_matches, specificity, StyleQuery};

#[test]
fn history_keeps_newest_within_capacity() {
    let mut h = History::with_capacity(2);
    h.push("a", "one", "s");
    h.push("b", "two", "s");
    h.push("c", "three", "s");
    assert_eq!(h.len(), 2);
    let e = h.entries();
    assert_eq!(e[0].text, "two");
    assert_eq!(e[1].text, "three");
    assert_eq!(e[1].index, 2);
    h.clear();
    assert!(h.is_empty());
}

#[test]
fn history_without_capacity_keeps_all() {
    let mut h = History::with_capacity(0);
    for _ in 0..5 {
        h.push("n", "line", "scene");
    }
    assert_eq!(h.len(), 5);
    assert_eq!(h.entries()[4].index, 4);
}

#[test]
fn say_screen_typewriter() {
    let mut s = SayScreen::default();
    s.show("Hero", "Hello", false);
    assert_eq!(s.visible_text, "");
    assert!(!s.typewrite(2));
    assert_eq!(s.visible_text, "He");
    assert!(s.typewrite(10));
    assert_eq!(s.visible_text, "Hello");
    s.show("Hero", "Bye", true);
    assert!(s.text_complete);
    s.clear();
    assert!(!s.visible);
}

#[test]
fn say_screen_reveal_all() {
    let mut s = SayScreen::default();
    s.show("", "abc", false);
    s.reveal_all();
    assert_eq!(s.visible_text, "abc");
    assert!(s.text_complete);
}

fn opt(index: usize, text: &str) -> ChoiceOption {
    ChoiceOption { index, text: text.to_string(), enabled: true, hidden: false }
}

#[test]
fn choice_selection_wraps() {
    let mut c = ChoiceScreen::default();
    c.open_with(vec![opt(0, "a"), opt(2, "b"), opt(5, "c")]);
    assert!(c.open);
    c.move_sel(-1);
    assert_eq!(c.selected, 2);
    c.move_sel(2);
    assert_eq!(c.selected, 1);
    assert_eq!(c.selected_arm(), Some(2));
    c.close();
    assert!(!c.open);
    assert_eq!(c.selected_arm(), None);
    c.open_with(vec![]);
    assert!(!c.open);
}

#[test]
fn confirm_dialog_prompts() {
    let mut d = ConfirmDialog::default();
    d.ask_overwrite("slot_1");
    assert_eq!(d.kind, ConfirmKind::OverwriteSlot("slot_1".into()));
    assert_eq!(d.message, "Overwrite save slot `slot_1`?");
    d.ask_quit();
    assert_eq!(d.message, "Quit the game?");
    d.close();
    assert_eq!(d.kind, ConfirmKind::Idle);
    assert!(!d.open);
}

#[test]
fn join_lines_drops_blank_and_trims() {
    assert_eq!(join_dialogue_lines(&["First  ", "   ", "Second"]), "First\nSecond");
    assert_eq!(join_dialogue_lines(&[]), "");
}

#[test]
fn live2d_stage_show_hide() {
    let mut st = Live2dStage::default();
    st.attach(Live2dModel::new("hero", "models/hero"));
    assert!(st.visible_models().is_empty());
    assert!(st.show("hero"));
    assert_eq!(st.visible_models().len(), 1);
    assert!(st.set_expression("hero", "smile"));
    assert_eq!(st.models[0].expression, "smile");
    assert!(st.hide_model("hero"));
    assert!(st.visible_models().is_empty());
    assert!(!st.show("missing"));
    st.attach(Live2dModel::new("hero", "models/hero2"));
    assert_eq!(st.models.len(), 1);
    assert_eq!(st.models[0].model_path, "models/hero2");
}

#[test]
fn compound_selectors_match_all_parts() {
    let q = StyleQuery::class("button").with_id("cta").with_state("hover");
    assert!(selector_matches("#cta.button:hover", &q));
    assert!(selector_matches("#cta", &q));
    assert!(!selector_matches("#other", &q));
    assert_eq!(specificity("#cta.button:hover"), (1, 2, 0));
    assert_eq!(specificity("button.button"), (0, 1, 1));
    assert_eq!(specificity(".menu > .button"), (0, 0, 0));
}

#[test]
fn descendant_selectors_follow_ancestor_order() {
    let plain = StyleQuery::class("button").with_state("selected");
    assert!(selector_matches(".button", &plain));
    assert!(!selector_matches(".menu .button", &plain));
    let ctx = plain
        .clone()
        .with_ancestor_class("shell")
        .with_ancestor_class("menu")
        .with_ancestor_class("panel");
    assert!(selector_matches(".menu .button", &ctx));
    assert!(selector_matches(".shell .panel .button:selected", &ctx));
    let wrong = plain.with_ancestor_class("panel").with_ancestor_class("shell");
    assert!(!selector_matches(".shell .panel .button:selected", &wrong));
}

#[test]
fn unsupported_selectors_never_match() {
    let q = StyleQuery::class("button").with_ancestor_class("menu");
    assert!(!selector_matches(".menu > .button", &q));
    assert!(!selector_matches(".button[disabled]", &q));
    assert!(!selector_matches("button.button", &q));
    assert!(selector_matches("button.button", &q.with_element("button")));
}

#[test]
fn placement_z_order() {
    assert_eq!(z_for_at(Some("left")), 10);
    assert_eq!(z_for_at(Some("center")), 20);
    assert_eq!(z_for_at(Some("right")), 30);
    assert_eq!(z_for_at(Some("far")), 15);
    assert_eq!(z_for_at(None), 15);
}

#[test]
fn live2d_attach_stores_hidden() {
    let mut st = Live2dStage::default();
    let mut m = Live2dModel::new("hero", "models/hero");
    m.visible = true;
    m.z = 7;
    st.attach(m);
    assert!(st.visible_models().is_empty());
    assert!(st.show("hero"));
    st.set_expression("hero", "smile");
    assert_eq!(st.models[0].z, 7);
    assert_eq!(st.models[0].at, "center");
    assert!(st.models[0].visible);
    let mut again = Live2dModel::new("hero", "models/hero2");
    again.visible = true;
    st.attach(again);
    assert!(st.visible_models().is_empty());
}

#[test]
fn choice_selection_stays_on_an_option() {
    let mut c = ChoiceScreen::default();
    assert_eq!(c.selected_arm(), None);
    c.open_with(vec![opt(2, "a"), opt(5, "b"), opt(7, "c")]);
    assert_eq!(c.selected_arm(), Some(2));
    for d in [1, 1, 1, -5, 4, -1, 100, -100] {
        c.move_sel(d);
        assert!(c.selected < c.options.len());
        assert_eq!(c.selected_arm(), Some(c.options[c.selected].index));
    }
    c.move_sel(1);
    c.close();
    assert_eq!(c.selected_arm(), None);
    c.open_with(vec![]);
    c.move_sel(3);
    assert_eq!(c.selected_arm(), None);
}
