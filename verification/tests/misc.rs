use velvet::icons::icon_size_text;
use velvet::interpolate::interpolate_rendered;
use velvet::host::{StoryCommandError, StoryPlugin, Vs3BridgeError};
use velvet::localization::{catalog_to_po_template, choice_key, dialogue_key, slugify_text, LocCatalog, LocEntry, LocKind};
use velvet::ops::{int_arith, AssignOp, StoryArithOp};
use velvet::save_files::{is_save_file_name, slot_file_name, SAVE_FORMAT_VERSION};
use velvet::style_check::{check_report, ScriptError, SheetCounts, StyleParseError};
use velvet::transitions::{TransitionKind, WipeDirection};
use velvet::ui::{detect_script_family, PresenterBackend, PresenterPhase, ProductPresenter};
use velvet::voice::{VoiceError, VoicePlayState};

#[test]
fn slugify_basic() {
    assert_eq!(slugify_text("Hello, World!", 32), "hello_world");
    assert_eq!(slugify_text("!!!", 8), "line");
}

#[test]
fn slugify_edge_cases() {
    assert_eq!(slugify_text("", 8), "line");
    assert_eq!(slugify_text("A  B   C", 32), "a_b_c");
    let long = "x".repeat(100);
    let s = slugify_text(&long, 16);
    assert!(s.len() <= 16);
    assert!(!s.is_empty());
}

#[test]
fn slug_cut_at_max_len_drops_trailing_separator() {
    assert_eq!(slugify_text("ab cd", 3), "ab");
    assert_eq!(slugify_text("-a-", 8), "a");
}

#[test]
fn loc_keys_are_stable() {
    assert_eq!(dialogue_key("start", 0), "start:0:dialogue");
    assert_eq!(choice_key("start", 3, 1), "start:3:choice:1");
    assert_ne!(dialogue_key("a", 1), choice_key("a", 1, 0));
}

#[test]
fn po_template_escapes_quotes() {
    let cat = LocCatalog {
        entries: vec![LocEntry {
            key: "main:0:dialogue".into(),
            scene: "main".into(),
            source: "He said \"hi\"".into(),
            speaker: Some("aria".into()),
            kind: LocKind::Dialogue,
        }],
    };
    let po = catalog_to_po_template(&cat);
    assert!(po.starts_with("# Velvet Engine localization template\n\n"));
    assert!(po.contains("msgctxt \"main:0:dialogue\"\n"));
    assert!(po.contains("msgid \"He said \\\"hi\\\"\"\n"));
    assert!(po.contains("# . speaker: aria\n"));
    assert!(po.contains("# . main: Dialogue\n"));
    assert_eq!(cat.len(), 1);
    assert!(cat.get("main:0:dialogue").is_some());
    assert!(cat.get("x").is_none());
}

#[test]
fn story_integer_arithmetic() {
    assert_eq!(int_arith(2, 3, StoryArithOp::Add), 5);
    assert_eq!(int_arith(i64::MAX, 1, StoryArithOp::Add), i64::MAX);
    assert_eq!(int_arith(i64::MIN, 1, StoryArithOp::Sub), i64::MIN);
    assert_eq!(int_arith(i64::MAX, 2, StoryArithOp::Mul), i64::MAX);
    assert_eq!(int_arith(i64::MIN, 2, StoryArithOp::Mul), i64::MIN);
    assert_eq!(int_arith(7, -2, StoryArithOp::Div), -3);
    assert_eq!(int_arith(-7, 2, StoryArithOp::Div), -3);
    assert_eq!(int_arith(-7, -2, StoryArithOp::Div), 3);
    assert_eq!(int_arith(5, 0, StoryArithOp::Div), 0);
    assert_eq!(int_arith(i64::MIN, 2, StoryArithOp::Div), i64::MIN / 2);
    assert_ne!(AssignOp::Assign, AssignOp::Add);
}

#[test]
fn script_family_detection() {
    let zh = detect_script_family("你好世界");
    assert_eq!((zh.family.as_str(), zh.path.as_str()), ("sc", "fonts/NotoSansSC-Regular.otf"));
    let hi = detect_script_family("नमस्ते");
    assert_eq!((hi.family.as_str(), hi.path.as_str()), ("hi", "fonts/NotoSansDevanagari-Regular.ttf"));
    let mixed = detect_script_family("Hi 你好");
    assert_eq!((mixed.family.as_str(), mixed.path.as_str()), ("mixed", "fonts/NotoSansSC-Regular.otf"));
    let latin = detect_script_family("Hello");
    assert_eq!((latin.family.as_str(), latin.path.as_str()), ("latin", "fonts/DejaVuSans.ttf"));
    assert_eq!(detect_script_family("").family, "latin");
}

#[test]
fn presenter_names_and_defaults() {
    assert_eq!(PresenterBackend::Softbuffer.as_str(), "softbuffer");
    assert_eq!(PresenterBackend::Wgpu.as_str(), "wgpu");
    assert_eq!(PresenterBackend::default(), PresenterBackend::Softbuffer);
    assert_eq!(PresenterPhase::default(), PresenterPhase::Title);
}

#[test]
fn save_file_names() {
    assert_eq!(slot_file_name("quick"), "quick.velsave.json");
    assert!(is_save_file_name("slot_1.velsave.json"));
    assert!(!is_save_file_name("slot_1.velsave.tmp"));
    assert!(!is_save_file_name("notes.json"));
    assert!(is_save_file_name(".velsave"));
    assert_eq!(SAVE_FORMAT_VERSION, 1);
}

#[test]
fn style_check_reports() {
    let ok = check_report(Ok(SheetCounts { rules: 3, keyframes: 1, functions: 2, imports: 0 }));
    assert!(ok.ok && ok.error.is_none());
    assert_eq!((ok.rules, ok.keyframes, ok.functions, ok.imports), (3, 1, 2, 0));
    let bad = check_report(Err(StyleParseError::AtLine { line: 3, msg: "bad".into() }));
    assert!(!bad.ok);
    assert_eq!(bad.rules, 0);
    assert_eq!(bad.error.as_deref(), Some("style parse error at line 3: bad"));
    let script = StyleParseError::Script(ScriptError::Runtime("boom".into()));
    assert_eq!(script.message(), "style script error: vcss script runtime: boom");
    let parse = ScriptError::Parse { line: 12, msg: "x".into() };
    assert_eq!(parse.message(), "vcss script parse at 12: x");
}

#[test]
fn small_kinds_and_errors() {
    assert_eq!(TransitionKind::default(), TransitionKind::Cut);
    assert_eq!(WipeDirection::default(), WipeDirection::LeftToRight);
    assert_eq!(VoicePlayState::default(), VoicePlayState::Idle);
    assert_eq!(VoiceError::Empty.message(), "voice queue is empty");
    let e = StoryCommandError::new("combat failed");
    assert_eq!(e.message, "combat failed");
    assert_eq!(e.to_text(), "combat failed");
    assert_eq!(Vs3BridgeError::new("no fn").to_text(), "no fn");
    assert_eq!(StoryPlugin::default().name(), "velvet.story");
}

#[test]
fn interpolate_vars_and_keep_markup() {
    let vars = vec![
        ("player".to_string(), "Alex".to_string()),
        ("n".to_string(), "3".to_string()),
        ("player".to_string(), "shadowed".to_string()),
    ];
    assert_eq!(interpolate_rendered("Hi {player}, score {n}", &vars), "Hi Alex, score 3");
    assert_eq!(interpolate_rendered("{ player }!", &vars), "Alex!");
    assert_eq!(interpolate_rendered("{color=#ff0}x{/color}", &vars), "{color=#ff0}x{/color}");
    assert_eq!(interpolate_rendered("{#x}{}", &vars), "{#x}{}");
    assert_eq!(interpolate_rendered("a {missing} b", &vars), "a  b");
    assert_eq!(interpolate_rendered("open {player", &vars), "open {player");
}

#[test]
fn icon_size_text_is_last_size_part() {
    let c = |s: &str| -> Vec<char> { s.chars().collect() };
    let s = |v: Option<Vec<char>>| -> Option<String> { v.map(|x| x.into_iter().collect()) };
    assert_eq!(s(icon_size_text(&c("id=heart size=18"))), Some("18".to_string()));
    assert_eq!(s(icon_size_text(&c("size=1 size=2"))), Some("2".to_string()));
    assert_eq!(s(icon_size_text(&c("heart"))), None);
    assert_eq!(s(icon_size_text(&c("id=heart"))), None);
}

#[test]
fn hybrid_title_is_softbuffer_play_is_wgpu() {
    let mut p = ProductPresenter::hybrid();
    assert_eq!(p.phase(), PresenterPhase::Title);
    assert_eq!(p.active(), PresenterBackend::Softbuffer);

    p.set_phase_play();
    assert_eq!(p.active(), PresenterBackend::Wgpu);

    p.set_phase_title();
    assert_eq!(p.active(), PresenterBackend::Softbuffer);
}

#[test]
fn gpu_fallback_forces_softbuffer_on_play() {
    let mut p = ProductPresenter::hybrid();
    p.set_phase_play();
    assert_eq!(p.active(), PresenterBackend::Wgpu);
    p.set_gpu_available(false, Some("no adapter"));
    assert_eq!(p.active(), PresenterBackend::Softbuffer);
    assert!(p.gpu_fallback());
    assert_eq!(p.fallback_reason(), Some("no adapter"));
}

#[test]
fn status_line_mentions_backend() {
    let mut p = ProductPresenter::hybrid();
    p.set_phase_play();
    let s = p.status_line(0, 0, 0);
    assert!(s.contains("wgpu") || s.contains("softbuffer"), "{s}");
}

#[test]
fn status_line_exact_text() {
    let mut p = ProductPresenter::new(PresenterBackend::Softbuffer);
    p.set_phase_play();
    assert_eq!(
        p.status_line(3, 2, 1),
        "presenter phase=Play preferred=softbuffer active=softbuffer paint=3 quads=2 text=1"
    );
    p.set_preferred(PresenterBackend::Wgpu);
    assert_eq!(p.active(), PresenterBackend::Wgpu);
    p.set_gpu_available(false, None);
    assert_eq!(
        p.status_line(0, 0, 0),
        "presenter phase=Play preferred=wgpu active=softbuffer paint=0 quads=0 text=0 fallback=gpu_unavailable"
    );
    p.set_gpu_available(true, Some("ignored"));
    assert_eq!(p.fallback_reason(), None);
    assert_eq!(p.active(), PresenterBackend::Wgpu);
    assert_eq!(ProductPresenter::default().preferred(), PresenterBackend::Wgpu);
}

#[test]
fn character_portraits_fall_back_to_default() {
    let mut c = velvet::character::Character::new("hero", "Hero");
    assert_eq!(c.color, "#ffffff");
    assert_eq!(c.portrait_for(Some("smile")), None);
    c.portrait = Some("hero/base.png".into());
    c.expressions.insert("smile".into(), "hero/smile.png".into());
    assert_eq!(c.portrait_for(Some("smile")), Some("hero/smile.png"));
    assert_eq!(c.portrait_for(Some("angry")), Some("hero/base.png"));
    assert_eq!(c.portrait_for(None), Some("hero/base.png"));
}

#[test]
fn source_map_keeps_catalog_order() {
    let entry = |key: &str, source: &str| LocEntry {
        key: key.into(),
        scene: "s".into(),
        source: source.into(),
        speaker: None,
        kind: LocKind::Choice,
    };
    let cat = LocCatalog { entries: vec![entry("b", "B"), entry("a", "A"), entry("b", "B2")] };
    let m = cat.source_map();
    let pairs: Vec<(String, String)> = m.iter().map(|(k, v)| (k.clone(), v.clone())).collect();
    assert_eq!(pairs, vec![("b".into(), "B2".into()), ("a".into(), "A".into())]);
}

#[test]
fn say_markup_strips_tags_and_collects_speeds() {
    let (plain, cps) = velvet::say_text::say_markup_parts("{cps=30}Hello {color=#ff0}world{/color}");
    assert_eq!(plain, "Hello world");
    assert_eq!(cps, vec!["30".to_string()]);
    let (plain, cps) = velvet::say_text::say_markup_parts("a { cps=x } b {cps=2.5} {open");
    assert_eq!(plain, "a  b  {open");
    assert_eq!(cps, vec!["x".to_string(), "2.5".to_string()]);
}

#[test]
fn interpolate_vars() {
    let vars = vec![("player".to_string(), "Alex".to_string()), ("n".to_string(), "3".to_string())];
    assert_eq!(interpolate_rendered("Hi {player}, score {n}", &vars), "Hi Alex, score 3");
}
