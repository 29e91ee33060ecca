use indexmap::IndexMap;

use velvet::loc_ops::{
    extract_loc_keys, extract_scene_loc_keys, rewrite_scene_ops, speakers_in_program,
    tl_scaffold_table, wants_translation, LocChoice, LocOp, LocScene,
};
use velvet::localization::{catalog_to_po_template, LocKind};

fn dialogue(speaker: Option<&str>, text: &str) -> LocOp {
    LocOp::Dialogue { speaker: speaker.map(|s| s.to_string()), text: text.to_string() }
}

fn arm(text: &str, body: Vec<LocOp>) -> LocChoice {
    LocChoice { text: text.to_string(), body }
}

/// The program of the sample story: `aria "Hello {player}"`, a two-arm
/// choice whose arms jump to `end`, and a narrator line in `end`.
fn sample_program() -> Vec<LocScene> {
    vec![
        LocScene {
            name: "start".into(),
            ops: vec![
                dialogue(Some("aria"), "Hello {player}"),
                LocOp::Choice {
                    options: vec![arm("Yes", vec![LocOp::Other]), arm("No", vec![LocOp::Other])],
                },
            ],
        },
        LocScene { name: "end".into(), ops: vec![dialogue(None, "The end")] },
    ]
}

fn first_text(scene: &LocScene) -> &str {
    match &scene.ops[0] {
        LocOp::Dialogue { text, .. } => text,
        other => panic!("{other:?}"),
    }
}

#[test]
fn extracts_dialogue_and_choices() {
    let cat = extract_loc_keys(&sample_program());
    assert!(cat.len() >= 3);
    assert!(cat.entries.iter().any(|e| e.kind == LocKind::Dialogue));
    assert!(cat.entries.iter().any(|e| e.kind == LocKind::Choice));
    assert!(
        cat.get("start:0:dialogue").is_some()
            || cat.entries.iter().any(|e| e.source.contains("Hello"))
    );
}

#[test]
fn apply_translation_rewrites_text() {
    let program = sample_program();
    let cat = extract_loc_keys(&program);
    let mut table = IndexMap::new();
    for e in &cat.entries {
        table.insert(e.key.clone(), format!("[{}]", e.source));
    }
    let translated = cat.apply_to_program(&program, &table);
    let start = translated.iter().find(|s| s.name == "start").unwrap();
    assert!(first_text(start).starts_with('['));
}

#[test]
fn po_template_contains_keys() {
    let cat = extract_loc_keys(&sample_program());
    let po = catalog_to_po_template(&cat);
    assert!(po.contains("msgid"));
    assert!(po.contains("msgctxt"));
}

#[test]
fn nested_choice_bodies_extracted() {
    let program = vec![LocScene {
        name: "main".into(),
        ops: vec![LocOp::Choice { options: vec![arm("Go", vec![dialogue(None, "Inside")])] }],
    }];
    let cat = extract_loc_keys(&program);
    assert!(cat.entries.iter().any(|e| e.source == "Inside"));
    assert!(cat.entries.iter().any(|e| e.source == "Go"));
}

#[test]
fn speakers_collected() {
    let speakers = speakers_in_program(&sample_program());
    assert!(speakers.iter().any(|s| s == "aria"));
}

#[test]
fn loc_keys_stable_and_unique() {
    let cat = extract_loc_keys(&sample_program());
    let mut keys = std::collections::BTreeSet::new();
    for e in &cat.entries {
        assert!(!e.key.is_empty());
        assert!(keys.insert(e.key.clone()), "duplicate key {}", e.key);
        assert!(!e.source.is_empty());
    }
    let cat2 = extract_loc_keys(&sample_program());
    let keys2: std::collections::BTreeSet<_> =
        cat2.entries.iter().map(|e| e.key.clone()).collect();
    assert_eq!(keys, keys2);
}

#[test]
fn apply_partial_translation_keeps_missing() {
    let program = sample_program();
    let cat = extract_loc_keys(&program);
    let mut table = IndexMap::new();
    if let Some(e) = cat.entries.first() {
        table.insert(e.key.clone(), "TRANSLATED".to_string());
    }
    let translated = cat.apply_to_program(&program, &table);
    let cat_after = extract_loc_keys(&translated);
    assert!(
        cat_after.entries.iter().any(|e| e.source == "TRANSLATED")
            || translated.iter().any(|s| s.ops.iter().any(|op| matches!(
                op,
                LocOp::Dialogue { text, .. } if text == "TRANSLATED"
            ))),
        "expected partial apply"
    );
}

#[test]
fn po_template_escapes_and_msgctxt() {
    let program = vec![LocScene {
        name: "main".into(),
        ops: vec![dialogue(None, r#"He said "hi""#)],
    }];
    let cat = extract_loc_keys(&program);
    let po = catalog_to_po_template(&cat);
    assert!(po.contains("msgctxt"));
    assert!(po.contains("msgid"));
    assert!(po.contains("hi") || po.contains(r#"\""#));
}

#[test]
fn catalog_order_and_keys_exact() {
    let cat = extract_loc_keys(&sample_program());
    let got: Vec<(&str, &str, Option<&str>, LocKind)> = cat
        .entries
        .iter()
        .map(|e| (e.key.as_str(), e.source.as_str(), e.speaker.as_deref(), e.kind))
        .collect();
    assert_eq!(
        got,
        vec![
            ("start:0:dialogue", "Hello {player}", Some("aria"), LocKind::Dialogue),
            ("start:1:choice:0", "Yes", None, LocKind::Choice),
            ("start:1:choice:1", "No", None, LocKind::Choice),
            ("end:0:dialogue", "The end", None, LocKind::Dialogue),
        ]
    );
    assert!(cat.entries.iter().all(|e| e.scene == e.key.split(':').next().unwrap()));
}

#[test]
fn nested_bodies_use_their_own_indices() {
    let scene = LocScene {
        name: "s".into(),
        ops: vec![
            LocOp::If {
                then_ops: vec![LocOp::Other, dialogue(Some("ben"), "then")],
                else_ops: vec![dialogue(None, "else")],
            },
            dialogue(None, "after"),
        ],
    };
    let cat = extract_scene_loc_keys(&scene);
    let keys: Vec<&str> = cat.entries.iter().map(|e| e.key.as_str()).collect();
    assert_eq!(keys, vec!["s:1:dialogue", "s:0:dialogue", "s:1:dialogue"]);
}

#[test]
fn apply_twice_same_as_once() {
    let program = sample_program();
    let cat = extract_loc_keys(&program);
    let mut table = IndexMap::new();
    table.insert("start:1:choice:1".to_string(), "Non".to_string());
    let once = cat.apply_to_program(&program, &table);
    let twice = cat.apply_to_program(&once, &table);
    let a: Vec<String> = extract_loc_keys(&once).entries.into_iter().map(|e| e.source).collect();
    let b: Vec<String> = extract_loc_keys(&twice).entries.into_iter().map(|e| e.source).collect();
    assert_eq!(a, b);
    assert_eq!(a, vec!["Hello {player}", "Yes", "Non", "The end"]);
}

#[test]
fn empty_table_keeps_program() {
    let program = sample_program();
    let out = rewrite_scene_ops("start", &program[0].ops, &IndexMap::new());
    assert_eq!(out.len(), 2);
    assert_eq!(format!("{:?}", out), format!("{:?}", program[0].ops));
}

#[test]
fn scaffold_table_falls_back_to_source() {
    let cat = extract_loc_keys(&sample_program());
    let mut es = IndexMap::new();
    es.insert("start:0:dialogue".to_string(), "Hola {player}".to_string());
    es.insert("unused".to_string(), "x".to_string());
    let t = tl_scaffold_table(&cat, &es);
    let pairs: Vec<(&str, &str)> = t.iter().map(|(k, v)| (k.as_str(), v.as_str())).collect();
    assert_eq!(
        pairs,
        vec![
            ("start:0:dialogue", "Hola {player}"),
            ("start:1:choice:0", "Yes"),
            ("start:1:choice:1", "No"),
            ("end:0:dialogue", "The end"),
        ]
    );
}

#[test]
fn source_language_needs_no_pack() {
    assert!(!wants_translation(""));
    assert!(!wants_translation("  EN "));
    assert!(!wants_translation("None"));
    assert!(wants_translation("es"));
    assert!(wants_translation("eng"));
}

#[test]
fn speakers_once_in_first_order() {
    let program = vec![LocScene {
        name: "s".into(),
        ops: vec![
            dialogue(Some("ben"), "a"),
            dialogue(Some("aria"), "b"),
            dialogue(None, "c"),
            dialogue(Some("ben"), "d"),
        ],
    }];
    assert_eq!(speakers_in_program(&program), vec!["ben".to_string(), "aria".to_string()]);
}
