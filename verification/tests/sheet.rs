use velvet::sheet_parse::{parse_declarations, parse_stylesheet, split_selectors, SheetOutline};
use velvet::script_parse::{Expr, Stmt};
use velvet::sheet_parse::check_stylesheet;
use velvet::style_check::ScriptError;
use velvet::style_check::StyleParseError;

fn sheet(src: &str) -> SheetOutline {
    match parse_stylesheet(src) {
        Ok(s) => s,
        Err(e) => panic!("{e:?}"),
    }
}

fn err(src: &str) -> (usize, String) {
    match parse_stylesheet(src) {
        Err(StyleParseError::AtLine { line, msg }) => (line, msg),
        other => panic!("{other:?}"),
    }
}

fn value<'a>(s: &'a SheetOutline, rule: usize, name: &str) -> Option<&'a str> {
    s.rules[rule].declarations.get(name).map(|v| v.trim())
}

#[test]
fn parse_button_rules() {
    let src = r#"
        /* casino buttons */
        .button {
            background: #0a0c16;
            border-color: #b9964b;
            border-width: 1;
            color: #d2af64;
            height: 52;
            padding-x: 14;
        }
        .button:selected {
            background: #501e78;
            border-color: #ffdc96;
            glow: #dc50dc;
            color: #ffe496;
        }
        #start {
            icon: star;
        }
        "#;
    let sheet = sheet(src);
    assert_eq!(sheet.rules.len(), 3);
    assert_eq!(value(&sheet, 0, "background"), Some("#0a0c16"));
    let sel = &sheet.rules[1];
    assert!(sel.selectors.iter().any(|s| s == ".button:selected"));
    assert_eq!(value(&sheet, 2, "icon"), Some("star"));
}

#[test]
fn preserves_utf8_and_comment_markers_inside_strings() {
    let sheet = sheet(
        r#"
            .leyenda {
              content: "Niño // listo; cierre } /* literal */";
              font-family: 'Señal';
            }
            "#,
    );
    assert_eq!(value(&sheet, 0, "content"), Some("\"Niño // listo; cierre } /* literal */\""));
    assert_eq!(value(&sheet, 0, "font-family"), Some("'Señal'"));
}

#[test]
fn declarations_allow_semicolons_inside_strings() {
    let sheet = sheet(r#".asset { source: "https://cdn.example/a;b.png"; color: #fff; }"#);
    assert_eq!(value(&sheet, 0, "source"), Some("\"https://cdn.example/a;b.png\""));
    assert_eq!(value(&sheet, 0, "color"), Some("#fff"));
}

#[test]
fn script_strings_preserve_urls_and_semicolons() {
    let sheet = sheet(
        r#"
            @script {
              let endpoint = "https://api.example/v1;a=b";
              fn readEndpoint() { return endpoint; }
            }
            "#,
    );
    assert_eq!(sheet.scripts.len(), 1);
    assert!(sheet.scripts[0].contains("\"https://api.example/v1;a=b\""));
    assert!(sheet.scripts[0].ends_with("fn readEndpoint() { return endpoint; }"));
    let m = &sheet.script;
    assert!(matches!(&m.globals[0].1, Expr::String(s) if s == "https://api.example/v1;a=b"));
    assert_eq!(m.functions[0].0, "readEndpoint");
    assert!(matches!(&m.functions[0].1.body[0], Stmt::Return(Some(Expr::Ident(n))) if n == "endpoint"));
}

#[test]
fn parse_import_statement() {
    let sheet = sheet(
        r#"
            @import "base.vcss";
            .x { color: #fff; }
            "#,
    );
    assert_eq!(sheet.imports, vec!["base.vcss".to_string()]);
    assert_eq!(sheet.rules.len(), 1);
}

#[test]
fn parse_svg_block_and_url() {
    let sheet = sheet(
        r#"
            @svg badge {
              viewBox: 0 0 64 64;
              fill: #ebc878;
              path: "M0,32 L32,0 L64,32 L32,64 Z";
            }
            .chip {
              background-image: svg(badge);
              width: 64;
              height: 64;
            }
            .panel {
              background-image: url("ui/bg.png");
            }
            "#,
    );
    assert!(sheet.svgs.contains_key("badge"));
    assert!(sheet.svgs["badge"].contains("path: \"M0,32 L32,0 L64,32 L32,64 Z\""));
    let chip = sheet.rules.iter().position(|r| r.selectors[0] == ".chip").unwrap();
    assert_eq!(value(&sheet, chip, "background-image"), Some("svg(badge)"));
    let panel = sheet.rules.iter().position(|r| r.selectors[0] == ".panel").unwrap();
    assert_eq!(value(&sheet, panel, "background-image"), Some("url(\"ui/bg.png\")"));
}

#[test]
fn parse_css_plus_script() {
    let src = r#"
        .card.deal { animation: deal 0.32s cubic_out; }
        @keyframes deal {
          from { opacity: 0; }
          to { opacity: 1; }
        }
        @script {
          let stagger = 0.08;
          fn dealHand(n) {
            for (let i = 0; i < n; i = i + 1) {
              play("deal", { target: "card" + i, delay: i * stagger });
            }
          }
        }
        "#;
    let sheet = sheet(src);
    assert_eq!(sheet.rules.len(), 1);
    assert_eq!(sheet.rules[0].selectors, vec![".card.deal".to_string()]);
    assert!(sheet.keyframes.contains_key("deal"));
    assert!(sheet.keyframes["deal"].starts_with("from { opacity: 0; }"));
    assert!(sheet.scripts[0].contains("fn dealHand(n)"));
    assert!(sheet.scripts[0].starts_with("let stagger = 0.08;"));
    assert!(sheet.script.functions.iter().any(|f| f.0 == "dealHand"));
    assert!(sheet.script.globals.iter().any(|g| g.0 == "stagger"));
}

#[test]
fn sheet_errors_with_lines() {
    assert_eq!(err("@import \"a.vcss\""), (1, "@import needs trailing `;`".to_string()));
    assert_eq!(err("\n@import nope;"), (2, "bad @import `@import nope`".to_string()));
    assert_eq!(err(".a { x: 1; }\n\n.b"), (3, "expected `{{` after selectors".to_string()));
    assert_eq!(err("\n.a { x: \"}\"; "), (2, "unclosed rule block".to_string()));
    assert_eq!(err("@svg { }"), (1, "@svg needs a name".to_string()));
    assert_eq!(err("@keyframes   { }"), (1, "@keyframes needs a name".to_string()));
    assert_eq!(err(" , , { a: 1 }"), (1, "empty selector".to_string()));
    assert_eq!(
        err(".a {\n  color: red;\n  oops\n}"),
        (2, "expected `property: value` in `oops`".to_string())
    );
    assert_eq!(err(".a { : 1 }"), (1, "empty property name".to_string()));
}

#[test]
fn declarations_names_and_repeats() {
    let body: Vec<char> = "Color: red; --Brand: Blue; color: blue; ;".chars().collect();
    let d = match parse_declarations(&body, 1) {
        Ok(d) => d,
        Err(e) => panic!("{e:?}"),
    };
    let pairs: Vec<(&str, &str)> = d.iter().map(|(k, v)| (k.as_str(), v.as_str())).collect();
    assert_eq!(pairs, vec![("color", " blue"), ("--Brand", " Blue")]);
}

#[test]
fn selectors_split_and_trimmed() {
    let s: Vec<char> = " .a , #b:hover,, c ".chars().collect();
    assert_eq!(split_selectors(&s), vec![".a".to_string(), "#b:hover".to_string(), "c".to_string()]);
}

#[test]
fn comments_are_stripped_and_counted() {
    let sheet = sheet("/* a\n b */ .x /* c */ { y: 1; } // tail\n.z { w: 2 }");
    assert_eq!(sheet.rules.len(), 2);
    assert_eq!(sheet.rules[0].selectors, vec![".x".to_string()]);
    assert_eq!(value(&sheet, 1, "w"), Some("2"));
}

#[test]
fn keyframe_stop_declarations_checked() {
    assert_eq!(
        err("@keyframes fade {\n  from { opacity 0 }\n}"),
        (1, "expected `property: value` in `opacity 0`".to_string())
    );
    assert_eq!(
        err(".a { b: 1 }\n@keyframes fade {\n  from { opacity: 0; }\n  to { : 1 }\n}"),
        (3, "empty property name".to_string())
    );
    let ok = sheet("@keyframes fade { from { opacity: 0; } to { opacity: 1; } }");
    assert!(ok.keyframes.contains_key("fade"));
}

#[test]
fn sheet_script_blocks_merge_and_report_errors() {
    let sheet = sheet("@script { fn a() {} let x = 1; }\n@script { fn b() {} fn a(p) {} on(\"go\", b); }");
    let names: Vec<&str> = sheet.script.functions.iter().map(|f| f.0.as_str()).collect();
    assert_eq!(names, vec!["a", "b"]);
    assert_eq!(sheet.script.functions[0].1.params.len(), 1);
    assert_eq!(sheet.script.handlers.len(), 1);
    match parse_stylesheet("@script {\n  let = 1;\n}") {
        Err(StyleParseError::Script(ScriptError::Parse { line, msg })) => {
            assert_eq!(line, 1);
            assert_eq!(msg, "expected identifier, got Assign");
        },
        other => panic!("expected a script error, got {:?}", other.map(|_| ())),
    }
}

#[test]
fn check_stylesheet_counts_and_errors() {
    let src = r#"
        @import "base.vcss";
        .card.deal { animation: deal 0.32s cubic_out; }
        @keyframes deal {
          from { opacity: 0; }
          to { opacity: 1; }
        }
        @script {
          fn dealHand(n) { play("deal", { target: "card" + n }); }
          fn logoIn() {}
        }
        "#;
    let r = check_stylesheet(src);
    assert!(r.ok && r.error.is_none());
    assert_eq!((r.rules, r.keyframes, r.functions, r.imports), (1, 1, 2, 1));
    let bad = check_stylesheet("@script { let = 1; }");
    assert!(!bad.ok);
    assert_eq!((bad.rules, bad.keyframes, bad.functions, bad.imports), (0, 0, 0, 0));
    assert_eq!(bad.error.as_deref(), Some("style script error: vcss script parse at 1: expected identifier, got Assign"));
    let bad2 = check_stylesheet(".a { x }");
    assert_eq!(bad2.error.as_deref(), Some("style parse error at line 1: expected `property: value` in `x`"));
}
