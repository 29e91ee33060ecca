use velvet::script_lex::{lex_script, next_tok, skip_ws_comments, ScriptPunct, ScriptToken};
use velvet::style_check::ScriptError;

fn show(t: &ScriptToken) -> String {
    match t {
        ScriptToken::Ident(s) => format!("id:{s}"),
        ScriptToken::Number(s) => format!("num:{s}"),
        ScriptToken::Str(s) => format!("str:{s}"),
        ScriptToken::Punct(p) => format!("{p:?}"),
        ScriptToken::Eof => "eof".to_string(),
    }
}

fn lex(src: &str) -> Vec<(String, usize)> {
    match lex_script(src) {
        Ok(v) => v.iter().map(|(t, l)| (show(t), *l)).collect(),
        Err(e) => panic!("{e:?}"),
    }
}

fn lex_err(src: &str) -> (usize, String) {
    match lex_script(src) {
        Err(ScriptError::Parse { line, msg }) => (line, msg),
        other => panic!("{other:?}"),
    }
}

#[test]
fn lexes_let_with_time_literal() {
    let got = lex("let x = 0.35s;");
    let want: Vec<(String, usize)> = vec![
        ("id:let", 1),
        ("id:x", 1),
        ("Assign", 1),
        ("num:0.35", 1),
        ("Semi", 1),
        ("eof", 1),
    ]
    .into_iter()
    .map(|(a, b)| (a.to_string(), b))
    .collect();
    assert_eq!(got, want);
}

#[test]
fn comments_and_lines() {
    let got = lex("// head\nfn f(a) {\n /* two\n lines */ return a >= .5;\n}");
    let names: Vec<&str> = got.iter().map(|(t, _)| t.as_str()).collect();
    assert_eq!(
        names,
        vec!["id:fn", "id:f", "LParen", "id:a", "RParen", "LBrace", "id:return", "id:a", "Ge", "num:.5", "Semi", "RBrace", "eof"]
    );
    assert_eq!(got[0].1, 2);
    assert_eq!(got[6].1, 4);
    assert_eq!(got[11].1, 5);
}

#[test]
fn strings_and_escapes() {
    let got = lex(r#"play("a\"b\n", 'c') && !x || y != 2s2"#);
    let names: Vec<&str> = got.iter().map(|(t, _)| t.as_str()).collect();
    assert_eq!(
        names,
        vec!["id:play", "LParen", "str:a\"b\n", "Comma", "str:c", "RParen", "AndAnd", "Bang", "id:x", "OrOr", "id:y", "Ne", "num:2", "id:s2", "eof"]
    );
}

#[test]
fn lex_errors() {
    assert_eq!(lex_err("let s = \"open"), (1, "unterminated string".to_string()));
    assert_eq!(lex_err("\n\nx @ y"), (3, "unexpected character `@`".to_string()));
}

#[test]
fn skip_and_next_token_steps() {
    let src = b"  /* c */ foo";
    assert_eq!(skip_ws_comments(src, 0, 1), (10, 1));
    match next_tok(src, 0, 1) {
        Ok((ScriptToken::Ident(s), 1, 13, 1)) => assert_eq!(s, "foo"),
        other => panic!("{other:?}"),
    }
    match next_tok(b"==", 0, 1) {
        Ok((ScriptToken::Punct(ScriptPunct::EqEq), 1, 2, 1)) => {}
        other => panic!("{other:?}"),
    }
}
