use velvet::script_parse::{parse_script, Expr, Stmt};
use velvet::style_check::{BinOp, ScriptError, UnaryOp};

fn perr(src: &str) -> (usize, String) {
    match parse_script(src) {
        Err(ScriptError::Parse { line, msg }) => (line, msg),
        other => panic!("expected a parse error, got {:?}", other.map(|_| ())),
    }
}

#[test]
fn script_globals_functions_handlers() {
    let m = parse_script(
        "let stagger = 0.08;\nfn dealHand(n) { play(\"deal\", { target: \"card\" + n, delay: n * stagger }); }\non(\"hand.deal\", dealHand);",
    )
    .unwrap();
    assert_eq!(m.globals.len(), 1);
    assert_eq!(m.globals[0].0, "stagger");
    assert!(matches!(&m.globals[0].1, Expr::Number(t) if t == "0.08"));
    assert_eq!(m.functions.len(), 1);
    assert_eq!(m.functions[0].0, "dealHand");
    assert_eq!(m.functions[0].1.params, vec!["n".to_string()]);
    assert!(matches!(&m.functions[0].1.body[0], Stmt::Expr(Expr::Call { name, args }) if name == "play" && args.len() == 2));
    assert_eq!(m.handlers.len(), 1);
    assert_eq!(m.handlers[0].event, "hand.deal");
    assert_eq!(m.handlers[0].fn_name, "dealHand");
}

#[test]
fn script_precedence_and_unary() {
    let m = parse_script("let a = 1 + 2 * 3; let b = -x || !y && z;").unwrap();
    assert!(matches!(
        &m.globals[0].1,
        Expr::Binary { left, op: BinOp::Add, right }
            if matches!(**left, Expr::Number(ref t) if t == "1")
                && matches!(**right, Expr::Binary { op: BinOp::Mul, .. })
    ));
    assert!(matches!(
        &m.globals[1].1,
        Expr::Binary { left, op: BinOp::Or, right }
            if matches!(**left, Expr::Unary { op: UnaryOp::Neg, .. })
                && matches!(**right, Expr::Binary { op: BinOp::And, .. })
    ));
}

#[test]
fn script_for_if_return() {
    let m = parse_script(
        "fn f(n) { for (let i = 0; i < n; i++) { if (i == 2) { return i; } else if (i > 3) { x = i; } else { y(); } } return; }",
    )
    .unwrap();
    let body = &m.functions[0].1.body;
    assert_eq!(body.len(), 2);
    match &body[0] {
        Stmt::For { var, update, body, .. } => {
            assert_eq!(var, "i");
            assert!(matches!(&**update, Stmt::Assign { name, value: Expr::Binary { op: BinOp::Add, right, .. } }
                if name == "i" && matches!(**right, Expr::Number(ref t) if t == "1")));
            assert!(matches!(&body[0], Stmt::If { else_body, .. } if else_body.len() == 1
                && matches!(&else_body[0], Stmt::If { else_body: inner, .. } if inner.len() == 1)));
        },
        _ => panic!("expected a for loop"),
    }
    assert!(matches!(&body[1], Stmt::Return(None)));
}

#[test]
fn script_literals_and_postfix() {
    let m = parse_script("let o = { a: [1, 2,], \"b\": null, }; let p = o.a[0]; let t = true;").unwrap();
    assert!(matches!(&m.globals[0].1, Expr::Object(ps) if ps.len() == 2 && ps[1].0 == "b"
        && matches!(&ps[0].1, Expr::Array(v) if v.len() == 2) && matches!(ps[1].1, Expr::Null)));
    assert!(matches!(&m.globals[1].1, Expr::Index { dot: false, base, .. }
        if matches!(**base, Expr::Index { dot: true, .. })));
    assert!(matches!(m.globals[2].1, Expr::Bool(true)));
}

#[test]
fn script_inline_handler_and_redefinition() {
    let m = parse_script("fn g() {} on(\"menu.open-now\", fn() { x = 1; }); fn g(a) {}").unwrap();
    assert_eq!(m.functions.len(), 2);
    assert_eq!(m.functions[0].0, "g");
    assert_eq!(m.functions[0].1.params.len(), 1);
    assert_eq!(m.functions[1].0, "__on_menu_open_now");
    assert_eq!(m.handlers[0].fn_name, "__on_menu_open_now");
}

#[test]
fn script_parse_errors() {
    assert_eq!(perr("fn f( {"), (1, "expected identifier, got LBrace".to_string()));
    assert_eq!(perr("\n42"), (2, "expected let/fn/on at top level, got Number(42)".to_string()));
    assert_eq!(perr("on(5, f)"), (1, "on() event must be string, got Number(5)".to_string()));
    assert_eq!(perr("let a = [1](2);"), (1, "can only call identifiers".to_string()));
    assert_eq!(perr("let a = (1;"), (1, "expected RParen, got Semi".to_string()));
    assert_eq!(perr("let a =\n;"), (2, "unexpected token in expression: Semi".to_string()));
}

#[test]
fn script_empty_and_semicolons() {
    let m = parse_script(" ; ;").unwrap();
    assert!(m.globals.is_empty() && m.functions.is_empty() && m.handlers.is_empty());
}
