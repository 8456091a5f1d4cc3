use expressa::parser::{parse, AssignTarget, BinaryOp, Expr, Import, Item, Program, Stmt};

fn parse_ok(src: &str) -> Program {
    parse(src).unwrap_or_else(|e| panic!("parse failed for {src:?}: {e:?}"))
}

fn first_stmt(p: &Program) -> &Stmt {
    match &p.items[0] {
        Item::Stmt(s) => s,
        other => panic!("expected stmt, got {other:?}"),
    }
}

fn expr_stmt(p: &Program) -> &Expr {
    match first_stmt(p) {
        Stmt::Expr { expr, .. } => expr,
        other => panic!("expected expr stmt, got {other:?}"),
    }
}

#[test]
fn number_literal() {
    let p = parse_ok("42");
    let e = expr_stmt(&p);
    assert!(matches!(e, Expr::Number { raw, .. } if raw == "42"));
}

#[test]
fn string_and_bool() {
    let p = parse_ok(r#""oi""#);
    assert!(matches!(
        expr_stmt(&p),
        Expr::String { value, .. } if value == "oi"
    ));
    let p = parse_ok("verdadeiro");
    assert!(matches!(
        expr_stmt(&p),
        Expr::Bool { value: true, .. }
    ));
}

#[test]
fn precedence_mul_over_add() {
    // 1 + 2 * 3  →  1 + (2 * 3)
    let p = parse_ok("1 + 2 * 3");
    let e = expr_stmt(&p);
    match e {
        Expr::Binary {
            op: BinaryOp::Add,
            left,
            right,
            ..
        } => {
            assert!(matches!(left.as_ref(), Expr::Number { raw, .. } if raw == "1"));
            assert!(matches!(
                right.as_ref(),
                Expr::Binary {
                    op: BinaryOp::Mul,
                    ..
                }
            ));
        }
        other => panic!("unexpected {other:?}"),
    }
}

#[test]
fn assign_name() {
    match first_stmt(&parse_ok("x = 10")) {
        Stmt::Assign {
            target: AssignTarget::Name { name, .. },
            value: Expr::Number { raw, .. },
            ..
        } => {
            assert_eq!(name, "x");
            assert_eq!(raw, "10");
        }
        other => panic!("{other:?}"),
    }
}

#[test]
fn block_expression() {
    let p = parse_ok("inicio\n  1 + 2\nfim");
    let e = expr_stmt(&p);
    match e {
        Expr::Block(b) => {
            assert_eq!(b.stmts.len(), 1);
        }
        other => panic!("{other:?}"),
    }
}

#[test]
fn empty_block_errors() {
    let err = parse("inicio fim").unwrap_err();
    assert!(err.message.contains("vazio"));
}

#[test]
fn if_with_else() {
    let src = r#"
se x > 0
inicio
    1
fim
senao
inicio
    2
fim
"#;
    let p = parse_ok(src);
    match expr_stmt(&p) {
        Expr::If {
            branches,
            else_block: Some(_),
            ..
        } => {
            assert_eq!(branches.len(), 1);
        }
        other => panic!("{other:?}"),
    }
}

#[test]
fn call_and_list() {
    let p = parse_ok(r#"escreva([1, 2])"#);
    match expr_stmt(&p) {
        Expr::Call { callee, args, .. } => {
            assert!(matches!(callee.as_ref(), Expr::Ident { name, .. } if name == "escreva"));
            assert_eq!(args.len(), 1);
            assert!(matches!(args[0], Expr::List { .. }));
        }
        other => panic!("{other:?}"),
    }
}

#[test]
fn index_and_slice() {
    let p = parse_ok("xs[1]");
    assert!(matches!(expr_stmt(&p), Expr::Index { .. }));
    let p = parse_ok("xs[1..3]");
    assert!(matches!(expr_stmt(&p), Expr::Slice { .. }));
}

#[test]
fn se_falhar() {
    let p = parse_ok("a se_falhar b");
    match expr_stmt(&p) {
        Expr::SeFalhar { .. } => {}
        other => panic!("{other:?}"),
    }
}

#[test]
fn function_literal() {
    let src = r#"
funcao(x, y)
inicio
    x + y
fim
"#;
    let p = parse_ok(src);
    match expr_stmt(&p) {
        Expr::Function { params, body, .. } => {
            assert_eq!(params.len(), 2);
            assert_eq!(params[0].name, "x");
            assert_eq!(body.stmts.len(), 1);
        }
        other => panic!("{other:?}"),
    }
}

#[test]
fn mapa_vazio_and_entries() {
    let p = parse_ok("mapa {}");
    assert!(matches!(
        expr_stmt(&p),
        Expr::Mapa { entries, .. } if entries.is_empty()
    ));

    let src = r#"
mapa
inicio
    "a" -> 1
fim
"#;
    let p = parse_ok(src);
    match expr_stmt(&p) {
        Expr::Mapa { entries, .. } => assert_eq!(entries.len(), 1),
        other => panic!("{other:?}"),
    }
}

#[test]
fn repita_and_para() {
    let src = r#"
repita 3 vezes
inicio
    escreva("x")
fim
"#;
    assert!(matches!(first_stmt(&parse_ok(src)), Stmt::Repita { .. }));

    let src = r#"
para i de 1 ate 5
inicio
    escreva(i)
fim
"#;
    assert!(matches!(first_stmt(&parse_ok(src)), Stmt::ParaRange { .. }));

    let src = r#"
para x em xs
inicio
    escreva(x)
fim
"#;
    assert!(matches!(first_stmt(&parse_ok(src)), Stmt::ParaIn { .. }));
}

#[test]
fn importe() {
    match &parse_ok(r#"importe "math""#).items[0] {
        Item::Import(Import {
            alias: None, path, ..
        }) => assert_eq!(path, "math"),
        other => panic!("{other:?}"),
    }
    match &parse_ok(r#"m = importe "math""#).items[0] {
        Item::Import(Import {
            alias: Some(a),
            path,
            ..
        }) => {
            assert_eq!(a, "m");
            assert_eq!(path, "math");
        }
        other => panic!("{other:?}"),
    }
}

#[test]
fn comparison_chain_errors() {
    assert!(parse("1 < 2 < 3").is_err());
}

#[test]
fn assign_index() {
    match first_stmt(&parse_ok("xs[1] = 9")) {
        Stmt::Assign {
            target: AssignTarget::Index { .. },
            ..
        } => {}
        other => panic!("{other:?}"),
    }
}

#[test]
fn parsed_spans_nest() {
    let p = parse_ok("1 + 2");
    let e = expr_stmt(&p);
    assert_eq!((e.span().start, e.span().end), (0, 5));
    match e {
        Expr::Binary { left, right, .. } => {
            assert_eq!((left.span().start, left.span().end), (0, 1));
            assert_eq!((right.span().start, right.span().end), (4, 5));
        }
        other => panic!("expected binary, got {other:?}"),
    }
    let p = parse_ok("f(a, [1, 2])[1]");
    let e = expr_stmt(&p);
    let outer = e.span();
    match e {
        Expr::Index { object, index, .. } => {
            for c in [object.span(), index.span()] {
                assert!(outer.start <= c.start && c.end <= outer.end);
            }
            match &**object {
                Expr::Call { args, span, .. } => {
                    for a in args {
                        assert!(span.start <= a.span().start && a.span().end <= span.end);
                    }
                }
                other => panic!("expected call, got {other:?}"),
            }
        }
        other => panic!("expected index, got {other:?}"),
    }
}

#[test]
fn spans_nest_inside_blocks() {
    let p = parse_ok("repita 2 vezes inicio\n  x = (1 + 2) * 3\nfim");
    match first_stmt(&p) {
        Stmt::Repita { body, .. } => match &body.stmts[0] {
            Stmt::Assign { value, .. } => {
                let outer = value.span();
                assert_eq!(outer.end, 39);
                assert!(body.span.start <= outer.start && outer.end <= body.span.end);
                match value {
                    Expr::Binary { left, right, .. } => {
                        for c in [left.span(), right.span()] {
                            assert!(outer.start <= c.start && c.end <= outer.end);
                        }
                    }
                    other => panic!("expected binary, got {other:?}"),
                }
            }
            other => panic!("expected assignment, got {other:?}"),
        },
        other => panic!("expected repita, got {other:?}"),
    }
}
