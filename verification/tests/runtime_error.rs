use expressa::lexer::Span;
use expressa::runtime::{CallFrame, RuntimeError};

fn span(line: u32, col: u32) -> Span {
    Span::new(line, col, 0, 1)
}

#[test]
fn display_includes_file_location() {
    let err = RuntimeError {
        message: "divisão por zero".into(),
        file: "media.lep".into(),
        span: span(12, 11),
        stack: vec![],
    };
    assert_eq!(err.to_string(), "erro: divisão por zero em media.lep:12:11");
}

#[test]
fn display_prints_call_stack_innermost_first() {
    let err = RuntimeError {
        message: "índice 99 fora do intervalo".into(),
        file: "app.lep".into(),
        span: span(4, 1),
        stack: vec![
            CallFrame {
                name: "<modulo>".into(),
                file: "app.lep".into(),
                span: span(1, 1),
            },
            CallFrame {
                name: "pega".into(),
                file: "app.lep".into(),
                span: span(4, 1),
            },
        ],
    };
    let text = err.to_string();
    assert!(text.starts_with("erro: índice 99 fora do intervalo em app.lep:4:1"));
    assert!(text.contains("0: pega (app.lep:4:1)"));
    assert!(text.contains("1: <modulo> (app.lep:1:1)"));
    let pega = text.find("pega").unwrap();
    let modulo = text.find("<modulo>").unwrap();
    assert!(pega < modulo, "innermost frame should be listed first");
}

#[test]
fn call_stack_text_is_exact() {
    let err = RuntimeError {
        message: "x".into(),
        file: "t.lep".into(),
        span: span(2, 3),
        stack: vec![CallFrame {
            name: "f".into(),
            file: "t.lep".into(),
            span: span(1, 1),
        }],
    };
    assert_eq!(
        err.to_string(),
        "erro: x em t.lep:2:3\npilha de chamadas:\n  0: f (t.lep:1:1)"
    );
}
