use expressa::lexer::Span;
use expressa::runtime::debug::{
    parse_breakpoint, source_line, stack_listing, stop_listing, strictly_inside, vars_listing,
    Reply, StepMode,
};
use expressa::runtime::{CallFrame, CliDebugger, DebugAction, FrameKind, NoopHook};

#[test]
fn breakpoint_spec() {
    assert_eq!(parse_breakpoint("12", "a.lep"), Some(("a.lep".into(), 12)));
    assert_eq!(
        parse_breakpoint("lib.lep:3", "a.lep"),
        Some(("lib.lep".into(), 3))
    );
    assert_eq!(parse_breakpoint("abc", "a.lep"), None);
}

#[test]
fn span_nesting() {
    let outer = Span::new(1, 1, 0, 20);
    let inner = Span::new(2, 1, 5, 10);
    assert!(strictly_inside(outer, inner));
    assert!(!strictly_inside(outer, outer));
    let sibling = Span::new(3, 1, 20, 25);
    assert!(!strictly_inside(outer, sibling));
}

#[test]
fn source_line_is_one_based() {
    let src = "a = 1\nb = 2\n";
    assert_eq!(source_line(src, 1), "a = 1");
    assert_eq!(source_line(src, 2), "b = 2");
    assert_eq!(source_line(src, 99), "");
}

#[test]
fn source_line_drops_carriage_returns() {
    assert_eq!(source_line("x\r\ny", 1), "x");
    assert_eq!(source_line("x\r\ny", 2), "y");
    assert_eq!(source_line("x\r", 1), "x\r");
    assert_eq!(source_line("x", 0), "x");
}

#[test]
fn breakpoint_spec_edge_cases() {
    assert_eq!(parse_breakpoint("+7", "a.lep"), Some(("a.lep".into(), 7)));
    assert_eq!(parse_breakpoint("lib.lep:x", "a.lep"), None);
    assert_eq!(parse_breakpoint("12:3", "a.lep"), None);
    assert_eq!(parse_breakpoint("4294967296", "a.lep"), None);
}

#[test]
fn commands_change_step_mode() {
    let span = Span::new(1, 1, 0, 5);
    let mut dbg = CliDebugger::new();

    let (a, _) = dbg.handle_command("continuar", "a.lep", span, 1);
    assert_eq!(a, Some(DebugAction::Continue));
    assert!(matches!(dbg.mode(), StepMode::Continue));

    let (a, _) = dbg.handle_command("entrar", "a.lep", span, 1);
    assert_eq!(a, Some(DebugAction::Continue));
    assert!(matches!(dbg.mode(), StepMode::StepIn));

    let (a, _) = dbg.handle_command("proximo", "a.lep", span, 1);
    assert_eq!(a, Some(DebugAction::Continue));
    assert!(matches!(dbg.mode(), StepMode::StepOver { depth: 1, .. }));

    let (a, _) = dbg.handle_command("sair", "a.lep", span, 1);
    assert_eq!(a, Some(DebugAction::Continue));
    assert!(matches!(dbg.mode(), StepMode::StepOut { depth: 0 }));

    let (a, _) = dbg.handle_command("terminar", "a.lep", span, 1);
    assert_eq!(a, Some(DebugAction::Quit));
    let (a, r) = dbg.handle_command("vars", "a.lep", span, 1);
    assert_eq!(a, None);
    assert!(matches!(r, Reply::Vars));
    let (a, r) = dbg.handle_command("xyzzy", "a.lep", span, 1);
    assert_eq!(a, None);
    match r {
        Reply::Text(t) => assert_eq!(t, "comando desconhecido: xyzzy (ajuda para a lista)"),
        _ => panic!("expected a text reply"),
    }
}

#[test]
fn ponto_and_remover_use_current_file() {
    let span = Span::new(3, 1, 0, 1);
    let mut dbg = CliDebugger::new();

    assert_eq!(dbg.handle_command("ponto 7", "media.lep", span, 0).0, None);
    assert!(dbg.has_breakpoint("media.lep", 7));

    assert_eq!(dbg.handle_command("ponto lib.lep:2", "media.lep", span, 0).0, None);
    assert!(dbg.has_breakpoint("lib.lep", 2));

    let (a, r) = dbg.handle_command("remover 7", "media.lep", span, 0);
    assert_eq!(a, None);
    assert!(!dbg.has_breakpoint("media.lep", 7));
    match r {
        Reply::Text(t) => assert_eq!(t, "removido media.lep:7"),
        _ => panic!("expected a text reply"),
    }
    match dbg.handle_command("remover 7", "media.lep", span, 0).1 {
        Reply::Text(t) => assert_eq!(t, "nenhum ponto de parada em media.lep:7"),
        _ => panic!("expected a text reply"),
    }
    match dbg.handle_command("remover", "media.lep", span, 0).1 {
        Reply::Text(t) => assert_eq!(t, "uso: remover linha"),
        _ => panic!("expected a text reply"),
    }
}

#[test]
fn continue_only_pauses_on_breakpoints() {
    let span3 = Span::new(3, 1, 0, 4);
    let span4 = Span::new(4, 1, 5, 8);
    let mut dbg = CliDebugger::new();
    dbg.set_mode(StepMode::Continue);
    dbg.add_breakpoint("a.lep".into(), 3);

    assert!(dbg.should_pause("a.lep", 3, span3, 0));
    assert!(!dbg.should_pause("a.lep", 4, span4, 0));
}

#[test]
fn step_in_pauses_on_every_statement() {
    let span = Span::new(1, 1, 0, 1);
    let mut dbg = CliDebugger::new();
    dbg.set_mode(StepMode::StepIn);
    assert!(dbg.should_pause("a.lep", 1, span, 0));
}

#[test]
fn step_over_skips_statements_nested_in_the_current_span() {
    let outer = Span::new(1, 1, 0, 20);
    let inner = Span::new(2, 1, 5, 10);
    let after = Span::new(3, 1, 21, 25);
    let mut dbg = CliDebugger::new();
    dbg.set_mode(StepMode::StepOver {
        depth: 1,
        file: "a.lep".into(),
        span: outer,
    });

    assert!(!dbg.should_pause("a.lep", 2, inner, 1));
    assert!(dbg.should_pause("a.lep", 3, after, 1));
    assert!(dbg.should_pause("a.lep", 2, inner, 0));
}

#[test]
fn step_out_pauses_when_the_call_stack_shrinks() {
    let span = Span::new(1, 1, 0, 1);
    let mut dbg = CliDebugger::new();
    dbg.set_mode(StepMode::StepOut { depth: 1 });

    assert!(!dbg.should_pause("a.lep", 1, span, 2));
    assert!(dbg.should_pause("a.lep", 1, span, 1));
}

#[test]
fn noop_hook_never_stops() {
    let mut hook = NoopHook;
    assert_eq!(hook.before_stmt(), DebugAction::Continue);
}

#[test]
fn first_statement_pauses_then_blank_repeats_the_last_command() {
    let span = Span::new(1, 1, 0, 1);
    let mut dbg = CliDebugger::new();
    dbg.set_mode(StepMode::Continue);
    assert!(dbg.before_stmt("a.lep", 1, span, 0));
    assert!(!dbg.before_stmt("a.lep", 1, span, 0));
    assert_eq!(dbg.command_line("  proximo  "), "proximo");
    assert_eq!(dbg.command_line("   "), "proximo");
}

#[test]
fn debugger_shows_stack_and_stop() {
    assert_eq!(stack_listing(&[]), "(pilha vazia)\n");
    let frames = vec![
        CallFrame { name: "main".into(), file: "a.lep".into(), span: Span::new(1, 1, 0, 4) },
        CallFrame { name: "soma".into(), file: "b.lep".into(), span: Span::new(3, 5, 20, 24) },
    ];
    assert_eq!(
        stack_listing(&frames),
        "  0: soma (b.lep:3:5)\n  1: main (a.lep:1:1)\n"
    );
    let src = "x = 1\n  escreva(x)   \nfim";
    assert_eq!(
        stop_listing("p.lep", Span::new(2, 3, 8, 15), src),
        "quebrado em p.lep:2:3\n   2 |   escreva(x)\n"
    );
    assert_eq!(
        stop_listing("p.lep", Span::new(12345, 1, 0, 0), src),
        "quebrado em p.lep:12345:1\n12345 | \n"
    );
}

#[test]
fn breakpoints_are_listed_in_order() {
    let mut d = CliDebugger::new();
    assert_eq!(d.breakpoint_listing(), "(nenhum ponto de parada)\n");
    d.add_breakpoint("b.lep".to_string(), 2);
    d.add_breakpoint("a.lep".to_string(), 10);
    d.add_breakpoint("a.lep".to_string(), 9);
    d.add_breakpoint("ab.lep".to_string(), 1);
    d.add_breakpoint("a.lep".to_string(), 10);
    assert_eq!(
        d.breakpoint_listing(),
        "  a.lep:9\n  a.lep:10\n  ab.lep:1\n  b.lep:2\n"
    );
}

#[test]
fn debugger_lists_visible_names() {
    assert_eq!(vars_listing(&Vec::new()), "(nenhuma variável)\n");
    let frames = vec![
        (FrameKind::Block, vec![("y".to_string(), "2".to_string())]),
        (FrameKind::Function, vec![]),
        (
            FrameKind::Module,
            vec![("a".to_string(), "[1, 2]".to_string()), ("x".to_string(), "oi".to_string())],
        ),
        (FrameKind::Builtins, vec![("raiz".to_string(), "<funcao raiz>".to_string())]),
    ];
    assert_eq!(
        vars_listing(&frames),
        "[bloco]\n  y = 2\n[módulo]\n  a = [1, 2]\n  x = oi\n"
    );
    let only_builtins = vec![(FrameKind::Builtins, vec![("raiz".to_string(), "f".to_string())])];
    assert_eq!(vars_listing(&only_builtins), "(nenhuma variável)\n");
}
