use expressa::runtime::env::{assign_frame, lookup_frame, AssignError, FrameInfo, FrameKind};

fn frame(kind: FrameKind, binds: bool) -> FrameInfo {
    FrameInfo { kind, binds }
}

#[test]
fn get_walks_parents() {
    // block inside a module that binds x
    let chain = vec![frame(FrameKind::Block, false), frame(FrameKind::Module, true)];
    assert_eq!(lookup_frame(&chain), Some(1));
    let chain = vec![frame(FrameKind::Block, false), frame(FrameKind::Module, false)];
    assert_eq!(lookup_frame(&chain), None);
}

#[test]
fn assign_updates_existing_outer_from_a_block() {
    let chain = vec![frame(FrameKind::Block, false), frame(FrameKind::Module, true)];
    assert_eq!(assign_frame(&chain, "x"), Ok(1));
}

#[test]
fn assign_declares_in_current_frame_when_name_is_new() {
    let chain = vec![frame(FrameKind::Block, false), frame(FrameKind::Module, false)];
    assert_eq!(assign_frame(&chain, "y"), Ok(0));
}

#[test]
fn function_may_read_but_not_write_outer_names() {
    let chain = vec![frame(FrameKind::Function, false), frame(FrameKind::Module, true)];
    assert_eq!(lookup_frame(&chain), Some(1));
    match assign_frame(&chain, "x") {
        Err(AssignError::FunctionBoundary { name }) => assert_eq!(name, "x"),
        other => panic!("expected FunctionBoundary, got {other:?}"),
    }
}

#[test]
fn function_locals_do_not_cross_the_write_barrier() {
    let chain = vec![frame(FrameKind::Function, false), frame(FrameKind::Module, false)];
    assert_eq!(assign_frame(&chain, "n"), Ok(0));
    let chain = vec![frame(FrameKind::Function, true), frame(FrameKind::Module, false)];
    assert_eq!(assign_frame(&chain, "n"), Ok(0));
}

#[test]
fn builtins_frame_is_read_only() {
    let chain = vec![frame(FrameKind::Module, false), frame(FrameKind::Builtins, true)];
    match assign_frame(&chain, "escreva") {
        Err(AssignError::Builtin { name }) => assert_eq!(name, "escreva"),
        other => panic!("expected Builtin, got {other:?}"),
    }
}

#[test]
fn block_inside_function_writes_the_function_local() {
    let chain = vec![
        frame(FrameKind::Block, false),
        frame(FrameKind::Function, true),
        frame(FrameKind::Module, true),
    ];
    assert_eq!(assign_frame(&chain, "n"), Ok(1));
}
