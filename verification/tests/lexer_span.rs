use expressa::lexer::Span;

#[test]
fn empty_is_zero_width() {
    let s = Span::empty(2, 5, 10);
    assert!(s.is_empty());
    assert_eq!(s.len(), 0);
    assert_eq!(s.start, 10);
    assert_eq!(s.end, 10);
    assert_eq!(s.line, 2);
    assert_eq!(s.col, 5);
}

#[test]
fn at_and_lexeme() {
    let src = "x = 10";
    let s = Span::at(1, 5, 4, 2);
    assert_eq!(s.lexeme(src), "10");
    assert_eq!(s.len(), 2);
}

#[test]
fn join_covers_left_to_right() {
    let left = Span::new(1, 1, 0, 1);
    let right = Span::new(1, 5, 4, 6);
    let j = left.join(right);
    assert_eq!(j.start, 0);
    assert_eq!(j.end, 6);
    assert_eq!(j.line, 1);
    assert_eq!(j.col, 1);
    assert_eq!(j.lexeme("x = 10"), "x = 10");
}

#[test]
fn merge_order_independent() {
    let a = Span::new(1, 5, 4, 6);
    let b = Span::new(1, 1, 0, 1);
    assert_eq!(a.merge(b), b.merge(a));
    assert_eq!(a.merge(b).start, 0);
    assert_eq!(a.merge(b).end, 6);
}

#[test]
fn location_and_display() {
    let s = Span::new(3, 12, 40, 45);
    assert_eq!(s.location(), "3:12");
    assert_eq!(s.location_in("main.lep"), "main.lep:3:12");
    assert_eq!(s.location(), "3:12");
}

#[test]
fn contains_and_overlaps() {
    let s = Span::new(1, 1, 2, 5);
    assert!(s.contains_offset(2));
    assert!(s.contains_offset(4));
    assert!(!s.contains_offset(5));
    assert!(!s.contains_offset(1));

    let t = Span::new(1, 1, 4, 8);
    assert!(s.overlaps(t));
    let u = Span::new(1, 1, 5, 8);
    assert!(!s.overlaps(u));
}

#[test]
fn empty_spans_overlap_nothing() {
    let e = Span::empty(1, 4, 3);
    let s = Span::new(1, 1, 2, 5);
    assert!(!e.overlaps(s));
    assert!(!s.overlaps(e));
    assert!(!e.overlaps(e));
    assert!(s.overlaps(s));
}

#[test]
fn with_end_and_end_point() {
    let s = Span::new(1, 1, 0, 0).with_end(4);
    assert_eq!(s.end, 4);
    let p = s.end_point();
    assert!(p.is_empty());
    assert_eq!(p.start, 4);
}
