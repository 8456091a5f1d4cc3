//! How operators group: `e` binds tighter than `ou`.
use vstd::prelude::*;

use super::ast::{expr_span, BinaryOp, SExpr, SItem, SStmt};
use super::model::{
    binary_op_of, bp_loop, infix_power, is_comparison_tag, p_bp, p_expr, p_item, p_items, p_primary, p_program, p_stmt, p_unary, tag, tspan, ttext,
    PErr, TokV,
};
use super::parser::{lexed, parse_model};
use super::se_value::{se_expr, se_item, se_items};
use crate::lexer::model::tokens_of;
use crate::lexer::span::joined;
use crate::lexer::tokens::Tag;

verus! {

/// A token that no expression goes on through: the end, or a closing
/// bracket or comma of what holds the expression.
pub open spec fn closes_expr(t: Tag) -> bool {
    t == Tag::Eof || t == Tag::RParen || t == Tag::RBracket || t == Tag::Comma
}

/// The name at token `p`, as an expression.
pub open spec fn name_at(ts: Seq<TokV>, p: int) -> SExpr {
    SExpr::Ident { name: ttext(ts, p), span: tspan(ts, p) }
}

/// `l op r`, with the span from the start of `l` to the end of `r`.
pub open spec fn binary(l: SExpr, op: BinaryOp, r: SExpr) -> SExpr {
    SExpr::Binary {
        left: Box::new(l),
        op,
        right: Box::new(r),
        span: joined(expr_span(l), expr_span(r)),
    }
}

/// Three names with the operators `o1` and `o2` between them, then a token
/// that ends the expression.
pub open spec fn three_names(ts: Seq<TokV>, p: int, o1: Tag, o2: Tag) -> bool {
    &&& 0 <= p
    &&& p + 5 < ts.len()
    &&& tag(ts, p) == Tag::Ident
    &&& tag(ts, p + 1) == o1
    &&& tag(ts, p + 2) == Tag::Ident
    &&& tag(ts, p + 3) == o2
    &&& tag(ts, p + 4) == Tag::Ident
    &&& closes_expr(tag(ts, p + 5))
}

proof fn lemma_name(ts: Seq<TokV>, p: int)
    requires
        0 <= p < ts.len(),
        tag(ts, p) == Tag::Ident,
    ensures
        p_unary(ts, p) == Ok::<(SExpr, int), PErr>((name_at(ts, p), p + 1)),
{
    assert(p_primary(ts, p) == Ok::<(SExpr, int), PErr>((name_at(ts, p), p + 1)));
}

proof fn lemma_closed(ts: Seq<TokV>, p: int, min_bp: u8, lhs: SExpr)
    requires
        0 <= p < ts.len(),
        closes_expr(tag(ts, p)),
    ensures
        bp_loop(ts, p, min_bp, lhs) == Ok::<(SExpr, int), PErr>((lhs, p)),
{
}

/// `x ou y e z` reads as `x ou (y e z)`: the conjunction binds tighter than
/// the disjunction, whatever the names.
pub proof fn law_e_binds_tighter_after_ou(ts: Seq<TokV>, p: int)
    requires
        three_names(ts, p, Tag::Ou, Tag::E),
    ensures
        p_expr(ts, p) == Ok::<(SExpr, int), PErr>(
            (
                binary(
                    name_at(ts, p),
                    BinaryOp::Or,
                    binary(name_at(ts, p + 2), BinaryOp::And, name_at(ts, p + 4)),
                ),
                p + 5,
            ),
        ),
{
    let a = name_at(ts, p);
    let b = name_at(ts, p + 2);
    let c = name_at(ts, p + 4);
    let bc = binary(b, BinaryOp::And, c);
    let abc = binary(a, BinaryOp::Or, bc);
    lemma_name(ts, p);
    lemma_name(ts, p + 2);
    lemma_name(ts, p + 4);
    lemma_closed(ts, p + 5, 6, c);
    lemma_closed(ts, p + 5, 4, bc);
    lemma_closed(ts, p + 5, 0, abc);
    assert(p_bp(ts, p + 4, 6) == Ok::<(SExpr, int), PErr>((c, p + 5)));
    assert(bp_loop(ts, p + 3, 4, b) == Ok::<(SExpr, int), PErr>((bc, p + 5)));
    assert(p_bp(ts, p + 2, 4) == Ok::<(SExpr, int), PErr>((bc, p + 5)));
    assert(bp_loop(ts, p + 1, 0, a) == Ok::<(SExpr, int), PErr>((abc, p + 5)));
    assert(p_bp(ts, p, 0) == Ok::<(SExpr, int), PErr>((abc, p + 5)));
}

/// `x e y ou z` reads as `(x e y) ou z`: the conjunction binds tighter than
/// the disjunction, whatever the names.
pub proof fn law_e_binds_tighter_before_ou(ts: Seq<TokV>, p: int)
    requires
        three_names(ts, p, Tag::E, Tag::Ou),
    ensures
        p_expr(ts, p) == Ok::<(SExpr, int), PErr>(
            (
                binary(
                    binary(name_at(ts, p), BinaryOp::And, name_at(ts, p + 2)),
                    BinaryOp::Or,
                    name_at(ts, p + 4),
                ),
                p + 5,
            ),
        ),
{
    let a = name_at(ts, p);
    let b = name_at(ts, p + 2);
    let c = name_at(ts, p + 4);
    let ab = binary(a, BinaryOp::And, b);
    let abc = binary(ab, BinaryOp::Or, c);
    lemma_name(ts, p);
    lemma_name(ts, p + 2);
    lemma_name(ts, p + 4);
    lemma_closed(ts, p + 5, 4, c);
    lemma_closed(ts, p + 5, 0, abc);
    assert(bp_loop(ts, p + 3, 6, b) == Ok::<(SExpr, int), PErr>((b, p + 3)));
    assert(p_bp(ts, p + 2, 6) == Ok::<(SExpr, int), PErr>((b, p + 3)));
    assert(p_bp(ts, p + 4, 4) == Ok::<(SExpr, int), PErr>((c, p + 5)));
    assert(bp_loop(ts, p + 3, 0, ab) == Ok::<(SExpr, int), PErr>((abc, p + 5)));
    assert(bp_loop(ts, p + 1, 0, a) == Ok::<(SExpr, int), PErr>((abc, p + 5)));
    assert(p_bp(ts, p, 0) == Ok::<(SExpr, int), PErr>((abc, p + 5)));
}

/// How tightly an infix operator binds, from loosest (`se_falhar`) to
/// tightest (`*`, `/`, `%`); 0 for a token that is no infix operator.
pub open spec fn level(t: Tag) -> int {
    if t == Tag::SeFalhar {
        1
    } else if t == Tag::Ou {
        2
    } else if t == Tag::E {
        3
    } else if t == Tag::EqEq || t == Tag::BangEq || t == Tag::Lt || t == Tag::Gt || t == Tag::LtEq
        || t == Tag::GtEq || t == Tag::Contem {
        4
    } else if t == Tag::Plus || t == Tag::Minus {
        5
    } else if t == Tag::Star || t == Tag::Slash || t == Tag::Percent {
        6
    } else {
        0
    }
}

/// The operations that may not be chained (`a < b < c`).
pub open spec fn ordering_test(t: Tag) -> bool {
    t == Tag::EqEq || t == Tag::BangEq || t == Tag::Lt || t == Tag::Gt || t == Tag::LtEq || t
        == Tag::GtEq
}

/// The operation an infix operator token stands for.
pub open spec fn operation(t: Tag) -> BinaryOp {
    if t == Tag::Plus {
        BinaryOp::Add
    } else if t == Tag::Minus {
        BinaryOp::Sub
    } else if t == Tag::Star {
        BinaryOp::Mul
    } else if t == Tag::Slash {
        BinaryOp::Div
    } else if t == Tag::Percent {
        BinaryOp::Rem
    } else if t == Tag::EqEq {
        BinaryOp::Eq
    } else if t == Tag::BangEq {
        BinaryOp::Ne
    } else if t == Tag::Lt {
        BinaryOp::Lt
    } else if t == Tag::Gt {
        BinaryOp::Gt
    } else if t == Tag::LtEq {
        BinaryOp::Le
    } else if t == Tag::GtEq {
        BinaryOp::Ge
    } else if t == Tag::E {
        BinaryOp::And
    } else if t == Tag::Ou {
        BinaryOp::Or
    } else {
        BinaryOp::Contem
    }
}

/// `l t r` for the infix operator `t`.
pub open spec fn combined(l: SExpr, t: Tag, r: SExpr) -> SExpr {
    if t == Tag::SeFalhar {
        SExpr::SeFalhar {
            attempt: Box::new(l),
            fallback: Box::new(r),
            span: joined(expr_span(l), expr_span(r)),
        }
    } else {
        binary(l, operation(t), r)
    }
}

proof fn lemma_power(t: Tag)
    requires
        level(t) > 0,
    ensures
        infix_power(t) == Some(((2 * level(t) - 1) as u8, (2 * level(t)) as u8)),
        t != Tag::SeFalhar ==> binary_op_of(t) == operation(t),
        is_comparison_tag(t) == ordering_test(t),
        t != Tag::LParen && t != Tag::LBracket && t != Tag::Dot,
{
}

/// How `x o1 y o2 z` groups, for any names and any two infix operators: to
/// the right, `x o1 (y o2 z)`, when `o2` binds tighter than `o1`; else to
/// the left, `(x o1 y) o2 z` (so operators of one level associate to the
/// left), except that two order tests in a row are refused.
#[verifier::spinoff_prover]
pub proof fn law_operator_grouping(ts: Seq<TokV>, p: int, o1: Tag, o2: Tag)
    requires
        three_names(ts, p, o1, o2),
        level(o1) > 0,
        level(o2) > 0,
    ensures
        level(o2) > level(o1) ==> p_expr(ts, p) == Ok::<(SExpr, int), PErr>(
            (
                combined(name_at(ts, p), o1, combined(name_at(ts, p + 2), o2, name_at(ts, p + 4))),
                p + 5,
            ),
        ),
        level(o2) <= level(o1) && !(ordering_test(o1) && ordering_test(o2)) ==> p_expr(ts, p)
            == Ok::<(SExpr, int), PErr>(
            (
                combined(combined(name_at(ts, p), o1, name_at(ts, p + 2)), o2, name_at(ts, p + 4)),
                p + 5,
            ),
        ),
        ordering_test(o1) && ordering_test(o2) ==> (p_expr(ts, p) matches Err(e) && e.msg
            == "comparações não podem ser encadeadas; use 'e' (ex.: a < b e b < c)"@),
{
    let a = name_at(ts, p);
    let b = name_at(ts, p + 2);
    let c = name_at(ts, p + 4);
    lemma_power(o1);
    lemma_power(o2);
    let r1 = (2 * level(o1)) as u8;
    let r2 = (2 * level(o2)) as u8;
    lemma_name(ts, p);
    lemma_name(ts, p + 2);
    lemma_name(ts, p + 4);
    lemma_closed(ts, p + 5, r2, c);
    lemma_closed(ts, p + 5, r1, c);
    assert(p_bp(ts, p + 4, r2) == Ok::<(SExpr, int), PErr>((c, p + 5)));
    assert(p_bp(ts, p + 4, r1) == Ok::<(SExpr, int), PErr>((c, p + 5)));
    if level(o2) > level(o1) {
        let bc = combined(b, o2, c);
        let abc = combined(a, o1, bc);
        lemma_closed(ts, p + 5, r1, bc);
        lemma_closed(ts, p + 5, 0, abc);
        assert(bp_loop(ts, p + 3, r1, b) == Ok::<(SExpr, int), PErr>((bc, p + 5)));
        assert(p_bp(ts, p + 2, r1) == Ok::<(SExpr, int), PErr>((bc, p + 5)));
        assert(bp_loop(ts, p + 1, 0, a) == Ok::<(SExpr, int), PErr>((abc, p + 5)));
    } else {
        let ab = combined(a, o1, b);
        assert(bp_loop(ts, p + 3, r1, b) == Ok::<(SExpr, int), PErr>((b, p + 3)));
        assert(p_bp(ts, p + 2, r1) == Ok::<(SExpr, int), PErr>((b, p + 3)));
        assert(bp_loop(ts, p + 1, 0, a) == bp_loop(ts, p + 3, 0, ab));
        if !(ordering_test(o1) && ordering_test(o2)) {
            let abc = combined(ab, o2, c);
            lemma_closed(ts, p + 5, 0, abc);
            assert(bp_loop(ts, p + 3, 0, ab) == Ok::<(SExpr, int), PErr>((abc, p + 5)));
        }
    }
}

/// A prefix operator binds tighter than any infix one: `-x o y` and
/// `nao x o y` read as `(-x) o y` and `(nao x) o y`, for any names and any
/// infix operator `o`.
#[verifier::spinoff_prover]
pub proof fn law_prefix_binds_tightest(ts: Seq<TokV>, p: int, o: Tag)
    requires
        0 <= p,
        p + 4 < ts.len(),
        tag(ts, p) == Tag::Minus || tag(ts, p) == Tag::Nao,
        tag(ts, p + 1) == Tag::Ident,
        tag(ts, p + 2) == o,
        level(o) > 0,
        tag(ts, p + 3) == Tag::Ident,
        closes_expr(tag(ts, p + 4)),
    ensures
        ({
            let x = name_at(ts, p + 1);
            let ux = SExpr::Unary {
                op: if tag(ts, p) == Tag::Minus {
                    super::ast::UnaryOp::Neg
                } else {
                    super::ast::UnaryOp::Not
                },
                expr: Box::new(x),
                span: joined(tspan(ts, p), expr_span(x)),
            };
            p_expr(ts, p) == Ok::<(SExpr, int), PErr>((combined(ux, o, name_at(ts, p + 3)), p + 4))
        }),
{
    let x = name_at(ts, p + 1);
    let y = name_at(ts, p + 3);
    let ux = SExpr::Unary {
        op: if tag(ts, p) == Tag::Minus {
            super::ast::UnaryOp::Neg
        } else {
            super::ast::UnaryOp::Not
        },
        expr: Box::new(x),
        span: joined(tspan(ts, p), expr_span(x)),
    };
    lemma_power(o);
    let r = (2 * level(o)) as u8;
    lemma_name(ts, p + 1);
    lemma_name(ts, p + 3);
    assert(p_unary(ts, p) == Ok::<(SExpr, int), PErr>((ux, p + 2)));
    lemma_closed(ts, p + 4, r, y);
    assert(p_bp(ts, p + 3, r) == Ok::<(SExpr, int), PErr>((y, p + 4)));
    let e = combined(ux, o, y);
    lemma_closed(ts, p + 4, 0, e);
    assert(!super::model::is_comparison_expr(ux));
    assert(bp_loop(ts, p + 2, 0, ux) == Ok::<(SExpr, int), PErr>((e, p + 4)));
}

/// `x ou (y e z)` as the statement it makes.
pub open spec fn or_and_stmt(ts: Seq<TokV>) -> SStmt {
    let e = binary(name_at(ts, 0), BinaryOp::Or, binary(name_at(ts, 2), BinaryOp::And, name_at(ts, 4)));
    SStmt::Expr { expr: e, span: expr_span(e) }
}

#[verifier::spinoff_prover]
proof fn lemma_or_and_program(ts: Seq<TokV>)
    requires
        ts.len() == 6,
        three_names(ts, 0, Tag::Ou, Tag::E),
        tag(ts, 5) == Tag::Eof,
    ensures
        p_program(ts) matches Ok(prog) && prog.items == seq![SItem::Stmt(or_and_stmt(ts))],
{
    law_e_binds_tighter_after_ou(ts, 0);
    let st = or_and_stmt(ts);
    assert(p_stmt(ts, 0) == Ok::<(SStmt, int), PErr>((st, 5)));
    assert(p_item(ts, 0) == Ok::<(SItem, int), PErr>((SItem::Stmt(st), 5)));
    assert(Seq::<SItem>::empty().push(SItem::Stmt(st)) =~= seq![SItem::Stmt(st)]);
    assert(p_items(ts, 5, seq![SItem::Stmt(st)]) == Ok::<(Seq<SItem>, int), PErr>(
        (seq![SItem::Stmt(st)], 5),
    ));
    assert(p_items(ts, 0, Seq::empty()) == Ok::<(Seq<SItem>, int), PErr>((seq![SItem::Stmt(st)], 5)));
}

proof fn lemma_or_and_no_se(ts: Seq<TokV>)
    ensures
        se_items(seq![SItem::Stmt(or_and_stmt(ts))]) is None,
{
    let items = seq![SItem::Stmt(or_and_stmt(ts))];
    let bc = binary(name_at(ts, 2), BinaryOp::And, name_at(ts, 4));
    let e = binary(name_at(ts, 0), BinaryOp::Or, bc);
    assert(se_expr(name_at(ts, 0), true) is None);
    assert(se_expr(name_at(ts, 2), true) is None);
    assert(se_expr(name_at(ts, 4), true) is None);
    assert(se_expr(bc, true) is None);
    assert(se_expr(e, false) is None);
    assert(se_item(items[0]) is None);
    assert(items.drop_first() =~= Seq::<SItem>::empty());
    assert(se_items(items.drop_first()) is None);
}

/// A program that is just `x ou y e z` (any three names) parses as one
/// statement, `x ou (y e z)`.
#[verifier::spinoff_prover]
#[verifier::rlimit(80)]
pub proof fn law_parse_groups_e_before_ou(s: Seq<char>)
    requires
        tokens_of(s) matches Ok(tm) && tm.len() == 6 && three_names(lexed(s, tm), 0, Tag::Ou, Tag::E)
            && tag(lexed(s, tm), 5) == Tag::Eof,
    ensures
        parse_model(s) matches Ok(prog) && prog.items == seq![
            SItem::Stmt(or_and_stmt(lexed(s, tokens_of(s)->Ok_0))),
        ],
{
    let tm = tokens_of(s)->Ok_0;
    let ts = lexed(s, tm);
    lemma_or_and_program(ts);
    lemma_or_and_no_se(ts);
}

} // verus!
