//! Where parsed expressions stand: an expression's span covers the spans of
//! the expressions it is made of.
use vstd::prelude::*;

use super::ast::{expr_span, SBlock, SExpr, SIfBranch, SItem, SMapEntry, SProgram, SStmt, STarget};
use super::model::{
    block_stmts, bp_loop, expr_list, finish_call, finish_field, finish_index, finish_list,
    infix_power, map_entries, moved, ok_pos, ou_se, p_block, p_bp, p_expr, p_function, p_if,
    p_item, p_items, p_map, p_para, p_primary, p_program, p_repita, p_stmt, p_unary, tag, tspan, TokV,
};
use super::parser::{lexed, parse_model};
use crate::lexer::model::{law_tokens_in_order, span_of, tokens_of};
use crate::lexer::span::{joined, Span};
use crate::text::{byte_off, lemma_byte_off_mono};
use crate::lexer::tokens::Tag;

verus! {

/// `outer` covers `inner`: it starts no later and ends no sooner.
pub open spec fn covers(outer: Span, inner: Span) -> bool {
    outer.start <= inner.start && inner.end <= outer.end
}

/// The span of `e` does not end before it starts, and covers the spans of
/// the expressions `e` is made of (operands, callee and arguments, object,
/// index and bounds, list and map items, conditions of `se`), which are
/// nested in turn; the expressions in the statements of a block, or of the
/// body of a function or of a branch, are nested too.
pub open spec fn spans_nested(e: SExpr) -> bool
    decreases e,
{
    let sp = expr_span(e);
    &&& sp.start <= sp.end
    &&& match e {
        SExpr::List { elements, span } => forall|k: int|
            0 <= k < elements.len() ==> covers(span, expr_span(#[trigger] elements[k]))
                && spans_nested(elements[k]),
        SExpr::Matrix { rows, span } => forall|k: int|
            0 <= k < rows.len() ==> covers(span, expr_span(#[trigger] rows[k])) && spans_nested(
                rows[k],
            ),
        SExpr::Mapa { entries, span } => forall|k: int|
            0 <= k < entries.len() ==> covers(span, expr_span(#[trigger] entries[k].key))
                && covers(span, expr_span(entries[k].value)) && spans_nested(entries[k].key)
                && spans_nested(entries[k].value),
        SExpr::Field { object, span, .. } => covers(span, expr_span(*object)) && spans_nested(
            *object,
        ),
        SExpr::MapField { object, span, .. } => covers(span, expr_span(*object)) && spans_nested(
            *object,
        ),
        SExpr::Call { callee, args, span } => covers(span, expr_span(*callee)) && spans_nested(
            *callee,
        ) && forall|k: int|
            0 <= k < args.len() ==> covers(span, expr_span(#[trigger] args[k])) && spans_nested(
                args[k],
            ),
        SExpr::Index { object, index, span } => covers(span, expr_span(*object)) && covers(
            span,
            expr_span(*index),
        ) && spans_nested(*object) && spans_nested(*index),
        SExpr::Index2 { object, row, col, span } => covers(span, expr_span(*object)) && covers(
            span,
            expr_span(*row),
        ) && covers(span, expr_span(*col)) && spans_nested(*object) && spans_nested(*row)
            && spans_nested(*col),
        SExpr::Slice { object, start, end, span } => covers(span, expr_span(*object)) && covers(
            span,
            expr_span(*start),
        ) && covers(span, expr_span(*end)) && spans_nested(*object) && spans_nested(*start)
            && spans_nested(*end),
        SExpr::Unary { expr, span, .. } => covers(span, expr_span(*expr)) && spans_nested(*expr),
        SExpr::Binary { left, right, span, .. } => covers(span, expr_span(*left)) && covers(
            span,
            expr_span(*right),
        ) && spans_nested(*left) && spans_nested(*right),
        SExpr::SeFalhar { attempt, fallback, span } => covers(span, expr_span(*attempt)) && covers(
            span,
            expr_span(*fallback),
        ) && spans_nested(*attempt) && spans_nested(*fallback),
        SExpr::If { branches, else_block, span } => (forall|k: int|
            0 <= k < branches.len() ==> covers(span, expr_span(#[trigger] branches[k].cond))
                && spans_nested(branches[k].cond) && block_nested(branches[k].body)) && (
        else_block matches Some(eb) ==> block_nested(eb)),
        SExpr::Function { body, .. } => block_nested(body),
        SExpr::Block(b) => block_nested(b),
        _ => true,
    }
}

/// The expressions in the statements of `b` have nested spans.
pub open spec fn block_nested(b: SBlock) -> bool
    decreases b,
{
    forall|k: int| 0 <= k < b.stmts.len() ==> stmt_nested(#[trigger] b.stmts[k])
}

/// The expressions of `s`, and those in the statements of its body, have
/// nested spans.
pub open spec fn stmt_nested(s: SStmt) -> bool
    decreases s,
{
    match s {
        SStmt::Expr { expr, .. } => spans_nested(expr),
        SStmt::Assign { target, value, .. } => spans_nested(value) && match target {
            STarget::Name { .. } => true,
            STarget::Index { object, index, .. } => spans_nested(object) && spans_nested(index),
        },
        SStmt::Repita { count, body, .. } => spans_nested(count) && block_nested(body),
        SStmt::ParaRange { from, to, body, .. } => spans_nested(from) && spans_nested(to)
            && block_nested(body),
        SStmt::ParaIn { iter, body, .. } => spans_nested(iter) && block_nested(body),
    }
}

/// The expressions of every statement among `items` have nested spans.
pub open spec fn items_nested(items: Seq<SItem>) -> bool {
    forall|k: int| 0 <= k < items.len() ==> (#[trigger] items[k] matches SItem::Stmt(s) ==> stmt_nested(s))
}

/// The expressions of every statement of `prog` have nested spans.
pub open spec fn program_nested(prog: SProgram) -> bool {
    items_nested(prog.items)
}

/// The token spans do not end before they start, and each token ends before
/// the next one starts (as the scanner gives them).
pub open spec fn tokens_ordered(ts: Seq<TokV>) -> bool {
    &&& forall|i: int| 0 <= i < ts.len() ==> (#[trigger] ts[i]).span.start <= ts[i].span.end
    &&& forall|i: int, j: int|
        0 <= i < j < ts.len() ==> (#[trigger] ts[i]).span.end <= (#[trigger] ts[j]).span.start
}

/// `e`, read from the tokens `p` up to (not including) `q`, lies within them
/// and has nested spans.
pub open spec fn read_within(ts: Seq<TokV>, p: int, e: SExpr, q: int) -> bool {
    &&& 0 <= p < q <= ts.len()
    &&& ts[p].span.start <= expr_span(e).start
    &&& expr_span(e).end <= ts[q - 1].span.end
    &&& spans_nested(e)
}

proof fn lemma_order(ts: Seq<TokV>, i: int, j: int)
    requires
        tokens_ordered(ts),
        0 <= i <= j < ts.len(),
    ensures
        ts[i].span.start <= ts[j].span.start,
        ts[i].span.end <= ts[j].span.end,
        i < j ==> ts[i].span.end <= ts[j].span.start,
        ts[i].span.start <= ts[i].span.end,
        ts[j].span.start <= ts[j].span.end,
{
    if i < j {
        assert(ts[i].span.end <= ts[j].span.start);
    }
    assert(ts[i].span.start <= ts[i].span.end);
    assert(ts[j].span.start <= ts[j].span.end);
}

proof fn lemma_block_stmts(ts: Seq<TokV>, p: int, close: Tag, start: Span, acc: Seq<SStmt>)
    requires
        tokens_ordered(ts),
        forall|k: int| 0 <= k < acc.len() ==> stmt_nested(#[trigger] acc[k]),
    ensures
        block_stmts(ts, p, close, start, acc) matches Ok((b, r)) ==> p < r <= ts.len() && b.span
            == joined(start, ts[r - 1].span) && block_nested(b),
    decreases ts.len() - p, 21int,
{
    if ok_pos(ts, p) && !(tag(ts, p) == close || tag(ts, p) == Tag::Eof) {
        lemma_stmt(ts, p);
        match p_stmt(ts, p) {
            Ok((s, q)) => if moved(ts, p, q) {
                let acc2 = acc.push(s);
                assert forall|k: int| 0 <= k < acc2.len() implies stmt_nested(#[trigger] acc2[k]) by {
                    if k < acc.len() {
                        assert(acc2[k] == acc[k]);
                    }
                }
                lemma_block_stmts(ts, q, close, start, acc2);
            },
            Err(_) => {},
        }
    }
}

proof fn lemma_block(ts: Seq<TokV>, p: int)
    requires
        tokens_ordered(ts),
    ensures
        p_block(ts, p) matches Ok((b, r)) ==> 0 <= p < r <= ts.len() && b.span.start
            == ts[p].span.start && b.span.end == ts[r - 1].span.end && b.span.start <= b.span.end
            && block_nested(b),
    decreases ts.len() - p, 14int,
{
    if ok_pos(ts, p) {
        if tag(ts, p) == Tag::Inicio {
            lemma_block_stmts(ts, p + 1, Tag::Fim, tspan(ts, p), Seq::empty());
        } else if tag(ts, p) == Tag::LBrace {
            lemma_block_stmts(ts, p + 1, Tag::RBrace, tspan(ts, p), Seq::empty());
        }
        match p_block(ts, p) {
            Ok((b, r)) => {
                lemma_order(ts, p, r - 1);
            },
            Err(_) => {},
        }
    }
}

proof fn lemma_stmt(ts: Seq<TokV>, p: int)
    requires
        tokens_ordered(ts),
    ensures
        p_stmt(ts, p) matches Ok((s, q)) ==> stmt_nested(s),
    decreases ts.len() - p, 20int,
{
    if ok_pos(ts, p) {
        if tag(ts, p) == Tag::Repita {
            lemma_repita(ts, p);
        } else if tag(ts, p) == Tag::Para {
            lemma_para(ts, p);
        } else {
            lemma_expr(ts, p);
            match p_expr(ts, p) {
                Ok((e, q)) => if moved(ts, p, q) && tag(ts, q) == Tag::Eq {
                    lemma_expr(ts, q + 1);
                },
                Err(_) => {},
            }
        }
    }
}

proof fn lemma_repita(ts: Seq<TokV>, p: int)
    requires
        tokens_ordered(ts),
    ensures
        p_repita(ts, p) matches Ok((s, q)) ==> stmt_nested(s),
    decreases ts.len() - p, 19int,
{
    if ok_pos(ts, p + 1) && p >= 0 {
        lemma_expr(ts, p + 1);
        match p_expr(ts, p + 1) {
            Ok((count, q)) => if moved(ts, p, q) {
                lemma_block(ts, q + 1);
            },
            Err(_) => {},
        }
    }
}

proof fn lemma_para(ts: Seq<TokV>, p: int)
    requires
        tokens_ordered(ts),
    ensures
        p_para(ts, p) matches Ok((s, q)) ==> stmt_nested(s),
    decreases ts.len() - p, 19int,
{
    if ok_pos(ts, p + 1) && p >= 0 && ok_pos(ts, p + 2) {
        lemma_expr(ts, p + 3);
        match p_expr(ts, p + 3) {
            Ok((e, q)) => if moved(ts, p, q) {
                lemma_block(ts, q);
                lemma_expr(ts, q + 1);
                match p_expr(ts, q + 1) {
                    Ok((to, r)) => if moved(ts, p, r) {
                        lemma_block(ts, r);
                    },
                    Err(_) => {},
                }
            },
            Err(_) => {},
        }
    }
}

proof fn lemma_expr(ts: Seq<TokV>, p: int)
    requires
        tokens_ordered(ts),
    ensures
        p_expr(ts, p) matches Ok((e, q)) ==> read_within(ts, p, e, q),
    decreases ts.len() - p, 18int,
{
    lemma_bp(ts, p, 0);
}

proof fn lemma_bp(ts: Seq<TokV>, p: int, min_bp: u8)
    requires
        tokens_ordered(ts),
    ensures
        p_bp(ts, p, min_bp) matches Ok((e, q)) ==> read_within(ts, p, e, q),
    decreases ts.len() - p, 17int,
{
    lemma_unary(ts, p);
    match p_unary(ts, p) {
        Ok((lhs, q)) => if moved(ts, p, q) {
            lemma_bp_loop(ts, p, q, min_bp, lhs);
        },
        Err(_) => {},
    }
}

proof fn lemma_bp_loop(ts: Seq<TokV>, p0: int, p: int, min_bp: u8, lhs: SExpr)
    requires
        tokens_ordered(ts),
        read_within(ts, p0, lhs, p),
    ensures
        bp_loop(ts, p, min_bp, lhs) matches Ok((e, q)) ==> read_within(ts, p0, e, q),
    decreases ts.len() - p, 12int,
{
    if ok_pos(ts, p) {
        lemma_order(ts, p - 1, p);
        if tag(ts, p) == Tag::LParen {
            lemma_finish_call(ts, p0, p, lhs);
            match finish_call(ts, p, lhs) {
                Ok((e, q)) => if moved(ts, p, q) {
                    lemma_bp_loop(ts, p0, q, min_bp, e);
                },
                Err(_) => {},
            }
        } else if tag(ts, p) == Tag::LBracket {
            lemma_finish_index(ts, p0, p, lhs);
            match finish_index(ts, p, lhs) {
                Ok((e, q)) => if moved(ts, p, q) {
                    lemma_bp_loop(ts, p0, q, min_bp, e);
                },
                Err(_) => {},
            }
        } else if tag(ts, p) == Tag::Dot {
            lemma_finish_field(ts, p0, p, lhs);
            match finish_field(ts, p, lhs) {
                Ok((e, q)) => if moved(ts, p, q) {
                    lemma_bp_loop(ts, p0, q, min_bp, e);
                },
                Err(_) => {},
            }
        } else {
            match infix_power(tag(ts, p)) {
                None => {},
                Some((l_bp, r_bp)) => {
                    lemma_bp(ts, p + 1, r_bp);
                    match p_bp(ts, p + 1, r_bp) {
                        Ok((rhs, q)) => if moved(ts, p, q) {
                            lemma_order(ts, p, p + 1);
                            lemma_order(ts, p + 1, q - 1);
                            lemma_order(ts, p0, p + 1);
                            let span = joined(expr_span(lhs), expr_span(rhs));
                            let e = if tag(ts, p) == Tag::SeFalhar {
                                SExpr::SeFalhar {
                                    attempt: Box::new(lhs),
                                    fallback: Box::new(rhs),
                                    span,
                                }
                            } else {
                                SExpr::Binary {
                                    left: Box::new(lhs),
                                    op: super::model::binary_op_of(tag(ts, p)),
                                    right: Box::new(rhs),
                                    span,
                                }
                            };
                            assert(read_within(ts, p0, e, q));
                            lemma_bp_loop(ts, p0, q, min_bp, e);
                        },
                        Err(_) => {},
                    }
                },
            }
        }
    }
}

/// Elements read by `expr_list` from `p` on, after `acc`.
proof fn lemma_expr_list(ts: Seq<TokV>, p: int, close: Tag, acc: Seq<SExpr>, lo: int)
    requires
        tokens_ordered(ts),
        0 <= p < ts.len(),
        lo <= ts[p].span.start,
        forall|k: int|
            0 <= k < acc.len() ==> lo <= expr_span(#[trigger] acc[k]).start && expr_span(
                acc[k],
            ).end <= ts[p].span.start && spans_nested(acc[k]),
    ensures
        expr_list(ts, p, close, acc) matches Ok((els, q)) ==> p < q <= ts.len() && forall|k: int|
            0 <= k < els.len() ==> lo <= expr_span(#[trigger] els[k]).start && expr_span(
                els[k],
            ).end <= ts[q - 1].span.end && spans_nested(els[k]),
    decreases ts.len() - p, 19int,
{
    lemma_expr(ts, p);
    match p_expr(ts, p) {
        Ok((e, q)) => if moved(ts, p, q) {
            lemma_order(ts, q - 1, q);
            lemma_order(ts, p, q - 1);
            if tag(ts, q) == Tag::Comma {
                if ok_pos(ts, q + 1) {
                    lemma_order(ts, q, q + 1);
                    let acc2 = acc.push(e);
                    assert forall|k: int| 0 <= k < acc2.len() implies lo <= expr_span(
                        #[trigger] acc2[k],
                    ).start && expr_span(acc2[k]).end <= ts[q + 1].span.start && spans_nested(
                        acc2[k],
                    ) by {
                        if k < acc.len() {
                            assert(acc2[k] == acc[k]);
                            lemma_order(ts, p, q + 1);
                        }
                    }
                    if tag(ts, q + 1) != close {
                        lemma_expr_list(ts, q + 1, close, acc2, lo);
                    } else {
                        assert forall|k: int| 0 <= k < acc2.len() implies lo <= expr_span(
                            #[trigger] acc2[k],
                        ).start && expr_span(acc2[k]).end <= ts[q + 1 - 1].span.end
                            && spans_nested(acc2[k]) by {
                            if k < acc.len() {
                                assert(acc2[k] == acc[k]);
                                lemma_order(ts, p, q);
                            }
                        }
                    }
                }
            } else {
                let acc2 = acc.push(e);
                assert forall|k: int| 0 <= k < acc2.len() implies lo <= expr_span(
                    #[trigger] acc2[k],
                ).start && expr_span(acc2[k]).end <= ts[q - 1].span.end && spans_nested(
                    acc2[k],
                ) by {
                    if k < acc.len() {
                        assert(acc2[k] == acc[k]);
                    }
                }
            }
        },
        Err(_) => {},
    }
}

proof fn lemma_finish_call(ts: Seq<TokV>, p0: int, p: int, callee: SExpr)
    requires
        tokens_ordered(ts),
        read_within(ts, p0, callee, p),
    ensures
        finish_call(ts, p, callee) matches Ok((e, q)) ==> read_within(ts, p0, e, q),
    decreases ts.len() - p, 11int,
{
    if ok_pos(ts, p + 1) && p >= 0 {
        lemma_order(ts, p - 1, p);
        lemma_order(ts, p, p + 1);
        if tag(ts, p + 1) != Tag::RParen {
            lemma_expr_list(ts, p + 1, Tag::RParen, Seq::empty(), ts[p + 1].span.start as int);
        }
        match finish_call(ts, p, callee) {
            Ok((e, q1)) => {
                let q = q1 - 1;
                lemma_order(ts, p + 1, q);
                lemma_order(ts, p0, q);
                if q > p + 1 {
                    lemma_order(ts, q - 1, q);
                }
            },
            Err(_) => {},
        }
    }
}

proof fn lemma_finish_index(ts: Seq<TokV>, p0: int, p: int, object: SExpr)
    requires
        tokens_ordered(ts),
        read_within(ts, p0, object, p),
    ensures
        finish_index(ts, p, object) matches Ok((e, q)) ==> read_within(ts, p0, e, q),
    decreases ts.len() - p, 11int,
{
    if ok_pos(ts, p + 1) && p >= 0 {
        lemma_order(ts, p - 1, p);
        lemma_order(ts, p, p + 1);
        lemma_expr(ts, p + 1);
        match p_expr(ts, p + 1) {
            Ok((first, q)) => if moved(ts, p, q) {
                lemma_order(ts, p + 1, q - 1);
                lemma_order(ts, q - 1, q);
                lemma_order(ts, p0, q);
                if tag(ts, q) == Tag::DotDot {
                    lemma_expr(ts, q + 1);
                    match p_expr(ts, q + 1) {
                        Ok((end_e, r)) => if ok_pos(ts, r) {
                            lemma_order(ts, q, q + 1);
                            lemma_order(ts, q + 1, r - 1);
                            lemma_order(ts, r - 1, r);
                            lemma_order(ts, p0, r);
                        },
                        Err(_) => {},
                    }
                }
            },
            Err(_) => {},
        }
    }
}

proof fn lemma_finish_field(ts: Seq<TokV>, p0: int, p: int, object: SExpr)
    requires
        tokens_ordered(ts),
        read_within(ts, p0, object, p),
    ensures
        finish_field(ts, p, object) matches Ok((e, q)) ==> read_within(ts, p0, e, q),
    decreases ts.len() - p, 11int,
{
    if ok_pos(ts, p + 1) && p >= 0 {
        lemma_order(ts, p - 1, p);
        lemma_order(ts, p, p + 1);
        lemma_order(ts, p0, p + 1);
    }
}

proof fn lemma_unary(ts: Seq<TokV>, p: int)
    requires
        tokens_ordered(ts),
    ensures
        p_unary(ts, p) matches Ok((e, q)) ==> read_within(ts, p, e, q),
    decreases ts.len() - p, 16int,
{
    if ok_pos(ts, p) {
        if tag(ts, p) == Tag::Minus || tag(ts, p) == Tag::Nao {
            lemma_unary(ts, p + 1);
            match p_unary(ts, p + 1) {
                Ok((e, q)) => {
                    lemma_order(ts, p, p + 1);
                    lemma_order(ts, p, q - 1);
                },
                Err(_) => {},
            }
        } else {
            lemma_primary(ts, p);
        }
    }
}

proof fn lemma_primary(ts: Seq<TokV>, p: int)
    requires
        tokens_ordered(ts),
    ensures
        p_primary(ts, p) matches Ok((e, q)) ==> read_within(ts, p, e, q),
    decreases ts.len() - p, 15int,
{
    if ok_pos(ts, p) {
        lemma_order(ts, p, p);
        let t = tag(ts, p);
        if t == Tag::LParen {
            lemma_expr(ts, p + 1);
            match p_expr(ts, p + 1) {
                Ok((e, q)) => if ok_pos(ts, q) {
                    lemma_order(ts, p, p + 1);
                    lemma_order(ts, q - 1, q);
                },
                Err(_) => {},
            }
        } else if t == Tag::LBracket {
            lemma_finish_list(ts, p + 1, tspan(ts, p));
        } else if t == Tag::Inicio || t == Tag::LBrace {
            lemma_block(ts, p);
        } else if t == Tag::Se {
            lemma_if(ts, p);
        } else if t == Tag::Funcao {
            lemma_function(ts, p);
        } else if t == Tag::Mapa {
            lemma_map(ts, p);
        }
    }
}

proof fn lemma_finish_list(ts: Seq<TokV>, p: int, start: Span)
    requires
        tokens_ordered(ts),
        1 <= p,
        p - 1 < ts.len(),
        start == ts[p - 1].span,
    ensures
        finish_list(ts, p, start) matches Ok((e, q)) ==> read_within(ts, p - 1, e, q),
    decreases ts.len() - p, 22int,
{
    if ok_pos(ts, p) {
        lemma_order(ts, p - 1, p);
        if tag(ts, p) != Tag::RBracket {
            lemma_expr_list(ts, p, Tag::RBracket, Seq::empty(), ts[p].span.start as int);
        }
        match finish_list(ts, p, start) {
            Ok((e, q1)) => {
                let q = q1 - 1;
                lemma_order(ts, p - 1, q);
                lemma_order(ts, p, q);
                if q > p {
                    lemma_order(ts, q - 1, q);
                }
            },
            Err(_) => {},
        }
    }
}

/// The branches read by `ou_se` from `p` on, after `acc`.
proof fn lemma_ou_se(ts: Seq<TokV>, p: int, acc: Seq<SIfBranch>, lo: int)
    requires
        tokens_ordered(ts),
        0 < p <= ts.len(),
        acc.len() > 0,
        lo <= ts[p - 1].span.end,
        acc.last().span.end == ts[p - 1].span.end,
        forall|k: int|
            0 <= k < acc.len() ==> lo <= expr_span(#[trigger] acc[k].cond).start && expr_span(
                acc[k].cond,
            ).end <= ts[p - 1].span.end && spans_nested(acc[k].cond) && block_nested(acc[k].body),
    ensures
        ou_se(ts, p, acc) matches Ok((bs, r)) ==> p <= r <= ts.len() && bs.len() > 0
            && bs.last().span.end == ts[r - 1].span.end && forall|k: int|
            0 <= k < bs.len() ==> lo <= expr_span(#[trigger] bs[k].cond).start && expr_span(
                bs[k].cond,
            ).end <= ts[r - 1].span.end && spans_nested(bs[k].cond) && block_nested(bs[k].body),
    decreases ts.len() - p, 13int,
{
    if ok_pos(ts, p) && tag(ts, p) == Tag::Ou && p + 1 < ts.len() && tag(ts, p + 1) == Tag::Se {
        lemma_expr(ts, p + 2);
        match p_expr(ts, p + 2) {
            Ok((cond, q)) => if moved(ts, p, q) {
                lemma_block(ts, q);
                match p_block(ts, q) {
                    Ok((body, r)) => if moved(ts, p, r) {
                        lemma_order(ts, p - 1, p + 2);
                        lemma_order(ts, q - 1, q);
                        lemma_order(ts, q, r - 1);
                        lemma_order(ts, p - 1, r - 1);
                        lemma_order(ts, p + 2, q - 1);
                        let b = SIfBranch { cond, body, span: joined(expr_span(cond), body.span) };
                        let acc2 = acc.push(b);
                        assert forall|k: int| 0 <= k < acc2.len() implies lo <= expr_span(
                            #[trigger] acc2[k].cond,
                        ).start && expr_span(acc2[k].cond).end <= ts[r - 1].span.end
                            && spans_nested(acc2[k].cond) && block_nested(acc2[k].body) by {
                            if k < acc.len() {
                                assert(acc2[k] == acc[k]);
                            }
                        }
                        lemma_ou_se(ts, r, acc2, lo);
                    },
                    Err(_) => {},
                }
            },
            Err(_) => {},
        }
    }
}

#[verifier::spinoff_prover]
#[verifier::rlimit(40)]
proof fn lemma_if(ts: Seq<TokV>, p: int)
    requires
        tokens_ordered(ts),
    ensures
        p_if(ts, p) matches Ok((e, q)) ==> read_within(ts, p, e, q),
    decreases ts.len() - p, 14int,
{
    if ok_pos(ts, p) && tag(ts, p) == Tag::Se {
        lemma_expr(ts, p + 1);
        match p_expr(ts, p + 1) {
            Ok((cond, q)) => if moved(ts, p, q) {
                lemma_block(ts, q);
                match p_block(ts, q) {
                    Ok((body, r)) => if moved(ts, p, r) {
                        lemma_order(ts, p, p + 1);
                        lemma_order(ts, q - 1, q);
                        lemma_order(ts, q, r - 1);
                        let b0 = SIfBranch { cond, body, span: joined(expr_span(cond), body.span) };
                        let lo = ts[p].span.start as int;
                        assert(seq![b0][0] == b0);
                        lemma_ou_se(ts, r, seq![b0], lo);
                        match ou_se(ts, r, seq![b0]) {
                            Ok((branches, r2)) => if moved(ts, p, r2) {
                                lemma_order(ts, p, r2 - 1);
                                if tag(ts, r2) == Tag::Senao {
                                    lemma_block(ts, r2 + 1);
                                    match p_block(ts, r2 + 1) {
                                        Ok((eb, r3)) => {
                                            lemma_order(ts, r2 - 1, r2 + 1);
                                            lemma_order(ts, r2 + 1, r3 - 1);
                                            lemma_order(ts, p, r3 - 1);
                                        },
                                        Err(_) => {},
                                    }
                                }
                            },
                            Err(_) => {},
                        }
                    },
                    Err(_) => {},
                }
            },
            Err(_) => {},
        }
    }
}

proof fn lemma_function(ts: Seq<TokV>, p: int)
    requires
        tokens_ordered(ts),
    ensures
        p_function(ts, p) matches Ok((e, q)) ==> read_within(ts, p, e, q),
    decreases ts.len() - p, 14int,
{
    if ok_pos(ts, p + 1) && p >= 0 && ok_pos(ts, p + 2) {
        match p_function(ts, p) {
            Ok((e, r)) => {
                let q = match if tag(ts, p + 2) == Tag::RParen {
                    Ok((Seq::<super::ast::SParam>::empty(), p + 2))
                } else {
                    super::model::params(ts, p + 2, Seq::empty())
                } {
                    Ok((_, q)) => q,
                    Err(_) => 0,
                };
                lemma_block(ts, q + 1);
                lemma_order(ts, p, r - 1);
            },
            Err(_) => {},
        }
    }
}

/// The entries read by `map_entries` from `p` on, after `acc`.
proof fn lemma_map_entries(ts: Seq<TokV>, p: int, close: Tag, acc: Seq<SMapEntry>, lo: int)
    requires
        tokens_ordered(ts),
        0 <= p < ts.len(),
        lo <= ts[p].span.start,
        forall|k: int|
            0 <= k < acc.len() ==> lo <= expr_span(#[trigger] acc[k].key).start && lo
                <= expr_span(acc[k].value).start && expr_span(acc[k].key).end <= ts[p].span.start
                && expr_span(acc[k].value).end <= ts[p].span.start && spans_nested(acc[k].key)
                && spans_nested(acc[k].value),
    ensures
        map_entries(ts, p, close, acc) matches Ok((es, q)) ==> p <= q < ts.len() && forall|k: int|
            0 <= k < es.len() ==> lo <= expr_span(#[trigger] es[k].key).start && lo <= expr_span(
                es[k].value,
            ).start && expr_span(es[k].key).end <= ts[q].span.start && expr_span(es[k].value).end
                <= ts[q].span.start && spans_nested(es[k].key) && spans_nested(es[k].value),
    decreases ts.len() - p, 19int,
{
    if !(tag(ts, p) == close || tag(ts, p) == Tag::Eof) {
        lemma_expr(ts, p);
        match p_expr(ts, p) {
            Ok((key, q)) => if moved(ts, p, q) && tag(ts, q) == Tag::Arrow {
                lemma_expr(ts, q + 1);
                match p_expr(ts, q + 1) {
                    Ok((value, r)) => if moved(ts, p, r) {
                        lemma_order(ts, p, q - 1);
                        lemma_order(ts, q - 1, q);
                        lemma_order(ts, q, q + 1);
                        lemma_order(ts, q + 1, r - 1);
                        let e = SMapEntry {
                            key,
                            value,
                            span: joined(expr_span(key), expr_span(value)),
                        };
                        let r2 = if close == Tag::RBrace && tag(ts, r) == Tag::Comma {
                            r + 1
                        } else {
                            r
                        };
                        lemma_order(ts, r - 1, r);
                        if r2 < ts.len() {
                            lemma_order(ts, r, r2);
                            lemma_order(ts, p, r2);
                            let acc2 = acc.push(e);
                            assert forall|k: int| 0 <= k < acc2.len() implies lo <= expr_span(
                                #[trigger] acc2[k].key,
                            ).start && lo <= expr_span(acc2[k].value).start && expr_span(
                                acc2[k].key,
                            ).end <= ts[r2].span.start && expr_span(acc2[k].value).end
                                <= ts[r2].span.start && spans_nested(acc2[k].key) && spans_nested(
                                acc2[k].value,
                            ) by {
                                if k < acc.len() {
                                    assert(acc2[k] == acc[k]);
                                }
                            }
                            lemma_map_entries(ts, r2, close, acc2, lo);
                        } else {
                            assert(map_entries(ts, r2, close, acc.push(e)) is Err);
                        }
                    },
                    Err(_) => {},
                }
            },
            Err(_) => {},
        }
    }
}

#[verifier::spinoff_prover]
#[verifier::rlimit(40)]
proof fn lemma_map(ts: Seq<TokV>, p: int)
    requires
        tokens_ordered(ts),
    ensures
        p_map(ts, p) matches Ok((e, q)) ==> read_within(ts, p, e, q),
    decreases ts.len() - p, 14int,
{
    if ok_pos(ts, p + 1) && p >= 0 && tag(ts, p) == Tag::Mapa && ok_pos(ts, p + 2) {
        lemma_order(ts, p, p + 2);
        let close = if tag(ts, p + 1) == Tag::LBrace {
            Tag::RBrace
        } else {
            Tag::Fim
        };
        lemma_map_entries(ts, p + 2, close, Seq::empty(), ts[p].span.start as int);
        match p_map(ts, p) {
            Ok((e, q1)) => {
                let q = q1 - 1;
                lemma_order(ts, p, q);
            },
            Err(_) => {},
        }
    }
}

/// Every expression the parser reads from tokens in source order has
/// nested spans, and lies within the tokens it was read from.
pub proof fn law_parsed_spans_nest(ts: Seq<TokV>, p: int)
    requires
        tokens_ordered(ts),
    ensures
        p_expr(ts, p) matches Ok((e, q)) ==> read_within(ts, p, e, q),
{
    lemma_expr(ts, p);
}

/// The tokens read from a source (whose UTF-8 length fits in memory) come
/// in source order.
proof fn lemma_lexed_ordered(s: Seq<char>)
    requires
        byte_off(s, s.len() as int) <= usize::MAX,
    ensures
        tokens_of(s) matches Ok(tm) ==> tokens_ordered(lexed(s, tm)),
{
    law_tokens_in_order(s, 0);
    match tokens_of(s) {
        Ok(tm) => {
            let ts = lexed(s, tm);
            assert forall|i: int| 0 <= i < ts.len() implies (#[trigger] ts[i]).span.start
                <= ts[i].span.end by {
                let t = tm[i];
                lemma_byte_off_mono(s, t.from, t.to);
                lemma_byte_off_mono(s, t.to, s.len() as int);
                assert(ts[i].span == span_of(s, t.from, t.to));
            }
            assert forall|i: int, j: int| 0 <= i < j < ts.len() implies (#[trigger] ts[i]).span.end
                <= (#[trigger] ts[j]).span.start by {
                let a = tm[i];
                let b = tm[j];
                assert(a.to <= b.from);
                lemma_byte_off_mono(s, a.to, b.from);
                lemma_byte_off_mono(s, b.from, s.len() as int);
                assert(ts[i].span == span_of(s, a.from, a.to));
                assert(ts[j].span == span_of(s, b.from, b.to));
            }
        },
        Err(_) => {},
    }
}

proof fn lemma_items(ts: Seq<TokV>, p: int, acc: Seq<SItem>)
    requires
        tokens_ordered(ts),
        items_nested(acc),
    ensures
        p_items(ts, p, acc) matches Ok((items, q)) ==> items_nested(items),
    decreases ts.len() - p,
{
    if ok_pos(ts, p) && tag(ts, p) != Tag::Eof {
        if !(tag(ts, p) == Tag::Importe || (tag(ts, p) == Tag::Ident && p + 2 < ts.len() && tag(
            ts,
            p + 1,
        ) == Tag::Eq && tag(ts, p + 2) == Tag::Importe)) {
            lemma_stmt(ts, p);
        }
        match p_item(ts, p) {
            Ok((it, q)) => if moved(ts, p, q) {
                let acc2 = acc.push(it);
                assert forall|k: int| 0 <= k < acc2.len() implies (#[trigger] acc2[k] matches SItem::Stmt(
                    s,
                ) ==> stmt_nested(s)) by {
                    if k < acc.len() {
                        assert(acc2[k] == acc[k]);
                    }
                }
                lemma_items(ts, q, acc2);
            },
            Err(_) => {},
        }
    }
}

/// Every expression in the statements of a program that `parse` accepts,
/// at any depth (in blocks, bodies of functions and of branches too), has
/// nested spans: its span covers the spans of the expressions it is made of.
pub proof fn law_program_spans_nest(s: Seq<char>)
    requires
        byte_off(s, s.len() as int) <= usize::MAX,
    ensures
        parse_model(s) matches Ok(prog) ==> program_nested(prog),
{
    lemma_lexed_ordered(s);
    match tokens_of(s) {
        Ok(tm) => {
            let ts = lexed(s, tm);
            lemma_items(ts, 0, Seq::empty());
        },
        Err(_) => {},
    }
}

/// Every expression the parser reads from a source, from any token on,
/// has nested spans: each covers the spans of the expressions it is made
/// of, and it lies within the tokens it was read from.
pub proof fn law_source_spans_nest(s: Seq<char>, p: int)
    requires
        byte_off(s, s.len() as int) <= usize::MAX,
    ensures
        tokens_of(s) matches Ok(tm) ==> (p_expr(lexed(s, tm), p) matches Ok((e, q))
            ==> read_within(lexed(s, tm), p, e, q)),
{
    lemma_lexed_ordered(s);
    match tokens_of(s) {
        Ok(tm) => law_parsed_spans_nest(lexed(s, tm), p),
        Err(_) => {},
    }
}
} // verus!
