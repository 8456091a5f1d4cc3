//! Mathematical model of the parser: what `parse` builds from a sequence of
//! tokens. Each function takes the tokens and a position and gives what it
//! parsed with the position after it. A branch that answers `stuck` is never
//! taken: every parsing step moves forward (see the laws of this crate).
use vstd::prelude::*;

use super::ast::{
    expr_span, item_span, stmt_span, target_span, BinaryOp, SBlock, SExpr, SIfBranch, SImport, SItem, SMapEntry, SParam, SProgram, SStmt, STarget,
    UnaryOp,
};
use crate::lexer::span::{joined, Span};
use crate::lexer::tokens::{kind_debug_text, KindView, Tag};

verus! {

/// What the parser reads of a token: its kind and where it stands.
pub struct TokV {
    pub kind: KindView,
    pub span: Span,
}

/// A parse failure: its message and where it is reported.
pub struct PErr {
    pub msg: Seq<char>,
    pub span: Span,
}

pub open spec fn tag(ts: Seq<TokV>, p: int) -> Tag {
    ts[p].kind.tag
}

pub open spec fn ttext(ts: Seq<TokV>, p: int) -> Seq<char> {
    ts[p].kind.text
}

pub open spec fn tspan(ts: Seq<TokV>, p: int) -> Span {
    ts[p].span
}

/// A failure reported at the token at `p`.
pub open spec fn perr(ts: Seq<TokV>, p: int, msg: Seq<char>) -> PErr {
    PErr { msg, span: tspan(ts, p) }
}

pub open spec fn stuck(ts: Seq<TokV>, p: int) -> PErr {
    PErr { msg: Seq::empty(), span: tspan(ts, p) }
}

pub open spec fn ok_pos(ts: Seq<TokV>, p: int) -> bool {
    0 <= p < ts.len()
}

/// `q` is a position after `p` inside the tokens.
pub open spec fn moved(ts: Seq<TokV>, p: int, q: int) -> bool {
    p < q < ts.len()
}

/// Tokens a parser can walk: the last one, and only the last one, is `Eof`.
pub open spec fn valid_tokens(ts: Seq<TokV>) -> bool {
    &&& ts.len() > 0
    &&& tag(ts, ts.len() - 1) == Tag::Eof
}

/// Binding powers `(left, right)` of an infix operator; higher binds tighter,
/// and `right = left + 1` makes every operator left-associative.
pub open spec fn infix_power(t: Tag) -> Option<(u8, u8)> {
    if t == Tag::SeFalhar {
        Some((1, 2))
    } else if t == Tag::Ou {
        Some((3, 4))
    } else if t == Tag::E {
        Some((5, 6))
    } else if t == Tag::EqEq || t == Tag::BangEq || t == Tag::Lt || t == Tag::Gt || t == Tag::LtEq
        || t == Tag::GtEq || t == Tag::Contem {
        Some((7, 8))
    } else if t == Tag::Plus || t == Tag::Minus {
        Some((9, 10))
    } else if t == Tag::Star || t == Tag::Slash || t == Tag::Percent {
        Some((11, 12))
    } else {
        None
    }
}

pub open spec fn binary_op_of(t: Tag) -> BinaryOp {
    if t == Tag::Plus {
        BinaryOp::Add
    } else if t == Tag::Minus {
        BinaryOp::Sub
    } else if t == Tag::Star {
        BinaryOp::Mul
    } else if t == Tag::Slash {
        BinaryOp::Div
    } else if t == Tag::Percent {
        BinaryOp::Rem
    } else if t == Tag::EqEq {
        BinaryOp::Eq
    } else if t == Tag::BangEq {
        BinaryOp::Ne
    } else if t == Tag::Lt {
        BinaryOp::Lt
    } else if t == Tag::Gt {
        BinaryOp::Gt
    } else if t == Tag::LtEq {
        BinaryOp::Le
    } else if t == Tag::GtEq {
        BinaryOp::Ge
    } else if t == Tag::E {
        BinaryOp::And
    } else if t == Tag::Ou {
        BinaryOp::Or
    } else {
        BinaryOp::Contem
    }
}

pub open spec fn is_comparison_tag(t: Tag) -> bool {
    t == Tag::EqEq || t == Tag::BangEq || t == Tag::Lt || t == Tag::Gt || t == Tag::LtEq || t
        == Tag::GtEq
}

pub open spec fn is_comparison_op(op: BinaryOp) -> bool {
    op == BinaryOp::Eq || op == BinaryOp::Ne || op == BinaryOp::Lt || op == BinaryOp::Le || op
        == BinaryOp::Gt || op == BinaryOp::Ge
}

/// Whether `e` is itself a comparison (`a < b`, `a == b`, ...).
pub open spec fn is_comparison_expr(e: SExpr) -> bool {
    e matches SExpr::Binary { op, .. } && is_comparison_op(op)
}

/// The left-hand side of `=` that `e` denotes: a name or an index.
pub open spec fn to_target(e: SExpr) -> Result<STarget, Span> {
    match e {
        SExpr::Ident { name, span } => Ok(STarget::Name { name, span }),
        SExpr::Index { object, index, span } => Ok(
            STarget::Index { object: *object, index: *index, span },
        ),
        _ => Err(expr_span(e)),
    }
}

pub open spec fn close_msg(close: Tag) -> Seq<char> {
    if close == Tag::Fim {
        "esperado 'fim'"@
    } else {
        "esperado '}'"@
    }
}

// ── program and statements ──────────────────────────────────────────────

pub open spec fn p_program(ts: Seq<TokV>) -> Result<SProgram, PErr> {
    if !ok_pos(ts, 0) {
        Err(stuck(ts, 0))
    } else {
        match p_items(ts, 0, Seq::empty()) {
            Err(e) => Err(e),
            Ok((items, q)) => Ok(
                SProgram {
                    items,
                    span: if items.len() > 0 {
                        joined(item_span(items[0]), item_span(items.last()))
                    } else {
                        tspan(ts, 0)
                    },
                },
            ),
        }
    }
}

pub open spec fn p_items(ts: Seq<TokV>, p: int, acc: Seq<SItem>) -> Result<(Seq<SItem>, int), PErr>
    decreases ts.len() - p, 30int,
{
    if !ok_pos(ts, p) {
        Err(stuck(ts, p))
    } else if tag(ts, p) == Tag::Eof {
        Ok((acc, p))
    } else {
        match p_item(ts, p) {
            Err(e) => Err(e),
            Ok((it, q)) => if !moved(ts, p, q) {
                Err(stuck(ts, p))
            } else {
                p_items(ts, q, acc.push(it))
            },
        }
    }
}

pub open spec fn p_item(ts: Seq<TokV>, p: int) -> Result<(SItem, int), PErr>
    decreases ts.len() - p, 29int,
{
    if !ok_pos(ts, p) {
        Err(stuck(ts, p))
    } else if tag(ts, p) == Tag::Importe {
        match p_import(ts, p, None) {
            Ok((i, q)) => Ok((SItem::Import(i), q)),
            Err(e) => Err(e),
        }
    } else if tag(ts, p) == Tag::Ident && p + 2 < ts.len() && tag(ts, p + 1) == Tag::Eq && tag(
        ts,
        p + 2,
    ) == Tag::Importe {
        match p_import(ts, p + 2, Some(ttext(ts, p))) {
            Ok((i, q)) => Ok((SItem::Import(i), q)),
            Err(e) => Err(e),
        }
    } else {
        match p_stmt(ts, p) {
            Ok((s, q)) => Ok((SItem::Stmt(s), q)),
            Err(e) => Err(e),
        }
    }
}

pub open spec fn p_import(ts: Seq<TokV>, p: int, alias: Option<Seq<char>>) -> Result<
    (SImport, int),
    PErr,
>
    decreases ts.len() - p, 1int,
{
    if !ok_pos(ts, p + 1) || p < 0 {
        Err(stuck(ts, p))
    } else if tag(ts, p) != Tag::Importe {
        Err(perr(ts, p, "esperado 'importe'"@))
    } else if tag(ts, p + 1) == Tag::Str {
        Ok(
            (
                SImport { alias, path: ttext(ts, p + 1), span: joined(tspan(ts, p), tspan(ts, p + 1)) },
                p + 2,
            ),
        )
    } else {
        Err(perr(ts, p + 1, "esperado caminho string após 'importe'"@))
    }
}

pub open spec fn p_stmt(ts: Seq<TokV>, p: int) -> Result<(SStmt, int), PErr>
    decreases ts.len() - p, 20int,
{
    if !ok_pos(ts, p) {
        Err(stuck(ts, p))
    } else if tag(ts, p) == Tag::Repita {
        p_repita(ts, p)
    } else if tag(ts, p) == Tag::Para {
        p_para(ts, p)
    } else {
        match p_expr(ts, p) {
            Err(x) => Err(x),
            Ok((e, q)) => if !moved(ts, p, q) {
                Err(stuck(ts, p))
            } else if tag(ts, q) == Tag::Eq {
                match to_target(e) {
                    Err(sp) => Err(PErr { msg: "lado esquerdo de '=' inválido"@, span: sp }),
                    Ok(t) => match p_expr(ts, q + 1) {
                        Err(x) => Err(x),
                        Ok((v, r)) => Ok(
                            (
                                SStmt::Assign {
                                    target: t,
                                    value: v,
                                    span: joined(target_span(t), expr_span(v)),
                                },
                                r,
                            ),
                        ),
                    },
                }
            } else {
                Ok((SStmt::Expr { expr: e, span: expr_span(e) }, q))
            },
        }
    }
}

pub open spec fn p_repita(ts: Seq<TokV>, p: int) -> Result<(SStmt, int), PErr>
    decreases ts.len() - p, 19int,
{
    if !ok_pos(ts, p + 1) || p < 0 {
        Err(stuck(ts, p))
    } else {
        match p_expr(ts, p + 1) {
            Err(x) => Err(x),
            Ok((count, q)) => if !moved(ts, p, q) {
                Err(stuck(ts, p))
            } else if tag(ts, q) != Tag::Vezes {
                Err(perr(ts, q, "esperado 'vezes' após contagem do 'repita'"@))
            } else {
                match p_block(ts, q + 1) {
                    Err(x) => Err(x),
                    Ok((body, r)) => Ok(
                        (SStmt::Repita { count, span: joined(tspan(ts, p), body.span), body }, r),
                    ),
                }
            },
        }
    }
}

pub open spec fn p_para(ts: Seq<TokV>, p: int) -> Result<(SStmt, int), PErr>
    decreases ts.len() - p, 19int,
{
    if !ok_pos(ts, p + 1) || p < 0 {
        Err(stuck(ts, p))
    } else if tag(ts, p + 1) != Tag::Ident {
        Err(perr(ts, p + 1, "esperado nome da variável do 'para'"@))
    } else if !ok_pos(ts, p + 2) {
        Err(stuck(ts, p))
    } else {
        let var = ttext(ts, p + 1);
        let start = tspan(ts, p);
        if tag(ts, p + 2) == Tag::De {
            match p_expr(ts, p + 3) {
                Err(x) => Err(x),
                Ok((from, q)) => if !moved(ts, p, q) {
                    Err(stuck(ts, p))
                } else if tag(ts, q) != Tag::Ate {
                    Err(perr(ts, q, "esperado 'ate' no 'para'"@))
                } else {
                    match p_expr(ts, q + 1) {
                        Err(x) => Err(x),
                        Ok((to, r)) => if !moved(ts, p, r) {
                            Err(stuck(ts, p))
                        } else {
                            match p_block(ts, r) {
                                Err(x) => Err(x),
                                Ok((body, r2)) => Ok(
                                    (
                                        SStmt::ParaRange {
                                            var,
                                            from,
                                            to,
                                            span: joined(start, body.span),
                                            body,
                                        },
                                        r2,
                                    ),
                                ),
                            }
                        },
                    }
                },
            }
        } else if tag(ts, p + 2) == Tag::Em {
            match p_expr(ts, p + 3) {
                Err(x) => Err(x),
                Ok((iter, q)) => if !moved(ts, p, q) {
                    Err(stuck(ts, p))
                } else {
                    match p_block(ts, q) {
                        Err(x) => Err(x),
                        Ok((body, r)) => Ok(
                            (SStmt::ParaIn { var, iter, span: joined(start, body.span), body }, r),
                        ),
                    }
                },
            }
        } else {
            Err(perr(ts, p + 2, "esperado 'de' ou 'em' após variável do 'para'"@))
        }
    }
}

pub open spec fn p_block(ts: Seq<TokV>, p: int) -> Result<(SBlock, int), PErr>
    decreases ts.len() - p, 14int,
{
    if !ok_pos(ts, p) {
        Err(stuck(ts, p))
    } else if tag(ts, p) == Tag::Inicio {
        block_stmts(ts, p + 1, Tag::Fim, tspan(ts, p), Seq::empty())
    } else if tag(ts, p) == Tag::LBrace {
        block_stmts(ts, p + 1, Tag::RBrace, tspan(ts, p), Seq::empty())
    } else {
        Err(perr(ts, p, "esperado 'inicio' ou '{'"@))
    }
}

/// Statements of a block up to its closing `close` token.
pub open spec fn block_stmts(
    ts: Seq<TokV>,
    p: int,
    close: Tag,
    start: Span,
    acc: Seq<SStmt>,
) -> Result<(SBlock, int), PErr>
    decreases ts.len() - p, 21int,
{
    if !ok_pos(ts, p) {
        Err(stuck(ts, p))
    } else if tag(ts, p) == close || tag(ts, p) == Tag::Eof {
        if tag(ts, p) != close {
            Err(perr(ts, p, close_msg(close)))
        } else if acc.len() == 0 {
            Err(PErr { msg: "bloco não pode ser vazio"@, span: joined(start, tspan(ts, p)) })
        } else {
            Ok((SBlock { stmts: acc, span: joined(start, tspan(ts, p)) }, p + 1))
        }
    } else {
        match p_stmt(ts, p) {
            Err(x) => Err(x),
            Ok((s, q)) => if !moved(ts, p, q) {
                Err(stuck(ts, p))
            } else {
                block_stmts(ts, q, close, start, acc.push(s))
            },
        }
    }
}

// ── expressions ─────────────────────────────────────────────────────────

pub open spec fn p_expr(ts: Seq<TokV>, p: int) -> Result<(SExpr, int), PErr>
    decreases ts.len() - p, 18int,
{
    p_bp(ts, p, 0)
}

/// An expression that only continues through infix operators whose left
/// binding power is at least `min_bp`.
pub open spec fn p_bp(ts: Seq<TokV>, p: int, min_bp: u8) -> Result<(SExpr, int), PErr>
    decreases ts.len() - p, 17int,
{
    match p_unary(ts, p) {
        Err(x) => Err(x),
        Ok((lhs, q)) => if !moved(ts, p, q) {
            Err(stuck(ts, p))
        } else {
            bp_loop(ts, q, min_bp, lhs)
        },
    }
}

/// Postfix and infix operators after the operand `lhs`, now at `p`.
pub open spec fn bp_loop(ts: Seq<TokV>, p: int, min_bp: u8, lhs: SExpr) -> Result<(SExpr, int), PErr>
    decreases ts.len() - p, 12int,
{
    if !ok_pos(ts, p) {
        Err(stuck(ts, p))
    } else if tag(ts, p) == Tag::LParen {
        match finish_call(ts, p, lhs) {
            Err(x) => Err(x),
            Ok((e, q)) => if !moved(ts, p, q) {
                Err(stuck(ts, p))
            } else {
                bp_loop(ts, q, min_bp, e)
            },
        }
    } else if tag(ts, p) == Tag::LBracket {
        match finish_index(ts, p, lhs) {
            Err(x) => Err(x),
            Ok((e, q)) => if !moved(ts, p, q) {
                Err(stuck(ts, p))
            } else {
                bp_loop(ts, q, min_bp, e)
            },
        }
    } else if tag(ts, p) == Tag::Dot {
        match finish_field(ts, p, lhs) {
            Err(x) => Err(x),
            Ok((e, q)) => if !moved(ts, p, q) {
                Err(stuck(ts, p))
            } else {
                bp_loop(ts, q, min_bp, e)
            },
        }
    } else {
        match infix_power(tag(ts, p)) {
            None => Ok((lhs, p)),
            Some((l_bp, r_bp)) => if l_bp < min_bp {
                Ok((lhs, p))
            } else if is_comparison_tag(tag(ts, p)) && is_comparison_expr(lhs) {
                Err(
                    PErr {
                        msg: "comparações não podem ser encadeadas; use 'e' (ex.: a < b e b < c)"@,
                        span: expr_span(lhs),
                    },
                )
            } else {
                match p_bp(ts, p + 1, r_bp) {
                    Err(x) => Err(x),
                    Ok((rhs, q)) => if !moved(ts, p, q) {
                        Err(stuck(ts, p))
                    } else {
                        let span = joined(expr_span(lhs), expr_span(rhs));
                        let e = if tag(ts, p) == Tag::SeFalhar {
                            SExpr::SeFalhar { attempt: Box::new(lhs), fallback: Box::new(rhs), span }
                        } else {
                            SExpr::Binary {
                                left: Box::new(lhs),
                                op: binary_op_of(tag(ts, p)),
                                right: Box::new(rhs),
                                span,
                            }
                        };
                        bp_loop(ts, q, min_bp, e)
                    },
                }
            },
        }
    }
}

/// `expr (, expr)* ,?` up to (not including) `close`.
pub open spec fn expr_list(ts: Seq<TokV>, p: int, close: Tag, acc: Seq<SExpr>) -> Result<
    (Seq<SExpr>, int),
    PErr,
>
    decreases ts.len() - p, 19int,
{
    match p_expr(ts, p) {
        Err(x) => Err(x),
        Ok((e, q)) => if !moved(ts, p, q) {
            Err(stuck(ts, p))
        } else if tag(ts, q) == Tag::Comma {
            if !ok_pos(ts, q + 1) {
                Err(stuck(ts, p))
            } else if tag(ts, q + 1) == close {
                Ok((acc.push(e), q + 1))
            } else {
                expr_list(ts, q + 1, close, acc.push(e))
            }
        } else {
            Ok((acc.push(e), q))
        },
    }
}

pub open spec fn finish_call(ts: Seq<TokV>, p: int, callee: SExpr) -> Result<(SExpr, int), PErr>
    decreases ts.len() - p, 11int,
{
    if !ok_pos(ts, p + 1) || p < 0 {
        Err(stuck(ts, p))
    } else {
        let args = if tag(ts, p + 1) == Tag::RParen {
            Ok((Seq::<SExpr>::empty(), p + 1))
        } else {
            expr_list(ts, p + 1, Tag::RParen, Seq::empty())
        };
        match args {
            Err(x) => Err(x),
            Ok((args, q)) => if !ok_pos(ts, q) {
                Err(stuck(ts, p))
            } else if tag(ts, q) != Tag::RParen {
                Err(perr(ts, q, "esperado ')'"@))
            } else {
                Ok(
                    (
                        SExpr::Call {
                            callee: Box::new(callee),
                            args,
                            span: joined(expr_span(callee), tspan(ts, q)),
                        },
                        q + 1,
                    ),
                )
            },
        }
    }
}

pub open spec fn finish_index(ts: Seq<TokV>, p: int, object: SExpr) -> Result<(SExpr, int), PErr>
    decreases ts.len() - p, 11int,
{
    if !ok_pos(ts, p + 1) || p < 0 {
        Err(stuck(ts, p))
    } else {
        let start = expr_span(object);
        match p_expr(ts, p + 1) {
            Err(x) => Err(x),
            Ok((first, q)) => if !moved(ts, p, q) {
                Err(stuck(ts, p))
            } else if tag(ts, q) == Tag::DotDot {
                match p_expr(ts, q + 1) {
                    Err(x) => Err(x),
                    Ok((end_e, r)) => if !ok_pos(ts, r) {
                        Err(stuck(ts, p))
                    } else if tag(ts, r) != Tag::RBracket {
                        Err(perr(ts, r, "esperado ']'"@))
                    } else {
                        Ok(
                            (
                                SExpr::Slice {
                                    object: Box::new(object),
                                    start: Box::new(first),
                                    end: Box::new(end_e),
                                    span: joined(start, tspan(ts, r)),
                                },
                                r + 1,
                            ),
                        )
                    },
                }
            } else if tag(ts, q) != Tag::RBracket {
                Err(perr(ts, q, "esperado ']'"@))
            } else {
                Ok(
                    (
                        SExpr::Index {
                            object: Box::new(object),
                            index: Box::new(first),
                            span: joined(start, tspan(ts, q)),
                        },
                        q + 1,
                    ),
                )
            },
        }
    }
}

pub open spec fn finish_field(ts: Seq<TokV>, p: int, object: SExpr) -> Result<(SExpr, int), PErr>
    decreases ts.len() - p, 11int,
{
    if !ok_pos(ts, p + 1) || p < 0 {
        Err(stuck(ts, p))
    } else if tag(ts, p + 1) == Tag::Ident {
        Ok(
            (
                SExpr::Field {
                    object: Box::new(object),
                    field: ttext(ts, p + 1),
                    span: joined(expr_span(object), tspan(ts, p + 1)),
                },
                p + 2,
            ),
        )
    } else {
        Err(perr(ts, p + 1, "esperado nome após '.'"@))
    }
}

/// Prefix operators (`-`, `nao`) and the operand under them.
pub open spec fn p_unary(ts: Seq<TokV>, p: int) -> Result<(SExpr, int), PErr>
    decreases ts.len() - p, 16int,
{
    if !ok_pos(ts, p) {
        Err(stuck(ts, p))
    } else if tag(ts, p) == Tag::Minus || tag(ts, p) == Tag::Nao {
        match p_unary(ts, p + 1) {
            Err(x) => Err(x),
            Ok((e, q)) => Ok(
                (
                    SExpr::Unary {
                        op: if tag(ts, p) == Tag::Minus { UnaryOp::Neg } else { UnaryOp::Not },
                        expr: Box::new(e),
                        span: joined(tspan(ts, p), expr_span(e)),
                    },
                    q,
                ),
            ),
        }
    } else {
        p_primary(ts, p)
    }
}

pub open spec fn p_primary(ts: Seq<TokV>, p: int) -> Result<(SExpr, int), PErr>
    decreases ts.len() - p, 15int,
{
    if !ok_pos(ts, p) {
        Err(stuck(ts, p))
    } else {
        let t = tag(ts, p);
        let sp = tspan(ts, p);
        if t == Tag::Number {
            Ok((SExpr::Number { raw: ttext(ts, p), span: sp }, p + 1))
        } else if t == Tag::Str {
            Ok((SExpr::String { value: ttext(ts, p), span: sp }, p + 1))
        } else if t == Tag::Verdadeiro {
            Ok((SExpr::Bool { value: true, span: sp }, p + 1))
        } else if t == Tag::Falso {
            Ok((SExpr::Bool { value: false, span: sp }, p + 1))
        } else if t == Tag::Ident {
            Ok((SExpr::Ident { name: ttext(ts, p), span: sp }, p + 1))
        } else if t == Tag::LParen {
            match p_expr(ts, p + 1) {
                Err(x) => Err(x),
                Ok((e, q)) => if !ok_pos(ts, q) {
                    Err(stuck(ts, p))
                } else if tag(ts, q) != Tag::RParen {
                    Err(perr(ts, q, "esperado ')'"@))
                } else {
                    Ok((e, q + 1))
                },
            }
        } else if t == Tag::LBracket {
            finish_list(ts, p + 1, sp)
        } else if t == Tag::Inicio || t == Tag::LBrace {
            match p_block(ts, p) {
                Err(x) => Err(x),
                Ok((b, q)) => Ok((SExpr::Block(b), q)),
            }
        } else if t == Tag::Se {
            p_if(ts, p)
        } else if t == Tag::Funcao {
            p_function(ts, p)
        } else if t == Tag::Mapa {
            p_map(ts, p)
        } else {
            Err(
                PErr {
                    msg: "expressão inválida (token inesperado: "@ + kind_debug_text(ts[p].kind)
                        + ")"@,
                    span: sp,
                },
            )
        }
    }
}

/// Rest of a list literal whose `[` (at `start`) is already consumed.
pub open spec fn finish_list(ts: Seq<TokV>, p: int, start: Span) -> Result<(SExpr, int), PErr>
    decreases ts.len() - p, 22int,
{
    if !ok_pos(ts, p) {
        Err(stuck(ts, p))
    } else {
        let els = if tag(ts, p) == Tag::RBracket {
            Ok((Seq::<SExpr>::empty(), p))
        } else {
            expr_list(ts, p, Tag::RBracket, Seq::empty())
        };
        match els {
            Err(x) => Err(x),
            Ok((elements, q)) => if !ok_pos(ts, q) {
                Err(stuck(ts, p))
            } else if tag(ts, q) != Tag::RBracket {
                Err(perr(ts, q, "esperado ']'"@))
            } else {
                Ok((SExpr::List { elements, span: joined(start, tspan(ts, q)) }, q + 1))
            },
        }
    }
}

pub open spec fn p_if(ts: Seq<TokV>, p: int) -> Result<(SExpr, int), PErr>
    decreases ts.len() - p, 14int,
{
    if !ok_pos(ts, p) {
        Err(stuck(ts, p))
    } else if tag(ts, p) != Tag::Se {
        Err(perr(ts, p, "esperado 'se'"@))
    } else {
        let start = tspan(ts, p);
        match p_expr(ts, p + 1) {
            Err(x) => Err(x),
            Ok((cond, q)) => if !moved(ts, p, q) {
                Err(stuck(ts, p))
            } else {
                match p_block(ts, q) {
                    Err(x) => Err(x),
                    Ok((body, r)) => if !moved(ts, p, r) {
                        Err(stuck(ts, p))
                    } else {
                        let b0 = SIfBranch { cond, body, span: joined(expr_span(cond), body.span) };
                        match ou_se(ts, r, seq![b0]) {
                            Err(x) => Err(x),
                            Ok((branches, r2)) => if !moved(ts, p, r2) {
                                Err(stuck(ts, p))
                            } else if tag(ts, r2) == Tag::Senao {
                                match p_block(ts, r2 + 1) {
                                    Err(x) => Err(x),
                                    Ok((eb, r3)) => Ok(
                                        (
                                            SExpr::If {
                                                branches,
                                                else_block: Some(eb),
                                                span: joined(start, eb.span),
                                            },
                                            r3,
                                        ),
                                    ),
                                }
                            } else {
                                Ok(
                                    (
                                        SExpr::If {
                                            branches,
                                            else_block: None,
                                            span: joined(start, branches.last().span),
                                        },
                                        r2,
                                    ),
                                )
                            },
                        }
                    },
                }
            },
        }
    }
}

/// `ou se cond bloco` branches after the first one.
pub open spec fn ou_se(ts: Seq<TokV>, p: int, acc: Seq<SIfBranch>) -> Result<
    (Seq<SIfBranch>, int),
    PErr,
>
    decreases ts.len() - p, 13int,
{
    if !ok_pos(ts, p) {
        Err(stuck(ts, p))
    } else if tag(ts, p) == Tag::Ou && p + 1 < ts.len() && tag(ts, p + 1) == Tag::Se {
        match p_expr(ts, p + 2) {
            Err(x) => Err(x),
            Ok((cond, q)) => if !moved(ts, p, q) {
                Err(stuck(ts, p))
            } else {
                match p_block(ts, q) {
                    Err(x) => Err(x),
                    Ok((body, r)) => if !moved(ts, p, r) {
                        Err(stuck(ts, p))
                    } else {
                        ou_se(
                            ts,
                            r,
                            acc.push(
                                SIfBranch { cond, body, span: joined(expr_span(cond), body.span) },
                            ),
                        )
                    },
                }
            },
        }
    } else {
        Ok((acc, p))
    }
}

pub open spec fn p_function(ts: Seq<TokV>, p: int) -> Result<(SExpr, int), PErr>
    decreases ts.len() - p, 14int,
{
    if !ok_pos(ts, p + 1) || p < 0 {
        Err(stuck(ts, p))
    } else if tag(ts, p) != Tag::Funcao {
        Err(perr(ts, p, "esperado 'funcao'"@))
    } else if tag(ts, p + 1) != Tag::LParen {
        Err(perr(ts, p + 1, "esperado '(' após 'funcao'"@))
    } else if !ok_pos(ts, p + 2) {
        Err(stuck(ts, p))
    } else {
        let ps = if tag(ts, p + 2) == Tag::RParen {
            Ok((Seq::<SParam>::empty(), p + 2))
        } else {
            params(ts, p + 2, Seq::empty())
        };
        match ps {
            Err(x) => Err(x),
            Ok((params, q)) => if !moved(ts, p, q) {
                Err(stuck(ts, p))
            } else if tag(ts, q) != Tag::RParen {
                Err(perr(ts, q, "esperado ')'"@))
            } else {
                match p_block(ts, q + 1) {
                    Err(x) => Err(x),
                    Ok((body, r)) => Ok(
                        (SExpr::Function { params, span: joined(tspan(ts, p), body.span), body }, r),
                    ),
                }
            },
        }
    }
}

/// Parameter names separated by commas.
pub open spec fn params(ts: Seq<TokV>, p: int, acc: Seq<SParam>) -> Result<(Seq<SParam>, int), PErr>
    decreases ts.len() - p, 1int,
{
    if !ok_pos(ts, p) {
        Err(stuck(ts, p))
    } else if tag(ts, p) != Tag::Ident {
        Err(perr(ts, p, "esperado nome de parâmetro"@))
    } else if !ok_pos(ts, p + 1) {
        Err(stuck(ts, p))
    } else {
        let acc2 = acc.push(SParam { name: ttext(ts, p), span: tspan(ts, p) });
        if tag(ts, p + 1) == Tag::Comma {
            params(ts, p + 2, acc2)
        } else {
            Ok((acc2, p + 1))
        }
    }
}

pub open spec fn p_map(ts: Seq<TokV>, p: int) -> Result<(SExpr, int), PErr>
    decreases ts.len() - p, 14int,
{
    if !ok_pos(ts, p + 1) || p < 0 {
        Err(stuck(ts, p))
    } else if tag(ts, p) != Tag::Mapa {
        Err(perr(ts, p, "esperado 'mapa'"@))
    } else {
        let start = tspan(ts, p);
        if tag(ts, p + 1) == Tag::LBrace {
            match map_entries(ts, p + 2, Tag::RBrace, Seq::empty()) {
                Err(x) => Err(x),
                Ok((entries, q)) => if !ok_pos(ts, q) {
                    Err(stuck(ts, p))
                } else if tag(ts, q) != Tag::RBrace {
                    Err(perr(ts, q, "esperado '}' no mapa"@))
                } else {
                    Ok((SExpr::Mapa { entries, span: joined(start, tspan(ts, q)) }, q + 1))
                },
            }
        } else if tag(ts, p + 1) != Tag::Inicio {
            Err(perr(ts, p + 1, "esperado 'inicio' ou '{}' após 'mapa'"@))
        } else {
            match map_entries(ts, p + 2, Tag::Fim, Seq::empty()) {
                Err(x) => Err(x),
                Ok((entries, q)) => if !ok_pos(ts, q) {
                    Err(stuck(ts, p))
                } else if tag(ts, q) != Tag::Fim {
                    Err(perr(ts, q, "esperado 'fim' do mapa"@))
                } else if entries.len() == 0 {
                    Err(
                        PErr {
                            msg: "literal de mapa com 'inicio'/'fim' precisa de entradas; use 'mapa {}' para vazio"@,
                            span: joined(tspan(ts, p + 1), tspan(ts, q)),
                        },
                    )
                } else {
                    Ok((SExpr::Mapa { entries, span: joined(start, tspan(ts, q)) }, q + 1))
                },
            }
        }
    }
}

/// `chave -> valor` entries up to `close`; between braces each may be followed by a comma.
pub open spec fn map_entries(ts: Seq<TokV>, p: int, close: Tag, acc: Seq<SMapEntry>) -> Result<
    (Seq<SMapEntry>, int),
    PErr,
>
    decreases ts.len() - p, 19int,
{
    if !ok_pos(ts, p) {
        Err(stuck(ts, p))
    } else if tag(ts, p) == close || tag(ts, p) == Tag::Eof {
        Ok((acc, p))
    } else {
        match p_expr(ts, p) {
            Err(x) => Err(x),
            Ok((key, q)) => if !moved(ts, p, q) {
                Err(stuck(ts, p))
            } else if tag(ts, q) != Tag::Arrow {
                Err(perr(ts, q, "esperado '->' entre chave e valor do mapa"@))
            } else {
                match p_expr(ts, q + 1) {
                    Err(x) => Err(x),
                    Ok((value, r)) => if !moved(ts, p, r) {
                        Err(stuck(ts, p))
                    } else {
                        let e = SMapEntry { key, value, span: joined(expr_span(key), expr_span(value)) };
                        let r2 = if close == Tag::RBrace && tag(ts, r) == Tag::Comma {
                            r + 1
                        } else {
                            r
                        };
                        map_entries(ts, r2, close, acc.push(e))
                    },
                }
            },
        }
    }
}

} // verus!
