//! Recursive-descent / Pratt parser: tokens to syntax tree.
//!
//! Every parsing function follows the function of the same shape in
//! [`super::model`]: it succeeds exactly when the model does, builds the tree
//! whose view the model gives, and stops at the model's position; when the
//! model fails, it reports the model's message at the model's place.
use vstd::prelude::*;

use super::ast::{
    item_span,
    lemma_view_branches_len, lemma_view_branches_push, lemma_view_entries_push,
    lemma_view_exprs_push, lemma_view_items_push, lemma_view_params_push, lemma_view_stmts_push,
    view_alias, view_block, view_branches, view_entries, view_expr, view_exprs, view_import,
    view_item, view_items, view_params, view_stmt, view_stmts, view_target, AssignTarget, BinaryOp,
    Block, Expr, IfBranch, Import, Item, MapEntry, Param, Program, SBlock, SExpr, SImport, SItem,
    SMapEntry, SParam, SIfBranch, SProgram, SStmt, STarget, Stmt, UnaryOp,
};
use super::error::ParseError;
use super::model::{
    binary_op_of, block_stmts, bp_loop, close_msg, expr_list, finish_call, finish_field,
    finish_index, finish_list, infix_power, is_comparison_expr, is_comparison_op,
    is_comparison_tag, map_entries, moved, ok_pos, ou_se, p_block, p_bp, p_expr, p_function, p_if,
    p_import, p_item, p_items, p_map, p_para, p_primary, p_program, p_repita, p_stmt, p_unary,
    params, tag, tspan, ttext, to_target, valid_tokens, PErr, TokV,
};
use super::se_value::{check_se_value, se_items};
use crate::lexer::model::{law_tokens_end_with_eof, span_of, tokens_of, TokModel};
use crate::lexer::scanner::{tokenize, Token};
use crate::lexer::span::{joined, Span};
use crate::lexer::tokens::{kind_debug_text, Tag, TokenKind};
use crate::text::push_str;

verus! {

/// The tokens as the parser reads them.
pub open spec fn toks(v: Seq<Token>) -> Seq<TokV> {
    v.map_values(|t: Token| TokV { kind: t.kind@, span: t.span })
}

/// `e` reports the model failure `f`.
pub open spec fn reports_err(e: ParseError, f: PErr) -> bool {
    e.message@ == f.msg && e.span == f.span
}

/// The result `r` of a parsing function, ending at `pos`, is what the model
/// answer `m` says.
pub open spec fn expr_agrees(m: Result<(SExpr, int), PErr>, r: Result<Expr, ParseError>, pos: int) -> bool {
    match m {
        Ok((e, q)) => r matches Ok(x) && view_expr(x) == e && pos == q,
        Err(f) => r matches Err(x) && reports_err(x, f),
    }
}

pub open spec fn exprs_agree(
    m: Result<(Seq<SExpr>, int), PErr>,
    r: Result<Vec<Expr>, ParseError>,
    pos: int,
) -> bool {
    match m {
        Ok((es, q)) => r matches Ok(x) && view_exprs(x@) == es && pos == q,
        Err(f) => r matches Err(x) && reports_err(x, f),
    }
}

pub open spec fn stmt_agrees(m: Result<(SStmt, int), PErr>, r: Result<Stmt, ParseError>, pos: int) -> bool {
    match m {
        Ok((s, q)) => r matches Ok(x) && view_stmt(x) == s && pos == q,
        Err(f) => r matches Err(x) && reports_err(x, f),
    }
}

pub open spec fn block_agrees(m: Result<(SBlock, int), PErr>, r: Result<Block, ParseError>, pos: int) -> bool {
    match m {
        Ok((b, q)) => r matches Ok(x) && view_block(x) == b && pos == q,
        Err(f) => r matches Err(x) && reports_err(x, f),
    }
}

pub open spec fn import_agrees(
    m: Result<(SImport, int), PErr>,
    r: Result<Import, ParseError>,
    pos: int,
) -> bool {
    match m {
        Ok((i, q)) => r matches Ok(x) && view_import(x) == i && pos == q,
        Err(f) => r matches Err(x) && reports_err(x, f),
    }
}

pub open spec fn item_agrees(m: Result<(SItem, int), PErr>, r: Result<Item, ParseError>, pos: int) -> bool {
    match m {
        Ok((i, q)) => r matches Ok(x) && view_item(x) == i && pos == q,
        Err(f) => r matches Err(x) && reports_err(x, f),
    }
}

pub open spec fn branches_agree(
    m: Result<(Seq<SIfBranch>, int), PErr>,
    r: Result<Vec<IfBranch>, ParseError>,
    pos: int,
) -> bool {
    match m {
        Ok((bs, q)) => r matches Ok(x) && view_branches(x@) == bs && pos == q,
        Err(f) => r matches Err(x) && reports_err(x, f),
    }
}

pub open spec fn params_agree(
    m: Result<(Seq<SParam>, int), PErr>,
    r: Result<Vec<Param>, ParseError>,
    pos: int,
) -> bool {
    match m {
        Ok((ps, q)) => r matches Ok(x) && view_params(x@) == ps && pos == q,
        Err(f) => r matches Err(x) && reports_err(x, f),
    }
}

pub open spec fn entries_agree(
    m: Result<(Seq<SMapEntry>, int), PErr>,
    r: Result<Vec<MapEntry>, ParseError>,
    pos: int,
) -> bool {
    match m {
        Ok((es, q)) => r matches Ok(x) && view_entries(x@) == es && pos == q,
        Err(f) => r matches Err(x) && reports_err(x, f),
    }
}

/// What `parse_program` gives for the tokens `ts`, by the model.
pub open spec fn program_agrees(m: Result<SProgram, PErr>, r: Result<Program, ParseError>) -> bool {
    match m {
        Ok(p) => r matches Ok(x) && x@ == p,
        Err(f) => r matches Err(x) && reports_err(x, f),
    }
}

fn err_at(message: &str, span: Span) -> (e: ParseError)
    ensures
        e.message@ == message@,
        e.span == span,
{
    ParseError { message: message.to_owned(), span }
}

/// Binding powers `(left, right)` of an infix operator, `None` for any other token.
fn infix_info(t: Tag) -> (r: Option<(u8, u8)>)
    ensures
        r == infix_power(t),
{
    if t == Tag::SeFalhar {
        Some((1, 2))
    } else if t == Tag::Ou {
        Some((3, 4))
    } else if t == Tag::E {
        Some((5, 6))
    } else if t == Tag::EqEq || t == Tag::BangEq || t == Tag::Lt || t == Tag::Gt || t == Tag::LtEq
        || t == Tag::GtEq || t == Tag::Contem {
        Some((7, 8))
    } else if t == Tag::Plus || t == Tag::Minus {
        Some((9, 10))
    } else if t == Tag::Star || t == Tag::Slash || t == Tag::Percent {
        Some((11, 12))
    } else {
        None
    }
}

fn token_to_binary(t: Tag) -> (op: BinaryOp)
    ensures
        op == binary_op_of(t),
{
    if t == Tag::Plus {
        BinaryOp::Add
    } else if t == Tag::Minus {
        BinaryOp::Sub
    } else if t == Tag::Star {
        BinaryOp::Mul
    } else if t == Tag::Slash {
        BinaryOp::Div
    } else if t == Tag::Percent {
        BinaryOp::Rem
    } else if t == Tag::EqEq {
        BinaryOp::Eq
    } else if t == Tag::BangEq {
        BinaryOp::Ne
    } else if t == Tag::Lt {
        BinaryOp::Lt
    } else if t == Tag::Gt {
        BinaryOp::Gt
    } else if t == Tag::LtEq {
        BinaryOp::Le
    } else if t == Tag::GtEq {
        BinaryOp::Ge
    } else if t == Tag::E {
        BinaryOp::And
    } else if t == Tag::Ou {
        BinaryOp::Or
    } else {
        BinaryOp::Contem
    }
}

fn is_comparison_token(t: Tag) -> (b: bool)
    ensures
        b == is_comparison_tag(t),
{
    t == Tag::EqEq || t == Tag::BangEq || t == Tag::Lt || t == Tag::Gt || t == Tag::LtEq || t
        == Tag::GtEq
}

/// Whether `e` is itself a comparison.
fn is_comparison(e: &Expr) -> (b: bool)
    ensures
        b == is_comparison_expr(view_expr(*e)),
{
    match e {
        Expr::Binary { op, .. } => {
            let op = *op;
            op == BinaryOp::Eq || op == BinaryOp::Ne || op == BinaryOp::Lt || op == BinaryOp::Le
                || op == BinaryOp::Gt || op == BinaryOp::Ge
        },
        _ => false,
    }
}

/// The assignment target that `expr` denotes, or its span when it is neither
/// a name nor an index.
fn expr_to_assign_target(expr: Expr) -> (r: Result<AssignTarget, Span>)
    ensures
        match to_target(view_expr(expr)) {
            Ok(t) => r matches Ok(x) && view_target(x) == t,
            Err(s) => r matches Err(x) && x == s,
        },
{
    let sp = expr.span();
    match expr {
        Expr::Ident { name, span } => Ok(AssignTarget::Name { name, span }),
        Expr::Index { object, index, span } => Ok(
            AssignTarget::Index { object: *object, index: *index, span },
        ),
        _ => Err(sp),
    }
}

struct Parser {
    tokens: Vec<Token>,
    pos: usize,
}

impl Parser {
    spec fn wf(&self) -> bool {
        valid_tokens(toks(self.tokens@)) && self.pos < self.tokens@.len()
    }

    fn new(tokens: Vec<Token>) -> (p: Parser)
        requires
            valid_tokens(toks(tokens@)),
        ensures
            p.wf(),
            p.tokens@ == tokens@,
            p.pos == 0,
    {
        Parser { tokens, pos: 0 }
    }

    fn tag_at(&self, i: usize) -> (t: Tag)
        requires
            i < self.tokens@.len(),
        ensures
            t == tag(toks(self.tokens@), i as int),
    {
        self.tokens[i].kind.tag()
    }

    fn peek_tag(&self) -> (t: Tag)
        requires
            self.wf(),
        ensures
            t == tag(toks(self.tokens@), self.pos as int),
    {
        self.tag_at(self.pos)
    }

    fn span_at(&self, i: usize) -> (s: Span)
        requires
            i < self.tokens@.len(),
        ensures
            s == tspan(toks(self.tokens@), i as int),
    {
        self.tokens[i].span
    }

    fn peek_span(&self) -> (s: Span)
        requires
            self.wf(),
        ensures
            s == tspan(toks(self.tokens@), self.pos as int),
    {
        self.span_at(self.pos)
    }

    /// Text of the `i`-th token (for numbers, strings and names).
    fn text_at(&self, i: usize) -> (s: String)
        requires
            i < self.tokens@.len(),
        ensures
            s@ == ttext(toks(self.tokens@), i as int),
    {
        match &self.tokens[i].kind {
            TokenKind::Number(s) => s.clone(),
            TokenKind::String(s) => s.clone(),
            TokenKind::Ident(s) => s.clone(),
            _ => String::new(),
        }
    }

    /// Steps over the current token, which is not the final `Eof`.
    fn bump(&mut self)
        requires
            old(self).wf(),
            tag(toks(old(self).tokens@), old(self).pos as int) != Tag::Eof,
        ensures
            final(self).wf(),
            final(self).tokens@ == old(self).tokens@,
            final(self).pos == old(self).pos + 1,
    {
        let n = self.tokens.len();
        assert(self.pos + 1 < n);
        self.pos = self.pos + 1;
    }

    fn expected_here(&self, message: &str) -> (e: ParseError)
        requires
            self.wf(),
        ensures
            e.message@ == message@,
            e.span == tspan(toks(self.tokens@), self.pos as int),
    {
        err_at(message, self.peek_span())
    }

    // ── program ──────────────────────────────────────────────────────

    fn parse_program(&mut self) -> (r: Result<Program, ParseError>)
        requires
            old(self).wf(),
            old(self).pos == 0,
        ensures
            program_agrees(p_program(toks(old(self).tokens@)), r),
    {
        let ghost ts = self.tokens@;
        let start = self.peek_span();
        let mut items: Vec<Item> = Vec::new();
        assert(view_items(items@) == Seq::<SItem>::empty());
        while self.peek_tag() != Tag::Eof
            invariant
                self.wf(),
                self.tokens@ == ts,
                ts == old(self).tokens@,
                p_items(toks(ts), 0, Seq::empty()) == p_items(toks(ts), self.pos as int, view_items(items@)),
            decreases ts.len() - self.pos,
        {
            let item = match self.parse_item() {
                Ok(i) => i,
                Err(e) => return Err(e),
            };
            proof {
                lemma_view_items_push(items@, item);
            }
            items.push(item);
        }
        let ghost acc = view_items(items@);
        let ghost q = self.pos as int;
        let span = if items.len() > 0 {
            items[0].span().join(items[items.len() - 1].span())
        } else {
            start
        };
        proof {
            lemma_items_len(items@);
            if items.len() > 0 {
                lemma_items_at(items@, 0);
                lemma_items_at(items@, items@.len() - 1);
            }
            lemma_program_result(toks(ts), acc, q, span);
        }
        let program = Program { items, span };
        Ok(program)
    }

    fn parse_item(&mut self) -> (r: Result<Item, ParseError>)
        requires
            old(self).wf(),
            tag(toks(old(self).tokens@), old(self).pos as int) != Tag::Eof,
        ensures
            final(self).wf(),
            final(self).tokens@ == old(self).tokens@,
            r is Ok ==> old(self).pos < final(self).pos,
            item_agrees(p_item(toks(old(self).tokens@), old(self).pos as int), r, final(self).pos as int),
        decreases old(self).tokens@.len() - old(self).pos, 29int,
    {
        let t = self.peek_tag();
        if t == Tag::Importe {
            return match self.parse_import(None) {
                Ok(i) => Ok(Item::Import(i)),
                Err(e) => Err(e),
            };
        }
        let p = self.pos;
        let n = self.tokens.len();
        if t == Tag::Ident && n > 2 && p < n - 2 && self.tag_at(p + 1) == Tag::Eq
            && self.tag_at(p + 2) == Tag::Importe {
            let name = self.text_at(p);
            self.bump();
            self.bump();
            return match self.parse_import(Some(name)) {
                Ok(i) => Ok(Item::Import(i)),
                Err(e) => Err(e),
            };
        }
        match self.parse_stmt() {
            Ok(s) => Ok(Item::Stmt(s)),
            Err(e) => Err(e),
        }
    }

    fn parse_import(&mut self, alias: Option<String>) -> (r: Result<Import, ParseError>)
        requires
            old(self).wf(),
            tag(toks(old(self).tokens@), old(self).pos as int) == Tag::Importe,
        ensures
            final(self).wf(),
            final(self).tokens@ == old(self).tokens@,
            r is Ok ==> old(self).pos < final(self).pos,
            import_agrees(
                p_import(toks(old(self).tokens@), old(self).pos as int, view_alias(alias)),
                r,
                final(self).pos as int,
            ),
        decreases old(self).tokens@.len() - old(self).pos, 1int,
    {
        if self.peek_tag() != Tag::Importe {
            return Err(self.expected_here("esperado 'importe'"));
        }
        let start = self.peek_span();
        self.bump();
        if self.peek_tag() != Tag::Str {
            return Err(self.expected_here("esperado caminho string após 'importe'"));
        }
        let path = self.text_at(self.pos);
        let end = self.peek_span();
        self.bump();
        Ok(Import { alias, path, span: start.join(end) })
    }

    // ── statements ───────────────────────────────────────────────────

    fn parse_stmt(&mut self) -> (r: Result<Stmt, ParseError>)
        requires
            old(self).wf(),
        ensures
            final(self).wf(),
            final(self).tokens@ == old(self).tokens@,
            r is Ok ==> old(self).pos < final(self).pos,
            stmt_agrees(p_stmt(toks(old(self).tokens@), old(self).pos as int), r, final(self).pos as int),
        decreases old(self).tokens@.len() - old(self).pos, 20int,
    {
        let t = self.peek_tag();
        if t == Tag::Repita {
            return self.parse_repita();
        }
        if t == Tag::Para {
            return self.parse_para();
        }
        let expr = match self.parse_expr() {
            Ok(e) => e,
            Err(e) => return Err(e),
        };
        if self.peek_tag() == Tag::Eq {
            let target = match expr_to_assign_target(expr) {
                Ok(t) => t,
                Err(sp) => return Err(err_at("lado esquerdo de '=' inválido", sp)),
            };
            self.bump();
            let value = match self.parse_expr() {
                Ok(e) => e,
                Err(e) => return Err(e),
            };
            let span = target.span().join(value.span());
            Ok(Stmt::Assign { target, value, span })
        } else {
            let span = expr.span();
            Ok(Stmt::Expr { expr, span })
        }
    }

    fn parse_repita(&mut self) -> (r: Result<Stmt, ParseError>)
        requires
            old(self).wf(),
            tag(toks(old(self).tokens@), old(self).pos as int) == Tag::Repita,
        ensures
            final(self).wf(),
            final(self).tokens@ == old(self).tokens@,
            r is Ok ==> old(self).pos < final(self).pos,
            stmt_agrees(p_repita(toks(old(self).tokens@), old(self).pos as int), r, final(self).pos as int),
        decreases old(self).tokens@.len() - old(self).pos, 19int,
    {
        let start = self.peek_span();
        self.bump();
        let count = match self.parse_expr() {
            Ok(e) => e,
            Err(e) => return Err(e),
        };
        if self.peek_tag() != Tag::Vezes {
            return Err(self.expected_here("esperado 'vezes' após contagem do 'repita'"));
        }
        self.bump();
        let body = match self.parse_block() {
            Ok(b) => b,
            Err(e) => return Err(e),
        };
        proof {
            assert(view_block(body).span == body.span);
        }
        Ok(Stmt::Repita { count, span: start.join(body.span), body })
    }

    fn parse_para(&mut self) -> (r: Result<Stmt, ParseError>)
        requires
            old(self).wf(),
            tag(toks(old(self).tokens@), old(self).pos as int) == Tag::Para,
        ensures
            final(self).wf(),
            final(self).tokens@ == old(self).tokens@,
            r is Ok ==> old(self).pos < final(self).pos,
            stmt_agrees(p_para(toks(old(self).tokens@), old(self).pos as int), r, final(self).pos as int),
        decreases old(self).tokens@.len() - old(self).pos, 19int,
    {
        let start = self.peek_span();
        self.bump();
        if self.peek_tag() != Tag::Ident {
            return Err(self.expected_here("esperado nome da variável do 'para'"));
        }
        let var = self.text_at(self.pos);
        self.bump();
        let t = self.peek_tag();
        if t == Tag::De {
            self.bump();
            let from = match self.parse_expr() {
                Ok(e) => e,
                Err(e) => return Err(e),
            };
            if self.peek_tag() != Tag::Ate {
                return Err(self.expected_here("esperado 'ate' no 'para'"));
            }
            self.bump();
            let to = match self.parse_expr() {
                Ok(e) => e,
                Err(e) => return Err(e),
            };
            let body = match self.parse_block() {
                Ok(b) => b,
                Err(e) => return Err(e),
            };
            proof {
                assert(view_block(body).span == body.span);
            }
            Ok(Stmt::ParaRange { var, from, to, span: start.join(body.span), body })
        } else if t == Tag::Em {
            self.bump();
            let iter = match self.parse_expr() {
                Ok(e) => e,
                Err(e) => return Err(e),
            };
            let body = match self.parse_block() {
                Ok(b) => b,
                Err(e) => return Err(e),
            };
            proof {
                assert(view_block(body).span == body.span);
            }
            Ok(Stmt::ParaIn { var, iter, span: start.join(body.span), body })
        } else {
            Err(self.expected_here("esperado 'de' ou 'em' após variável do 'para'"))
        }
    }

    /// `inicio ... fim` or `{ ... }`, with at least one statement.
    fn parse_block(&mut self) -> (r: Result<Block, ParseError>)
        requires
            old(self).wf(),
        ensures
            final(self).wf(),
            final(self).tokens@ == old(self).tokens@,
            r is Ok ==> old(self).pos < final(self).pos,
            block_agrees(p_block(toks(old(self).tokens@), old(self).pos as int), r, final(self).pos as int),
        decreases old(self).tokens@.len() - old(self).pos, 14int,
    {
        let ghost ts = self.tokens@;
        let ghost p0 = self.pos as int;
        let open = self.peek_tag();
        let close = if open == Tag::Inicio {
            Tag::Fim
        } else if open == Tag::LBrace {
            Tag::RBrace
        } else {
            return Err(self.expected_here("esperado 'inicio' ou '{'"));
        };
        let start = self.peek_span();
        self.bump();
        let mut stmts: Vec<Stmt> = Vec::new();
        loop
            invariant
                self.wf(),
                self.tokens@ == ts,
                ts == old(self).tokens@,
                p0 == old(self).pos,
                p0 < self.pos,
                close == Tag::Fim || close == Tag::RBrace,
                p_block(toks(ts), p0) == block_stmts(
                    toks(ts),
                    self.pos as int,
                    close,
                    start,
                    view_stmts(stmts@),
                ),
            decreases ts.len() - self.pos,
        {
            let t = self.peek_tag();
            if t == close || t == Tag::Eof {
                if t != close {
                    let m = if close == Tag::Fim {
                        "esperado 'fim'"
                    } else {
                        "esperado '}'"
                    };
                    return Err(self.expected_here(m));
                }
                let end = self.peek_span();
                if stmts.len() == 0 {
                    return Err(err_at("bloco não pode ser vazio", start.join(end)));
                }
                self.bump();
                return Ok(Block { stmts, span: start.join(end) });
            }
            let s = match self.parse_stmt() {
                Ok(s) => s,
                Err(e) => return Err(e),
            };
            proof {
                lemma_view_stmts_push(stmts@, s);
            }
            stmts.push(s);
        }
    }

    // ── expressions ──────────────────────────────────────────────────

    fn parse_expr(&mut self) -> (r: Result<Expr, ParseError>)
        requires
            old(self).wf(),
        ensures
            final(self).wf(),
            final(self).tokens@ == old(self).tokens@,
            r is Ok ==> old(self).pos < final(self).pos,
            expr_agrees(p_expr(toks(old(self).tokens@), old(self).pos as int), r, final(self).pos as int),
        decreases old(self).tokens@.len() - old(self).pos, 18int,
    {
        self.parse_bp(0)
    }

    /// An expression that only continues through infix operators whose left
    /// binding power is at least `min_bp`.
    fn parse_bp(&mut self, min_bp: u8) -> (r: Result<Expr, ParseError>)
        requires
            old(self).wf(),
        ensures
            final(self).wf(),
            final(self).tokens@ == old(self).tokens@,
            r is Ok ==> old(self).pos < final(self).pos,
            expr_agrees(p_bp(toks(old(self).tokens@), old(self).pos as int, min_bp), r, final(self).pos as int),
        decreases old(self).tokens@.len() - old(self).pos, 17int,
    {
        let ghost ts = self.tokens@;
        let ghost p0 = self.pos as int;
        let mut lhs = match self.parse_unary() {
            Ok(e) => e,
            Err(e) => return Err(e),
        };
        loop
            invariant
                self.wf(),
                self.tokens@ == ts,
                ts == old(self).tokens@,
                p0 == old(self).pos,
                p0 < self.pos,
                p_bp(toks(ts), p0, min_bp) == bp_loop(toks(ts), self.pos as int, min_bp, view_expr(lhs)),
            decreases ts.len() - self.pos,
        {
            let t = self.peek_tag();
            if t == Tag::LParen {
                lhs = match self.finish_call(lhs) {
                    Ok(e) => e,
                    Err(e) => return Err(e),
                };
            } else if t == Tag::LBracket {
                lhs = match self.finish_index_or_slice(lhs) {
                    Ok(e) => e,
                    Err(e) => return Err(e),
                };
            } else if t == Tag::Dot {
                lhs = match self.finish_field(lhs) {
                    Ok(e) => e,
                    Err(e) => return Err(e),
                };
            } else {
                let (l_bp, r_bp) = match infix_info(t) {
                    Some(info) => info,
                    None => return Ok(lhs),
                };
                if l_bp < min_bp {
                    return Ok(lhs);
                }
                if is_comparison_token(t) && is_comparison(&lhs) {
                    return Err(
                        err_at(
                            "comparações não podem ser encadeadas; use 'e' (ex.: a < b e b < c)",
                            lhs.span(),
                        ),
                    );
                }
                self.bump();
                let rhs = match self.parse_bp(r_bp) {
                    Ok(e) => e,
                    Err(e) => return Err(e),
                };
                let span = lhs.span().join(rhs.span());
                lhs = if t == Tag::SeFalhar {
                    Expr::SeFalhar { attempt: Box::new(lhs), fallback: Box::new(rhs), span }
                } else {
                    Expr::Binary {
                        left: Box::new(lhs),
                        op: token_to_binary(t),
                        right: Box::new(rhs),
                        span,
                    }
                };
            }
        }
    }

    /// Prefix operators (`-`, `nao`) and the operand under them.
    fn parse_unary(&mut self) -> (r: Result<Expr, ParseError>)
        requires
            old(self).wf(),
        ensures
            final(self).wf(),
            final(self).tokens@ == old(self).tokens@,
            r is Ok ==> old(self).pos < final(self).pos,
            expr_agrees(p_unary(toks(old(self).tokens@), old(self).pos as int), r, final(self).pos as int),
        decreases old(self).tokens@.len() - old(self).pos, 16int,
    {
        let t = self.peek_tag();
        if t == Tag::Minus || t == Tag::Nao {
            let start = self.peek_span();
            self.bump();
            let expr = match self.parse_unary() {
                Ok(e) => e,
                Err(e) => return Err(e),
            };
            let span = start.join(expr.span());
            let op = if t == Tag::Minus {
                UnaryOp::Neg
            } else {
                UnaryOp::Not
            };
            Ok(Expr::Unary { op, expr: Box::new(expr), span })
        } else {
            self.parse_primary()
        }
    }

    fn parse_primary(&mut self) -> (r: Result<Expr, ParseError>)
        requires
            old(self).wf(),
        ensures
            final(self).wf(),
            final(self).tokens@ == old(self).tokens@,
            r is Ok ==> old(self).pos < final(self).pos,
            expr_agrees(p_primary(toks(old(self).tokens@), old(self).pos as int), r, final(self).pos as int),
        decreases old(self).tokens@.len() - old(self).pos, 15int,
    {
        let t = self.peek_tag();
        let sp = self.peek_span();
        if t == Tag::Number {
            let raw = self.text_at(self.pos);
            self.bump();
            Ok(Expr::Number { raw, span: sp })
        } else if t == Tag::Str {
            let value = self.text_at(self.pos);
            self.bump();
            Ok(Expr::String { value, span: sp })
        } else if t == Tag::Verdadeiro {
            self.bump();
            Ok(Expr::Bool { value: true, span: sp })
        } else if t == Tag::Falso {
            self.bump();
            Ok(Expr::Bool { value: false, span: sp })
        } else if t == Tag::Ident {
            let name = self.text_at(self.pos);
            self.bump();
            Ok(Expr::Ident { name, span: sp })
        } else if t == Tag::LParen {
            self.bump();
            let expr = match self.parse_expr() {
                Ok(e) => e,
                Err(e) => return Err(e),
            };
            if self.peek_tag() != Tag::RParen {
                return Err(self.expected_here("esperado ')'"));
            }
            self.bump();
            Ok(expr)
        } else if t == Tag::LBracket {
            self.bump();
            self.finish_list(sp)
        } else if t == Tag::Inicio || t == Tag::LBrace {
            match self.parse_block() {
                Ok(b) => Ok(Expr::Block(b)),
                Err(e) => Err(e),
            }
        } else if t == Tag::Se {
            self.parse_if()
        } else if t == Tag::Funcao {
            self.parse_function()
        } else if t == Tag::Mapa {
            self.parse_map()
        } else {
            let mut message = "expressão inválida (token inesperado: ".to_owned();
            let kind = self.tokens[self.pos].kind.debug_text();
            push_str(&mut message, kind.as_str());
            push_str(&mut message, ")");
            Err(ParseError { message, span: sp })
        }
    }

    /// `expr (, expr)* ,?` up to, not including, `close`.
    fn parse_expr_list(&mut self, close: Tag) -> (r: Result<Vec<Expr>, ParseError>)
        requires
            old(self).wf(),
        ensures
            final(self).wf(),
            final(self).tokens@ == old(self).tokens@,
            r is Ok ==> old(self).pos < final(self).pos,
            exprs_agree(
                expr_list(toks(old(self).tokens@), old(self).pos as int, close, Seq::empty()),
                r,
                final(self).pos as int,
            ),
        decreases old(self).tokens@.len() - old(self).pos, 19int,
    {
        let ghost ts = self.tokens@;
        let ghost p0 = self.pos as int;
        let mut v: Vec<Expr> = Vec::new();
        loop
            invariant
                self.wf(),
                self.tokens@ == ts,
                ts == old(self).tokens@,
                p0 == old(self).pos,
                p0 <= self.pos,
                expr_list(toks(ts), p0, close, Seq::empty()) == expr_list(
                    toks(ts),
                    self.pos as int,
                    close,
                    view_exprs(v@),
                ),
            decreases ts.len() - self.pos,
        {
            let e = match self.parse_expr() {
                Ok(e) => e,
                Err(e) => return Err(e),
            };
            proof {
                lemma_view_exprs_push(v@, e);
            }
            v.push(e);
            if self.peek_tag() != Tag::Comma {
                return Ok(v);
            }
            self.bump();
            if self.peek_tag() == close {
                return Ok(v);
            }
        }
    }

    /// The rest of a list literal whose `[` (at `start`) was just read.
    fn finish_list(&mut self, start: Span) -> (r: Result<Expr, ParseError>)
        requires
            old(self).wf(),
        ensures
            final(self).wf(),
            final(self).tokens@ == old(self).tokens@,
            r is Ok ==> old(self).pos < final(self).pos,
            expr_agrees(
                finish_list(toks(old(self).tokens@), old(self).pos as int, start),
                r,
                final(self).pos as int,
            ),
        decreases old(self).tokens@.len() - old(self).pos, 22int,
    {
        let elements = if self.peek_tag() != Tag::RBracket {
            match self.parse_expr_list(Tag::RBracket) {
                Ok(v) => v,
                Err(e) => return Err(e),
            }
        } else {
            Vec::new()
        };
        if self.peek_tag() != Tag::RBracket {
            return Err(self.expected_here("esperado ']'"));
        }
        let end = self.peek_span();
        self.bump();
        proof {
            assert(view_exprs(Seq::<Expr>::empty()) == Seq::<SExpr>::empty());
        }
        Ok(Expr::List { elements, span: start.join(end) })
    }

    fn finish_call(&mut self, callee: Expr) -> (r: Result<Expr, ParseError>)
        requires
            old(self).wf(),
            tag(toks(old(self).tokens@), old(self).pos as int) == Tag::LParen,
        ensures
            final(self).wf(),
            final(self).tokens@ == old(self).tokens@,
            r is Ok ==> old(self).pos < final(self).pos,
            expr_agrees(
                finish_call(toks(old(self).tokens@), old(self).pos as int, view_expr(callee)),
                r,
                final(self).pos as int,
            ),
        decreases old(self).tokens@.len() - old(self).pos, 11int,
    {
        let start = callee.span();
        self.bump();
        let args = if self.peek_tag() != Tag::RParen {
            match self.parse_expr_list(Tag::RParen) {
                Ok(v) => v,
                Err(e) => return Err(e),
            }
        } else {
            Vec::new()
        };
        if self.peek_tag() != Tag::RParen {
            return Err(self.expected_here("esperado ')'"));
        }
        let end = self.peek_span();
        self.bump();
        proof {
            assert(view_exprs(Seq::<Expr>::empty()) == Seq::<SExpr>::empty());
        }
        Ok(Expr::Call { callee: Box::new(callee), args, span: start.join(end) })
    }

    fn finish_index_or_slice(&mut self, object: Expr) -> (r: Result<Expr, ParseError>)
        requires
            old(self).wf(),
            tag(toks(old(self).tokens@), old(self).pos as int) == Tag::LBracket,
        ensures
            final(self).wf(),
            final(self).tokens@ == old(self).tokens@,
            r is Ok ==> old(self).pos < final(self).pos,
            expr_agrees(
                finish_index(toks(old(self).tokens@), old(self).pos as int, view_expr(object)),
                r,
                final(self).pos as int,
            ),
        decreases old(self).tokens@.len() - old(self).pos, 11int,
    {
        let start = object.span();
        self.bump();
        let first = match self.parse_expr() {
            Ok(e) => e,
            Err(e) => return Err(e),
        };
        if self.peek_tag() == Tag::DotDot {
            self.bump();
            let end_expr = match self.parse_expr() {
                Ok(e) => e,
                Err(e) => return Err(e),
            };
            if self.peek_tag() != Tag::RBracket {
                return Err(self.expected_here("esperado ']'"));
            }
            let end = self.peek_span();
            self.bump();
            Ok(
                Expr::Slice {
                    object: Box::new(object),
                    start: Box::new(first),
                    end: Box::new(end_expr),
                    span: start.join(end),
                },
            )
        } else {
            if self.peek_tag() != Tag::RBracket {
                return Err(self.expected_here("esperado ']'"));
            }
            let end = self.peek_span();
            self.bump();
            Ok(Expr::Index { object: Box::new(object), index: Box::new(first), span: start.join(end) })
        }
    }

    fn finish_field(&mut self, object: Expr) -> (r: Result<Expr, ParseError>)
        requires
            old(self).wf(),
            tag(toks(old(self).tokens@), old(self).pos as int) == Tag::Dot,
        ensures
            final(self).wf(),
            final(self).tokens@ == old(self).tokens@,
            r is Ok ==> old(self).pos < final(self).pos,
            expr_agrees(
                finish_field(toks(old(self).tokens@), old(self).pos as int, view_expr(object)),
                r,
                final(self).pos as int,
            ),
        decreases old(self).tokens@.len() - old(self).pos, 11int,
    {
        let start = object.span();
        self.bump();
        if self.peek_tag() != Tag::Ident {
            return Err(self.expected_here("esperado nome após '.'"));
        }
        let field = self.text_at(self.pos);
        let end = self.peek_span();
        self.bump();
        Ok(Expr::Field { object: Box::new(object), field, span: start.join(end) })
    }

    fn parse_if(&mut self) -> (r: Result<Expr, ParseError>)
        requires
            old(self).wf(),
            tag(toks(old(self).tokens@), old(self).pos as int) == Tag::Se,
        ensures
            final(self).wf(),
            final(self).tokens@ == old(self).tokens@,
            r is Ok ==> old(self).pos < final(self).pos,
            expr_agrees(p_if(toks(old(self).tokens@), old(self).pos as int), r, final(self).pos as int),
        decreases old(self).tokens@.len() - old(self).pos, 14int,
    {
        let ghost ts = self.tokens@;
        let ghost p0 = self.pos as int;
        if self.peek_tag() != Tag::Se {
            return Err(self.expected_here("esperado 'se'"));
        }
        let start = self.peek_span();
        self.bump();
        let cond = match self.parse_expr() {
            Ok(e) => e,
            Err(e) => return Err(e),
        };
        let body = match self.parse_block() {
            Ok(b) => b,
            Err(e) => return Err(e),
        };
        let ghost r0 = self.pos as int;
        proof {
            assert(view_block(body).span == body.span);
        }
        let branch_span = cond.span().join(body.span);
        let b0 = IfBranch { cond, body, span: branch_span };
        let ghost sb0 = SIfBranch { cond: view_expr(b0.cond), body: view_block(b0.body), span: b0.span };
        let mut first: Vec<IfBranch> = Vec::new();
        proof {
            lemma_view_branches_push(first@, b0);
            assert(view_branches(Seq::<IfBranch>::empty()) == Seq::<SIfBranch>::empty());
            assert(Seq::<SIfBranch>::empty().push(sb0) == seq![sb0]);
        }
        first.push(b0);
        let branches = match self.parse_ou_se(first) {
            Ok(v) => v,
            Err(e) => return Err(e),
        };
        let else_block = if self.peek_tag() == Tag::Senao {
            self.bump();
            match self.parse_block() {
                Ok(b) => Some(b),
                Err(e) => return Err(e),
            }
        } else {
            None
        };
        let end_span = match &else_block {
            Some(b) => b.span,
            None => branches[branches.len() - 1].span,
        };
        proof {
            lemma_view_branches_len(branches@);
            if else_block is Some {
                assert(view_block(else_block->0).span == else_block->0.span);
            }
        }
        Ok(Expr::If { branches, else_block, span: start.join(end_span) })
    }

    /// The `ou se cond bloco` branches that follow, appended to `acc`.
    fn parse_ou_se(&mut self, acc: Vec<IfBranch>) -> (r: Result<Vec<IfBranch>, ParseError>)
        requires
            old(self).wf(),
        ensures
            final(self).wf(),
            final(self).tokens@ == old(self).tokens@,
            r is Ok ==> old(self).pos <= final(self).pos,
            r matches Ok(v) ==> v@.len() >= acc@.len(),
            branches_agree(
                ou_se(toks(old(self).tokens@), old(self).pos as int, view_branches(acc@)),
                r,
                final(self).pos as int,
            ),
        decreases old(self).tokens@.len() - old(self).pos, 13int,
    {
        let p = self.pos;
        let n = self.tokens.len();
        if !(self.peek_tag() == Tag::Ou && p < n - 1 && self.tag_at(p + 1) == Tag::Se) {
            return Ok(acc);
        }
        self.bump();
        self.bump();
        let cond = match self.parse_expr() {
            Ok(e) => e,
            Err(e) => return Err(e),
        };
        let body = match self.parse_block() {
            Ok(b) => b,
            Err(e) => return Err(e),
        };
        proof {
            assert(view_block(body).span == body.span);
        }
        let branch_span = cond.span().join(body.span);
        let b = IfBranch { cond, body, span: branch_span };
        let mut acc = acc;
        proof {
            lemma_view_branches_push(acc@, b);
        }
        acc.push(b);
        self.parse_ou_se(acc)
    }

    fn parse_function(&mut self) -> (r: Result<Expr, ParseError>)
        requires
            old(self).wf(),
            tag(toks(old(self).tokens@), old(self).pos as int) == Tag::Funcao,
        ensures
            final(self).wf(),
            final(self).tokens@ == old(self).tokens@,
            r is Ok ==> old(self).pos < final(self).pos,
            expr_agrees(p_function(toks(old(self).tokens@), old(self).pos as int), r, final(self).pos as int),
        decreases old(self).tokens@.len() - old(self).pos, 14int,
    {
        if self.peek_tag() != Tag::Funcao {
            return Err(self.expected_here("esperado 'funcao'"));
        }
        let start = self.peek_span();
        self.bump();
        if self.peek_tag() != Tag::LParen {
            return Err(self.expected_here("esperado '(' após 'funcao'"));
        }
        self.bump();
        let params = if self.peek_tag() != Tag::RParen {
            match self.parse_params() {
                Ok(v) => v,
                Err(e) => return Err(e),
            }
        } else {
            Vec::new()
        };
        if self.peek_tag() != Tag::RParen {
            return Err(self.expected_here("esperado ')'"));
        }
        self.bump();
        let body = match self.parse_block() {
            Ok(b) => b,
            Err(e) => return Err(e),
        };
        proof {
            assert(view_block(body).span == body.span);
            assert(view_params(Seq::<Param>::empty()) == Seq::<SParam>::empty());
        }
        Ok(Expr::Function { params, span: start.join(body.span), body })
    }

    /// Parameter names separated by commas.
    fn parse_params(&mut self) -> (r: Result<Vec<Param>, ParseError>)
        requires
            old(self).wf(),
        ensures
            final(self).wf(),
            final(self).tokens@ == old(self).tokens@,
            r is Ok ==> old(self).pos < final(self).pos,
            params_agree(
                params(toks(old(self).tokens@), old(self).pos as int, Seq::empty()),
                r,
                final(self).pos as int,
            ),
    {
        let ghost ts = self.tokens@;
        let ghost p0 = self.pos as int;
        let mut v: Vec<Param> = Vec::new();
        loop
            invariant
                self.wf(),
                self.tokens@ == ts,
                ts == old(self).tokens@,
                p0 == old(self).pos,
                p0 <= self.pos,
                params(toks(ts), p0, Seq::empty()) == params(toks(ts), self.pos as int, view_params(v@)),
            decreases ts.len() - self.pos,
        {
            if self.peek_tag() != Tag::Ident {
                return Err(self.expected_here("esperado nome de parâmetro"));
            }
            let name = self.text_at(self.pos);
            let span = self.peek_span();
            self.bump();
            let prm = Param { name, span };
            proof {
                lemma_view_params_push(v@, prm);
            }
            v.push(prm);
            if self.peek_tag() != Tag::Comma {
                return Ok(v);
            }
            self.bump();
        }
    }

    fn parse_map(&mut self) -> (r: Result<Expr, ParseError>)
        requires
            old(self).wf(),
            tag(toks(old(self).tokens@), old(self).pos as int) == Tag::Mapa,
        ensures
            final(self).wf(),
            final(self).tokens@ == old(self).tokens@,
            r is Ok ==> old(self).pos < final(self).pos,
            expr_agrees(p_map(toks(old(self).tokens@), old(self).pos as int), r, final(self).pos as int),
        decreases old(self).tokens@.len() - old(self).pos, 14int,
    {
        if self.peek_tag() != Tag::Mapa {
            return Err(self.expected_here("esperado 'mapa'"));
        }
        let start = self.peek_span();
        self.bump();
        if self.peek_tag() == Tag::LBrace {
            self.bump();
            let entries = match self.parse_entries(Tag::RBrace) {
                Ok(v) => v,
                Err(e) => return Err(e),
            };
            if self.peek_tag() != Tag::RBrace {
                return Err(self.expected_here("esperado '}' no mapa"));
            }
            let end = self.peek_span();
            self.bump();
            return Ok(Expr::Mapa { entries, span: start.join(end) });
        }
        if self.peek_tag() != Tag::Inicio {
            return Err(self.expected_here("esperado 'inicio' ou '{}' após 'mapa'"));
        }
        let block_start = self.peek_span();
        self.bump();
        let entries = match self.parse_entries(Tag::Fim) {
            Ok(v) => v,
            Err(e) => return Err(e),
        };
        if self.peek_tag() != Tag::Fim {
            return Err(self.expected_here("esperado 'fim' do mapa"));
        }
        let end = self.peek_span();
        if entries.len() == 0 {
            proof {
                assert(view_entries(entries@) == Seq::<SMapEntry>::empty());
            }
            return Err(
                err_at(
                    "literal de mapa com 'inicio'/'fim' precisa de entradas; use 'mapa {}' para vazio",
                    block_start.join(end),
                ),
            );
        }
        proof {
            lemma_entries_nonempty(entries@);
        }
        self.bump();
        Ok(Expr::Mapa { entries, span: start.join(end) })
    }

    /// `chave -> valor` entries up to `close`; between braces each may be
    /// followed by a comma.
    fn parse_entries(&mut self, close: Tag) -> (r: Result<Vec<MapEntry>, ParseError>)
        requires
            old(self).wf(),
        ensures
            final(self).wf(),
            final(self).tokens@ == old(self).tokens@,
            r is Ok ==> old(self).pos <= final(self).pos,
            entries_agree(
                map_entries(toks(old(self).tokens@), old(self).pos as int, close, Seq::empty()),
                r,
                final(self).pos as int,
            ),
        decreases old(self).tokens@.len() - old(self).pos, 19int,
    {
        let ghost ts = self.tokens@;
        let ghost p0 = self.pos as int;
        let mut v: Vec<MapEntry> = Vec::new();
        loop
            invariant
                self.wf(),
                self.tokens@ == ts,
                ts == old(self).tokens@,
                p0 == old(self).pos,
                p0 <= self.pos,
                map_entries(toks(ts), p0, close, Seq::empty()) == map_entries(
                    toks(ts),
                    self.pos as int,
                    close,
                    view_entries(v@),
                ),
            decreases ts.len() - self.pos,
        {
            let t = self.peek_tag();
            if t == close || t == Tag::Eof {
                return Ok(v);
            }
            let key = match self.parse_expr() {
                Ok(e) => e,
                Err(e) => return Err(e),
            };
            if self.peek_tag() != Tag::Arrow {
                return Err(self.expected_here("esperado '->' entre chave e valor do mapa"));
            }
            self.bump();
            let value = match self.parse_expr() {
                Ok(e) => e,
                Err(e) => return Err(e),
            };
            let span = key.span().join(value.span());
            let entry = MapEntry { key, value, span };
            proof {
                lemma_view_entries_push(v@, entry);
            }
            v.push(entry);
            if close == Tag::RBrace && self.peek_tag() == Tag::Comma {
                self.bump();
            }
        }
    }
}

proof fn lemma_program_result(ts: Seq<TokV>, acc: Seq<SItem>, q: int, span: Span)
    requires
        ok_pos(ts, q),
        tag(ts, q) == Tag::Eof,
        p_items(ts, 0, Seq::empty()) == p_items(ts, q, acc),
        span == (if acc.len() > 0 {
            joined(item_span(acc[0]), item_span(acc.last()))
        } else {
            tspan(ts, 0)
        }),
    ensures
        p_program(ts) == Ok::<SProgram, PErr>(SProgram { items: acc, span }),
{
}

proof fn lemma_items_len(v: Seq<Item>)
    ensures
        view_items(v).len() == v.len(),
    decreases v.len(),
{
    if v.len() > 0 {
        lemma_items_len(v.drop_last());
    }
}

proof fn lemma_items_at(v: Seq<Item>, k: int)
    requires
        0 <= k < v.len(),
    ensures
        view_items(v)[k] == view_item(v[k]),
    decreases v.len(),
{
    lemma_items_len(v.drop_last());
    if k < v.len() - 1 {
        lemma_items_at(v.drop_last(), k);
    }
}

proof fn lemma_entries_nonempty(v: Seq<MapEntry>)
    requires
        v.len() > 0,
    ensures
        view_entries(v).len() > 0,
{
}

/// The tokens of the source `s`, scanned as `tm`, as the parser reads them.
pub open spec fn lexed(s: Seq<char>, tm: Seq<TokModel>) -> Seq<TokV> {
    tm.map_values(|t: TokModel| TokV { kind: t.kind, span: span_of(s, t.from, t.to) })
}

/// What `parse` gives for the source `s`: the scanner's failure, the
/// parser's failure, the first `se` whose value is used without `senao`, or
/// the program.
pub open spec fn parse_model(s: Seq<char>) -> Result<SProgram, PErr> {
    match tokens_of(s) {
        Err(f) => Err(PErr { msg: f.msg, span: span_of(s, f.from, f.to) }),
        Ok(tm) => match p_program(lexed(s, tm)) {
            Err(e) => Err(e),
            Ok(p) => match se_items(p.items) {
                Some(sp) => Err(PErr { msg: "se usado como valor precisa de 'senao'"@, span: sp }),
                None => Ok(p),
            },
        },
    }
}

/// Parses Expressa source into a [`Program`]: reads its tokens, builds the
/// tree, then checks that every `se` used as a value has a `senao`.
pub fn parse(source: &str) -> (r: Result<Program, ParseError>)
    requires
        source@.len() < u32::MAX,
    ensures
        program_agrees(parse_model(source@), r),
{
    let tokens = match tokenize(source) {
        Ok(t) => t,
        Err(e) => return Err(ParseError::from_lex(e)),
    };
    let ghost tm = tokens_of(source@)->Ok_0;
    proof {
        law_tokens_end_with_eof(source@, 0);
        assert(toks(tokens@) =~= lexed(source@, tm));
    }
    let mut parser = Parser::new(tokens);
    let program = match parser.parse_program() {
        Ok(p) => p,
        Err(e) => return Err(e),
    };
    match check_se_value(&program) {
        Ok(()) => Ok(program),
        Err(e) => Err(e),
    }
}

} // verus!
