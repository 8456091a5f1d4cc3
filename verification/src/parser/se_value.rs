//! `se` used as a value needs `senao` (statement-`se` may omit it).
use vstd::prelude::*;

use super::ast::{
    lemma_view_branches_index, lemma_view_entries_index, lemma_view_exprs_index,
    lemma_view_items_index, lemma_view_stmts_index, view_block, view_branches, view_entries,
    view_expr, view_item, view_exprs, view_items, view_stmt, view_stmts, view_target, AssignTarget, Block,
    expr_span, BinaryOp, Expr, IfBranch, Item, MapEntry, Program, SBlock, SExpr, SIfBranch, SItem,
    SMapEntry, SStmt,
    STarget, Stmt,
};
use super::error::ParseError;
use crate::lexer::Span;

verus! {

/// The first of two findings, in reading order.
pub open spec fn first(a: Option<Span>, b: Option<Span>) -> Option<Span> {
    if a is Some {
        a
    } else {
        b
    }
}

/// Where the first `se` without `senao` whose value is used stands in `e`;
/// `as_value` says whether the value of `e` itself is used.
pub open spec fn se_expr(e: SExpr, as_value: bool) -> Option<Span>
    decreases e,
{
    match e {
        SExpr::If { branches, else_block, span } => if as_value && else_block is None {
            Some(span)
        } else {
            first(
                se_branches(branches, as_value),
                match else_block {
                    Some(b) => se_block(b, as_value),
                    None => None,
                },
            )
        },
        SExpr::Function { body, .. } => se_block(body, false),
        SExpr::Block(b) => se_block(b, as_value),
        SExpr::Call { callee, args, .. } => first(se_expr(*callee, true), se_exprs(args)),
        SExpr::Unary { expr, .. } => se_expr(*expr, true),
        SExpr::Binary { left, right, .. } => first(se_expr(*left, true), se_expr(*right, true)),
        SExpr::SeFalhar { attempt, fallback, .. } => first(
            se_expr(*attempt, true),
            se_expr(*fallback, true),
        ),
        SExpr::List { elements, .. } => se_exprs(elements),
        SExpr::Mapa { entries, .. } => se_entries(entries),
        SExpr::Matrix { rows, .. } => se_exprs(rows),
        SExpr::Field { object, .. } => se_expr(*object, true),
        SExpr::MapField { object, .. } => se_expr(*object, true),
        SExpr::Index { object, index, .. } => first(se_expr(*object, true), se_expr(*index, true)),
        SExpr::Index2 { object, row, col, .. } => first(
            se_expr(*object, true),
            first(se_expr(*row, true), se_expr(*col, true)),
        ),
        SExpr::Slice { object, start, end, .. } => first(
            se_expr(*object, true),
            first(se_expr(*start, true), se_expr(*end, true)),
        ),
        SExpr::Number { .. } => None,
        SExpr::String { .. } => None,
        SExpr::Bool { .. } => None,
        SExpr::Ident { .. } => None,
    }
}

/// Expressions whose values are all used, in order.
pub open spec fn se_exprs(es: Seq<SExpr>) -> Option<Span>
    decreases es,
{
    if es.len() == 0 {
        None
    } else {
        first(se_expr(es[0], true), se_exprs(es.drop_first()))
    }
}

pub open spec fn se_entries(es: Seq<SMapEntry>) -> Option<Span>
    decreases es,
{
    if es.len() == 0 {
        None
    } else {
        first(
            first(se_expr(es[0].key, true), se_expr(es[0].value, true)),
            se_entries(es.drop_first()),
        )
    }
}

pub open spec fn se_branches(bs: Seq<SIfBranch>, as_value: bool) -> Option<Span>
    decreases bs,
{
    if bs.len() == 0 {
        None
    } else {
        first(
            first(se_expr(bs[0].cond, true), se_block(bs[0].body, as_value)),
            se_branches(bs.drop_first(), as_value),
        )
    }
}

/// A block gives the value of its last statement.
pub open spec fn se_block(b: SBlock, as_value: bool) -> Option<Span>
    decreases b,
{
    se_stmts(b.stmts, as_value)
}

/// Statements in order; only the last one's value can be used.
pub open spec fn se_stmts(ss: Seq<SStmt>, as_value: bool) -> Option<Span>
    decreases ss,
{
    if ss.len() == 0 {
        None
    } else {
        first(se_stmt(ss[0], as_value && ss.len() == 1), se_stmts(ss.drop_first(), as_value))
    }
}

pub open spec fn se_stmt(s: SStmt, as_value: bool) -> Option<Span>
    decreases s,
{
    match s {
        SStmt::Expr { expr, .. } => se_expr(expr, as_value),
        SStmt::Assign { target, value, .. } => first(se_target(target), se_expr(value, true)),
        SStmt::Repita { count, body, .. } => first(se_expr(count, true), se_block(body, false)),
        SStmt::ParaRange { from, to, body, .. } => first(
            se_expr(from, true),
            first(se_expr(to, true), se_block(body, false)),
        ),
        SStmt::ParaIn { iter, body, .. } => first(se_expr(iter, true), se_block(body, false)),
    }
}

pub open spec fn se_target(t: STarget) -> Option<Span>
    decreases t,
{
    match t {
        STarget::Name { .. } => None,
        STarget::Index { object, index, .. } => first(se_expr(object, true), se_expr(index, true)),
    }
}

/// A top-level item: a statement used for its effect.
pub open spec fn se_item(item: SItem) -> Option<Span> {
    match item {
        SItem::Import(_) => None,
        SItem::Stmt(s) => se_stmt(s, false),
    }
}

/// Top-level items, in order.
pub open spec fn se_items(items: Seq<SItem>) -> Option<Span>
    decreases items.len(),
{
    if items.len() == 0 {
        None
    } else {
        first(se_item(items[0]), se_items(items.drop_first()))
    }
}

proof fn lemma_se_items_step(s: Seq<SItem>, i: int)
    requires
        0 <= i < s.len(),
    ensures
        se_items(s.skip(i)) == first(se_item(s[i]), se_items(s.skip(i + 1))),
{
    assert(s.skip(i).drop_first() =~= s.skip(i + 1));
}

/// `r` is the answer for the finding `m`: success when there is none, else
/// the `senao` error at its place.
pub open spec fn se_reported(m: Option<Span>, r: Result<(), ParseError>) -> bool {
    match m {
        None => r is Ok,
        Some(sp) => r matches Err(e) && e.message@ == "se usado como valor precisa de 'senao'"@
            && e.span == sp,
    }
}

fn falta_senao(span: Span) -> (e: ParseError)
    ensures
        e.message@ == "se usado como valor precisa de 'senao'"@,
        e.span == span,
{
    ParseError { message: "se usado como valor precisa de 'senao'".to_owned(), span }
}

/// Checks that every `se` whose value is used has a `senao`.
pub fn check_se_value(program: &Program) -> (r: Result<(), ParseError>)
    ensures
        se_reported(se_items(program@.items), r),
{
    let items = &program.items;
    let ghost s = view_items(items@);
    proof {
        lemma_view_items_index(items@);
        assert(s.skip(0) =~= s);
    }
    let mut i: usize = 0;
    while i < items.len()
        invariant
            0 <= i <= items@.len(),
            items == &program.items,
            s == view_items(items@),
            s == program@.items,
            s.len() == items@.len(),
            se_items(s) == se_items(s.skip(i as int)),
        decreases items@.len() - i,
    {
        assert(s[i as int] == view_item(items@[i as int])) by {
            lemma_view_items_index(items@);
        }
        proof {
            lemma_se_items_step(s, i as int);
        }
        match &items[i] {
            Item::Import(_) => {},
            Item::Stmt(stmt) => {
                match check_stmt(stmt, false) {
                    Ok(()) => {},
                    Err(e) => return Err(e),
                }
            },
        }
        i = i + 1;
    }
    assert(s.skip(i as int) =~= Seq::<SItem>::empty());
    Ok(())
}

fn check_stmt(stmt: &Stmt, as_value: bool) -> (r: Result<(), ParseError>)
    ensures
        se_reported(se_stmt(view_stmt(*stmt), as_value), r),
    decreases *stmt,
{
    match stmt {
        Stmt::Expr { expr, .. } => check_expr(expr, as_value),
        Stmt::Assign { target, value, .. } => {
            match check_target(target) {
                Ok(()) => {},
                Err(e) => return Err(e),
            }
            check_expr(value, true)
        },
        Stmt::Repita { count, body, .. } => {
            match check_expr(count, true) {
                Ok(()) => {},
                Err(e) => return Err(e),
            }
            check_block(body, false)
        },
        Stmt::ParaRange { from, to, body, .. } => {
            match check_expr(from, true) {
                Ok(()) => {},
                Err(e) => return Err(e),
            }
            match check_expr(to, true) {
                Ok(()) => {},
                Err(e) => return Err(e),
            }
            check_block(body, false)
        },
        Stmt::ParaIn { iter, body, .. } => {
            match check_expr(iter, true) {
                Ok(()) => {},
                Err(e) => return Err(e),
            }
            check_block(body, false)
        },
    }
}

fn check_block(block: &Block, as_value: bool) -> (r: Result<(), ParseError>)
    ensures
        se_reported(se_block(view_block(*block), as_value), r),
    decreases *block,
{
    let stmts = &block.stmts;
    let n = stmts.len();
    let ghost s = view_stmts(stmts@);
    proof {
        lemma_view_stmts_index(stmts@);
        assert(s.skip(0) =~= s);
    }
    let mut i: usize = 0;
    while i < n
        invariant
            0 <= i <= n,
            n == stmts@.len(),
            stmts == &block.stmts,
            s == view_stmts(stmts@),
            s.len() == n,
            forall|k: int| 0 <= k < n ==> #[trigger] s[k] == view_stmt(stmts@[k]),
            se_stmts(s, as_value) == se_stmts(s.skip(i as int), as_value),
        decreases n - i,
    {
        assert(s.skip(i as int).drop_first() =~= s.skip(i + 1));
        assert(s.skip(i as int)[0] == s[i as int]);
        let u = as_value && i + 1 == n;
        match check_stmt(&stmts[i], u) {
            Ok(()) => {},
            Err(e) => return Err(e),
        }
        i = i + 1;
    }
    assert(s.skip(i as int) =~= Seq::<SStmt>::empty());
    Ok(())
}

fn check_target(target: &AssignTarget) -> (r: Result<(), ParseError>)
    ensures
        se_reported(se_target(view_target(*target)), r),
    decreases *target,
{
    match target {
        AssignTarget::Name { .. } => Ok(()),
        AssignTarget::Index { object, index, .. } => {
            match check_expr(object, true) {
                Ok(()) => {},
                Err(e) => return Err(e),
            }
            check_expr(index, true)
        },
    }
}

/// Checks expressions whose values are all used.
fn check_exprs(es: &Vec<Expr>) -> (r: Result<(), ParseError>)
    ensures
        se_reported(se_exprs(view_exprs(es@)), r),
    decreases *es,
{
    let n = es.len();
    let ghost s = view_exprs(es@);
    proof {
        lemma_view_exprs_index(es@);
        assert(s.skip(0) =~= s);
    }
    let mut i: usize = 0;
    while i < n
        invariant
            0 <= i <= n,
            n == es@.len(),
            s == view_exprs(es@),
            s.len() == n,
            forall|k: int| 0 <= k < n ==> #[trigger] s[k] == view_expr(es@[k]),
            se_exprs(s) == se_exprs(s.skip(i as int)),
        decreases n - i,
    {
        assert(s.skip(i as int).drop_first() =~= s.skip(i + 1));
        assert(s.skip(i as int)[0] == s[i as int]);
        match check_expr(&es[i], true) {
            Ok(()) => {},
            Err(e) => return Err(e),
        }
        i = i + 1;
    }
    assert(s.skip(i as int) =~= Seq::<SExpr>::empty());
    Ok(())
}

fn check_entries(es: &Vec<MapEntry>) -> (r: Result<(), ParseError>)
    ensures
        se_reported(se_entries(view_entries(es@)), r),
    decreases *es,
{
    let n = es.len();
    let ghost s = view_entries(es@);
    proof {
        lemma_view_entries_index(es@);
        assert(s.skip(0) =~= s);
    }
    let mut i: usize = 0;
    while i < n
        invariant
            0 <= i <= n,
            n == es@.len(),
            s == view_entries(es@),
            s.len() == n,
            forall|k: int|
                0 <= k < n ==> #[trigger] s[k] == (SMapEntry {
                    key: view_expr(es@[k].key),
                    value: view_expr(es@[k].value),
                    span: es@[k].span,
                }),
            se_entries(s) == se_entries(s.skip(i as int)),
        decreases n - i,
    {
        assert(s.skip(i as int).drop_first() =~= s.skip(i + 1));
        assert(s.skip(i as int)[0] == s[i as int]);
        match check_expr(&es[i].key, true) {
            Ok(()) => {},
            Err(e) => return Err(e),
        }
        match check_expr(&es[i].value, true) {
            Ok(()) => {},
            Err(e) => return Err(e),
        }
        i = i + 1;
    }
    assert(s.skip(i as int) =~= Seq::<SMapEntry>::empty());
    Ok(())
}

fn check_branches(bs: &Vec<IfBranch>, as_value: bool) -> (r: Result<(), ParseError>)
    ensures
        se_reported(se_branches(view_branches(bs@), as_value), r),
    decreases *bs,
{
    let n = bs.len();
    let ghost s = view_branches(bs@);
    proof {
        lemma_view_branches_index(bs@);
        assert(s.skip(0) =~= s);
    }
    let mut i: usize = 0;
    while i < n
        invariant
            0 <= i <= n,
            n == bs@.len(),
            s == view_branches(bs@),
            s.len() == n,
            forall|k: int|
                0 <= k < n ==> #[trigger] s[k] == (SIfBranch {
                    cond: view_expr(bs@[k].cond),
                    body: view_block(bs@[k].body),
                    span: bs@[k].span,
                }),
            se_branches(s, as_value) == se_branches(s.skip(i as int), as_value),
        decreases n - i,
    {
        assert(s.skip(i as int).drop_first() =~= s.skip(i + 1));
        assert(s.skip(i as int)[0] == s[i as int]);
        match check_expr(&bs[i].cond, true) {
            Ok(()) => {},
            Err(e) => return Err(e),
        }
        match check_block(&bs[i].body, as_value) {
            Ok(()) => {},
            Err(e) => return Err(e),
        }
        i = i + 1;
    }
    assert(s.skip(i as int) =~= Seq::<SIfBranch>::empty());
    Ok(())
}

fn check_expr(expr: &Expr, as_value: bool) -> (r: Result<(), ParseError>)
    ensures
        se_reported(se_expr(view_expr(*expr), as_value), r),
    decreases *expr,
{
    match expr {
        Expr::If { branches, else_block, span } => {
            if as_value && else_block.is_none() {
                return Err(falta_senao(*span));
            }
            match check_branches(branches, as_value) {
                Ok(()) => {},
                Err(e) => return Err(e),
            }
            match else_block {
                Some(b) => check_block(b, as_value),
                None => Ok(()),
            }
        },
        Expr::Function { body, .. } => check_block(body, false),
        Expr::Block(b) => check_block(b, as_value),
        Expr::Call { callee, args, .. } => {
            match check_expr(callee, true) {
                Ok(()) => {},
                Err(e) => return Err(e),
            }
            check_exprs(args)
        },
        Expr::Unary { expr, .. } => check_expr(expr, true),
        Expr::Binary { left, right, .. } => {
            match check_expr(left, true) {
                Ok(()) => {},
                Err(e) => return Err(e),
            }
            check_expr(right, true)
        },
        Expr::SeFalhar { attempt, fallback, .. } => {
            match check_expr(attempt, true) {
                Ok(()) => {},
                Err(e) => return Err(e),
            }
            check_expr(fallback, true)
        },
        Expr::List { elements, .. } => check_exprs(elements),
        Expr::Mapa { entries, .. } => check_entries(entries),
        Expr::Matrix { rows, .. } => check_exprs(rows),
        Expr::Field { object, .. } => check_expr(object, true),
        Expr::MapField { object, .. } => check_expr(object, true),
        Expr::Index { object, index, .. } => {
            match check_expr(object, true) {
                Ok(()) => {},
                Err(e) => return Err(e),
            }
            check_expr(index, true)
        },
        Expr::Index2 { object, row, col, .. } => {
            match check_expr(object, true) {
                Ok(()) => {},
                Err(e) => return Err(e),
            }
            match check_expr(row, true) {
                Ok(()) => {},
                Err(e) => return Err(e),
            }
            check_expr(col, true)
        },
        Expr::Slice { object, start, end, .. } => {
            match check_expr(object, true) {
                Ok(()) => {},
                Err(e) => return Err(e),
            }
            match check_expr(start, true) {
                Ok(()) => {},
                Err(e) => return Err(e),
            }
            check_expr(end, true)
        },
        Expr::Number { .. } => Ok(()),
        Expr::String { .. } => Ok(()),
        Expr::Bool { .. } => Ok(()),
        Expr::Ident { .. } => Ok(()),
    }
}


// ── what is reported ────────────────────────────────────────────────────

/// `e` is an `se` with no `senao`.
pub open spec fn se_without_senao(e: SExpr) -> bool {
    e matches SExpr::If { else_block: None, .. }
}

/// Both operands of a binary operator are used as values: where either one
/// holds an `se` without `senao` in a place whose value is used, the
/// operation holds one too (whether or not its own value is used); and an
/// `se` without `senao` as an operand is what is reported, the left operand
/// being read first.
pub proof fn law_binary_operands_are_values(
    left: SExpr,
    op: BinaryOp,
    right: SExpr,
    span: Span,
    as_value: bool,
)
    ensures
        ({
            let e = SExpr::Binary { left: Box::new(left), op, right: Box::new(right), span };
            &&& (se_expr(left, true) is Some || se_expr(right, true) is Some) ==> se_expr(
                e,
                as_value,
            ) is Some
            &&& se_without_senao(left) ==> se_expr(e, as_value) == Some(expr_span(left))
            &&& se_without_senao(right) && se_expr(left, true) is None ==> se_expr(e, as_value)
                == Some(expr_span(right))
        }),
{
}

/// Some of `items` holds a finding when one of them does.
proof fn lemma_items_report(items: Seq<SItem>, k: int)
    requires
        0 <= k < items.len(),
        se_item(items[k]) is Some,
    ensures
        se_items(items) is Some,
    decreases k,
{
    if k > 0 {
        assert(items.drop_first()[k - 1] == items[k]);
        lemma_items_report(items.drop_first(), k - 1);
    }
}

/// A program with a statement (an expression, or the value of an
/// assignment) that is a binary operation with an `se` without `senao` as
/// either operand is refused.
pub proof fn law_program_with_se_operand_refused(items: Seq<SItem>, k: int)
    requires
        0 <= k < items.len(),
        items[k] matches SItem::Stmt(st) && ((st matches SStmt::Expr { expr, .. } && (expr matches SExpr::Binary { left, right, .. } && (se_without_senao(*left) || se_without_senao(*right)))) || (st matches SStmt::Assign { value, .. } && (value matches SExpr::Binary { left, right, .. } && (se_without_senao(*left) || se_without_senao(*right))))),
    ensures
        se_items(items) is Some,
{
    lemma_items_report(items, k);
}

/// The parts of `e` whose values `e` uses: the callee and arguments of a
/// call, the operands of an operator, the attempt and fallback of
/// `se_falhar`, the items of a list, matrix or map, the object and index or
/// bounds of an access, and the conditions of an `se`.
pub open spec fn valued_parts(e: SExpr) -> Seq<SExpr> {
    match e {
        SExpr::Call { callee, args, .. } => seq![*callee] + args,
        SExpr::Unary { expr, .. } => seq![*expr],
        SExpr::Binary { left, right, .. } => seq![*left, *right],
        SExpr::SeFalhar { attempt, fallback, .. } => seq![*attempt, *fallback],
        SExpr::List { elements, .. } => elements,
        SExpr::Matrix { rows, .. } => rows,
        SExpr::Mapa { entries, .. } => entries.map_values(|m: SMapEntry| m.key) + entries.map_values(
            |m: SMapEntry| m.value,
        ),
        SExpr::Field { object, .. } => seq![*object],
        SExpr::MapField { object, .. } => seq![*object],
        SExpr::Index { object, index, .. } => seq![*object, *index],
        SExpr::Index2 { object, row, col, .. } => seq![*object, *row, *col],
        SExpr::Slice { object, start, end, .. } => seq![*object, *start, *end],
        SExpr::If { branches, .. } => branches.map_values(|b: SIfBranch| b.cond),
        _ => Seq::empty(),
    }
}

proof fn lemma_exprs_report(es: Seq<SExpr>, k: int)
    requires
        0 <= k < es.len(),
        se_expr(es[k], true) is Some,
    ensures
        se_exprs(es) is Some,
    decreases k,
{
    if k > 0 {
        assert(es.drop_first()[k - 1] == es[k]);
        lemma_exprs_report(es.drop_first(), k - 1);
    }
}

proof fn lemma_entries_report(es: Seq<SMapEntry>, k: int)
    requires
        0 <= k < es.len(),
        se_expr(es[k].key, true) is Some || se_expr(es[k].value, true) is Some,
    ensures
        se_entries(es) is Some,
    decreases k,
{
    if k > 0 {
        assert(es.drop_first()[k - 1] == es[k]);
        lemma_entries_report(es.drop_first(), k - 1);
    }
}

proof fn lemma_branches_report(bs: Seq<SIfBranch>, k: int, as_value: bool)
    requires
        0 <= k < bs.len(),
        se_expr(bs[k].cond, true) is Some,
    ensures
        se_branches(bs, as_value) is Some,
    decreases k,
{
    if k > 0 {
        assert(bs.drop_first()[k - 1] == bs[k]);
        lemma_branches_report(bs.drop_first(), k - 1, as_value);
    }
}

/// Whatever `e` uses the value of is used as a value: an `se` without
/// `senao` (or any other finding) in a part whose value `e` uses is
/// reported for `e`, whether or not the value of `e` itself is used.
pub proof fn law_valued_parts_are_checked(e: SExpr, k: int, as_value: bool)
    requires
        0 <= k < valued_parts(e).len(),
        se_expr(valued_parts(e)[k], true) is Some,
    ensures
        se_expr(e, as_value) is Some,
{
    match e {
        SExpr::Call { callee, args, .. } => {
            if k > 0 {
                assert(valued_parts(e)[k] == args[k - 1]);
                lemma_exprs_report(args, k - 1);
            }
        },
        SExpr::List { elements, .. } => lemma_exprs_report(elements, k),
        SExpr::Matrix { rows, .. } => lemma_exprs_report(rows, k),
        SExpr::Mapa { entries, .. } => {
            let n = entries.len() as int;
            if k < n {
                assert(valued_parts(e)[k] == entries[k].key);
                lemma_entries_report(entries, k);
            } else {
                assert(valued_parts(e)[k] == entries[k - n].value);
                lemma_entries_report(entries, k - n);
            }
        },
        SExpr::If { branches, else_block, .. } => {
            assert(valued_parts(e)[k] == branches[k].cond);
            lemma_branches_report(branches, k, as_value);
        },
        _ => {},
    }
}

/// An `se` used for its effect needs no `senao`: one whose conditions and
/// bodies hold nothing to report is accepted as a statement.
pub proof fn law_statement_se_needs_no_senao(branches: Seq<SIfBranch>, span: Span)
    requires
        forall|k: int|
            0 <= k < branches.len() ==> se_expr(#[trigger] branches[k].cond, true) is None
                && se_block(branches[k].body, false) is None,
    ensures
        se_expr(SExpr::If { branches, else_block: None, span }, false) is None,
{
    lemma_branches_quiet(branches);
}

proof fn lemma_branches_quiet(bs: Seq<SIfBranch>)
    requires
        forall|k: int|
            0 <= k < bs.len() ==> se_expr(#[trigger] bs[k].cond, true) is None && se_block(
                bs[k].body,
                false,
            ) is None,
    ensures
        se_branches(bs, false) is None,
    decreases bs.len(),
{
    if bs.len() > 0 {
        let r = bs.drop_first();
        assert forall|k: int| 0 <= k < r.len() implies se_expr(#[trigger] r[k].cond, true) is None
            && se_block(r[k].body, false) is None by {
            assert(r[k] == bs[k + 1]);
        }
        lemma_branches_quiet(r);
        assert(se_expr(bs[0].cond, true) is None);
    }
}

} // verus!
