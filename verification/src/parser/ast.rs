//! Syntax tree of Expressa programs, and its mathematical view.
use vstd::prelude::*;

use crate::lexer::Span;

verus! {

#[derive(Debug, Clone, Copy, PartialEq, Eq, Structural)]
pub enum BinaryOp {
    Add,
    Sub,
    Mul,
    Div,
    Rem,
    Eq,
    Ne,
    Lt,
    Gt,
    Le,
    Ge,
    And,
    Or,
    Contem,
}

#[derive(Debug, Clone, Copy, PartialEq, Eq, Structural)]
pub enum UnaryOp {
    Neg,
    Not,
}

/// Whole file.
#[derive(Debug, PartialEq)]
pub struct Program {
    pub items: Vec<Item>,
    pub span: Span,
}

/// Top-level item.
#[derive(Debug, PartialEq)]
pub enum Item {
    /// `mat = importe "x"` or `importe "x"`
    Import(Import),
    Stmt(Stmt),
}

#[derive(Debug, PartialEq)]
pub struct Import {
    /// `None` = bring names into the current scope; `Some(name)` = namespace binding.
    pub alias: Option<String>,
    /// String literal contents, e.g. "lib/math".
    pub path: String,
    pub span: Span,
}

/// `inicio` … `fim` (or `{` … `}`): a non-empty sequence of statements.
#[derive(Debug, PartialEq)]
pub struct Block {
    pub stmts: Vec<Stmt>,
    pub span: Span,
}

#[derive(Debug, PartialEq)]
pub enum Stmt {
    /// Expression used for its effect or value.
    Expr { expr: Expr, span: Span },
    /// `alvo = valor`
    Assign { target: AssignTarget, value: Expr, span: Span },
    /// `repita n vezes inicio ... fim`
    Repita { count: Expr, body: Block, span: Span },
    /// `para i de a ate b inicio ... fim`
    ParaRange { var: String, from: Expr, to: Expr, body: Block, span: Span },
    /// `para x em lista inicio ... fim`
    ParaIn { var: String, iter: Expr, body: Block, span: Span },
}

/// Left-hand side of `=`.
#[derive(Debug, PartialEq)]
pub enum AssignTarget {
    Name { name: String, span: Span },
    /// `lista[i]` or `mapa[k]` (not a slice).
    Index { object: Expr, index: Expr, span: Span },
}

#[derive(Debug, PartialEq)]
pub enum Expr {
    /// Raw number lexeme, e.g. "1_000", "3.14".
    Number { raw: String, span: Span },
    /// Already unescaped.
    String { value: String, span: Span },
    Bool { value: bool, span: Span },
    List { elements: Vec<Expr>, span: Span },
    /// `mapa {}`, `mapa { k -> v }` or `mapa inicio k -> v ... fim`
    Mapa { entries: Vec<MapEntry>, span: Span },
    /// `matriz { [1, 2], [3, 4] }`: each row is an expression.
    Matrix { rows: Vec<Expr>, span: Span },
    /// `funcao (a, b) inicio ... fim`
    Function { params: Vec<Param>, body: Block, span: Span },
    Ident { name: String, span: Span },
    /// `mat.soma`: a name inside a module.
    Field { object: Box<Expr>, field: String, span: Span },
    /// `pessoa:nome`: identifier key of a mapa.
    MapField { object: Box<Expr>, field: String, span: Span },
    /// `f(a, b)`
    Call { callee: Box<Expr>, args: Vec<Expr>, span: Span },
    /// `a[i]`
    Index { object: Box<Expr>, index: Box<Expr>, span: Span },
    /// `m[i, j]`
    Index2 { object: Box<Expr>, row: Box<Expr>, col: Box<Expr>, span: Span },
    /// `a[i..j]`
    Slice { object: Box<Expr>, start: Box<Expr>, end: Box<Expr>, span: Span },
    Unary { op: UnaryOp, expr: Box<Expr>, span: Span },
    Binary { left: Box<Expr>, op: BinaryOp, right: Box<Expr>, span: Span },
    /// Block used as an expression.
    Block(Block),
    /// `se cond inicio ... fim (ou se ...)* (senao inicio ... fim)?`
    If { branches: Vec<IfBranch>, else_block: Option<Block>, span: Span },
    /// `A se_falhar B`
    SeFalhar { attempt: Box<Expr>, fallback: Box<Expr>, span: Span },
}

#[derive(Debug, PartialEq)]
pub struct MapEntry {
    pub key: Expr,
    pub value: Expr,
    pub span: Span,
}

#[derive(Debug, PartialEq)]
pub struct Param {
    pub name: String,
    pub span: Span,
}

#[derive(Debug, PartialEq)]
pub struct IfBranch {
    pub cond: Expr,
    pub body: Block,
    pub span: Span,
}

// ── mathematical view ───────────────────────────────────────────────────

pub enum SExpr {
    Number { raw: Seq<char>, span: Span },
    String { value: Seq<char>, span: Span },
    Bool { value: bool, span: Span },
    List { elements: Seq<SExpr>, span: Span },
    Mapa { entries: Seq<SMapEntry>, span: Span },
    Matrix { rows: Seq<SExpr>, span: Span },
    Function { params: Seq<SParam>, body: SBlock, span: Span },
    Ident { name: Seq<char>, span: Span },
    Field { object: Box<SExpr>, field: Seq<char>, span: Span },
    MapField { object: Box<SExpr>, field: Seq<char>, span: Span },
    Call { callee: Box<SExpr>, args: Seq<SExpr>, span: Span },
    Index { object: Box<SExpr>, index: Box<SExpr>, span: Span },
    Index2 { object: Box<SExpr>, row: Box<SExpr>, col: Box<SExpr>, span: Span },
    Slice { object: Box<SExpr>, start: Box<SExpr>, end: Box<SExpr>, span: Span },
    Unary { op: UnaryOp, expr: Box<SExpr>, span: Span },
    Binary { left: Box<SExpr>, op: BinaryOp, right: Box<SExpr>, span: Span },
    Block(SBlock),
    If { branches: Seq<SIfBranch>, else_block: Option<SBlock>, span: Span },
    SeFalhar { attempt: Box<SExpr>, fallback: Box<SExpr>, span: Span },
}

pub struct SMapEntry {
    pub key: SExpr,
    pub value: SExpr,
    pub span: Span,
}

pub struct SParam {
    pub name: Seq<char>,
    pub span: Span,
}

pub struct SIfBranch {
    pub cond: SExpr,
    pub body: SBlock,
    pub span: Span,
}

pub struct SBlock {
    pub stmts: Seq<SStmt>,
    pub span: Span,
}

pub enum SStmt {
    Expr { expr: SExpr, span: Span },
    Assign { target: STarget, value: SExpr, span: Span },
    Repita { count: SExpr, body: SBlock, span: Span },
    ParaRange { var: Seq<char>, from: SExpr, to: SExpr, body: SBlock, span: Span },
    ParaIn { var: Seq<char>, iter: SExpr, body: SBlock, span: Span },
}

pub enum STarget {
    Name { name: Seq<char>, span: Span },
    Index { object: SExpr, index: SExpr, span: Span },
}

pub struct SImport {
    pub alias: Option<Seq<char>>,
    pub path: Seq<char>,
    pub span: Span,
}

pub enum SItem {
    Import(SImport),
    Stmt(SStmt),
}

pub struct SProgram {
    pub items: Seq<SItem>,
    pub span: Span,
}

pub open spec fn view_expr(e: Expr) -> SExpr
    decreases e,
{
    match e {
        Expr::Number { raw, span } => SExpr::Number { raw: raw@, span },
        Expr::String { value, span } => SExpr::String { value: value@, span },
        Expr::Bool { value, span } => SExpr::Bool { value, span },
        Expr::List { elements, span } => SExpr::List { elements: view_exprs(elements@), span },
        Expr::Mapa { entries, span } => SExpr::Mapa { entries: view_entries(entries@), span },
        Expr::Matrix { rows, span } => SExpr::Matrix { rows: view_exprs(rows@), span },
        Expr::Function { params, body, span } => SExpr::Function {
            params: view_params(params@),
            body: view_block(body),
            span,
        },
        Expr::Ident { name, span } => SExpr::Ident { name: name@, span },
        Expr::Field { object, field, span } => SExpr::Field {
            object: Box::new(view_expr(*object)),
            field: field@,
            span,
        },
        Expr::MapField { object, field, span } => SExpr::MapField {
            object: Box::new(view_expr(*object)),
            field: field@,
            span,
        },
        Expr::Call { callee, args, span } => SExpr::Call {
            callee: Box::new(view_expr(*callee)),
            args: view_exprs(args@),
            span,
        },
        Expr::Index { object, index, span } => SExpr::Index {
            object: Box::new(view_expr(*object)),
            index: Box::new(view_expr(*index)),
            span,
        },
        Expr::Index2 { object, row, col, span } => SExpr::Index2 {
            object: Box::new(view_expr(*object)),
            row: Box::new(view_expr(*row)),
            col: Box::new(view_expr(*col)),
            span,
        },
        Expr::Slice { object, start, end, span } => SExpr::Slice {
            object: Box::new(view_expr(*object)),
            start: Box::new(view_expr(*start)),
            end: Box::new(view_expr(*end)),
            span,
        },
        Expr::Unary { op, expr, span } => SExpr::Unary { op, expr: Box::new(view_expr(*expr)), span },
        Expr::Binary { left, op, right, span } => SExpr::Binary {
            left: Box::new(view_expr(*left)),
            op,
            right: Box::new(view_expr(*right)),
            span,
        },
        Expr::Block(b) => SExpr::Block(view_block(b)),
        Expr::If { branches, else_block, span } => SExpr::If {
            branches: view_branches(branches@),
            else_block: match else_block {
                Some(b) => Some(view_block(b)),
                None => None,
            },
            span,
        },
        Expr::SeFalhar { attempt, fallback, span } => SExpr::SeFalhar {
            attempt: Box::new(view_expr(*attempt)),
            fallback: Box::new(view_expr(*fallback)),
            span,
        },
    }
}

pub open spec fn view_exprs(v: Seq<Expr>) -> Seq<SExpr>
    decreases v,
{
    if v.len() == 0 {
        Seq::empty()
    } else {
        view_exprs(v.drop_last()).push(view_expr(v.last()))
    }
}

pub open spec fn view_entries(v: Seq<MapEntry>) -> Seq<SMapEntry>
    decreases v,
{
    if v.len() == 0 {
        Seq::empty()
    } else {
        view_entries(v.drop_last()).push(
            SMapEntry {
                key: view_expr(v.last().key),
                value: view_expr(v.last().value),
                span: v.last().span,
            },
        )
    }
}

pub open spec fn view_params(v: Seq<Param>) -> Seq<SParam>
    decreases v.len(),
{
    if v.len() == 0 {
        Seq::empty()
    } else {
        view_params(v.drop_last()).push(SParam { name: v.last().name@, span: v.last().span })
    }
}

pub open spec fn view_branches(v: Seq<IfBranch>) -> Seq<SIfBranch>
    decreases v,
{
    if v.len() == 0 {
        Seq::empty()
    } else {
        view_branches(v.drop_last()).push(
            SIfBranch {
                cond: view_expr(v.last().cond),
                body: view_block(v.last().body),
                span: v.last().span,
            },
        )
    }
}

pub open spec fn view_block(b: Block) -> SBlock
    decreases b,
{
    SBlock { stmts: view_stmts(b.stmts@), span: b.span }
}

pub open spec fn view_stmts(v: Seq<Stmt>) -> Seq<SStmt>
    decreases v,
{
    if v.len() == 0 {
        Seq::empty()
    } else {
        view_stmts(v.drop_last()).push(view_stmt(v.last()))
    }
}

pub open spec fn view_stmt(s: Stmt) -> SStmt
    decreases s,
{
    match s {
        Stmt::Expr { expr, span } => SStmt::Expr { expr: view_expr(expr), span },
        Stmt::Assign { target, value, span } => SStmt::Assign {
            target: view_target(target),
            value: view_expr(value),
            span,
        },
        Stmt::Repita { count, body, span } => SStmt::Repita {
            count: view_expr(count),
            body: view_block(body),
            span,
        },
        Stmt::ParaRange { var, from, to, body, span } => SStmt::ParaRange {
            var: var@,
            from: view_expr(from),
            to: view_expr(to),
            body: view_block(body),
            span,
        },
        Stmt::ParaIn { var, iter, body, span } => SStmt::ParaIn {
            var: var@,
            iter: view_expr(iter),
            body: view_block(body),
            span,
        },
    }
}

pub open spec fn view_target(t: AssignTarget) -> STarget
    decreases t,
{
    match t {
        AssignTarget::Name { name, span } => STarget::Name { name: name@, span },
        AssignTarget::Index { object, index, span } => STarget::Index {
            object: view_expr(object),
            index: view_expr(index),
            span,
        },
    }
}

// ── spans ──────────────────────────────────────────────────────────────

pub open spec fn expr_span(e: SExpr) -> Span {
    match e {
        SExpr::Number { span, .. } => span,
        SExpr::String { span, .. } => span,
        SExpr::Bool { span, .. } => span,
        SExpr::List { span, .. } => span,
        SExpr::Mapa { span, .. } => span,
        SExpr::Matrix { span, .. } => span,
        SExpr::Function { span, .. } => span,
        SExpr::Ident { span, .. } => span,
        SExpr::Field { span, .. } => span,
        SExpr::MapField { span, .. } => span,
        SExpr::Call { span, .. } => span,
        SExpr::Index { span, .. } => span,
        SExpr::Index2 { span, .. } => span,
        SExpr::Slice { span, .. } => span,
        SExpr::Unary { span, .. } => span,
        SExpr::Binary { span, .. } => span,
        SExpr::Block(b) => b.span,
        SExpr::If { span, .. } => span,
        SExpr::SeFalhar { span, .. } => span,
    }
}

pub open spec fn stmt_span(s: SStmt) -> Span {
    match s {
        SStmt::Expr { span, .. } => span,
        SStmt::Assign { span, .. } => span,
        SStmt::Repita { span, .. } => span,
        SStmt::ParaRange { span, .. } => span,
        SStmt::ParaIn { span, .. } => span,
    }
}

pub open spec fn target_span(t: STarget) -> Span {
    match t {
        STarget::Name { span, .. } => span,
        STarget::Index { span, .. } => span,
    }
}

pub open spec fn item_span(i: SItem) -> Span {
    match i {
        SItem::Import(imp) => imp.span,
        SItem::Stmt(s) => stmt_span(s),
    }
}


pub open spec fn view_alias(a: Option<String>) -> Option<Seq<char>> {
    match a {
        Some(s) => Some(s@),
        None => None,
    }
}

pub open spec fn view_import(i: Import) -> SImport {
    SImport { alias: view_alias(i.alias), path: i.path@, span: i.span }
}

pub open spec fn view_item(i: Item) -> SItem {
    match i {
        Item::Import(imp) => SItem::Import(view_import(imp)),
        Item::Stmt(s) => SItem::Stmt(view_stmt(s)),
    }
}

pub open spec fn view_items(v: Seq<Item>) -> Seq<SItem>
    decreases v.len(),
{
    if v.len() == 0 {
        Seq::empty()
    } else {
        view_items(v.drop_last()).push(view_item(v.last()))
    }
}

impl View for Expr {
    type V = SExpr;

    open spec fn view(&self) -> SExpr {
        view_expr(*self)
    }
}

impl View for Stmt {
    type V = SStmt;

    open spec fn view(&self) -> SStmt {
        view_stmt(*self)
    }
}

impl View for Block {
    type V = SBlock;

    open spec fn view(&self) -> SBlock {
        view_block(*self)
    }
}

impl View for Item {
    type V = SItem;

    open spec fn view(&self) -> SItem {
        view_item(*self)
    }
}

impl View for Program {
    type V = SProgram;

    open spec fn view(&self) -> SProgram {
        SProgram { items: view_items(self.items@), span: self.span }
    }
}

pub proof fn lemma_view_exprs_push(v: Seq<Expr>, x: Expr)
    ensures
        view_exprs(v.push(x)) == view_exprs(v).push(view_expr(x)),
{
    assert(v.push(x).drop_last() =~= v);
}

pub proof fn lemma_view_stmts_push(v: Seq<Stmt>, x: Stmt)
    ensures
        view_stmts(v.push(x)) == view_stmts(v).push(view_stmt(x)),
{
    assert(v.push(x).drop_last() =~= v);
}

pub proof fn lemma_view_entries_push(v: Seq<MapEntry>, x: MapEntry)
    ensures
        view_entries(v.push(x)) == view_entries(v).push(
            SMapEntry { key: view_expr(x.key), value: view_expr(x.value), span: x.span },
        ),
{
    assert(v.push(x).drop_last() =~= v);
}

pub proof fn lemma_view_params_push(v: Seq<Param>, x: Param)
    ensures
        view_params(v.push(x)) == view_params(v).push(SParam { name: x.name@, span: x.span }),
{
    assert(v.push(x).drop_last() =~= v);
}

pub proof fn lemma_view_branches_push(v: Seq<IfBranch>, x: IfBranch)
    ensures
        view_branches(v.push(x)) == view_branches(v).push(
            SIfBranch { cond: view_expr(x.cond), body: view_block(x.body), span: x.span },
        ),
{
    assert(v.push(x).drop_last() =~= v);
}

pub proof fn lemma_view_items_push(v: Seq<Item>, x: Item)
    ensures
        view_items(v.push(x)) == view_items(v).push(view_item(x)),
{
    assert(v.push(x).drop_last() =~= v);
}

pub proof fn lemma_view_branches_len(v: Seq<IfBranch>)
    ensures
        view_branches(v).len() == v.len(),
        forall|k: int| 0 <= k < v.len() ==> (#[trigger] view_branches(v)[k]).span == v[k].span,
    decreases v.len(),
{
    if v.len() > 0 {
        lemma_view_branches_len(v.drop_last());
        assert forall|k: int| 0 <= k < v.len() implies (#[trigger] view_branches(v)[k]).span
            == v[k].span by {
            if k < v.len() - 1 {
                assert(v.drop_last()[k] == v[k]);
            }
        }
    }
}

impl Expr {
    /// Where this expression stands in the source.
    pub fn span(&self) -> (s: Span)
        ensures
            s == expr_span(self@),
    {
        match self {
            Expr::Number { span, .. } => *span,
            Expr::String { span, .. } => *span,
            Expr::Bool { span, .. } => *span,
            Expr::List { span, .. } => *span,
            Expr::Mapa { span, .. } => *span,
            Expr::Matrix { span, .. } => *span,
            Expr::Function { span, .. } => *span,
            Expr::Ident { span, .. } => *span,
            Expr::Field { span, .. } => *span,
            Expr::MapField { span, .. } => *span,
            Expr::Call { span, .. } => *span,
            Expr::Index { span, .. } => *span,
            Expr::Index2 { span, .. } => *span,
            Expr::Slice { span, .. } => *span,
            Expr::Unary { span, .. } => *span,
            Expr::Binary { span, .. } => *span,
            Expr::Block(b) => {
                assert(view_block(*b).span == b.span);
                b.span
            },
            Expr::If { span, .. } => *span,
            Expr::SeFalhar { span, .. } => *span,
        }
    }
}

impl Stmt {
    /// Where this statement stands in the source.
    pub fn span(&self) -> (s: Span)
        ensures
            s == stmt_span(self@),
    {
        match self {
            Stmt::Expr { span, .. } => *span,
            Stmt::Assign { span, .. } => *span,
            Stmt::Repita { span, .. } => *span,
            Stmt::ParaRange { span, .. } => *span,
            Stmt::ParaIn { span, .. } => *span,
        }
    }
}

impl AssignTarget {
    /// Where this assignment target stands in the source.
    pub fn span(&self) -> (s: Span)
        ensures
            s == target_span(view_target(*self)),
    {
        match self {
            AssignTarget::Name { span, .. } => *span,
            AssignTarget::Index { span, .. } => *span,
        }
    }
}

impl Item {
    /// Where this item stands in the source.
    pub fn span(&self) -> (s: Span)
        ensures
            s == item_span(self@),
    {
        match self {
            Item::Import(i) => i.span,
            Item::Stmt(s) => s.span(),
        }
    }
}


pub proof fn lemma_view_exprs_index(v: Seq<Expr>)
    ensures
        view_exprs(v).len() == v.len(),
        forall|k: int| 0 <= k < v.len() ==> #[trigger] view_exprs(v)[k] == view_expr(v[k]),
    decreases v.len(),
{
    if v.len() > 0 {
        lemma_view_exprs_index(v.drop_last());
        assert forall|k: int| 0 <= k < v.len() implies #[trigger] view_exprs(v)[k] == view_expr(
            v[k],
        ) by {
            if k < v.len() - 1 {
                assert(v.drop_last()[k] == v[k]);
            }
        }
    }
}

pub proof fn lemma_view_stmts_index(v: Seq<Stmt>)
    ensures
        view_stmts(v).len() == v.len(),
        forall|k: int| 0 <= k < v.len() ==> #[trigger] view_stmts(v)[k] == view_stmt(v[k]),
    decreases v.len(),
{
    if v.len() > 0 {
        lemma_view_stmts_index(v.drop_last());
        assert forall|k: int| 0 <= k < v.len() implies #[trigger] view_stmts(v)[k] == view_stmt(
            v[k],
        ) by {
            if k < v.len() - 1 {
                assert(v.drop_last()[k] == v[k]);
            }
        }
    }
}

pub proof fn lemma_view_entries_index(v: Seq<MapEntry>)
    ensures
        view_entries(v).len() == v.len(),
        forall|k: int|
            0 <= k < v.len() ==> #[trigger] view_entries(v)[k] == (SMapEntry {
                key: view_expr(v[k].key),
                value: view_expr(v[k].value),
                span: v[k].span,
            }),
    decreases v.len(),
{
    if v.len() > 0 {
        lemma_view_entries_index(v.drop_last());
        assert forall|k: int| 0 <= k < v.len() implies #[trigger] view_entries(v)[k] == (SMapEntry {
            key: view_expr(v[k].key),
            value: view_expr(v[k].value),
            span: v[k].span,
        }) by {
            if k < v.len() - 1 {
                assert(v.drop_last()[k] == v[k]);
            }
        }
    }
}

pub proof fn lemma_view_branches_index(v: Seq<IfBranch>)
    ensures
        view_branches(v).len() == v.len(),
        forall|k: int|
            0 <= k < v.len() ==> #[trigger] view_branches(v)[k] == (SIfBranch {
                cond: view_expr(v[k].cond),
                body: view_block(v[k].body),
                span: v[k].span,
            }),
    decreases v.len(),
{
    if v.len() > 0 {
        lemma_view_branches_index(v.drop_last());
        assert forall|k: int| 0 <= k < v.len() implies #[trigger] view_branches(v)[k] == (SIfBranch {
            cond: view_expr(v[k].cond),
            body: view_block(v[k].body),
            span: v[k].span,
        }) by {
            if k < v.len() - 1 {
                assert(v.drop_last()[k] == v[k]);
            }
        }
    }
}

pub proof fn lemma_view_items_index(v: Seq<Item>)
    ensures
        view_items(v).len() == v.len(),
        forall|k: int| 0 <= k < v.len() ==> #[trigger] view_items(v)[k] == view_item(v[k]),
    decreases v.len(),
{
    if v.len() > 0 {
        lemma_view_items_index(v.drop_last());
        assert forall|k: int| 0 <= k < v.len() implies #[trigger] view_items(v)[k] == view_item(
            v[k],
        ) by {
            if k < v.len() - 1 {
                assert(v.drop_last()[k] == v[k]);
            }
        }
    }
}


// ── copies ──────────────────────────────────────────────────────────────

fn copy_string(s: &String) -> (r: String)
    ensures
        r@ == s@,
{
    s.clone()
}

fn copy_exprs(v: &Vec<Expr>) -> (r: Vec<Expr>)
    ensures
        view_exprs(r@) == view_exprs(v@),
    decreases *v,
{
    let mut out: Vec<Expr> = Vec::new();
    let mut k: usize = 0;
    while k < v.len()
        invariant
            0 <= k <= v@.len(),
            view_exprs(out@) == view_exprs(v@.take(k as int)),
        decreases v@.len() - k,
    {
        let e = v[k].deep_copy();
        proof {
            lemma_view_exprs_push(out@, e);
            lemma_view_exprs_push(v@.take(k as int), v@[k as int]);
            assert(v@.take(k + 1) =~= v@.take(k as int).push(v@[k as int]));
        }
        out.push(e);
        k = k + 1;
    }
    assert(v@.take(v@.len() as int) =~= v@);
    out
}

fn copy_stmts(v: &Vec<Stmt>) -> (r: Vec<Stmt>)
    ensures
        view_stmts(r@) == view_stmts(v@),
    decreases *v,
{
    let mut out: Vec<Stmt> = Vec::new();
    let mut k: usize = 0;
    while k < v.len()
        invariant
            0 <= k <= v@.len(),
            view_stmts(out@) == view_stmts(v@.take(k as int)),
        decreases v@.len() - k,
    {
        let s = v[k].deep_copy();
        proof {
            lemma_view_stmts_push(out@, s);
            lemma_view_stmts_push(v@.take(k as int), v@[k as int]);
            assert(v@.take(k + 1) =~= v@.take(k as int).push(v@[k as int]));
        }
        out.push(s);
        k = k + 1;
    }
    assert(v@.take(v@.len() as int) =~= v@);
    out
}

fn copy_entries(v: &Vec<MapEntry>) -> (r: Vec<MapEntry>)
    ensures
        view_entries(r@) == view_entries(v@),
    decreases *v,
{
    let mut out: Vec<MapEntry> = Vec::new();
    let mut k: usize = 0;
    while k < v.len()
        invariant
            0 <= k <= v@.len(),
            view_entries(out@) == view_entries(v@.take(k as int)),
        decreases v@.len() - k,
    {
        let e = MapEntry { key: v[k].key.deep_copy(), value: v[k].value.deep_copy(), span: v[k].span };
        proof {
            lemma_view_entries_push(out@, e);
            lemma_view_entries_push(v@.take(k as int), v@[k as int]);
            assert(v@.take(k + 1) =~= v@.take(k as int).push(v@[k as int]));
        }
        out.push(e);
        k = k + 1;
    }
    assert(v@.take(v@.len() as int) =~= v@);
    out
}

fn copy_branches(v: &Vec<IfBranch>) -> (r: Vec<IfBranch>)
    ensures
        view_branches(r@) == view_branches(v@),
    decreases *v,
{
    let mut out: Vec<IfBranch> = Vec::new();
    let mut k: usize = 0;
    while k < v.len()
        invariant
            0 <= k <= v@.len(),
            view_branches(out@) == view_branches(v@.take(k as int)),
        decreases v@.len() - k,
    {
        let b = IfBranch { cond: v[k].cond.deep_copy(), body: v[k].body.deep_copy(), span: v[k].span };
        proof {
            lemma_view_branches_push(out@, b);
            lemma_view_branches_push(v@.take(k as int), v@[k as int]);
            assert(v@.take(k + 1) =~= v@.take(k as int).push(v@[k as int]));
        }
        out.push(b);
        k = k + 1;
    }
    assert(v@.take(v@.len() as int) =~= v@);
    out
}

/// A copy of the parameter list.
pub fn copy_params(v: &Vec<Param>) -> (r: Vec<Param>)
    ensures
        view_params(r@) == view_params(v@),
{
    let mut out: Vec<Param> = Vec::new();
    let mut k: usize = 0;
    while k < v.len()
        invariant
            0 <= k <= v@.len(),
            view_params(out@) == view_params(v@.take(k as int)),
        decreases v@.len() - k,
    {
        let p = Param { name: copy_string(&v[k].name), span: v[k].span };
        proof {
            lemma_view_params_push(out@, p);
            lemma_view_params_push(v@.take(k as int), v@[k as int]);
            assert(v@.take(k + 1) =~= v@.take(k as int).push(v@[k as int]));
        }
        out.push(p);
        k = k + 1;
    }
    assert(v@.take(v@.len() as int) =~= v@);
    out
}

impl Block {
    /// A copy of this block, node for node.
    pub fn deep_copy(&self) -> (r: Block)
        ensures
            view_block(r) == view_block(*self),
        decreases *self,
    {
        Block { stmts: copy_stmts(&self.stmts), span: self.span }
    }
}

impl AssignTarget {
    /// A copy of this target, node for node.
    pub fn deep_copy(&self) -> (r: AssignTarget)
        ensures
            view_target(r) == view_target(*self),
        decreases *self,
    {
        match self {
            AssignTarget::Name { name, span } => AssignTarget::Name { name: copy_string(name), span: *span },
            AssignTarget::Index { object, index, span } => AssignTarget::Index {
                object: object.deep_copy(),
                index: index.deep_copy(),
                span: *span,
            },
        }
    }
}

impl Stmt {
    /// A copy of this statement, node for node.
    pub fn deep_copy(&self) -> (r: Stmt)
        ensures
            r@ == self@,
        decreases *self,
    {
        match self {
            Stmt::Expr { expr, span } => Stmt::Expr { expr: expr.deep_copy(), span: *span },
            Stmt::Assign { target, value, span } => Stmt::Assign {
                target: target.deep_copy(),
                value: value.deep_copy(),
                span: *span,
            },
            Stmt::Repita { count, body, span } => Stmt::Repita {
                count: count.deep_copy(),
                body: body.deep_copy(),
                span: *span,
            },
            Stmt::ParaRange { var, from, to, body, span } => Stmt::ParaRange {
                var: copy_string(var),
                from: from.deep_copy(),
                to: to.deep_copy(),
                body: body.deep_copy(),
                span: *span,
            },
            Stmt::ParaIn { var, iter, body, span } => Stmt::ParaIn {
                var: copy_string(var),
                iter: iter.deep_copy(),
                body: body.deep_copy(),
                span: *span,
            },
        }
    }
}

impl Expr {
    /// A copy of this expression, node for node.
    pub fn deep_copy(&self) -> (r: Expr)
        ensures
            r@ == self@,
        decreases *self,
    {
        match self {
            Expr::Number { raw, span } => Expr::Number { raw: copy_string(raw), span: *span },
            Expr::String { value, span } => Expr::String { value: copy_string(value), span: *span },
            Expr::Bool { value, span } => Expr::Bool { value: *value, span: *span },
            Expr::List { elements, span } => Expr::List { elements: copy_exprs(elements), span: *span },
            Expr::Mapa { entries, span } => Expr::Mapa { entries: copy_entries(entries), span: *span },
            Expr::Matrix { rows, span } => Expr::Matrix { rows: copy_exprs(rows), span: *span },
            Expr::Function { params, body, span } => Expr::Function {
                params: copy_params(params),
                body: body.deep_copy(),
                span: *span,
            },
            Expr::Ident { name, span } => Expr::Ident { name: copy_string(name), span: *span },
            Expr::Field { object, field, span } => Expr::Field {
                object: Box::new((**object).deep_copy()),
                field: copy_string(field),
                span: *span,
            },
            Expr::MapField { object, field, span } => Expr::MapField {
                object: Box::new((**object).deep_copy()),
                field: copy_string(field),
                span: *span,
            },
            Expr::Call { callee, args, span } => Expr::Call {
                callee: Box::new((**callee).deep_copy()),
                args: copy_exprs(args),
                span: *span,
            },
            Expr::Index { object, index, span } => Expr::Index {
                object: Box::new((**object).deep_copy()),
                index: Box::new((**index).deep_copy()),
                span: *span,
            },
            Expr::Index2 { object, row, col, span } => Expr::Index2 {
                object: Box::new((**object).deep_copy()),
                row: Box::new((**row).deep_copy()),
                col: Box::new((**col).deep_copy()),
                span: *span,
            },
            Expr::Slice { object, start, end, span } => Expr::Slice {
                object: Box::new((**object).deep_copy()),
                start: Box::new((**start).deep_copy()),
                end: Box::new((**end).deep_copy()),
                span: *span,
            },
            Expr::Unary { op, expr, span } => Expr::Unary {
                op: *op,
                expr: Box::new((**expr).deep_copy()),
                span: *span,
            },
            Expr::Binary { left, op, right, span } => Expr::Binary {
                left: Box::new((**left).deep_copy()),
                op: *op,
                right: Box::new((**right).deep_copy()),
                span: *span,
            },
            Expr::Block(b) => Expr::Block(b.deep_copy()),
            Expr::If { branches, else_block, span } => Expr::If {
                branches: copy_branches(branches),
                else_block: match else_block {
                    Some(b) => Some(b.deep_copy()),
                    None => None,
                },
                span: *span,
            },
            Expr::SeFalhar { attempt, fallback, span } => Expr::SeFalhar {
                attempt: Box::new((**attempt).deep_copy()),
                fallback: Box::new((**fallback).deep_copy()),
                span: *span,
            },
        }
    }
}

} // verus!
