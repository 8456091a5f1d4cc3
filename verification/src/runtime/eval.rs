//! Small decisions of the evaluator that depend on the syntax tree alone.
use vstd::prelude::*;

use crate::parser::ast::{view_expr, Expr, Param, SExpr};
use crate::runtime::error::RuntimeError;
use crate::text::{decimal, i64_decimal, push_str, signed_decimal, usize_decimal};

verus! {

/// The name a call is known by in the call stack.
pub open spec fn callee_text(e: SExpr) -> Seq<char> {
    match e {
        SExpr::Ident { name, .. } => name,
        SExpr::Field { field, .. } => field,
        _ => "<funcao>"@,
    }
}

/// The name a call of `expr` is known by: the called name, the field of a
/// module, or `<funcao>`.
pub fn callee_name(expr: &Expr) -> (r: String)
    ensures
        r@ == callee_text(view_expr(*expr)),
{
    match expr {
        Expr::Ident { name, .. } => name.clone(),
        Expr::Field { field, .. } => field.clone(),
        _ => "<funcao>".to_owned(),
    }
}

/// Whether some earlier name equals the `j`-th.
pub open spec fn repeats_at(names: Seq<Seq<char>>, j: int) -> bool {
    exists|i: int| 0 <= i < j && names[i] == names[j]
}

/// The names of `params`, in order.
pub open spec fn param_names(params: Seq<Param>) -> Seq<Seq<char>> {
    params.map_values(|p: Param| p.name@)
}

/// Fails with the first repeated parameter name.
pub fn check_unique_params(params: &Vec<Param>) -> (r: Result<(), String>)
    ensures
        match r {
            Ok(()) => forall|j: int|
                0 <= j < params@.len() ==> !#[trigger] repeats_at(param_names(params@), j),
            Err(n) => exists|j: int|
                0 <= j < params@.len() && #[trigger] repeats_at(param_names(params@), j) && n@
                    == params@[j].name@ && forall|m: int|
                    0 <= m < j ==> !#[trigger] repeats_at(param_names(params@), m),
        },
{
    let ghost names = param_names(params@);
    let mut j: usize = 0;
    while j < params.len()
        invariant
            names == param_names(params@),
            0 <= j <= params@.len(),
            forall|m: int| 0 <= m < j ==> !#[trigger] repeats_at(names, m),
        decreases params@.len() - j,
    {
        let mut i: usize = 0;
        while i < j
            invariant
                names == param_names(params@),
                0 <= i <= j < params@.len(),
                forall|m: int| 0 <= m < j ==> !#[trigger] repeats_at(names, m),
                forall|k: int| 0 <= k < i ==> names[k] != names[j as int],
            decreases j - i,
        {
            if params[i].name.eq(&params[j].name) {
                assert(names[i as int] == names[j as int]);
                assert(repeats_at(names, j as int));
                return Err(params[j].name.clone());
            }
            i = i + 1;
        }
        assert(!repeats_at(names, j as int));
        j = j + 1;
    }
    Ok(())
}


// ── positions in lists and texts ────────────────────────────────────────

/// Where the `n`-th item (counted from 1) of a collection of `len` items
/// stands, or the error reported for `n`.
pub open spec fn index_result(n: int, len: nat) -> Result<int, Seq<char>> {
    if n < 1 {
        Err("índice deve ser >= 1, encontrado "@ + signed_decimal(n))
    } else if n - 1 >= len {
        Err("índice "@ + signed_decimal(n) + " fora do intervalo (tamanho "@ + decimal(len) + ")"@)
    } else {
        Ok(n - 1)
    }
}

/// The place of the `n`-th item (counted from 1) of a collection of `len`
/// items: `n - 1`, or an error when `n` is below 1 or past the end.
pub fn to_index(n: i64, len: usize) -> (r: Result<usize, String>)
    ensures
        match r {
            Ok(i) => index_result(n as int, len as nat) == Ok::<int, Seq<char>>(i as int),
            Err(m) => index_result(n as int, len as nat) == Err::<int, Seq<char>>(m@),
        },
        r matches Ok(i) ==> i < len,
{
    if n < 1 {
        let mut m = "índice deve ser >= 1, encontrado ".to_owned();
        push_str(&mut m, i64_decimal(n).as_str());
        return Err(m);
    }
    if (n - 1) as u64 >= len as u64 {
        let mut m = "índice ".to_owned();
        push_str(&mut m, i64_decimal(n).as_str());
        push_str(&mut m, " fora do intervalo (tamanho ");
        push_str(&mut m, usize_decimal(len).as_str());
        push_str(&mut m, ")");
        return Err(m);
    }
    Ok((n - 1) as usize)
}

/// `a` or `b`, whichever is smaller.
pub open spec fn min_int(a: int, b: int) -> int {
    if a <= b {
        a
    } else {
        b
    }
}

/// The half-open range of positions that items `s` to `e` (counted from 1,
/// both included) take in a collection of `len` items, or the error
/// reported: an error when either is below 1, empty when `s` comes after
/// `e`, and cut at the last item when the range reaches past it.
pub open spec fn slice_result(s: int, e: int, len: nat) -> Result<(int, int), Seq<char>> {
    if s < 1 || e < 1 {
        Err("índices de fatia devem ser >= 1"@)
    } else if s > e {
        Ok((0, 0))
    } else {
        Ok((min_int(s - 1, len as int), min_int(e, len as int)))
    }
}

/// The positions `a..b` that items `s` to `e` (counted from 1, both
/// included) take in a collection of `len` items: cut at the last item when
/// the range reaches past it, `0..0` when `s` comes after `e`, an error when
/// either is below 1.
pub fn to_slice_bounds(s: i64, e: i64, len: usize) -> (r: Result<(usize, usize), String>)
    ensures
        match r {
            Ok((a, b)) => slice_result(s as int, e as int, len as nat) == Ok::<(int, int), Seq<char>>(
                (a as int, b as int),
            ),
            Err(m) => slice_result(s as int, e as int, len as nat) == Err::<(int, int), Seq<char>>(m@),
        },
        r matches Ok((a, b)) ==> a <= b <= len,
{
    if s < 1 || e < 1 {
        return Err("índices de fatia devem ser >= 1".to_owned());
    }
    if s > e {
        return Ok((0, 0));
    }
    let a: usize = if (s - 1) as u64 <= len as u64 {
        (s - 1) as usize
    } else {
        len
    };
    let b: usize = if e as u64 <= len as u64 {
        e as usize
    } else {
        len
    };
    Ok((a, b))
}

/// The range `remova(colecao, s, e)` takes out: an error when `s` comes
/// after `e`, else the positions of items `s` to `e` (see `to_slice_bounds`).
pub open spec fn removal_result(s: int, e: int, len: nat) -> Result<(int, int), Seq<char>> {
    if s > e {
        Err("faixa de remova: início "@ + signed_decimal(s) + " maior que o fim "@ + signed_decimal(
            e,
        ))
    } else {
        slice_result(s, e, len)
    }
}

/// The positions `remova(colecao, s, e)` takes out of a collection of
/// `len` items: an error when `s` comes after `e` or either is below 1; a
/// range past the last item stops at it.
pub fn removal_bounds(s: i64, e: i64, len: usize) -> (r: Result<(usize, usize), String>)
    ensures
        match r {
            Ok((a, b)) => removal_result(s as int, e as int, len as nat) == Ok::<
                (int, int),
                Seq<char>,
            >((a as int, b as int)),
            Err(m) => removal_result(s as int, e as int, len as nat) == Err::<(int, int), Seq<char>>(
                m@,
            ),
        },
        r matches Ok((a, b)) ==> a <= b <= len,
{
    if s > e {
        let mut m = "faixa de remova: início ".to_owned();
        push_str(&mut m, i64_decimal(s).as_str());
        push_str(&mut m, " maior que o fim ");
        push_str(&mut m, i64_decimal(e).as_str());
        return Err(m);
    }
    to_slice_bounds(s, e, len)
}


// ── loops and finished runs ─────────────────────────────────────────────

/// How many times `repita n vezes` runs its body: `n`, which must not be
/// negative.
pub fn repita_count(n: i64) -> (r: Result<u64, String>)
    ensures
        match r {
            Ok(k) => n >= 0 && k == n,
            Err(m) => n < 0 && m@ == "'repita' espera um número >= 0"@,
        },
{
    if n < 0 {
        return Err("'repita' espera um número >= 0".to_owned());
    }
    Ok(n as u64)
}

/// The next value of a `para i de a até b` loop that has just run its body
/// with `i`: `i + 1` while that is still at most `end`, else the loop is over.
pub fn para_next(i: i64, end: i64) -> (r: Option<i64>)
    ensures
        r == (if i < end {
            Some((i + 1) as i64)
        } else {
            None::<i64>
        }),
{
    if i < end {
        Some(i + 1)
    } else {
        None
    }
}

/// What the classroom editor is told when a run is over.
#[derive(Debug, PartialEq, Eq)]
pub struct RunReport {
    pub ok: bool,
    pub error_message: String,
    pub error_file: String,
    pub error_line: u32,
    pub error_col: u32,
}

/// The report on a run that ended with `result`: success for exit code 0;
/// `encerrou com código N` for another code; the error's message and place
/// for a runtime error.
pub fn run_report(result: &Result<i32, RuntimeError>) -> (r: RunReport)
    ensures
        match result {
            Ok(c) => if *c == 0 {
                r.ok && r.error_message@ == Seq::<char>::empty() && r.error_file@
                    == Seq::<char>::empty() && r.error_line == 0 && r.error_col == 0
            } else {
                !r.ok && r.error_message@ == "encerrou com código "@ + signed_decimal(*c as int)
                    && r.error_file@ == Seq::<char>::empty() && r.error_line == 0 && r.error_col == 0
            },
            Err(e) => !r.ok && r.error_message@ == e.message@ && r.error_file@ == e.file@
                && r.error_line == e.span.line && r.error_col == e.span.col,
        },
{
    match result {
        Ok(c) => {
            if *c == 0 {
                RunReport {
                    ok: true,
                    error_message: String::new(),
                    error_file: String::new(),
                    error_line: 0,
                    error_col: 0,
                }
            } else {
                let mut m = "encerrou com código ".to_owned();
                push_str(&mut m, i64_decimal(*c as i64).as_str());
                RunReport {
                    ok: false,
                    error_message: m,
                    error_file: String::new(),
                    error_line: 0,
                    error_col: 0,
                }
            }
        },
        Err(e) => RunReport {
            ok: false,
            error_message: e.message.clone(),
            error_file: e.file.clone(),
            error_line: e.span.line,
            error_col: e.span.col,
        },
    }
}

} // verus!
