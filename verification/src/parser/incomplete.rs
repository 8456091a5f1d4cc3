//! Whether a snippet typed at the prompt still needs more lines.
use vstd::prelude::*;

use super::model::{PErr, TokV};
use super::parser::{lexed, parse, parse_model, toks};
use crate::lexer::model::{next_is, next_token_at, tokens_from, tokens_of, trivia_block, trivia_end};
use crate::lexer::classes::is_white_space;
use crate::text::occurs_at;
use crate::lexer::scanner::{tokenize, Token};
use crate::lexer::tokens::Tag;
use crate::text::{all_white, has_sub, is_blank, str_contains};

verus! {

/// How many of the first `k` tokens have the tag `t`.
pub open spec fn count_tag(ts: Seq<TokV>, k: int, t: Tag) -> int
    decreases k,
{
    if k <= 0 {
        0
    } else {
        count_tag(ts, k - 1, t) + if ts[k - 1].kind.tag == t {
            1int
        } else {
            0int
        }
    }
}

/// Openings minus closings among the first `k` tokens.
pub open spec fn depth(ts: Seq<TokV>, k: int, open: Tag, close: Tag) -> int {
    count_tag(ts, k, open) - count_tag(ts, k, close)
}

/// Among the first `k` tokens, some delimiter closes more often than it opens.
pub open spec fn overclosed(ts: Seq<TokV>, k: int) -> bool {
    ||| depth(ts, k, Tag::Inicio, Tag::Fim) < 0
    ||| depth(ts, k, Tag::LParen, Tag::RParen) < 0
    ||| depth(ts, k, Tag::LBracket, Tag::RBracket) < 0
    ||| depth(ts, k, Tag::LBrace, Tag::RBrace) < 0
}

/// Among the first `k` tokens every delimiter is closed as often as it opens.
pub open spec fn balanced(ts: Seq<TokV>, k: int) -> bool {
    &&& depth(ts, k, Tag::Inicio, Tag::Fim) == 0
    &&& depth(ts, k, Tag::LParen, Tag::RParen) == 0
    &&& depth(ts, k, Tag::LBracket, Tag::RBracket) == 0
    &&& depth(ts, k, Tag::LBrace, Tag::RBrace) == 0
}

/// The delimiters need nothing more: either some prefix already closes too
/// much (more lines cannot mend that), or all of them are balanced.
pub open spec fn delims_ok(ts: Seq<TokV>) -> bool {
    (exists|k: int| 1 <= k <= ts.len() && overclosed(ts, k)) || balanced(ts, ts.len() as int)
}

/// Scanner messages that more text could resolve.
pub open spec fn unfinished_msg(m: Seq<char>) -> bool {
    ||| has_sub(m, "não fechada"@)
    ||| has_sub(m, "não fechado"@)
    ||| has_sub(m, "incompleto"@)
    ||| has_sub(m, "fim do arquivo"@)
}

/// Whether the source `s` still needs more lines: not blank, and either the
/// scanner stopped on something left open, a delimiter is still open, or the
/// parser stopped at the end of the text.
pub open spec fn needs_more(s: Seq<char>) -> bool {
    if all_white(s) {
        false
    } else {
        match tokens_of(s) {
            Err(f) => unfinished_msg(f.msg),
            Ok(tm) => !delims_ok(lexed(s, tm)) || match parse_model(s) {
                Ok(_) => false,
                Err(e) => e.span.start >= lexed(s, tm).last().span.start,
            },
        }
    }
}

/// Whether the snippet still needs more lines (open `inicio`, `(`, string, …).
pub fn needs_more_input(source: &str) -> (b: bool)
    requires
        source@.len() < u32::MAX,
    ensures
        b == needs_more(source@),
{
    if is_blank(source) {
        return false;
    }
    match tokenize(source) {
        Err(e) => {
            let m = e.message.as_str();
            str_contains(m, "não fechada") || str_contains(m, "não fechado") || str_contains(
                m,
                "incompleto",
            ) || str_contains(m, "fim do arquivo")
        },
        Ok(tokens) => {
            let ghost tm = tokens_of(source@)->Ok_0;
            proof {
                crate::lexer::model::law_tokens_end_with_eof(source@, 0);
                assert(toks(tokens@) =~= lexed(source@, tm));
            }
            if !delimiters_ok(&tokens) {
                return true;
            }
            match parse(source) {
                Ok(_) => false,
                Err(e) => {
                    let eof_start = tokens[tokens.len() - 1].span.start;
                    e.span.start >= eof_start
                },
            }
        },
    }
}

/// Whether the delimiters of `tokens` need nothing more (see [`delims_ok`]).
fn delimiters_ok(tokens: &Vec<Token>) -> (b: bool)
    ensures
        b == delims_ok(toks(tokens@)),
{
    let ghost ts = toks(tokens@);
    let n = tokens.len();
    let mut inicio: usize = 0;
    let mut fim: usize = 0;
    let mut lparen: usize = 0;
    let mut rparen: usize = 0;
    let mut lbrack: usize = 0;
    let mut rbrack: usize = 0;
    let mut lbrace: usize = 0;
    let mut rbrace: usize = 0;
    let mut i: usize = 0;
    while i < n
        invariant
            n == tokens@.len(),
            ts == toks(tokens@),
            0 <= i <= n,
            inicio == count_tag(ts, i as int, Tag::Inicio),
            fim == count_tag(ts, i as int, Tag::Fim),
            lparen == count_tag(ts, i as int, Tag::LParen),
            rparen == count_tag(ts, i as int, Tag::RParen),
            lbrack == count_tag(ts, i as int, Tag::LBracket),
            rbrack == count_tag(ts, i as int, Tag::RBracket),
            lbrace == count_tag(ts, i as int, Tag::LBrace),
            rbrace == count_tag(ts, i as int, Tag::RBrace),
            inicio <= i && fim <= i && lparen <= i && rparen <= i,
            lbrack <= i && rbrack <= i && lbrace <= i && rbrace <= i,
            forall|k: int| 1 <= k <= i ==> !overclosed(ts, k),
        decreases n - i,
    {
        let t = tokens[i].kind.tag();
        if t == Tag::Inicio {
            inicio = inicio + 1;
        } else if t == Tag::Fim {
            fim = fim + 1;
        } else if t == Tag::LParen {
            lparen = lparen + 1;
        } else if t == Tag::RParen {
            rparen = rparen + 1;
        } else if t == Tag::LBracket {
            lbrack = lbrack + 1;
        } else if t == Tag::RBracket {
            rbrack = rbrack + 1;
        } else if t == Tag::LBrace {
            lbrace = lbrace + 1;
        } else if t == Tag::RBrace {
            rbrace = rbrace + 1;
        }
        i = i + 1;
        if fim > inicio || rparen > lparen || rbrack > lbrack || rbrace > lbrace {
            assert(overclosed(ts, i as int));
            return true;
        }
    }
    inicio == fim && lparen == rparen && lbrack == rbrack && lbrace == rbrace
}


// ── what is left open ───────────────────────────────────────────────────

/// A snippet on which the scanner stops because a block comment, a `\u{`
/// escape or a string is never closed needs more lines (more text can close
/// it), unless it is blank.
pub proof fn law_left_open_needs_more(s: Seq<char>)
    requires
        !all_white(s),
        tokens_of(s) matches Err(f) && (f.msg == "comentário de bloco não fechado"@ || f.msg
            == "\\u{...} não fechado"@ || f.msg == "string não fechada"@),
    ensures
        needs_more(s),
{
    reveal_strlit("comentário de bloco não fechado");
    reveal_strlit("\\u{...} não fechado");
    reveal_strlit("string não fechada");
    reveal_strlit("não fechado");
    reveal_strlit("não fechada");
    match tokens_of(s) {
        Err(f) => {
            if f.msg == "comentário de bloco não fechado"@ {
                assert(f.msg.subrange(20, 31) =~= "não fechado"@);
                assert(occurs_at(f.msg, "não fechado"@, 20));
            } else if f.msg == "\\u{...} não fechado"@ {
                assert(f.msg.subrange(8, 19) =~= "não fechado"@);
                assert(occurs_at(f.msg, "não fechado"@, 8));
            } else {
                assert(f.msg.subrange(7, 18) =~= "não fechada"@);
                assert(occurs_at(f.msg, "não fechada"@, 7));
            }
        },
        Ok(_) => {},
    }
}

/// `u` holds no `*/`.
pub open spec fn never_closes(u: Seq<char>) -> bool {
    forall|k: int| 0 <= k < u.len() - 1 ==> !(#[trigger] u[k] == '*' && u[k + 1] == '/')
}

proof fn lemma_block_runs_out(s: Seq<char>, start: int, j: int)
    requires
        0 <= start,
        start + 2 <= j,
        forall|k: int| start + 2 <= k < s.len() - 1 ==> !(#[trigger] s[k] == '*' && s[k + 1] == '/'),
    ensures
        trivia_block(s, start, j) == Err::<int, int>(start),
    decreases s.len() - j,
{
    if 0 <= j < s.len() {
        if j < s.len() - 1 {
            assert(!(s[j] == '*' && s[j + 1] == '/'));
        }
        assert(!(s[j] == '*' && next_is(s, j + 1, '/')));
        lemma_block_runs_out(s, start, j + 1);
    }
}

proof fn lemma_blank_then_comment(s: Seq<char>, n: int, i: int)
    requires
        0 <= i <= n,
        n + 2 <= s.len(),
        forall|k: int| 0 <= k < n ==> is_white_space(#[trigger] s[k]),
        s[n] == '/',
        s[n + 1] == '*',
        forall|k: int| n + 2 <= k < s.len() - 1 ==> !(#[trigger] s[k] == '*' && s[k + 1] == '/'),
    ensures
        trivia_end(s, i) == Err::<int, int>(n),
    decreases n - i,
{
    if i < n {
        lemma_blank_then_comment(s, n, i + 1);
    } else {
        assert(!is_white_space(s[n]));
        lemma_block_runs_out(s, n, n + 2);
    }
}

/// A snippet that opens a block comment (after blanks) and never closes it
/// needs more lines.
pub proof fn law_open_comment_needs_more(pre: Seq<char>, u: Seq<char>)
    requires
        all_white(pre),
        never_closes(u),
    ensures
        needs_more(pre + seq!['/', '*'] + u),
{
    let s = pre + seq!['/', '*'] + u;
    let n = pre.len() as int;
    assert forall|k: int| 0 <= k < n implies is_white_space(#[trigger] s[k]) by {
        assert(s[k] == pre[k]);
    }
    assert forall|k: int| n + 2 <= k < s.len() - 1 implies !(#[trigger] s[k] == '*' && s[k + 1] == '/') by {
        assert(s[k] == u[k - n - 2]);
        assert(s[k + 1] == u[k + 1 - n - 2]);
    }
    assert(s[n] == '/' && s[n + 1] == '*');
    lemma_blank_then_comment(s, n, 0);
    assert(!all_white(s)) by {
        assert(!is_white_space(s[n]));
    }
    assert(next_token_at(s, 0) is Err);
    assert(tokens_from(s, 0) == Err::<Seq<crate::lexer::model::TokModel>, crate::lexer::model::LexFailure>(
        crate::lexer::model::fail("comentário de bloco não fechado"@, n, s.len() as int),
    ));
    law_left_open_needs_more(s);
}

/// A snippet whose tokens open an `inicio`, `(`, `[` or `{` more often than
/// they close it, and never close one more often than they opened it so
/// far, needs more lines.
pub proof fn law_open_delimiter_needs_more(s: Seq<char>)
    requires
        !all_white(s),
        tokens_of(s) matches Ok(tm) && ({
            let ts = lexed(s, tm);
            let n = ts.len() as int;
            &&& forall|k: int| 1 <= k <= n ==> !#[trigger] overclosed(ts, k)
            &&& depth(ts, n, Tag::Inicio, Tag::Fim) > 0 || depth(ts, n, Tag::LParen, Tag::RParen) > 0
                || depth(ts, n, Tag::LBracket, Tag::RBracket) > 0 || depth(
                ts,
                n,
                Tag::LBrace,
                Tag::RBrace,
            ) > 0
        }),
    ensures
        needs_more(s),
{
}

/// A blank snippet never waits for more lines.
pub proof fn law_blank_needs_nothing(s: Seq<char>)
    requires
        all_white(s),
    ensures
        !needs_more(s),
{
}

/// A snippet that parses, with every delimiter closed, is finished.
pub proof fn law_parsed_needs_nothing(s: Seq<char>)
    requires
        parse_model(s) is Ok,
        tokens_of(s) matches Ok(tm) && balanced(lexed(s, tm), lexed(s, tm).len() as int),
    ensures
        !needs_more(s),
{
}

} // verus!
