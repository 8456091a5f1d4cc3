//! Mathematical model of the scanner: what `tokenize` produces for a given
//! sequence of characters. Positions are character indices into the source.
use vstd::prelude::*;

use super::classes::{alphabetic, char_debug_text, hex_value, is_ascii_digit, is_hex_digit, is_white_space};
use super::span::Span;
use super::tokens::{kind_view, keyword_tag, KindView, Tag};
use crate::text::{byte_off, pos_col, pos_line};

verus! {

/// A token of the model: its kind and the character range `[from, to)` it covers.
pub struct TokModel {
    pub kind: KindView,
    pub from: int,
    pub to: int,
}

/// A scanning failure of the model: its message and the character range it reports.
pub struct LexFailure {
    pub msg: Seq<char>,
    pub from: int,
    pub to: int,
}

/// The span reported for the character range `[a, b)` of `s`.
pub open spec fn span_of(s: Seq<char>, a: int, b: int) -> Span {
    Span {
        line: pos_line(s, a) as u32,
        col: pos_col(s, a) as u32,
        start: byte_off(s, a) as usize,
        end: byte_off(s, b) as usize,
    }
}

pub open spec fn fail(msg: Seq<char>, from: int, to: int) -> LexFailure {
    LexFailure { msg, from, to }
}

pub open spec fn is_ident_start(c: char) -> bool {
    alphabetic(c) || c == '_'
}

pub open spec fn is_ident_continue(c: char) -> bool {
    alphabetic(c) || is_ascii_digit(c) || c == '_'
}

/// Whether the character at `k` exists and is `c`.
pub open spec fn next_is(s: Seq<char>, k: int, c: char) -> bool {
    0 <= k < s.len() && s[k] == c
}

// ── whitespace and comments ─────────────────────────────────────────────

/// Index of the first character at or after `i` that is not whitespace or
/// part of a comment; `Err(k)` when a block comment opened at `k` is never closed.
pub open spec fn trivia_end(s: Seq<char>, i: int) -> Result<int, int>
    decreases s.len() - i, 0int,
{
    if i < 0 || i >= s.len() {
        Ok(i)
    } else if is_white_space(s[i]) {
        trivia_end(s, i + 1)
    } else if s[i] == '/' && next_is(s, i + 1, '/') {
        trivia_line(s, i + 2)
    } else if s[i] == '/' && next_is(s, i + 1, '*') {
        trivia_block(s, i, i + 2)
    } else {
        Ok(i)
    }
}

/// Inside a line comment at `i`.
pub open spec fn trivia_line(s: Seq<char>, i: int) -> Result<int, int>
    decreases s.len() - i, 1int,
{
    if i < 0 {
        Ok(i)
    } else if i >= s.len() || s[i] == '\n' {
        trivia_end(s, i)
    } else {
        trivia_line(s, i + 1)
    }
}

/// Inside a block comment opened at `start`, now at `i`.
pub open spec fn trivia_block(s: Seq<char>, start: int, i: int) -> Result<int, int>
    decreases s.len() - i, 1int,
{
    if i < 0 || i >= s.len() {
        Err(start)
    } else if s[i] == '*' && next_is(s, i + 1, '/') {
        trivia_end(s, i + 2)
    } else {
        trivia_block(s, start, i + 1)
    }
}

// ── runs of characters ──────────────────────────────────────────────────

/// End of the run of identifier characters starting at `i`.
pub open spec fn ident_end(s: Seq<char>, i: int) -> int
    decreases s.len() - i,
{
    if 0 <= i < s.len() && is_ident_continue(s[i]) {
        ident_end(s, i + 1)
    } else {
        i
    }
}

/// End of the run of digits and `_` starting at `i`.
pub open spec fn digits_end(s: Seq<char>, i: int) -> int
    decreases s.len() - i,
{
    if 0 <= i < s.len() && (is_ascii_digit(s[i]) || s[i] == '_') {
        digits_end(s, i + 1)
    } else {
        i
    }
}

/// End of the run of hexadecimal digits starting at `i`.
pub open spec fn hex_end(s: Seq<char>, i: int) -> int
    decreases s.len() - i,
{
    if 0 <= i < s.len() && is_hex_digit(s[i]) {
        hex_end(s, i + 1)
    } else {
        i
    }
}

/// End of the number starting at `i`: digits, then a fractional part only
/// when a `.` is followed by a digit (so `1..3` keeps its `..`).
pub open spec fn number_end(s: Seq<char>, i: int) -> int {
    let j = digits_end(s, i);
    if next_is(s, j, '.') && 0 <= j + 1 < s.len() && is_ascii_digit(s[j + 1]) {
        digits_end(s, j + 1)
    } else {
        j
    }
}

// ── string literals ─────────────────────────────────────────────────────

/// `\u{...}`: `esc` is the index of the `u`, `p` the index after it.
pub open spec fn unicode_escape(s: Seq<char>, esc: int, p: int) -> Result<(char, int), LexFailure> {
    if !next_is(s, p, '{') {
        Err(fail("escape \\u deve ser \\u{...}"@, esc, p))
    } else {
        let q = hex_end(s, p + 1);
        if 0 <= q < s.len() && s[q] != '}' {
            Err(fail("dígito hexadecimal inválido em \\u{...}"@, q, q + 1))
        } else if q >= s.len() {
            Err(fail("\\u{...} não fechado"@, esc, q))
        } else if q == p + 1 {
            Err(fail("\\u{} vazio"@, esc, q + 1))
        } else {
            let v = hex_value(s.subrange(p + 1, q));
            if v > u32::MAX || !vstd::utf8::is_scalar(v as u32) {
                Err(fail("código Unicode inválido"@, esc, q + 1))
            } else {
                Ok(((v as u32) as char, q + 1))
            }
        }
    }
}

/// The character an escape letter stands for (`\n`, `\t`, ...), if it is one
/// of the simple escapes.
pub open spec fn simple_escape(e: char) -> Option<char> {
    if e == '\\' {
        Some('\\')
    } else if e == '"' {
        Some('"')
    } else if e == 'n' {
        Some('\n')
    } else if e == 'r' {
        Some('\r')
    } else if e == 't' {
        Some('\t')
    } else {
        None
    }
}

/// Rest of a string literal opened at `start`, now at `k` with the contents
/// `acc` read so far: the contents and the index after the closing quote.
pub open spec fn string_rest(s: Seq<char>, start: int, k: int, acc: Seq<char>) -> Result<
    (Seq<char>, int),
    LexFailure,
>
    decreases s.len() - k,
{
    if k < 0 || k >= s.len() {
        Err(fail("string não fechada"@, start, s.len() as int))
    } else if s[k] == '"' {
        Ok((acc, k + 1))
    } else if s[k] == '\\' {
        if k + 1 >= s.len() {
            Err(fail("escape incompleto no fim do arquivo"@, start, s.len() as int))
        } else {
            let e = s[k + 1];
            match simple_escape(e) {
                Some(c) => string_rest(s, start, k + 2, acc.push(c)),
                None => if e == 'u' {
                    match unicode_escape(s, k + 1, k + 2) {
                        Ok((c, k2)) => {
                            proof {
                                lemma_unicode_escape_advances(s, k + 1, k + 2);
                            }
                            string_rest(s, start, k2, acc.push(c))
                        },
                        Err(x) => Err(x),
                    }
                } else {
                    Err(fail("escape inválido: \\"@.push(e), k + 1, k + 2))
                },
            }
        }
    } else {
        string_rest(s, start, k + 1, acc.push(s[k]))
    }
}

// ── single tokens ───────────────────────────────────────────────────────

/// Operators and delimiters at `i`.
pub open spec fn punct(s: Seq<char>, i: int) -> Result<(Tag, int), LexFailure> {
    let c = s[i];
    if c == '=' {
        if next_is(s, i + 1, '=') { Ok((Tag::EqEq, i + 2)) } else { Ok((Tag::Eq, i + 1)) }
    } else if c == '!' {
        if next_is(s, i + 1, '=') {
            Ok((Tag::BangEq, i + 2))
        } else {
            Err(fail("caractere '!' inválido; você quis '!='?"@, i, i + 1))
        }
    } else if c == '<' {
        if next_is(s, i + 1, '=') { Ok((Tag::LtEq, i + 2)) } else { Ok((Tag::Lt, i + 1)) }
    } else if c == '>' {
        if next_is(s, i + 1, '=') { Ok((Tag::GtEq, i + 2)) } else { Ok((Tag::Gt, i + 1)) }
    } else if c == '-' {
        if next_is(s, i + 1, '>') { Ok((Tag::Arrow, i + 2)) } else { Ok((Tag::Minus, i + 1)) }
    } else if c == '.' {
        if next_is(s, i + 1, '.') { Ok((Tag::DotDot, i + 2)) } else { Ok((Tag::Dot, i + 1)) }
    } else if c == '/' {
        Ok((Tag::Slash, i + 1))
    } else if c == '+' {
        Ok((Tag::Plus, i + 1))
    } else if c == '*' {
        Ok((Tag::Star, i + 1))
    } else if c == '%' {
        Ok((Tag::Percent, i + 1))
    } else if c == '(' {
        Ok((Tag::LParen, i + 1))
    } else if c == ')' {
        Ok((Tag::RParen, i + 1))
    } else if c == '[' {
        Ok((Tag::LBracket, i + 1))
    } else if c == ']' {
        Ok((Tag::RBracket, i + 1))
    } else if c == '{' {
        Ok((Tag::LBrace, i + 1))
    } else if c == '}' {
        Ok((Tag::RBrace, i + 1))
    } else if c == ',' {
        Ok((Tag::Comma, i + 1))
    } else {
        Err(fail("caractere inválido: "@ + char_debug_text(c), i, i + 1))
    }
}

/// The token that starts at `j` (a character that is not whitespace nor the
/// start of a comment): its kind and where it ends.
pub open spec fn token_at(s: Seq<char>, j: int) -> Result<(KindView, int), LexFailure> {
    let c = s[j];
    if is_ident_start(c) {
        let e = ident_end(s, j);
        let w = s.subrange(j, e);
        match keyword_tag(w) {
            Some(t) => Ok((kind_view(t, Seq::empty()), e)),
            None => Ok((kind_view(Tag::Ident, w), e)),
        }
    } else if is_ascii_digit(c) {
        let e = number_end(s, j);
        Ok((kind_view(Tag::Number, s.subrange(j, e)), e))
    } else if c == '"' {
        match string_rest(s, j, j + 1, Seq::empty()) {
            Ok((v, e)) => Ok((kind_view(Tag::Str, v), e)),
            Err(x) => Err(x),
        }
    } else {
        match punct(s, j) {
            Ok((t, e)) => Ok((kind_view(t, Seq::empty()), e)),
            Err(x) => Err(x),
        }
    }
}

/// The next token from `i` on (after whitespace and comments), and the index after it.
pub open spec fn next_token_at(s: Seq<char>, i: int) -> Result<(TokModel, int), LexFailure> {
    match trivia_end(s, i) {
        Err(k) => Err(fail("comentário de bloco não fechado"@, k, s.len() as int)),
        Ok(j) => if j >= s.len() {
            Ok((TokModel { kind: kind_view(Tag::Eof, Seq::empty()), from: j, to: j }, j))
        } else {
            match token_at(s, j) {
                Ok((k, e)) => Ok((TokModel { kind: k, from: j, to: e }, e)),
                Err(x) => Err(x),
            }
        },
    }
}

/// All tokens from `i` on, ending with `Eof`.
pub open spec fn tokens_from(s: Seq<char>, i: int) -> Result<Seq<TokModel>, LexFailure>
    decreases s.len() - i,
{
    if i < 0 || i > s.len() {
        Err(fail(Seq::empty(), i, i))
    } else {
        match next_token_at(s, i) {
            Err(x) => Err(x),
            Ok((t, e)) => if t.kind.tag == Tag::Eof {
                Ok(seq![t])
            } else {
                proof {
                    lemma_next_token_advances(s, i);
                }
                match tokens_from(s, e) {
                    Ok(r) => Ok(seq![t] + r),
                    Err(x) => Err(x),
                }
            },
        }
    }
}

/// The tokens of a whole source.
pub open spec fn tokens_of(s: Seq<char>) -> Result<Seq<TokModel>, LexFailure> {
    tokens_from(s, 0)
}

// ── progress lemmas ─────────────────────────────────────────────────────

pub proof fn lemma_hex_end(s: Seq<char>, i: int)
    requires
        0 <= i <= s.len(),
    ensures
        i <= hex_end(s, i) <= s.len(),
        forall|k: int| i <= k < hex_end(s, i) ==> is_hex_digit(#[trigger] s[k]),
    decreases s.len() - i,
{
    if i < s.len() && is_hex_digit(s[i]) {
        lemma_hex_end(s, i + 1);
    }
}

pub proof fn lemma_digits_end(s: Seq<char>, i: int)
    requires
        0 <= i <= s.len(),
    ensures
        i <= digits_end(s, i) <= s.len(),
        forall|k: int| i <= k < digits_end(s, i) ==> is_ascii_digit(#[trigger] s[k]) || s[k] == '_',
    decreases s.len() - i,
{
    if i < s.len() && (is_ascii_digit(s[i]) || s[i] == '_') {
        lemma_digits_end(s, i + 1);
    }
}

pub proof fn lemma_ident_end(s: Seq<char>, i: int)
    requires
        0 <= i <= s.len(),
    ensures
        i <= ident_end(s, i) <= s.len(),
        forall|k: int| i <= k < ident_end(s, i) ==> is_ident_continue(#[trigger] s[k]),
    decreases s.len() - i,
{
    if i < s.len() && is_ident_continue(s[i]) {
        lemma_ident_end(s, i + 1);
    }
}

pub proof fn lemma_unicode_escape_advances(s: Seq<char>, esc: int, p: int)
    requires
        0 <= p <= s.len(),
    ensures
        unicode_escape(s, esc, p) matches Ok((c, e)) ==> p + 2 < e <= s.len(),
{
    if next_is(s, p, '{') {
        lemma_hex_end(s, p + 1);
    }
}

pub proof fn lemma_string_rest_advances(s: Seq<char>, start: int, k: int, acc: Seq<char>)
    requires
        0 <= k <= s.len(),
    ensures
        string_rest(s, start, k, acc) matches Ok((v, e)) ==> k < e <= s.len(),
    decreases s.len() - k,
{
    if k < s.len() {
        if s[k] == '"' {
        } else if s[k] == '\\' {
            if k + 1 < s.len() {
                let e = s[k + 1];
                match simple_escape(e) {
                    Some(c) => lemma_string_rest_advances(s, start, k + 2, acc.push(c)),
                    None => if e == 'u' {
                        lemma_unicode_escape_advances(s, k + 1, k + 2);
                        match unicode_escape(s, k + 1, k + 2) {
                            Ok((c, k2)) => lemma_string_rest_advances(s, start, k2, acc.push(c)),
                            Err(x) => {},
                        }
                    },
                }
            }
        } else {
            lemma_string_rest_advances(s, start, k + 1, acc.push(s[k]));
        }
    }
}

pub proof fn lemma_trivia(s: Seq<char>, i: int)
    requires
        0 <= i <= s.len(),
    ensures
        trivia_end(s, i) matches Ok(j) ==> i <= j <= s.len(),
        trivia_end(s, i) matches Err(k) ==> i <= k < s.len(),
    decreases s.len() - i, 0int,
{
    if i < s.len() {
        if is_white_space(s[i]) {
            lemma_trivia(s, i + 1);
        } else if s[i] == '/' && next_is(s, i + 1, '/') {
            lemma_trivia_line(s, i + 2);
        } else if s[i] == '/' && next_is(s, i + 1, '*') {
            lemma_trivia_block(s, i, i + 2);
        }
    }
}

pub proof fn lemma_trivia_line(s: Seq<char>, i: int)
    requires
        0 <= i <= s.len(),
    ensures
        trivia_line(s, i) matches Ok(j) ==> i <= j <= s.len(),
        trivia_line(s, i) matches Err(k) ==> i <= k < s.len(),
    decreases s.len() - i, 1int,
{
    if i >= s.len() || s[i] == '\n' {
        lemma_trivia(s, i);
    } else {
        lemma_trivia_line(s, i + 1);
    }
}

pub proof fn lemma_trivia_block(s: Seq<char>, start: int, i: int)
    requires
        0 <= start < i <= s.len(),
    ensures
        trivia_block(s, start, i) matches Ok(j) ==> i <= j <= s.len(),
        trivia_block(s, start, i) matches Err(k) ==> start <= k < s.len(),
    decreases s.len() - i, 1int,
{
    if i < s.len() {
        if s[i] == '*' && next_is(s, i + 1, '/') {
            lemma_trivia(s, i + 2);
        } else {
            lemma_trivia_block(s, start, i + 1);
        }
    }
}

pub proof fn lemma_token_at_advances(s: Seq<char>, j: int)
    requires
        0 <= j < s.len(),
    ensures
        token_at(s, j) matches Ok((k, e)) ==> j < e <= s.len(),
{
    let c = s[j];
    if is_ident_start(c) {
        lemma_ident_end(s, j);
        assert(is_ident_continue(c));
        assert(ident_end(s, j) == ident_end(s, j + 1));
        lemma_ident_end(s, j + 1);
    } else if is_ascii_digit(c) {
        lemma_digits_end(s, j);
        lemma_digits_end(s, j + 1);
        let d = digits_end(s, j);
        if next_is(s, d, '.') && 0 <= d + 1 < s.len() && is_ascii_digit(s[d + 1]) {
            lemma_digits_end(s, d + 1);
        }
    } else if c == '"' {
        lemma_string_rest_advances(s, j, j + 1, Seq::empty());
    }
}

pub proof fn lemma_next_token_advances(s: Seq<char>, i: int)
    requires
        0 <= i <= s.len(),
    ensures
        next_token_at(s, i) matches Ok((t, e)) ==> i <= t.from <= t.to == e <= s.len() && (
        t.kind.tag == Tag::Eof <==> t.from == s.len()) && (t.kind.tag != Tag::Eof ==> t.from < e),
{
    lemma_trivia(s, i);
    match trivia_end(s, i) {
        Ok(j) => if j < s.len() {
            lemma_token_at_advances(s, j);
            lemma_token_at_not_eof(s, j);
        },
        Err(_) => {},
    }
}

pub proof fn lemma_token_at_not_eof(s: Seq<char>, j: int)
    requires
        0 <= j < s.len(),
    ensures
        token_at(s, j) matches Ok((k, e)) ==> k.tag != Tag::Eof,
{
}


/// The tokens of a source end with `Eof`, and no other token is `Eof`.
pub proof fn law_tokens_end_with_eof(s: Seq<char>, i: int)
    ensures
        tokens_from(s, i) matches Ok(ts) ==> ts.len() > 0 && ts.last().kind.tag == Tag::Eof
            && forall|k: int| 0 <= k < ts.len() - 1 ==> (#[trigger] ts[k]).kind.tag != Tag::Eof,
    decreases s.len() - i,
{
    if 0 <= i <= s.len() {
        lemma_next_token_advances(s, i);
        match next_token_at(s, i) {
            Ok((t, e)) => if t.kind.tag != Tag::Eof {
                law_tokens_end_with_eof(s, e);
                match tokens_from(s, e) {
                    Ok(r) => {
                        let ts = seq![t] + r;
                        assert forall|k: int| 0 <= k < ts.len() - 1 implies (
                        #[trigger] ts[k]).kind.tag != Tag::Eof by {
                            if k > 0 {
                                assert(ts[k] == r[k - 1]);
                            }
                        }
                    },
                    Err(_) => {},
                }
            },
            Err(_) => {},
        }
    }
}


/// Tokens come in source order, never overlap, and lie inside the source.
pub proof fn law_tokens_in_order(s: Seq<char>, i: int)
    requires
        0 <= i <= s.len(),
    ensures
        tokens_from(s, i) matches Ok(ts) ==> (forall|k: int|
            0 <= k < ts.len() ==> i <= (#[trigger] ts[k]).from <= ts[k].to <= s.len()) && (forall|
            a: int,
            b: int,
        | 0 <= a < b < ts.len() ==> (#[trigger] ts[a]).to <= (#[trigger] ts[b]).from),
    decreases s.len() - i,
{
    lemma_next_token_advances(s, i);
    match next_token_at(s, i) {
        Ok((t, e)) => if t.kind.tag != Tag::Eof {
            law_tokens_in_order(s, e);
            match tokens_from(s, e) {
                Ok(r) => {
                    let ts = seq![t] + r;
                    assert forall|k: int| 0 <= k < ts.len() implies i <= (#[trigger] ts[k]).from
                        <= ts[k].to <= s.len() by {
                        if k > 0 {
                            assert(ts[k] == r[k - 1]);
                        }
                    }
                    assert forall|a: int, b: int| 0 <= a < b < ts.len() implies (
                    #[trigger] ts[a]).to <= (#[trigger] ts[b]).from by {
                        assert(ts[b] == r[b - 1]);
                        if a > 0 {
                            assert(ts[a] == r[a - 1]);
                        }
                    }
                },
                Err(_) => {},
            }
        },
        Err(_) => {},
    }
}

proof fn lemma_punct_tag(s: Seq<char>, i: int)
    requires
        0 <= i < s.len(),
    ensures
        punct(s, i) matches Ok((t, e)) ==> t != Tag::Ident,
{
}

proof fn lemma_token_at_ident(s: Seq<char>, j: int)
    requires
        0 <= j < s.len(),
    ensures
        token_at(s, j) matches Ok((k, e)) ==> (k.tag == Tag::Ident ==> keyword_tag(k.text) is None),
{
    let c = s[j];
    if is_ident_start(c) {
        let e = ident_end(s, j);
        let w = s.subrange(j, e);
        if keyword_tag(w) is None {
            assert(kind_view(Tag::Ident, w).text == w);
        } else {
            let t = keyword_tag(w)->0;
            assert(token_at(s, j) == Ok::<(KindView, int), LexFailure>((kind_view(t, Seq::empty()), e)));
        }
    } else if is_ascii_digit(c) {
    } else if c == '"' {
    } else {
        lemma_punct_tag(s, j);
    }
}

/// A name token never carries the text of a reserved word.
pub proof fn law_idents_are_not_keywords(s: Seq<char>, i: int)
    ensures
        tokens_from(s, i) matches Ok(ts) ==> forall|k: int|
            0 <= k < ts.len() && (#[trigger] ts[k]).kind.tag == Tag::Ident ==> keyword_tag(
                ts[k].kind.text,
            ) is None,
    decreases s.len() - i,
{
    if 0 <= i <= s.len() {
        lemma_next_token_advances(s, i);
        lemma_trivia(s, i);
        match trivia_end(s, i) {
            Ok(j) => if j < s.len() {
                lemma_token_at_ident(s, j);
            },
            Err(_) => {},
        }
        match next_token_at(s, i) {
            Ok((t, e)) => if t.kind.tag != Tag::Eof {
                law_idents_are_not_keywords(s, e);
                match tokens_from(s, e) {
                    Ok(r) => {
                        let ts = seq![t] + r;
                        assert forall|k: int|
                            0 <= k < ts.len() && (#[trigger] ts[k]).kind.tag
                                == Tag::Ident implies keyword_tag(ts[k].kind.text) is None by {
                            if k > 0 {
                                assert(ts[k] == r[k - 1]);
                            }
                        }
                    },
                    Err(_) => {},
                }
            },
            Err(_) => {},
        }
    }
}

} // verus!
