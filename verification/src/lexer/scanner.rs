//! The scanner: source text to tokens.
use vstd::prelude::*;

use super::classes::{
    ascii_digit, char_debug, char_from_u32, char_is_alphabetic, hex_digit, hex_value, is_ascii_digit,
    is_hex_digit, white_space,
};
use super::model::{
    digits_end, hex_end, ident_end, is_ident_continue, is_ident_start, next_token_at, punct,
    simple_escape, span_of, string_rest, token_at, tokens_from, tokens_of, trivia_block, trivia_end,
    trivia_line, unicode_escape, LexFailure, TokModel,
};
use super::span::Span;
use super::tokens::{keyword_of_chars, kind_from_tag, kind_view, Tag, TokenKind};
use crate::text::{
    byte_off, char_utf8_width, lemma_byte_off_mono, lemma_byte_off_step, lemma_line_col_bound,
    pos_col, pos_line, push_char, push_chars, push_str,
};

verus! {

#[derive(Debug)]
pub struct LexError {
    pub message: String,
    pub span: Span,
}

#[derive(Debug, Clone, PartialEq, Eq)]
pub struct Token {
    pub kind: TokenKind,
    pub span: Span,
}

/// Whether the tokens `v` are exactly the model tokens `ts` of the source `s`.
pub open spec fn tokens_agree(v: Seq<Token>, s: Seq<char>, ts: Seq<TokModel>) -> bool {
    &&& v.len() == ts.len()
    &&& forall|k: int|
        0 <= k < v.len() ==> (#[trigger] v[k]).kind@ == ts[k].kind && v[k].span == span_of(
            s,
            ts[k].from,
            ts[k].to,
        )
}

/// Whether `e` reports the model failure `f` on the source `s`.
pub open spec fn reports(e: LexError, s: Seq<char>, f: LexFailure) -> bool {
    e.message@ == f.msg && e.span == span_of(s, f.from, f.to)
}

pub open spec fn prepend(p: Seq<TokModel>, r: Result<Seq<TokModel>, LexFailure>) -> Result<
    Seq<TokModel>,
    LexFailure,
> {
    match r {
        Ok(x) => Ok(p + x),
        Err(f) => Err(f),
    }
}

/// Splits `source` into tokens; the last one is always `Eof`.
pub fn tokenize(source: &str) -> (r: Result<Vec<Token>, LexError>)
    requires
        source@.len() < u32::MAX,
    ensures
        match tokens_of(source@) {
            Ok(ts) => r matches Ok(v) && tokens_agree(v@, source@, ts),
            Err(f) => r matches Err(e) && reports(e, source@, f),
        },
{
    let mut scanner = Scanner::new(source);
    let ghost s = source@;
    let mut tokens: Vec<Token> = Vec::new();
    let ghost mut done: Seq<TokModel> = Seq::empty();
    proof {
        assert(done + Seq::<TokModel>::empty() =~= Seq::<TokModel>::empty());
        match tokens_from(s, 0) {
            Ok(x) => assert(done + x =~= x),
            Err(_) => {},
        }
    }
    loop
        invariant
            scanner.wf(),
            s == source@,
            scanner.text() == s,
            tokens_agree(tokens@, s, done),
            tokens_of(s) == prepend(done, tokens_from(s, scanner.cursor())),
        decreases s.len() - scanner.cursor(),
    {
        let ghost i = scanner.cursor();
        proof {
            crate::lexer::model::lemma_next_token_advances(s, i);
        }
        let tok = match scanner.next_token() {
            Ok(t) => t,
            Err(e) => {
                return Err(e);
            },
        };
        let ghost t = next_token_at(s, i)->Ok_0.0;
        let is_eof = matches!(tok.kind, TokenKind::Eof);
        let ghost before = tokens@;
        tokens.push(tok);
        proof {
            let e = next_token_at(s, i)->Ok_0.1;
            if t.kind.tag != Tag::Eof {
                match tokens_from(s, e) {
                    Ok(x) => assert(done + (seq![t] + x) =~= done.push(t) + x),
                    Err(_) => {},
                }
            } else {
                assert(done + seq![t] =~= done.push(t));
            }
            done = done.push(t);
            assert forall|k: int| 0 <= k < tokens@.len() implies (#[trigger] tokens@[k]).kind@
                == done[k].kind && tokens@[k].span == span_of(s, done[k].from, done[k].to) by {
                if k < tokens@.len() - 1 {
                    assert(tokens@[k] == before[k]);
                }
            }
        }
        if is_eof {
            return Ok(tokens);
        }
    }
}

/// Reads a source one character at a time, keeping the line, column and
/// byte offset of its cursor.
pub struct Scanner {
    chars: Vec<char>,
    idx: usize,
    pos: usize,
    line: u32,
    col: u32,
    total: usize,
}

fn msg(s: &str) -> (r: String)
    ensures
        r@ == s@,
{
    s.to_owned()
}

fn chars_to_string(v: &Vec<char>) -> (r: String)
    ensures
        r@ == v@,
{
    let mut r = String::new();
    push_chars(&mut r, v.as_slice());
    r
}

fn escape_char(e: char) -> (r: Option<char>)
    ensures
        r == simple_escape(e),
{
    if e == '\\' {
        Some('\\')
    } else if e == '"' {
        Some('"')
    } else if e == 'n' {
        Some('\n')
    } else if e == 'r' {
        Some('\r')
    } else if e == 't' {
        Some('\t')
    } else {
        None
    }
}

impl Scanner {
    /// The whole source, as characters.
    pub closed spec fn text(&self) -> Seq<char> {
        self.chars@
    }

    /// Index (in characters) of the next character to read.
    pub closed spec fn cursor(&self) -> int {
        self.idx as int
    }

    pub closed spec fn wf(&self) -> bool {
        &&& self.idx <= self.chars@.len()
        &&& self.chars@.len() < u32::MAX
        &&& self.pos == byte_off(self.chars@, self.idx as int)
        &&& self.line == pos_line(self.chars@, self.idx as int)
        &&& self.col == pos_col(self.chars@, self.idx as int)
        &&& self.total == byte_off(self.chars@, self.chars@.len() as int)
    }

    pub fn new(source: &str) -> (r: Scanner)
        requires
            source@.len() < u32::MAX,
        ensures
            r.wf(),
            r.text() == source@,
            r.cursor() == 0,
    {
        let chars = crate::text::str_chars(source);
        let total = crate::text::str_byte_len(source);
        Scanner { chars, idx: 0, pos: 0, line: 1, col: 1, total }
    }

    /// The next character, without consuming it.
    pub fn peek(&self) -> (r: Option<char>)
        requires
            self.wf(),
        ensures
            r == if self.cursor() < self.text().len() {
                Some(self.text()[self.cursor()])
            } else {
                None::<char>
            },
    {
        if self.idx < self.chars.len() {
            Some(self.chars[self.idx])
        } else {
            None
        }
    }

    /// The character `skip_count` places after the next one, without consuming anything.
    pub fn skip_peek(&self, skip_count: usize) -> (r: Option<char>)
        requires
            self.wf(),
        ensures
            r == if self.cursor() + skip_count < self.text().len() {
                Some(self.text()[self.cursor() + skip_count])
            } else {
                None::<char>
            },
    {
        if skip_count < self.chars.len() - self.idx {
            Some(self.chars[self.idx + skip_count])
        } else {
            None
        }
    }

    fn next_is(&self, skip_count: usize, c: char) -> (b: bool)
        requires
            self.wf(),
        ensures
            b == crate::lexer::model::next_is(self.text(), self.cursor() + skip_count, c),
    {
        match self.skip_peek(skip_count) {
            Some(d) => d == c,
            None => false,
        }
    }

    /// Consumes the next character, advancing the line, column and byte offset.
    pub fn remove(&mut self) -> (r: Option<char>)
        requires
            old(self).wf(),
        ensures
            final(self).wf(),
            final(self).text() == old(self).text(),
            old(self).cursor() < old(self).text().len() ==> r == Some(
                old(self).text()[old(self).cursor()],
            ) && final(self).cursor() == old(self).cursor() + 1,
            old(self).cursor() >= old(self).text().len() ==> r is None && final(self).cursor()
                == old(self).cursor(),
    {
        if self.idx >= self.chars.len() {
            return None;
        }
        let c = self.chars[self.idx];
        proof {
            let s = self.chars@;
            let i = self.idx as int;
            lemma_byte_off_step(s, i);
            lemma_byte_off_mono(s, i + 1, s.len() as int);
            lemma_line_col_bound(s, i + 1);
        }
        if c == '\n' {
            self.line = self.line + 1;
            self.col = 1;
        } else {
            self.col = self.col + 1;
        }
        self.pos = self.pos + char_utf8_width(c);
        self.idx = self.idx + 1;
        Some(c)
    }

    fn here(&self, line: u32, col: u32, start: usize) -> (sp: Span)
        ensures
            sp == (Span { line, col, start, end: self.pos }),
    {
        Span { line, col, start, end: self.pos }
    }

    /// Skips whitespace and comments.
    fn skip_non_code(&mut self) -> (r: Result<(), LexError>)
        requires
            old(self).wf(),
        ensures
            final(self).wf(),
            final(self).text() == old(self).text(),
            match trivia_end(old(self).text(), old(self).cursor()) {
                Ok(j) => r is Ok && final(self).cursor() == j,
                Err(k) => r matches Err(e) && reports(
                    e,
                    old(self).text(),
                    LexFailure {
                        msg: "comentário de bloco não fechado"@,
                        from: k,
                        to: old(self).text().len() as int,
                    },
                ),
            },
    {
        let ghost s = self.chars@;
        let ghost i0 = self.idx as int;
        loop
            invariant
                self.wf(),
                self.chars@ == s,
                s == old(self).chars@,
                i0 == old(self).idx,
                trivia_end(s, self.idx as int) == trivia_end(s, i0),
            decreases s.len() - self.idx,
        {
            let ghost before = self.idx as int;
            let c = match self.peek() {
                None => {
                    return Ok(());
                },
                Some(c) => c,
            };
            if white_space(c) {
                self.remove();
            } else if c == '/' && self.next_is(1, '/') {
                self.remove();
                self.remove();
                while self.idx < self.chars.len() && self.chars[self.idx] != '\n'
                    invariant
                        self.wf(),
                        self.chars@ == s,
                        before < self.idx,
                        trivia_line(s, self.idx as int) == trivia_end(s, i0),
                    decreases s.len() - self.idx,
                {
                    self.remove();
                }
            } else if c == '/' && self.next_is(1, '*') {
                let line = self.line;
                let col = self.col;
                let start = self.pos;
                let ghost k = self.idx as int;
                proof {
                    lemma_line_col_bound(s, k);
                }
                self.remove();
                self.remove();
                while self.idx < self.chars.len() && !(self.chars[self.idx] == '*' && self.next_is(1, '/'))
                    invariant
                        self.wf(),
                        self.chars@ == s,
                        before == k,
                        0 <= k < self.idx,
                        line == pos_line(s, k),
                        col == pos_col(s, k),
                        start == byte_off(s, k),
                        trivia_block(s, k, self.idx as int) == trivia_end(s, i0),
                    decreases s.len() - self.idx,
                {
                    self.remove();
                }
                if self.idx >= self.chars.len() {
                    return Err(
                        LexError {
                            message: msg("comentário de bloco não fechado"),
                            span: self.here(line, col, start),
                        },
                    );
                }
                self.remove();
                self.remove();
            } else {
                return Ok(());
            }
        }
    }

    /// `\u{...}` after its `u` has been consumed.
    fn scan_unicode_escape(&mut self, esc_line: u32, esc_col: u32, esc_start: usize) -> (r: Result<
        char,
        LexError,
    >)
        requires
            old(self).wf(),
            1 <= old(self).cursor(),
            esc_line == pos_line(old(self).text(), old(self).cursor() - 1),
            esc_col == pos_col(old(self).text(), old(self).cursor() - 1),
            esc_start == byte_off(old(self).text(), old(self).cursor() - 1),
        ensures
            final(self).wf(),
            final(self).text() == old(self).text(),
            match unicode_escape(old(self).text(), old(self).cursor() - 1, old(self).cursor()) {
                Ok((c, e)) => r == Ok::<char, LexError>(c) && final(self).cursor() == e,
                Err(f) => r matches Err(x) && reports(x, old(self).text(), f),
            },
    {
        let ghost s = self.chars@;
        let ghost p = self.idx as int;
        if !self.next_is(0, '{') {
            return Err(
                LexError {
                    message: msg("escape \\u deve ser \\u{...}"),
                    span: self.here(esc_line, esc_col, esc_start),
                },
            );
        }
        self.remove();
        let hex_start = self.idx;
        proof {
            crate::lexer::model::lemma_hex_end(s, p + 1);
        }
        let ghost q = hex_end(s, p + 1);
        let mut value: u32 = 0;
        let mut overflow = false;
        while self.idx < self.chars.len() && self.chars[self.idx] != '}'
            invariant
                self.wf(),
                self.chars@ == s,
                s == old(self).chars@,
                p == old(self).idx,
                crate::lexer::model::next_is(s, p, '{'),
                p + 1 <= self.idx <= q,
                q == hex_end(s, p + 1),
                hex_end(s, self.idx as int) == q,
                overflow ==> hex_value(s.subrange(p + 1, self.idx as int)) > u32::MAX,
                !overflow ==> value == hex_value(s.subrange(p + 1, self.idx as int)),
            decreases s.len() - self.idx,
        {
            let c = self.chars[self.idx];
            match hex_digit(c) {
                Some(d) => {
                    let ghost old_idx = self.idx as int;
                    proof {
                        assert(s.subrange(p + 1, old_idx + 1).drop_last() =~= s.subrange(
                            p + 1,
                            old_idx,
                        ));
                        crate::lexer::model::lemma_hex_end(s, old_idx + 1);
                    }
                    if !overflow {
                        if value > 0x0FFF_FFFF {
                            overflow = true;
                        } else {
                            value = value * 16 + d;
                        }
                    }
                    self.remove();
                },
                None => {
                    proof {
                        lemma_byte_off_step(s, self.idx as int);
                        lemma_byte_off_mono(s, self.idx as int + 1, s.len() as int);
                        lemma_line_col_bound(s, self.idx as int);
                    }
                    let w = char_utf8_width(c);
                    return Err(
                        LexError {
                            message: msg("dígito hexadecimal inválido em \\u{...}"),
                            span: Span {
                                line: self.line,
                                col: self.col,
                                start: self.pos,
                                end: self.pos + w,
                            },
                        },
                    );
                },
            }
        }
        if !self.next_is(0, '}') {
            return Err(
                LexError {
                    message: msg("\\u{...} não fechado"),
                    span: self.here(esc_line, esc_col, esc_start),
                },
            );
        }
        let empty = self.idx == hex_start;
        self.remove();
        if empty {
            return Err(
                LexError {
                    message: msg("\\u{} vazio"),
                    span: self.here(esc_line, esc_col, esc_start),
                },
            );
        }
        if overflow {
            return Err(
                LexError {
                    message: msg("código Unicode inválido"),
                    span: self.here(esc_line, esc_col, esc_start),
                },
            );
        }
        match char_from_u32(value) {
            Some(c) => {
                proof {
                    vstd::utf8::char_u32_cast(c, value);
                }
                Ok(c)
            },
            None => Err(
                LexError {
                    message: msg("código Unicode inválido"),
                    span: self.here(esc_line, esc_col, esc_start),
                },
            ),
        }
    }

    fn is_ident_continue_char(c: char) -> (b: bool)
        ensures
            b == is_ident_continue(c),
    {
        char_is_alphabetic(c) || ascii_digit(c) || c == '_'
    }

    /// Reads a string literal whose opening quote is the next character.
    fn scan_string(&mut self, line: u32, col: u32, start: usize) -> (r: Result<String, LexError>)
        requires
            old(self).wf(),
            old(self).cursor() < old(self).text().len(),
            old(self).text()[old(self).cursor()] == '"',
            line == pos_line(old(self).text(), old(self).cursor()),
            col == pos_col(old(self).text(), old(self).cursor()),
            start == byte_off(old(self).text(), old(self).cursor()),
        ensures
            final(self).wf(),
            final(self).text() == old(self).text(),
            match string_rest(
                old(self).text(),
                old(self).cursor(),
                old(self).cursor() + 1,
                Seq::empty(),
            ) {
                Ok((v, e)) => r matches Ok(x) && x@ == v && final(self).cursor() == e,
                Err(f) => r matches Err(x) && reports(x, old(self).text(), f),
            },
    {
        let ghost s = self.chars@;
        let ghost j = self.idx as int;
        self.remove();
        let mut value = String::new();
        loop
            invariant
                self.wf(),
                self.chars@ == s,
                s == old(self).chars@,
                j == old(self).idx,
                j < self.idx <= s.len(),
                line == pos_line(s, j),
                col == pos_col(s, j),
                start == byte_off(s, j),
                string_rest(s, j, self.idx as int, value@) == string_rest(
                    s,
                    j,
                    j + 1,
                    Seq::empty(),
                ),
            decreases s.len() - self.idx,
        {
            let c = match self.peek() {
                None => {
                    return Err(
                        LexError { message: msg("string não fechada"), span: self.here(line, col, start) },
                    );
                },
                Some(c) => c,
            };
            if c == '"' {
                self.remove();
                return Ok(value);
            }
            if c == '\\' {
                self.remove();
                let esc_line = self.line;
                let esc_col = self.col;
                let esc_start = self.pos;
                let ghost k1 = self.idx as int;
                let e = match self.remove() {
                    None => {
                        return Err(
                            LexError {
                                message: msg("escape incompleto no fim do arquivo"),
                                span: self.here(line, col, start),
                            },
                        );
                    },
                    Some(e) => e,
                };
                match escape_char(e) {
                    Some(x) => {
                        push_char(&mut value, x);
                    },
                    None => {
                        if e == 'u' {
                            proof {
                                crate::lexer::model::lemma_unicode_escape_advances(s, k1, k1 + 1);
                            }
                            match self.scan_unicode_escape(esc_line, esc_col, esc_start) {
                                Ok(x) => {
                                    push_char(&mut value, x);
                                },
                                Err(er) => {
                                    return Err(er);
                                },
                            }
                        } else {
                            let mut m = msg("escape inválido: \\");
                            push_char(&mut m, e);
                            return Err(
                                LexError { message: m, span: self.here(esc_line, esc_col, esc_start) },
                            );
                        }
                    },
                }
            } else {
                self.remove();
                push_char(&mut value, c);
            }
        }
    }

    /// Reads an operator or delimiter (the next character is not the start
    /// of a name, a number, a string or a comment).
    fn scan_punct(&mut self) -> (r: Result<Tag, String>)
        requires
            old(self).wf(),
            old(self).cursor() < old(self).text().len(),
        ensures
            final(self).wf(),
            final(self).text() == old(self).text(),
            match punct(old(self).text(), old(self).cursor()) {
                Ok((t, e)) => r == Ok::<Tag, String>(t) && final(self).cursor() == e,
                Err(f) => r matches Err(m) && m@ == f.msg && final(self).cursor() == f.to,
            },
    {
        let c = self.chars[self.idx];
        self.remove();
        if c == '=' {
            if self.next_is(0, '=') {
                self.remove();
                Ok(Tag::EqEq)
            } else {
                Ok(Tag::Eq)
            }
        } else if c == '!' {
            if self.next_is(0, '=') {
                self.remove();
                Ok(Tag::BangEq)
            } else {
                Err(msg("caractere '!' inválido; você quis '!='?"))
            }
        } else if c == '<' {
            if self.next_is(0, '=') {
                self.remove();
                Ok(Tag::LtEq)
            } else {
                Ok(Tag::Lt)
            }
        } else if c == '>' {
            if self.next_is(0, '=') {
                self.remove();
                Ok(Tag::GtEq)
            } else {
                Ok(Tag::Gt)
            }
        } else if c == '-' {
            if self.next_is(0, '>') {
                self.remove();
                Ok(Tag::Arrow)
            } else {
                Ok(Tag::Minus)
            }
        } else if c == '.' {
            if self.next_is(0, '.') {
                self.remove();
                Ok(Tag::DotDot)
            } else {
                Ok(Tag::Dot)
            }
        } else if c == '/' {
            Ok(Tag::Slash)
        } else if c == '+' {
            Ok(Tag::Plus)
        } else if c == '*' {
            Ok(Tag::Star)
        } else if c == '%' {
            Ok(Tag::Percent)
        } else if c == '(' {
            Ok(Tag::LParen)
        } else if c == ')' {
            Ok(Tag::RParen)
        } else if c == '[' {
            Ok(Tag::LBracket)
        } else if c == ']' {
            Ok(Tag::RBracket)
        } else if c == '{' {
            Ok(Tag::LBrace)
        } else if c == '}' {
            Ok(Tag::RBrace)
        } else if c == ',' {
            Ok(Tag::Comma)
        } else {
            let d = char_debug(c);
            let mut m = msg("caractere inválido: ");
            push_str(&mut m, d.as_str());
            Err(m)
        }
    }

    /// Reads the next token, skipping whitespace and comments before it.
    pub fn next_token(&mut self) -> (r: Result<Token, LexError>)
        requires
            old(self).wf(),
        ensures
            final(self).wf(),
            final(self).text() == old(self).text(),
            match next_token_at(old(self).text(), old(self).cursor()) {
                Ok((t, e)) => r matches Ok(tok) && tok.kind@ == t.kind && tok.span == span_of(
                    old(self).text(),
                    t.from,
                    t.to,
                ) && final(self).cursor() == e,
                Err(f) => r matches Err(x) && reports(x, old(self).text(), f),
            },
    {
        let ghost s = self.chars@;
        match self.skip_non_code() {
            Err(e) => {
                return Err(e);
            },
            Ok(()) => {},
        }
        let line = self.line;
        let col = self.col;
        let start = self.pos;
        let ghost j = self.idx as int;
        proof {
            lemma_line_col_bound(s, j);
        }
        let ch = match self.peek() {
            None => {
                return Ok(Token { kind: TokenKind::Eof, span: self.here(line, col, start) });
            },
            Some(c) => c,
        };
        if char_is_alphabetic(ch) || ch == '_' {
            let mut word: Vec<char> = Vec::new();
            proof {
                crate::lexer::model::lemma_ident_end(s, j);
            }
            while self.idx < self.chars.len() && Self::is_ident_continue_char(self.chars[self.idx])
                invariant
                    self.wf(),
                    self.chars@ == s,
                    s == old(self).chars@,
                    trivia_end(s, old(self).idx as int) == Ok::<int, int>(j),
                    0 <= j <= self.idx <= s.len(),
                    ident_end(s, self.idx as int) == ident_end(s, j),
                    word@ == s.subrange(j, self.idx as int),
                decreases s.len() - self.idx,
            {
                let c = self.chars[self.idx];
                let ghost i = self.idx as int;
                self.remove();
                word.push(c);
                assert(s.subrange(j, i + 1) =~= s.subrange(j, i).push(c));
            }
            let kind = match keyword_of_chars(word.as_slice()) {
                Some(t) => kind_from_tag(t, String::new()),
                None => TokenKind::Ident(chars_to_string(&word)),
            };
            return Ok(Token { kind, span: self.here(line, col, start) });
        }
        if ascii_digit(ch) {
            let mut word: Vec<char> = Vec::new();
            while self.idx < self.chars.len() && (ascii_digit(self.chars[self.idx]) || self.chars[self.idx] == '_')
                invariant
                    self.wf(),
                    self.chars@ == s,
                    s == old(self).chars@,
                    trivia_end(s, old(self).idx as int) == Ok::<int, int>(j),
                    0 <= j <= self.idx <= s.len(),
                    digits_end(s, self.idx as int) == digits_end(s, j),
                    word@ == s.subrange(j, self.idx as int),
                decreases s.len() - self.idx,
            {
                let c = self.chars[self.idx];
                let ghost i = self.idx as int;
                self.remove();
                word.push(c);
                assert(s.subrange(j, i + 1) =~= s.subrange(j, i).push(c));
            }
            let frac = match self.skip_peek(1) {
                Some(d) => ascii_digit(d),
                None => false,
            };
            if self.next_is(0, '.') && frac {
                self.remove();
                word.push('.');
                assert(word@ =~= s.subrange(j, self.idx as int));
                let ghost f0 = self.idx as int;
                while self.idx < self.chars.len() && (ascii_digit(self.chars[self.idx]) || self.chars[self.idx] == '_')
                    invariant
                        self.wf(),
                        self.chars@ == s,
                        s == old(self).chars@,
                        trivia_end(s, old(self).idx as int) == Ok::<int, int>(j),
                        0 <= j <= self.idx <= s.len(),
                        f0 == digits_end(s, j) + 1,
                        digits_end(s, self.idx as int) == digits_end(s, f0),
                        word@ == s.subrange(j, self.idx as int),
                    decreases s.len() - self.idx,
                {
                    let c = self.chars[self.idx];
                    let ghost i = self.idx as int;
                    self.remove();
                    word.push(c);
                    assert(s.subrange(j, i + 1) =~= s.subrange(j, i).push(c));
                }
            }
            let text = chars_to_string(&word);
            return Ok(Token { kind: TokenKind::Number(text), span: self.here(line, col, start) });
        }
        if ch == '"' {
            return match self.scan_string(line, col, start) {
                Ok(v) => Ok(Token { kind: TokenKind::String(v), span: self.here(line, col, start) }),
                Err(e) => Err(e),
            };
        }
        match self.scan_punct() {
            Ok(t) => Ok(Token { kind: kind_from_tag(t, String::new()), span: self.here(line, col, start) }),
            Err(m) => Err(LexError { message: m, span: self.here(line, col, start) }),
        }
    }
}

} // verus!
