//! Token kinds of Expressa and the table of reserved words.
use vstd::prelude::*;

verus! {

/// Kind of a token produced by the scanner.
#[derive(Debug, Clone, PartialEq, Eq)]
pub enum TokenKind {
    /// Decimal number lexeme as written (e.g. "10", "3.14", "1_000").
    Number(String),
    /// String contents, already unescaped.
    String(String),
    /// Non-keyword identifier.
    Ident(String),
    /// `se`
    Se,
    /// `senao`
    Senao,
    /// `ou (logical OR *and* part of "ou se")`
    Ou,
    /// `e`
    E,
    /// `nao`
    Nao,
    /// `inicio`
    Inicio,
    /// `fim`
    Fim,
    /// `funcao`
    Funcao,
    /// `para`
    Para,
    /// `de`
    De,
    /// `ate`
    Ate,
    /// `em`
    Em,
    /// `repita`
    Repita,
    /// `vezes`
    Vezes,
    /// `mapa`
    Mapa,
    /// `importe`
    Importe,
    /// `contem (infix operator, but reserved word)`
    Contem,
    /// `verdadeiro`
    Verdadeiro,
    /// `falso`
    Falso,
    /// `se_falhar (one keyword, not Se + Ident)`
    SeFalhar,
    /// `+`
    Plus,
    /// `-   (binary or unary; the parser decides)`
    Minus,
    /// `*`
    Star,
    /// `/`
    Slash,
    /// `%`
    Percent,
    /// `==`
    EqEq,
    /// `!=`
    BangEq,
    /// `<`
    Lt,
    /// `>`
    Gt,
    /// `<=`
    LtEq,
    /// `>=`
    GtEq,
    /// `=`
    Eq,
    /// `->`
    Arrow,
    /// `..  (only used inside [i..j])`
    DotDot,
    /// `.   (module field: mat.soma)`
    Dot,
    /// `(`
    LParen,
    /// `)`
    RParen,
    /// `[`
    LBracket,
    /// `]`
    RBracket,
    /// `{`
    LBrace,
    /// `}`
    RBrace,
    /// `,`
    Comma,
    /// End of input.
    Eof,
}

/// Kind of a token without its text: one tag per variant of [`TokenKind`].
#[derive(Debug, Clone, Copy, PartialEq, Eq, Structural)]
pub enum Tag {
    Number,
    Str,
    Ident,
    Se,
    Senao,
    Ou,
    E,
    Nao,
    Inicio,
    Fim,
    Funcao,
    Para,
    De,
    Ate,
    Em,
    Repita,
    Vezes,
    Mapa,
    Importe,
    Contem,
    Verdadeiro,
    Falso,
    SeFalhar,
    Plus,
    Minus,
    Star,
    Slash,
    Percent,
    EqEq,
    BangEq,
    Lt,
    Gt,
    LtEq,
    GtEq,
    Eq,
    Arrow,
    DotDot,
    Dot,
    LParen,
    RParen,
    LBracket,
    RBracket,
    LBrace,
    RBrace,
    Comma,
    Eof,
}

/// Mathematical view of a [`TokenKind`]: its tag and, for numbers, strings
/// and identifiers, its text (empty for every other kind).
pub struct KindView {
    pub tag: Tag,
    pub text: Seq<char>,
}

/// Whether tokens of this tag carry a text.
pub open spec fn tag_has_text(t: Tag) -> bool {
    t == Tag::Number || t == Tag::Str || t == Tag::Ident
}

/// The view of a token kind with tag `t` and text `text`.
pub open spec fn kind_view(t: Tag, text: Seq<char>) -> KindView {
    KindView { tag: t, text: if tag_has_text(t) { text } else { Seq::empty() } }
}

impl View for TokenKind {
    type V = KindView;

    open spec fn view(&self) -> KindView {
        match self {
            TokenKind::Number(s) => kind_view(Tag::Number, s@),
            TokenKind::String(s) => kind_view(Tag::Str, s@),
            TokenKind::Ident(s) => kind_view(Tag::Ident, s@),
            TokenKind::Se => kind_view(Tag::Se, Seq::empty()),
            TokenKind::Senao => kind_view(Tag::Senao, Seq::empty()),
            TokenKind::Ou => kind_view(Tag::Ou, Seq::empty()),
            TokenKind::E => kind_view(Tag::E, Seq::empty()),
            TokenKind::Nao => kind_view(Tag::Nao, Seq::empty()),
            TokenKind::Inicio => kind_view(Tag::Inicio, Seq::empty()),
            TokenKind::Fim => kind_view(Tag::Fim, Seq::empty()),
            TokenKind::Funcao => kind_view(Tag::Funcao, Seq::empty()),
            TokenKind::Para => kind_view(Tag::Para, Seq::empty()),
            TokenKind::De => kind_view(Tag::De, Seq::empty()),
            TokenKind::Ate => kind_view(Tag::Ate, Seq::empty()),
            TokenKind::Em => kind_view(Tag::Em, Seq::empty()),
            TokenKind::Repita => kind_view(Tag::Repita, Seq::empty()),
            TokenKind::Vezes => kind_view(Tag::Vezes, Seq::empty()),
            TokenKind::Mapa => kind_view(Tag::Mapa, Seq::empty()),
            TokenKind::Importe => kind_view(Tag::Importe, Seq::empty()),
            TokenKind::Contem => kind_view(Tag::Contem, Seq::empty()),
            TokenKind::Verdadeiro => kind_view(Tag::Verdadeiro, Seq::empty()),
            TokenKind::Falso => kind_view(Tag::Falso, Seq::empty()),
            TokenKind::SeFalhar => kind_view(Tag::SeFalhar, Seq::empty()),
            TokenKind::Plus => kind_view(Tag::Plus, Seq::empty()),
            TokenKind::Minus => kind_view(Tag::Minus, Seq::empty()),
            TokenKind::Star => kind_view(Tag::Star, Seq::empty()),
            TokenKind::Slash => kind_view(Tag::Slash, Seq::empty()),
            TokenKind::Percent => kind_view(Tag::Percent, Seq::empty()),
            TokenKind::EqEq => kind_view(Tag::EqEq, Seq::empty()),
            TokenKind::BangEq => kind_view(Tag::BangEq, Seq::empty()),
            TokenKind::Lt => kind_view(Tag::Lt, Seq::empty()),
            TokenKind::Gt => kind_view(Tag::Gt, Seq::empty()),
            TokenKind::LtEq => kind_view(Tag::LtEq, Seq::empty()),
            TokenKind::GtEq => kind_view(Tag::GtEq, Seq::empty()),
            TokenKind::Eq => kind_view(Tag::Eq, Seq::empty()),
            TokenKind::Arrow => kind_view(Tag::Arrow, Seq::empty()),
            TokenKind::DotDot => kind_view(Tag::DotDot, Seq::empty()),
            TokenKind::Dot => kind_view(Tag::Dot, Seq::empty()),
            TokenKind::LParen => kind_view(Tag::LParen, Seq::empty()),
            TokenKind::RParen => kind_view(Tag::RParen, Seq::empty()),
            TokenKind::LBracket => kind_view(Tag::LBracket, Seq::empty()),
            TokenKind::RBracket => kind_view(Tag::RBracket, Seq::empty()),
            TokenKind::LBrace => kind_view(Tag::LBrace, Seq::empty()),
            TokenKind::RBrace => kind_view(Tag::RBrace, Seq::empty()),
            TokenKind::Comma => kind_view(Tag::Comma, Seq::empty()),
            TokenKind::Eof => kind_view(Tag::Eof, Seq::empty()),
        }
    }
}

impl TokenKind {
    /// The tag of this kind.
    pub fn tag(&self) -> (t: Tag)
        ensures
            t == self@.tag,
    {
        match self {
            TokenKind::Number(_) => Tag::Number,
            TokenKind::String(_) => Tag::Str,
            TokenKind::Ident(_) => Tag::Ident,
            TokenKind::Se => Tag::Se,
            TokenKind::Senao => Tag::Senao,
            TokenKind::Ou => Tag::Ou,
            TokenKind::E => Tag::E,
            TokenKind::Nao => Tag::Nao,
            TokenKind::Inicio => Tag::Inicio,
            TokenKind::Fim => Tag::Fim,
            TokenKind::Funcao => Tag::Funcao,
            TokenKind::Para => Tag::Para,
            TokenKind::De => Tag::De,
            TokenKind::Ate => Tag::Ate,
            TokenKind::Em => Tag::Em,
            TokenKind::Repita => Tag::Repita,
            TokenKind::Vezes => Tag::Vezes,
            TokenKind::Mapa => Tag::Mapa,
            TokenKind::Importe => Tag::Importe,
            TokenKind::Contem => Tag::Contem,
            TokenKind::Verdadeiro => Tag::Verdadeiro,
            TokenKind::Falso => Tag::Falso,
            TokenKind::SeFalhar => Tag::SeFalhar,
            TokenKind::Plus => Tag::Plus,
            TokenKind::Minus => Tag::Minus,
            TokenKind::Star => Tag::Star,
            TokenKind::Slash => Tag::Slash,
            TokenKind::Percent => Tag::Percent,
            TokenKind::EqEq => Tag::EqEq,
            TokenKind::BangEq => Tag::BangEq,
            TokenKind::Lt => Tag::Lt,
            TokenKind::Gt => Tag::Gt,
            TokenKind::LtEq => Tag::LtEq,
            TokenKind::GtEq => Tag::GtEq,
            TokenKind::Eq => Tag::Eq,
            TokenKind::Arrow => Tag::Arrow,
            TokenKind::DotDot => Tag::DotDot,
            TokenKind::Dot => Tag::Dot,
            TokenKind::LParen => Tag::LParen,
            TokenKind::RParen => Tag::RParen,
            TokenKind::LBracket => Tag::LBracket,
            TokenKind::RBracket => Tag::RBracket,
            TokenKind::LBrace => Tag::LBrace,
            TokenKind::RBrace => Tag::RBrace,
            TokenKind::Comma => Tag::Comma,
            TokenKind::Eof => Tag::Eof,
        }
    }

    /// A copy of this kind.
    pub fn copy(&self) -> (k: TokenKind)
        ensures
            k@ == self@,
    {
        match self {
            TokenKind::Number(s) => TokenKind::Number(s.clone()),
            TokenKind::String(s) => TokenKind::String(s.clone()),
            TokenKind::Ident(s) => TokenKind::Ident(s.clone()),
            TokenKind::Se => TokenKind::Se,
            TokenKind::Senao => TokenKind::Senao,
            TokenKind::Ou => TokenKind::Ou,
            TokenKind::E => TokenKind::E,
            TokenKind::Nao => TokenKind::Nao,
            TokenKind::Inicio => TokenKind::Inicio,
            TokenKind::Fim => TokenKind::Fim,
            TokenKind::Funcao => TokenKind::Funcao,
            TokenKind::Para => TokenKind::Para,
            TokenKind::De => TokenKind::De,
            TokenKind::Ate => TokenKind::Ate,
            TokenKind::Em => TokenKind::Em,
            TokenKind::Repita => TokenKind::Repita,
            TokenKind::Vezes => TokenKind::Vezes,
            TokenKind::Mapa => TokenKind::Mapa,
            TokenKind::Importe => TokenKind::Importe,
            TokenKind::Contem => TokenKind::Contem,
            TokenKind::Verdadeiro => TokenKind::Verdadeiro,
            TokenKind::Falso => TokenKind::Falso,
            TokenKind::SeFalhar => TokenKind::SeFalhar,
            TokenKind::Plus => TokenKind::Plus,
            TokenKind::Minus => TokenKind::Minus,
            TokenKind::Star => TokenKind::Star,
            TokenKind::Slash => TokenKind::Slash,
            TokenKind::Percent => TokenKind::Percent,
            TokenKind::EqEq => TokenKind::EqEq,
            TokenKind::BangEq => TokenKind::BangEq,
            TokenKind::Lt => TokenKind::Lt,
            TokenKind::Gt => TokenKind::Gt,
            TokenKind::LtEq => TokenKind::LtEq,
            TokenKind::GtEq => TokenKind::GtEq,
            TokenKind::Eq => TokenKind::Eq,
            TokenKind::Arrow => TokenKind::Arrow,
            TokenKind::DotDot => TokenKind::DotDot,
            TokenKind::Dot => TokenKind::Dot,
            TokenKind::LParen => TokenKind::LParen,
            TokenKind::RParen => TokenKind::RParen,
            TokenKind::LBracket => TokenKind::LBracket,
            TokenKind::RBracket => TokenKind::RBracket,
            TokenKind::LBrace => TokenKind::LBrace,
            TokenKind::RBrace => TokenKind::RBrace,
            TokenKind::Comma => TokenKind::Comma,
            TokenKind::Eof => TokenKind::Eof,
        }
    }
}

/// Builds the kind with tag `t`; `text` is kept only for numbers, strings and identifiers.
pub fn kind_from_tag(t: Tag, text: String) -> (k: TokenKind)
    ensures
        k@ == kind_view(t, text@),
{
    match t {
        Tag::Number => TokenKind::Number(text),
        Tag::Str => TokenKind::String(text),
        Tag::Ident => TokenKind::Ident(text),
        Tag::Se => TokenKind::Se,
        Tag::Senao => TokenKind::Senao,
        Tag::Ou => TokenKind::Ou,
        Tag::E => TokenKind::E,
        Tag::Nao => TokenKind::Nao,
        Tag::Inicio => TokenKind::Inicio,
        Tag::Fim => TokenKind::Fim,
        Tag::Funcao => TokenKind::Funcao,
        Tag::Para => TokenKind::Para,
        Tag::De => TokenKind::De,
        Tag::Ate => TokenKind::Ate,
        Tag::Em => TokenKind::Em,
        Tag::Repita => TokenKind::Repita,
        Tag::Vezes => TokenKind::Vezes,
        Tag::Mapa => TokenKind::Mapa,
        Tag::Importe => TokenKind::Importe,
        Tag::Contem => TokenKind::Contem,
        Tag::Verdadeiro => TokenKind::Verdadeiro,
        Tag::Falso => TokenKind::Falso,
        Tag::SeFalhar => TokenKind::SeFalhar,
        Tag::Plus => TokenKind::Plus,
        Tag::Minus => TokenKind::Minus,
        Tag::Star => TokenKind::Star,
        Tag::Slash => TokenKind::Slash,
        Tag::Percent => TokenKind::Percent,
        Tag::EqEq => TokenKind::EqEq,
        Tag::BangEq => TokenKind::BangEq,
        Tag::Lt => TokenKind::Lt,
        Tag::Gt => TokenKind::Gt,
        Tag::LtEq => TokenKind::LtEq,
        Tag::GtEq => TokenKind::GtEq,
        Tag::Eq => TokenKind::Eq,
        Tag::Arrow => TokenKind::Arrow,
        Tag::DotDot => TokenKind::DotDot,
        Tag::Dot => TokenKind::Dot,
        Tag::LParen => TokenKind::LParen,
        Tag::RParen => TokenKind::RParen,
        Tag::LBracket => TokenKind::LBracket,
        Tag::RBracket => TokenKind::RBracket,
        Tag::LBrace => TokenKind::LBrace,
        Tag::RBrace => TokenKind::RBrace,
        Tag::Comma => TokenKind::Comma,
        Tag::Eof => TokenKind::Eof,
    }
}

/// The reserved word spelled by `w`, if any (accented spellings included).
pub open spec fn keyword_tag(w: Seq<char>) -> Option<Tag> {
    if w =~= seq!['s', 'e'] {
        Some(Tag::Se)
    } else if w =~= seq!['s', 'e', 'n', 'a', 'o'] {
        Some(Tag::Senao)
    } else if w =~= seq!['s', 'e', 'n', 'ã', 'o'] {
        Some(Tag::Senao)
    } else if w =~= seq!['o', 'u'] {
        Some(Tag::Ou)
    } else if w =~= seq!['e'] {
        Some(Tag::E)
    } else if w =~= seq!['n', 'a', 'o'] {
        Some(Tag::Nao)
    } else if w =~= seq!['n', 'ã', 'o'] {
        Some(Tag::Nao)
    } else if w =~= seq!['i', 'n', 'i', 'c', 'i', 'o'] {
        Some(Tag::Inicio)
    } else if w =~= seq!['i', 'n', 'í', 'c', 'i', 'o'] {
        Some(Tag::Inicio)
    } else if w =~= seq!['f', 'i', 'm'] {
        Some(Tag::Fim)
    } else if w =~= seq!['f', 'u', 'n', 'c', 'a', 'o'] {
        Some(Tag::Funcao)
    } else if w =~= seq!['f', 'u', 'n', 'ç', 'ã', 'o'] {
        Some(Tag::Funcao)
    } else if w =~= seq!['p', 'a', 'r', 'a'] {
        Some(Tag::Para)
    } else if w =~= seq!['d', 'e'] {
        Some(Tag::De)
    } else if w =~= seq!['a', 't', 'e'] {
        Some(Tag::Ate)
    } else if w =~= seq!['a', 't', 'é'] {
        Some(Tag::Ate)
    } else if w =~= seq!['e', 'm'] {
        Some(Tag::Em)
    } else if w =~= seq!['r', 'e', 'p', 'i', 't', 'a'] {
        Some(Tag::Repita)
    } else if w =~= seq!['v', 'e', 'z', 'e', 's'] {
        Some(Tag::Vezes)
    } else if w =~= seq!['m', 'a', 'p', 'a'] {
        Some(Tag::Mapa)
    } else if w =~= seq!['i', 'm', 'p', 'o', 'r', 't', 'e'] {
        Some(Tag::Importe)
    } else if w =~= seq!['c', 'o', 'n', 't', 'e', 'm'] {
        Some(Tag::Contem)
    } else if w =~= seq!['c', 'o', 'n', 't', 'é', 'm'] {
        Some(Tag::Contem)
    } else if w =~= seq!['v', 'e', 'r', 'd', 'a', 'd', 'e', 'i', 'r', 'o'] {
        Some(Tag::Verdadeiro)
    } else if w =~= seq!['f', 'a', 'l', 's', 'o'] {
        Some(Tag::Falso)
    } else if w =~= seq!['s', 'e', '_', 'f', 'a', 'l', 'h', 'a', 'r'] {
        Some(Tag::SeFalhar)
    } else {
        None
    }
}

fn spells(w: &[char], lit: &[char]) -> (r: bool)
    ensures
        r == (w@ =~= lit@),
{
    if w.len() != lit.len() {
        return false;
    }
    let mut i: usize = 0;
    while i < w.len()
        invariant
            w@.len() == lit@.len(),
            0 <= i <= w@.len(),
            forall|k: int| 0 <= k < i ==> w@[k] == lit@[k],
        decreases w@.len() - i,
    {
        if w[i] != lit[i] {
            return false;
        }
        i = i + 1;
    }
    true
}

/// The reserved word spelled by the characters `w`, if any.
pub fn keyword_of_chars(w: &[char]) -> (r: Option<Tag>)
    ensures
        r == keyword_tag(w@),
{
    if spells(w, &['s', 'e']) {
        return Some(Tag::Se);
    }
    if spells(w, &['s', 'e', 'n', 'a', 'o']) {
        return Some(Tag::Senao);
    }
    if spells(w, &['s', 'e', 'n', 'ã', 'o']) {
        return Some(Tag::Senao);
    }
    if spells(w, &['o', 'u']) {
        return Some(Tag::Ou);
    }
    if spells(w, &['e']) {
        return Some(Tag::E);
    }
    if spells(w, &['n', 'a', 'o']) {
        return Some(Tag::Nao);
    }
    if spells(w, &['n', 'ã', 'o']) {
        return Some(Tag::Nao);
    }
    if spells(w, &['i', 'n', 'i', 'c', 'i', 'o']) {
        return Some(Tag::Inicio);
    }
    if spells(w, &['i', 'n', 'í', 'c', 'i', 'o']) {
        return Some(Tag::Inicio);
    }
    if spells(w, &['f', 'i', 'm']) {
        return Some(Tag::Fim);
    }
    if spells(w, &['f', 'u', 'n', 'c', 'a', 'o']) {
        return Some(Tag::Funcao);
    }
    if spells(w, &['f', 'u', 'n', 'ç', 'ã', 'o']) {
        return Some(Tag::Funcao);
    }
    if spells(w, &['p', 'a', 'r', 'a']) {
        return Some(Tag::Para);
    }
    if spells(w, &['d', 'e']) {
        return Some(Tag::De);
    }
    if spells(w, &['a', 't', 'e']) {
        return Some(Tag::Ate);
    }
    if spells(w, &['a', 't', 'é']) {
        return Some(Tag::Ate);
    }
    if spells(w, &['e', 'm']) {
        return Some(Tag::Em);
    }
    if spells(w, &['r', 'e', 'p', 'i', 't', 'a']) {
        return Some(Tag::Repita);
    }
    if spells(w, &['v', 'e', 'z', 'e', 's']) {
        return Some(Tag::Vezes);
    }
    if spells(w, &['m', 'a', 'p', 'a']) {
        return Some(Tag::Mapa);
    }
    if spells(w, &['i', 'm', 'p', 'o', 'r', 't', 'e']) {
        return Some(Tag::Importe);
    }
    if spells(w, &['c', 'o', 'n', 't', 'e', 'm']) {
        return Some(Tag::Contem);
    }
    if spells(w, &['c', 'o', 'n', 't', 'é', 'm']) {
        return Some(Tag::Contem);
    }
    if spells(w, &['v', 'e', 'r', 'd', 'a', 'd', 'e', 'i', 'r', 'o']) {
        return Some(Tag::Verdadeiro);
    }
    if spells(w, &['f', 'a', 'l', 's', 'o']) {
        return Some(Tag::Falso);
    }
    if spells(w, &['s', 'e', '_', 'f', 'a', 'l', 'h', 'a', 'r']) {
        return Some(Tag::SeFalhar);
    }
    None
}

/// The reserved word spelled by `s`, if any (`"senão"` and `"senao"` both give `Senao`).
pub fn keyword(s: &str) -> (r: Option<TokenKind>)
    ensures
        r is Some <==> keyword_tag(s@) is Some,
        r matches Some(k) ==> k@ == kind_view(keyword_tag(s@)->0, Seq::empty()),
{
    let cs = crate::text::str_chars(s);
    match keyword_of_chars(cs.as_slice()) {
        Some(t) => Some(kind_from_tag(t, String::new())),
        None => None,
    }
}

} // verus!

verus! {

/// Name of a tag as `TokenKind`'s `Debug` writes it.
pub open spec fn tag_name(t: Tag) -> Seq<char> {
    match t {
        Tag::Number => "Number"@,
        Tag::Str => "String"@,
        Tag::Ident => "Ident"@,
        Tag::Se => "Se"@,
        Tag::Senao => "Senao"@,
        Tag::Ou => "Ou"@,
        Tag::E => "E"@,
        Tag::Nao => "Nao"@,
        Tag::Inicio => "Inicio"@,
        Tag::Fim => "Fim"@,
        Tag::Funcao => "Funcao"@,
        Tag::Para => "Para"@,
        Tag::De => "De"@,
        Tag::Ate => "Ate"@,
        Tag::Em => "Em"@,
        Tag::Repita => "Repita"@,
        Tag::Vezes => "Vezes"@,
        Tag::Mapa => "Mapa"@,
        Tag::Importe => "Importe"@,
        Tag::Contem => "Contem"@,
        Tag::Verdadeiro => "Verdadeiro"@,
        Tag::Falso => "Falso"@,
        Tag::SeFalhar => "SeFalhar"@,
        Tag::Plus => "Plus"@,
        Tag::Minus => "Minus"@,
        Tag::Star => "Star"@,
        Tag::Slash => "Slash"@,
        Tag::Percent => "Percent"@,
        Tag::EqEq => "EqEq"@,
        Tag::BangEq => "BangEq"@,
        Tag::Lt => "Lt"@,
        Tag::Gt => "Gt"@,
        Tag::LtEq => "LtEq"@,
        Tag::GtEq => "GtEq"@,
        Tag::Eq => "Eq"@,
        Tag::Arrow => "Arrow"@,
        Tag::DotDot => "DotDot"@,
        Tag::Dot => "Dot"@,
        Tag::LParen => "LParen"@,
        Tag::RParen => "RParen"@,
        Tag::LBracket => "LBracket"@,
        Tag::RBracket => "RBracket"@,
        Tag::LBrace => "LBrace"@,
        Tag::RBrace => "RBrace"@,
        Tag::Comma => "Comma"@,
        Tag::Eof => "Eof"@,
    }
}

/// The text `TokenKind`'s `Debug` writes: the variant's name, followed for
/// numbers, strings and identifiers by their text in parentheses.
pub open spec fn kind_debug_text(k: KindView) -> Seq<char> {
    if tag_has_text(k.tag) {
        tag_name(k.tag) + "("@ + crate::text::str_debug_text(k.text) + ")"@
    } else {
        tag_name(k.tag)
    }
}

fn tag_name_exec(t: Tag) -> (s: &'static str)
    ensures
        s@ == tag_name(t),
{
    match t {
        Tag::Number => "Number",
        Tag::Str => "String",
        Tag::Ident => "Ident",
        Tag::Se => "Se",
        Tag::Senao => "Senao",
        Tag::Ou => "Ou",
        Tag::E => "E",
        Tag::Nao => "Nao",
        Tag::Inicio => "Inicio",
        Tag::Fim => "Fim",
        Tag::Funcao => "Funcao",
        Tag::Para => "Para",
        Tag::De => "De",
        Tag::Ate => "Ate",
        Tag::Em => "Em",
        Tag::Repita => "Repita",
        Tag::Vezes => "Vezes",
        Tag::Mapa => "Mapa",
        Tag::Importe => "Importe",
        Tag::Contem => "Contem",
        Tag::Verdadeiro => "Verdadeiro",
        Tag::Falso => "Falso",
        Tag::SeFalhar => "SeFalhar",
        Tag::Plus => "Plus",
        Tag::Minus => "Minus",
        Tag::Star => "Star",
        Tag::Slash => "Slash",
        Tag::Percent => "Percent",
        Tag::EqEq => "EqEq",
        Tag::BangEq => "BangEq",
        Tag::Lt => "Lt",
        Tag::Gt => "Gt",
        Tag::LtEq => "LtEq",
        Tag::GtEq => "GtEq",
        Tag::Eq => "Eq",
        Tag::Arrow => "Arrow",
        Tag::DotDot => "DotDot",
        Tag::Dot => "Dot",
        Tag::LParen => "LParen",
        Tag::RParen => "RParen",
        Tag::LBracket => "LBracket",
        Tag::RBracket => "RBracket",
        Tag::LBrace => "LBrace",
        Tag::RBrace => "RBrace",
        Tag::Comma => "Comma",
        Tag::Eof => "Eof",
    }
}

impl TokenKind {
    /// What `Debug` writes for this kind.
    pub fn debug_text(&self) -> (r: String)
        ensures
            r@ == kind_debug_text(self@),
    {
        let mut r = String::new();
        crate::text::push_str(&mut r, tag_name_exec(self.tag()));
        match self {
            TokenKind::Number(s) | TokenKind::String(s) | TokenKind::Ident(s) => {
                crate::text::push_str(&mut r, "(");
                let d = crate::text::str_debug(s.as_str());
                crate::text::push_str(&mut r, d.as_str());
                crate::text::push_str(&mut r, ")");
            },
            _ => {},
        }
        r
    }
}

} // verus!
