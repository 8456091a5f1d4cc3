//! Commands typed at the interactive prompt.
use vstd::prelude::*;

use crate::parser::incomplete::{needs_more, needs_more_input};
use crate::runtime::builtins::{
    builtin_docs, doc_key, doc_pages, lookup_builtin_doc, page_named, page_view,
};
use crate::paths::{trim, trimmed};
use crate::text::{
    first_two_words, push_char, push_str, skip_white, str_chars, text_is, word_end, words,
    words_from,
};
use crate::lexer::classes::is_white_space;
use crate::paths::{trim_hi, trim_lo};

verus! {

/// A line typed at the prompt that is a command, not code.
#[derive(Debug, PartialEq, Eq)]
pub enum ReplCommand {
    /// `sair`, `exit`, `quit`: leave.
    Sair,
    /// `ajuda [tópico]`: show help, on a topic when one is given.
    Ajuda(Option<String>),
    /// An empty line.
    Vazio,
}

/// A help topic character folded to plain lower-case ASCII where it is an
/// accented Portuguese letter or an ASCII capital.
pub open spec fn topic_char(c: char) -> char {
    if c == 'á' || c == 'à' || c == 'ã' || c == 'â' || c == 'Á' || c == 'À' || c == 'Ã' || c == 'Â' {
        'a'
    } else if c == 'é' || c == 'ê' || c == 'É' || c == 'Ê' {
        'e'
    } else if c == 'í' || c == 'Í' {
        'i'
    } else if c == 'ó' || c == 'ô' || c == 'õ' || c == 'Ó' || c == 'Ô' || c == 'Õ' {
        'o'
    } else if c == 'ú' || c == 'Ú' {
        'u'
    } else if c == 'ç' || c == 'Ç' {
        'c'
    } else if 0x41 <= (c as u32) <= 0x5A {
        ((c as u32) + 32) as char
    } else {
        c
    }
}

fn fold_topic_char(c: char) -> (r: char)
    ensures
        r == topic_char(c),
{
    if c == 'á' || c == 'à' || c == 'ã' || c == 'â' || c == 'Á' || c == 'À' || c == 'Ã' || c == 'Â' {
        'a'
    } else if c == 'é' || c == 'ê' || c == 'É' || c == 'Ê' {
        'e'
    } else if c == 'í' || c == 'Í' {
        'i'
    } else if c == 'ó' || c == 'ô' || c == 'õ' || c == 'Ó' || c == 'Ô' || c == 'Õ' {
        'o'
    } else if c == 'ú' || c == 'Ú' {
        'u'
    } else if c == 'ç' || c == 'Ç' {
        'c'
    } else if 'A' <= c && c <= 'Z' {
        let b: u8 = (c as u32 + 32) as u8;
        b as char
    } else {
        c
    }
}

/// A help topic as it is looked up: trimmed, without accents, lower case.
pub open spec fn topic_key(s: Seq<char>) -> Seq<char> {
    trimmed(s).map_values(|c: char| topic_char(c))
}

pub fn normalize_topic(s: &str) -> (r: String)
    ensures
        r@ == topic_key(s@),
{
    let t = trim(s);
    let v = str_chars(t.as_str());
    let mut out = String::new();
    let mut k: usize = 0;
    while k < v.len()
        invariant
            v@ == trimmed(s@),
            0 <= k <= v@.len(),
            out@ == v@.take(k as int).map_values(|c: char| topic_char(c)),
        decreases v@.len() - k,
    {
        push_char(&mut out, fold_topic_char(v[k]));
        k = k + 1;
        assert(v@.take(k as int).map_values(|c: char| topic_char(c)) =~= v@.take(k - 1).map_values(
            |c: char| topic_char(c),
        ).push(topic_char(v@[k - 1])));
    }
    assert(v@.take(v@.len() as int) =~= v@);
    out
}

/// `line` without one leading `.`.
pub open spec fn undotted(line: Seq<char>) -> Seq<char> {
    if line.len() > 0 && line[0] == '.' {
        line.drop_first()
    } else {
        line
    }
}

/// What a line typed at the prompt asks for, if it is a command.
pub open spec fn repl_command_of(line: Seq<char>) -> Option<ReplCommandV> {
    if line.len() == 0 {
        Some(ReplCommandV::Vazio)
    } else {
        let ws = words(undotted(line));
        if ws.len() == 0 {
            None
        } else {
            let key = topic_key(ws[0]);
            if key == "sair"@ || key == "exit"@ || key == "quit"@ {
                Some(ReplCommandV::Sair)
            } else if key == "ajuda"@ || key == "help"@ {
                Some(
                    ReplCommandV::Ajuda(
                        if ws.len() > 1 {
                            Some(ws[1])
                        } else {
                            None
                        },
                    ),
                )
            } else {
                None
            }
        }
    }
}

/// Mathematical view of a [`ReplCommand`].
pub enum ReplCommandV {
    Sair,
    Ajuda(Option<Seq<char>>),
    Vazio,
}

pub open spec fn command_view(c: ReplCommand) -> ReplCommandV {
    match c {
        ReplCommand::Sair => ReplCommandV::Sair,
        ReplCommand::Ajuda(t) => ReplCommandV::Ajuda(
            match t {
                Some(s) => Some(s@),
                None => None,
            },
        ),
        ReplCommand::Vazio => ReplCommandV::Vazio,
    }
}

/// Reads a prompt line as a command (`sair`, `ajuda [tópico]`, an empty
/// line), or `None` when it is code.
pub fn parse_repl_command(line: &str) -> (r: Option<ReplCommand>)
    ensures
        match repl_command_of(line@) {
            Some(c) => r matches Some(x) && command_view(x) == c,
            None => r is None,
        },
{
    let v = str_chars(line);
    if v.len() == 0 {
        return Some(ReplCommand::Vazio);
    }
    let mut rest = String::new();
    let start: usize = if v[0] == '.' {
        1
    } else {
        0
    };
    let mut k = start;
    while k < v.len()
        invariant
            v@ == line@,
            start <= k <= v@.len(),
            rest@ == line@.subrange(start as int, k as int),
        decreases v@.len() - k,
    {
        push_char(&mut rest, v[k]);
        k = k + 1;
        assert(line@.subrange(start as int, k as int) =~= line@.subrange(start as int, k - 1).push(
            line@[k - 1],
        ));
    }
    assert(rest@ =~= undotted(line@));
    let ws = first_two_words(rest.as_str());
    if ws.len() == 0 {
        return None;
    }
    let key = normalize_topic(ws[0].as_str());
    let k = key.as_str();
    if text_is(k, "sair") || text_is(k, "exit") || text_is(k, "quit") {
        return Some(ReplCommand::Sair);
    }
    if text_is(k, "ajuda") || text_is(k, "help") {
        let topic = if ws.len() > 1 {
            Some(ws[1].clone())
        } else {
            None
        };
        return Some(ReplCommand::Ajuda(topic));
    }
    None
}


// ── lines typed at the prompt ───────────────────────────────────────────

/// What the prompt does with a line.
#[derive(Debug, PartialEq, Eq)]
pub enum ReplStep {
    /// Leave the prompt.
    Sair,
    /// Show the help (on `topic`, when one is given); `entry` is what the
    /// history keeps of the line.
    Ajuda { topic: Option<String>, entry: String },
    /// Wait for the next line: the line was empty, or the code gathered so
    /// far is not finished.
    Esperar,
    /// Run the code gathered so far.
    Rodar(String),
}

/// Mathematical view of a [`ReplStep`].
pub enum ReplStepV {
    Sair,
    Ajuda(Option<Seq<char>>, Seq<char>),
    Esperar,
    Rodar(Seq<char>),
}

pub open spec fn step_view(s: ReplStep) -> ReplStepV {
    match s {
        ReplStep::Sair => ReplStepV::Sair,
        ReplStep::Ajuda { topic, entry } => ReplStepV::Ajuda(
            match topic {
                Some(t) => Some(t@),
                None => None,
            },
            entry@,
        ),
        ReplStep::Esperar => ReplStepV::Esperar,
        ReplStep::Rodar(src) => ReplStepV::Rodar(src@),
    }
}

/// The step the prompt takes on `line`, with `buf` gathered before it, and
/// what stays gathered after it. A command counts only on a fresh snippet;
/// code is gathered line by line until it is finished (code of `u32::MAX`
/// characters or more is taken as finished).
pub open spec fn repl_step(buf: Seq<char>, line: Seq<char>) -> (ReplStepV, Seq<char>) {
    let t = trimmed(line);
    let cmd = if buf.len() == 0 {
        repl_command_of(t)
    } else {
        None
    };
    match cmd {
        Some(ReplCommandV::Sair) => (ReplStepV::Sair, buf),
        Some(ReplCommandV::Ajuda(topic)) => (ReplStepV::Ajuda(topic, t), buf),
        Some(ReplCommandV::Vazio) => (ReplStepV::Esperar, buf),
        None => {
            let b = buf + line + seq!['\n'];
            if b.len() < u32::MAX && needs_more(b) {
                (ReplStepV::Esperar, b)
            } else {
                (ReplStepV::Rodar(b), Seq::empty())
            }
        },
    }
}

/// Takes a line typed at the prompt, with `buf` holding the code gathered
/// so far: a command on a fresh snippet is answered; code is added to `buf`
/// and handed out to run once it is finished, leaving `buf` empty.
#[verifier::spinoff_prover]
#[verifier::rlimit(30)]
pub fn repl_input(buf: &mut String, line: &str) -> (r: ReplStep)
    ensures
        (step_view(r), final(buf)@) == repl_step(old(buf)@, line@),
{
    let t = trim(line);
    if str_chars(buf.as_str()).len() == 0 {
        match parse_repl_command(t.as_str()) {
            Some(ReplCommand::Sair) => {
                return ReplStep::Sair;
            },
            Some(ReplCommand::Ajuda(topic)) => {
                return ReplStep::Ajuda { topic, entry: t };
            },
            Some(ReplCommand::Vazio) => {
                return ReplStep::Esperar;
            },
            None => {},
        }
    }
    let ghost before = buf@;
    assert(old(buf)@.len() == 0 ==> repl_command_of(trimmed(line@)) is None);
    push_str(buf, line);
    push_char(buf, '\n');
    let ghost b = buf@;
    assert(b =~= before + line@ + seq!['\n']);
    let n = str_chars(buf.as_str()).len();
    if n < 0xFFFF_FFFFusize && needs_more_input(buf.as_str()) {
        assert(b.len() < u32::MAX && needs_more(b));
        return ReplStep::Esperar;
    }
    assert(!(b.len() < u32::MAX && needs_more(b)));
    let mut source = String::new();
    std::mem::swap(&mut source, buf);
    ReplStep::Rodar(source)
}


// ── the help ────────────────────────────────────────────────────────────

/// The prompt's general help.
pub const HELP_GERAL: &'static str = "  2 + 2                 avalia e mostra o resultado\n  \
     x = 10                 guarda o valor (não imprime)\n  \
     x                      mostra 10\n\n  \
     ajuda                  esta mensagem\n  \
     ajuda funcoes          lista as funções nativas\n  \
     ajuda linguagem        se, para, funcao, se_falhar…\n  \
     ajuda escreva          detalhe de uma função\n  \
     formato(\"pt\") / en     padrão de números em texto\n  \
     sair                   encerra o REPL (também Ctrl+D)\n  \
     sair() / sair(1)       nativa: encerra o processo\n  \
     ↑ ↓                    comandos anteriores";

/// The help on the language's forms.
pub const HELP_LINGUAGEM: &'static str = "  se cond inicio … fim  [ou se …]  [senao …]\n  \
     se cond { … } senao { … }   '{' e '}' valem como inicio/fim\n  \
     para i de 1 ate 10 { … }\n  \
     para x em lista { … }\n  \
     enquanto cond { … }\n  \
     repita n vezes { … }\n  \
     argumentos[1]           primeiro argumento após o .lep\n  \
     funcao(a, b) { … }            último valor é o resultado\n  \
     expr se_falhar outro            captura erro (divisão, arquivo, índice)\n  \
     mapa { \"k\" -> v }           vazio: mapa {}\n  \
     matriz { [1, 2], [3, 4] }     A[1, 2]  A+B  k*A  A*B\n  \
     lista[1]  texto[1..3]           índices começam em 1\n  \
     pessoa:nome                     chave de mapa (pessoa[\"nome\"])\n  \
     mat::soma(1, 2)                 nome em um módulo\n  \
     xs.tamanho()                    igual a tamanho(xs)\n  \
     e  ou  nao  contem\n  \
     #!/usr/bin/env expressa primeira linha (arquivo executável)";

/// The help on `argumentos`.
pub const HELP_ARGUMENTOS: &'static str = "  argumentos              lista dos valores após o .lep\n  \
     argumentos[1]           primeiro (índices começam em 1)\n  \
     exemplo: expressa grep.lep Thiago";

/// `s` followed by spaces up to `w` characters.
pub open spec fn left_aligned(s: Seq<char>, w: nat) -> Seq<char> {
    if s.len() < w {
        s + Seq::new((w - s.len()) as nat, |_i: int| ' ')
    } else {
        s
    }
}

/// One line per reference page in `pages`: its signature in a column of
/// 22 characters, then its summary.
pub open spec fn function_lines(pages: Seq<(Seq<char>, Seq<char>, Seq<char>, Seq<char>)>) -> Seq<
    char,
>
    decreases pages.len(),
{
    if pages.len() == 0 {
        Seq::empty()
    } else {
        function_lines(pages.drop_last()) + "  "@ + left_aligned(pages.last().1, 22) + " "@
            + pages.last().2 + "\n"@
    }
}

/// The list of native functions.
pub open spec fn functions_help() -> Seq<char> {
    "Funções nativas:\n\n"@ + function_lines(doc_pages())
        + "\n  ajuda <nome>          detalhe, ex.: ajuda raiz\n"@
}

/// What `ajuda` shows for `topic` (none: the general help).
pub open spec fn help_text(topic: Option<Seq<char>>) -> Seq<char> {
    match topic {
        None => HELP_GERAL@ + "\n"@,
        Some(t) => {
            let key = topic_key(t);
            if key == "funcoes"@ || key == "funcao"@ || key == "nativas"@ || key == "builtins"@ {
                functions_help()
            } else if key == "linguagem"@ || key == "sintaxe"@ {
                HELP_LINGUAGEM@ + "\n"@
            } else if key == "argumentos"@ {
                HELP_ARGUMENTOS@ + "\n"@
            } else {
                match page_named(doc_key(key)) {
                    Some(p) => "  "@ + p.1 + "\n  "@ + p.2 + "\n  exemplo: "@ + p.3 + "\n"@,
                    None => "Não conheço o tópico `"@ + t
                        + "`.\n  Tente: ajuda, ajuda funcoes, ajuda linguagem, ajuda escreva\n"@,
                }
            }
        },
    }
}

fn functions_text() -> (r: String)
    ensures
        r@ == functions_help(),
{
    let docs = builtin_docs();
    let mut r = "Funções nativas:\n\n".to_owned();
    let ghost head = r@;
    let mut k: usize = 0;
    while k < docs.len()
        invariant
            docs@.len() == doc_pages().len(),
            forall|j: int| 0 <= j < docs@.len() ==> #[trigger] page_view(docs@[j]) == doc_pages()[j],
            0 <= k <= docs@.len(),
            r@ == head + function_lines(doc_pages().take(k as int)),
        decreases docs@.len() - k,
    {
        let d = &docs[k];
        assert(page_view(docs@[k as int]) == doc_pages()[k as int]);
        let ghost before = r@;
        push_str(&mut r, "  ");
        push_str(&mut r, d.sig.as_str());
        let n = str_chars(d.sig.as_str()).len();
        let ghost padded_from = r@;
        if n < 22 {
            let mut j: usize = 0;
            while j < 22 - n
                invariant
                    n < 22,
                    0 <= j <= 22 - n,
                    r@ == padded_from + Seq::new(j as nat, |_i: int| ' '),
                decreases 22 - n - j,
            {
                push_char(&mut r, ' ');
                j = j + 1;
                assert(r@ =~= padded_from + Seq::new(j as nat, |_i: int| ' '));
            }
        }
        push_str(&mut r, " ");
        push_str(&mut r, d.summary.as_str());
        push_str(&mut r, "\n");
        proof {
            let ps = doc_pages().take(k + 1);
            assert(ps.drop_last() =~= doc_pages().take(k as int));
            assert(ps.last() == doc_pages()[k as int]);
            if n < 22 {
                assert(left_aligned(d.sig@, 22) =~= d.sig@ + Seq::new((22 - n) as nat, |_i: int| ' '));
            }
            assert(r@ =~= head + function_lines(ps));
        }
        k = k + 1;
    }
    assert(doc_pages().take(docs@.len() as int) =~= doc_pages());
    push_str(&mut r, "\n  ajuda <nome>          detalhe, ex.: ajuda raiz\n");
    r
}

/// What `ajuda` shows for `topic` (none: the general help): the list of
/// native functions, the language's forms, `argumentos`, or the page of one
/// function; a hint when the topic is unknown.
pub fn help_text_for(topic: Option<&str>) -> (r: String)
    ensures
        r@ == help_text(topic.deep_view()),
{
    match topic {
        None => {
            let mut r = HELP_GERAL.to_owned();
            push_str(&mut r, "\n");
            r
        },
        Some(t) => {
            let key = normalize_topic(t);
            let k = key.as_str();
            if text_is(k, "funcoes") || text_is(k, "funcao") || text_is(k, "nativas") || text_is(
                k,
                "builtins",
            ) {
                functions_text()
            } else if text_is(k, "linguagem") || text_is(k, "sintaxe") {
                let mut r = HELP_LINGUAGEM.to_owned();
                push_str(&mut r, "\n");
                r
            } else if text_is(k, "argumentos") {
                let mut r = HELP_ARGUMENTOS.to_owned();
                push_str(&mut r, "\n");
                r
            } else {
                match lookup_builtin_doc(k) {
                    Some(d) => {
                        let mut r = "  ".to_owned();
                        push_str(&mut r, d.sig.as_str());
                        push_str(&mut r, "\n  ");
                        push_str(&mut r, d.summary.as_str());
                        push_str(&mut r, "\n  exemplo: ");
                        push_str(&mut r, d.example.as_str());
                        push_str(&mut r, "\n");
                        r
                    },
                    None => {
                        let mut r = "Não conheço o tópico `".to_owned();
                        push_str(&mut r, t);
                        push_str(
                            &mut r,
                            "`.\n  Tente: ajuda, ajuda funcoes, ajuda linguagem, ajuda escreva\n",
                        );
                        r
                    },
                }
            }
        },
    }
}


// ── leaving the prompt ──────────────────────────────────────────────────

/// `w` is the lower-case word `k` written in lower or upper case, letter by
/// letter.
pub open spec fn any_case_of(w: Seq<char>, k: Seq<char>) -> bool {
    &&& w.len() == k.len()
    &&& forall|i: int|
        0 <= i < w.len() ==> #[trigger] w[i] == k[i] || (w[i] as u32) + 32 == (k[i] as u32)
}

/// A word that leaves the prompt.
pub open spec fn leave_word(k: Seq<char>) -> bool {
    k == "sair"@ || k == "exit"@ || k == "quit"@
}

/// `.` when `dot`, else nothing.
pub open spec fn dot_text(dot: bool) -> Seq<char> {
    if dot {
        seq!['.']
    } else {
        Seq::empty()
    }
}

proof fn lemma_leave_letters(w: Seq<char>, k: Seq<char>)
    requires
        leave_word(k),
        any_case_of(w, k),
    ensures
        forall|i: int| 0 <= i < w.len() ==> !is_white_space(#[trigger] w[i]) && w[i] != '.',
        w.map_values(|c: char| topic_char(c)) == k,
{
    reveal_strlit("sair");
    reveal_strlit("exit");
    reveal_strlit("quit");
    assert forall|i: int| 0 <= i < w.len() implies !is_white_space(#[trigger] w[i]) && w[i] != '.'
        && topic_char(w[i]) == k[i] by {
        assert(0x61 <= (k[i] as u32) <= 0x7A);
    }
    assert(w.map_values(|c: char| topic_char(c)) =~= k);
}

/// `sair`, `exit` and `quit` leave the prompt, in any case, after an
/// optional `.`, and with anything after a blank following them.
pub proof fn law_leave_commands(dot: bool, w: Seq<char>, k: Seq<char>, rest: Seq<char>)
    requires
        leave_word(k),
        any_case_of(w, k),
        rest.len() == 0 || is_white_space(rest[0]),
    ensures
        repl_command_of(dot_text(dot) + w + rest) == Some(ReplCommandV::Sair),
{
    reveal_strlit("sair");
    reveal_strlit("exit");
    reveal_strlit("quit");
    lemma_leave_letters(w, k);
    let line = dot_text(dot) + w + rest;
    let s = w + rest;
    assert(undotted(line) =~= s) by {
        if !dot {
            assert(line =~= s);
            assert(s[0] == w[0]);
        } else {
            assert(line.drop_first() =~= s);
        }
    }
    assert(s[0] == w[0]);
    assert(skip_white(s, 0) == 0);
    assert(word_end(s, 4) == 4) by {
        if s.len() > 4 {
            assert(s[4] == rest[0]);
        }
    }
    assert(s[3] == w[3] && s[2] == w[2] && s[1] == w[1]);
    assert(word_end(s, 3) == 4);
    assert(word_end(s, 2) == 4);
    assert(word_end(s, 1) == 4);
    assert(s.subrange(0, 4) =~= w);
    assert(words(s)[0] == w);
    assert(trim_lo(w, 0) == 0);
    assert(trim_hi(w, 4) == 4);
    assert(trimmed(w) =~= w);
    assert(topic_key(w) == k);
}

/// On a fresh snippet, a line that reads (once trimmed) as a leaving word,
/// in any case, after an optional `.`, leaves the prompt, and the gathered
/// code stays empty.
pub proof fn law_leave_step(line: Seq<char>, dot: bool, w: Seq<char>, k: Seq<char>, rest: Seq<char>)
    requires
        leave_word(k),
        any_case_of(w, k),
        rest.len() == 0 || is_white_space(rest[0]),
        trimmed(line) == dot_text(dot) + w + rest,
    ensures
        repl_step(Seq::empty(), line) == (ReplStepV::Sair, Seq::<char>::empty()),
{
    law_leave_commands(dot, w, k, rest);
}

/// A word that asks for help.
pub open spec fn help_word(k: Seq<char>) -> bool {
    k == "ajuda"@ || k == "help"@
}

proof fn lemma_help_letters(w: Seq<char>, k: Seq<char>)
    requires
        help_word(k),
        any_case_of(w, k),
    ensures
        w.len() > 0,
        forall|i: int| 0 <= i < w.len() ==> !is_white_space(#[trigger] w[i]) && w[i] != '.',
        w.map_values(|c: char| topic_char(c)) == k,
{
    reveal_strlit("ajuda");
    reveal_strlit("help");
    assert forall|i: int| 0 <= i < w.len() implies !is_white_space(#[trigger] w[i]) && w[i] != '.'
        && topic_char(w[i]) == k[i] by {
        assert(0x61 <= (k[i] as u32) <= 0x7A);
    }
    assert(w.map_values(|c: char| topic_char(c)) =~= k);
}

proof fn lemma_word_end_at(s: Seq<char>, i: int, n: int)
    requires
        0 <= i <= n <= s.len(),
        forall|j: int| i <= j < n ==> !is_white_space(#[trigger] s[j]),
        n == s.len() || is_white_space(s[n]),
    ensures
        word_end(s, i) == n,
    decreases n - i,
{
    if i < n {
        lemma_word_end_at(s, i + 1, n);
    }
}

proof fn lemma_skip_white_shift(pre: Seq<char>, rest: Seq<char>, i: int)
    requires
        0 <= i <= rest.len(),
    ensures
        skip_white(pre + rest, pre.len() + i) == pre.len() + skip_white(rest, i),
    decreases rest.len() - i,
{
    let s = pre + rest;
    if i < rest.len() {
        assert(s[pre.len() + i] == rest[i]);
        lemma_skip_white_shift(pre, rest, i + 1);
    }
}

proof fn lemma_word_end_shift(pre: Seq<char>, rest: Seq<char>, i: int)
    requires
        0 <= i <= rest.len(),
    ensures
        word_end(pre + rest, pre.len() + i) == pre.len() + word_end(rest, i),
    decreases rest.len() - i,
{
    let s = pre + rest;
    if i < rest.len() {
        assert(s[pre.len() + i] == rest[i]);
        lemma_word_end_shift(pre, rest, i + 1);
    }
}

proof fn lemma_words_shift(pre: Seq<char>, rest: Seq<char>, i: int)
    requires
        0 <= i <= rest.len(),
    ensures
        words_from(pre + rest, pre.len() + i) == words_from(rest, i),
    decreases rest.len() - i,
{
    let s = pre + rest;
    let n = pre.len() as int;
    lemma_skip_white_shift(pre, rest, i);
    crate::text::lemma_skip_white(rest, i);
    let a = skip_white(rest, i);
    if a < rest.len() {
        lemma_word_end_shift(pre, rest, a + 1);
        crate::text::lemma_word_end(rest, a + 1);
        let b = word_end(rest, a + 1);
        assert(s.subrange(n + a, n + b) =~= rest.subrange(a, b));
        lemma_words_shift(pre, rest, b);
    }
}

/// `ajuda` and `help`, in any case, after an optional `.`, ask for help, on
/// the word that follows them when there is one.
pub proof fn law_help_commands(dot: bool, w: Seq<char>, k: Seq<char>, rest: Seq<char>)
    requires
        help_word(k),
        any_case_of(w, k),
        rest.len() == 0 || is_white_space(rest[0]),
    ensures
        repl_command_of(dot_text(dot) + w + rest) == Some(
            ReplCommandV::Ajuda(
                if words(rest).len() > 0 {
                    Some(words(rest)[0])
                } else {
                    None
                },
            ),
        ),
{
    reveal_strlit("ajuda");
    reveal_strlit("help");
    reveal_strlit("sair");
    reveal_strlit("exit");
    reveal_strlit("quit");
    lemma_help_letters(w, k);
    let line = dot_text(dot) + w + rest;
    let s = w + rest;
    let n = w.len() as int;
    assert(undotted(line) =~= s) by {
        if !dot {
            assert(line =~= s);
            assert(s[0] == w[0]);
        } else {
            assert(line.drop_first() =~= s);
        }
    }
    assert(s[0] == w[0]);
    assert(skip_white(s, 0) == 0);
    assert forall|j: int| 1 <= j < n implies !is_white_space(#[trigger] s[j]) by {
        assert(s[j] == w[j]);
    }
    if s.len() > n {
        assert(s[n] == rest[0]);
    }
    lemma_word_end_at(s, 1, n);
    assert(s.subrange(0, n) =~= w);
    lemma_words_shift(w, rest, 0);
    assert(words(s) == seq![w] + words(rest));
    assert(words(s)[0] == w);
    lemma_trim_word(w);
    assert(topic_key(w) == k);
    if words(rest).len() > 0 {
        assert(words(s)[1] == words(rest)[0]);
    }
}

proof fn lemma_trim_word(w: Seq<char>)
    requires
        w.len() > 0,
        forall|i: int| 0 <= i < w.len() ==> !is_white_space(#[trigger] w[i]),
    ensures
        trimmed(w) == w,
{
    assert(trim_lo(w, 0) == 0);
    assert(trim_hi(w, w.len() as int) == w.len());
    assert(w.subrange(0, w.len() as int) =~= w);
}

/// A line that starts with a character that no command word starts with
/// (in any case or with any accent) is code, not a command.
pub proof fn law_other_lines_are_code(line: Seq<char>)
    requires
        line.len() > 0,
        !is_white_space(line[0]),
        line[0] != '.',
        topic_char(line[0]) != 's' && topic_char(line[0]) != 'e' && topic_char(line[0]) != 'q'
            && topic_char(line[0]) != 'a' && topic_char(line[0]) != 'h',
    ensures
        repl_command_of(line) is None,
{
    reveal_strlit("ajuda");
    reveal_strlit("help");
    reveal_strlit("sair");
    reveal_strlit("exit");
    reveal_strlit("quit");
    assert(undotted(line) == line);
    assert(skip_white(line, 0) == 0);
    crate::text::lemma_word_end(line, 1);
    let b = word_end(line, 1);
    let w = line.subrange(0, b);
    assert(words(line)[0] == w);
    assert(w[0] == line[0]);
    crate::paths::lemma_trim_lo(w, 0);
    assert(trim_lo(w, 0) == 0);
    crate::paths::lemma_trim_hi(w, w.len() as int);
    let t = trimmed(w);
    assert(t.len() > 0 && t[0] == w[0]);
    assert(topic_key(w)[0] == topic_char(line[0]));
}

} // verus!
