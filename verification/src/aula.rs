//! What the classroom editor decides from text: the prompts of a program's
//! `leia(...)` calls, and the project and file names typed into its fields.
use vstd::prelude::*;

use crate::lexer::classes::{alphabetic, char_is_alphabetic, char_is_numeric, numeric, white_space};
use crate::text::{chars_string, push_char, skip_white, str_chars};

verus! {

// ── string literals ─────────────────────────────────────────────────────

/// The character that `\x` stands for inside a string literal.
pub open spec fn unescaped(c: char) -> char {
    if c == 'n' {
        '\n'
    } else if c == 't' {
        '\t'
    } else {
        c
    }
}

/// The text of a string literal whose body goes on at `k`, with `acc` read
/// so far; `None` when no closing quote comes.
pub open spec fn literal_from(s: Seq<char>, k: int, acc: Seq<char>) -> Option<Seq<char>>
    decreases s.len() - k,
{
    if k < 0 || k >= s.len() {
        None
    } else if s[k] == '"' {
        Some(acc)
    } else if s[k] == '\\' {
        if k + 1 >= s.len() {
            None
        } else {
            literal_from(s, k + 2, acc.push(unescaped(s[k + 1])))
        }
    } else {
        literal_from(s, k + 1, acc.push(s[k]))
    }
}

/// The text of the string literal that `s` starts with (after white space).
pub open spec fn string_literal(s: Seq<char>) -> Option<Seq<char>> {
    let a = skip_white(s, 0);
    if a < s.len() && s[a] == '"' {
        literal_from(s, a + 1, Seq::empty())
    } else {
        None
    }
}

/// The text of the string literal that `s` starts with, white space
/// before it skipped; `None` when `s` does not start with one or it never
/// closes. `\n`, `\t`, `\"` and `\\` stand for what they escape; any other
/// escaped character stands for itself.
pub fn parse_string_literal(s: &str) -> (r: Option<String>)
    ensures
        r.deep_view() == string_literal(s@),
{
    let v = str_chars(s);
    let n = v.len();
    let mut a: usize = 0;
    while a < n && white_space(v[a])
        invariant
            v@ == s@,
            n == v@.len(),
            0 <= a <= n,
            skip_white(s@, 0) == skip_white(s@, a as int),
        decreases n - a,
    {
        a = a + 1;
    }
    if a >= n || v[a] != '"' {
        return None;
    }
    let mut out = String::new();
    let mut k: usize = a + 1;
    while k < n
        invariant
            v@ == s@,
            n == v@.len(),
            a + 1 <= k <= n,
            string_literal(s@) == literal_from(s@, k as int, out@),
        decreases n - k,
    {
        let c = v[k];
        if c == '"' {
            return Some(out);
        }
        if c == '\\' {
            if k + 1 >= n {
                return None;
            }
            let e = v[k + 1];
            let u = if e == 'n' {
                '\n'
            } else if e == 't' {
                '\t'
            } else {
                e
            };
            push_char(&mut out, u);
            k = k + 2;
        } else {
            push_char(&mut out, c);
            k = k + 1;
        }
    }
    None
}

// ── leia(...) prompts ───────────────────────────────────────────────────

/// `leia` is spelled out at `k`.
pub open spec fn leia_at(s: Seq<char>, k: int) -> bool {
    &&& 0 <= k
    &&& k + 4 <= s.len()
    &&& s[k] == 'l'
    &&& s[k + 1] == 'e'
    &&& s[k + 2] == 'i'
    &&& s[k + 3] == 'a'
}

/// A character that can go on a name: alphanumeric, or `_`.
pub open spec fn continues_name(c: char) -> bool {
    alphabetic(c) || numeric(c) || c == '_'
}

/// What the `leia` at `k` adds, the search having resumed at `start`:
/// nothing when a name character stands right before it (after `start`) or
/// no `(` follows it; else the string literal after the `(`, if there is one.
pub open spec fn call_prompt(s: Seq<char>, start: int, k: int) -> Seq<Option<Seq<char>>> {
    let named = k > start && continues_name(s[k - 1]);
    let a = skip_white(s, k + 4);
    if !named && a < s.len() && s[a] == '(' {
        seq![string_literal(s.skip(a + 1))]
    } else {
        Seq::empty()
    }
}

/// The prompts of the `leia(` calls from `k` on, the search having resumed
/// at `start` (right after the previous `leia`).
pub open spec fn prompts_from(s: Seq<char>, start: int, k: int) -> Seq<Option<Seq<char>>>
    decreases s.len() - k,
{
    if k < 0 || k + 4 > s.len() {
        Seq::empty()
    } else if leia_at(s, k) {
        call_prompt(s, start, k) + prompts_from(s, k + 4, k + 4)
    } else {
        prompts_from(s, start, k + 1)
    }
}

/// The prompt of each `leia(...)` call of `s`, in order.
pub open spec fn leia_prompt_list(s: Seq<char>) -> Seq<Option<Seq<char>>> {
    prompts_from(s, 0, 0)
}

fn name_char(c: char) -> (b: bool)
    ensures
        b == continues_name(c),
{
    char_is_alphabetic(c) || char_is_numeric(c) || c == '_'
}

/// Prompt string of each `leia(...)` call, in order: `None` where the call
/// has no string literal (`leia()` or `leia(nome)`). `leia` inside a longer
/// name (`aleia`, `leia_arquivo`) is no call.
pub fn leia_prompts(src: &str) -> (r: Vec<Option<String>>)
    ensures
        r.deep_view() == leia_prompt_list(src@),
{
    let v = str_chars(src);
    let n = v.len();
    let mut out: Vec<Option<String>> = Vec::new();
    let mut start: usize = 0;
    let mut k: usize = 0;
    while k < n && n - k >= 4
        invariant
            v@ == src@,
            n == v@.len(),
            start <= k,
            k <= n,
            leia_prompt_list(src@) == out.deep_view() + prompts_from(src@, start as int, k as int),
        decreases n - k,
    {
        let ghost before = out.deep_view();
        if v[k] == 'l' && v[k + 1] == 'e' && v[k + 2] == 'i' && v[k + 3] == 'a' {
            let named = k > start && name_char(v[k - 1]);
            let mut a: usize = k + 4;
            while a < n && white_space(v[a])
                invariant
                    v@ == src@,
                    n == v@.len(),
                    k + 4 <= a <= n,
                    skip_white(src@, k + 4) == skip_white(src@, a as int),
                decreases n - a,
            {
                a = a + 1;
            }
            if !named && a < n && v[a] == '(' {
                let inside = chars_string(&v, a + 1, n);
                let p = parse_string_literal(inside.as_str());
                proof {
                    assert(src@.skip(a + 1) =~= src@.subrange(a + 1, n as int));
                }
                out.push(p);
                assert(out.deep_view() =~= before + call_prompt(src@, start as int, k as int));
            } else {
                assert(out.deep_view() =~= before + call_prompt(src@, start as int, k as int));
            }
            assert(before + call_prompt(src@, start as int, k as int) + prompts_from(
                src@,
                k + 4,
                k + 4,
            ) =~= before + (call_prompt(src@, start as int, k as int) + prompts_from(
                src@,
                k + 4,
                k + 4,
            )));
            k = k + 4;
            start = k;
        } else {
            k = k + 1;
        }
    }
    assert(out.deep_view() + Seq::<Option<Seq<char>>>::empty() =~= out.deep_view());
    out
}

/// How many `leia(...)` calls `src` makes.
pub fn leia_call_count(src: &str) -> (n: usize)
    ensures
        n == leia_prompt_list(src@).len(),
{
    leia_prompts(src).len()
}

// ── names typed into the editor ─────────────────────────────────────────

/// The project named in the student field: `local` when it is left empty.
pub open spec fn project_named(entry: Seq<char>) -> Seq<char> {
    if entry.len() == 0 {
        "local"@
    } else {
        entry
    }
}

/// The project named in the student field: `local` when it is left empty.
pub fn student(entry: &str) -> (r: String)
    ensures
        r@ == project_named(entry@),
{
    let v = str_chars(entry);
    if v.len() == 0 {
        "local".to_owned()
    } else {
        entry.to_owned()
    }
}

/// `s` ends in `.lep`.
pub open spec fn ends_in_lep(s: Seq<char>) -> bool {
    &&& s.len() >= 4
    &&& s[s.len() - 4] == '.'
    &&& s[s.len() - 3] == 'l'
    &&& s[s.len() - 2] == 'e'
    &&& s[s.len() - 1] == 'p'
}

/// The file named in the file field: `sem-titulo.lep` when it is left
/// empty, and `.lep` added when it does not end so.
pub open spec fn file_named(entry: Seq<char>) -> Seq<char> {
    if entry.len() == 0 {
        "sem-titulo.lep"@
    } else if ends_in_lep(entry) {
        entry
    } else {
        entry + ".lep"@
    }
}

/// The file named in the file field: `sem-titulo.lep` when it is left
/// empty, and `.lep` added when it does not end so.
pub fn filename(entry: &str) -> (r: String)
    ensures
        r@ == file_named(entry@),
{
    let v = str_chars(entry);
    let n = v.len();
    if n == 0 {
        "sem-titulo.lep".to_owned()
    } else if n >= 4 && v[n - 4] == '.' && v[n - 3] == 'l' && v[n - 2] == 'e' && v[n - 1] == 'p' {
        entry.to_owned()
    } else {
        let mut r = entry.to_owned();
        push_char(&mut r, '.');
        push_char(&mut r, 'l');
        push_char(&mut r, 'e');
        push_char(&mut r, 'p');
        proof {
            reveal_strlit(".lep");
            assert(r@ =~= entry@ + ".lep"@);
        }
        r
    }
}

} // verus!
