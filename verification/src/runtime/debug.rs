//! The step debugger's decisions: when to pause, and what a typed command
//! does. Reading the terminal, printing variables and the call stack are the
//! caller's part.
use vstd::prelude::*;

use crate::lexer::span::{location_text, Span};
use crate::paths::{trim_end, trimmed_end};
use crate::runtime::env::FrameKind;
use crate::runtime::error::{located, CallFrame};
use crate::runtime::value::right_aligned;
use crate::text::{
    decimal, first_two_words, lemma_text_before_irreflexive, lemma_text_before_total,
    lemma_text_before_transitive, parse_u32, parsed_u32, push_char, push_str, str_chars, text_before,
    text_before_exec, text_is, u32_decimal, usize_decimal, words,
};

verus! {

#[derive(Debug, Clone, Copy, PartialEq, Eq, Structural)]
pub enum DebugAction {
    Continue,
    Quit,
    /// Stop the program as a runtime error (used for time limits).
    Timeout,
}

/// A hook that never stops the program.
pub struct NoopHook;

impl NoopHook {
    /// Called before each statement: always lets it run.
    pub fn before_stmt(&mut self) -> (a: DebugAction)
        ensures
            a == DebugAction::Continue,
    {
        DebugAction::Continue
    }
}

/// `inner` lies inside `outer` and is not all of it.
pub open spec fn inside(outer: Span, inner: Span) -> bool {
    inner.start >= outer.start && inner.end <= outer.end && (inner.start != outer.start || inner.end
        != outer.end)
}

pub fn strictly_inside(outer: Span, inner: Span) -> (b: bool)
    ensures
        b == inside(outer, inner),
{
    inner.start >= outer.start && inner.end <= outer.end && (inner.start != outer.start || inner.end
        != outer.end)
}

// ── breakpoints ─────────────────────────────────────────────────────────

/// Index of the last `:` of `s`, if any.
pub open spec fn last_colon(s: Seq<char>) -> Option<int>
    decreases s.len(),
{
    if s.len() == 0 {
        None
    } else if s.last() == ':' {
        Some(s.len() - 1)
    } else {
        last_colon(s.drop_last())
    }
}

/// A character that makes the text before the `:` read as a file name.
pub open spec fn path_char(c: char) -> bool {
    ||| 0x41 <= (c as u32) <= 0x5A
    ||| 0x61 <= (c as u32) <= 0x7A
    ||| c == '/'
    ||| c == '\\'
    ||| c == '.'
}

pub open spec fn looks_like_path(f: Seq<char>) -> bool {
    exists|i: int| 0 <= i < f.len() && path_char(#[trigger] f[i])
}

/// What `ponto [arquivo:]linha` names: a file (the current one when none is
/// given) and a line.
pub open spec fn breakpoint_of(spec: Seq<char>, current: Seq<char>) -> Option<(Seq<char>, u32)> {
    match last_colon(spec) {
        Some(k) if looks_like_path(spec.subrange(0, k)) => match parsed_u32(
            spec.subrange(k + 1, spec.len() as int),
        ) {
            Some(n) => Some((spec.subrange(0, k), n)),
            None => None,
        },
        _ => match parsed_u32(spec) {
            Some(n) => Some((current, n)),
            None => None,
        },
    }
}

proof fn lemma_last_colon(s: Seq<char>)
    ensures
        last_colon(s) matches Some(k) ==> 0 <= k < s.len() && s[k] == ':' && forall|i: int|
            k < i < s.len() ==> s[i] != ':',
        last_colon(s) is None ==> forall|i: int| 0 <= i < s.len() ==> s[i] != ':',
    decreases s.len(),
{
    if s.len() > 0 && s.last() != ':' {
        lemma_last_colon(s.drop_last());
        assert forall|i: int| 0 <= i < s.len() - 1 implies s.drop_last()[i] == s[i] by {}
    }
}

fn string_of(v: &Vec<char>, lo: usize, hi: usize) -> (s: String)
    requires
        lo <= hi <= v@.len(),
    ensures
        s@ == v@.subrange(lo as int, hi as int),
{
    let mut s = String::new();
    let mut k = lo;
    while k < hi
        invariant
            lo <= k <= hi <= v@.len(),
            s@ == v@.subrange(lo as int, k as int),
        decreases hi - k,
    {
        push_char(&mut s, v[k]);
        k = k + 1;
        assert(v@.subrange(lo as int, k as int) =~= v@.subrange(lo as int, k - 1).push(v@[k - 1]));
    }
    s
}

/// Reads `[arquivo:]linha`; without a file name the line is in `current_file`.
pub fn parse_breakpoint(spec: &str, current_file: &str) -> (r: Option<(String, u32)>)
    ensures
        match breakpoint_of(spec@, current_file@) {
            Some((f, n)) => r matches Some((g, m)) && g@ == f && m == n,
            None => r is None,
        },
{
    let v = str_chars(spec);
    let n = v.len();
    proof {
        lemma_last_colon(spec@);
    }
    let mut k = n;
    while k > 0 && v[k - 1] != ':'
        invariant
            v@ == spec@,
            n == v@.len(),
            0 <= k <= n,
            forall|i: int| k <= i < n ==> spec@[i] != ':',
        decreases k,
    {
        k = k - 1;
    }
    if k > 0 {
        let c = k - 1;
        proof {
            assert(last_colon(spec@) == Some(c as int)) by {
                lemma_last_colon(spec@);
                if last_colon(spec@) is None {
                    assert(spec@[c as int] != ':');
                } else {
                    let j = last_colon(spec@)->0;
                    assert(!(j > c) && !(j < c));
                }
            }
        }
        let file = string_of(&v, 0, c);
        let mut looks = false;
        let mut i: usize = 0;
        while i < c
            invariant
                v@ == spec@,
                c < n == v@.len(),
                file@ == spec@.subrange(0, c as int),
                0 <= i <= c,
                looks == (exists|j: int| 0 <= j < i && path_char(#[trigger] file@[j])),
            decreases c - i,
        {
            let ch = v[i];
            let u = ch as u32;
            let p = (0x41 <= u && u <= 0x5A) || (0x61 <= u && u <= 0x7A) || ch == '/' || ch == '\\'
                || ch == '.';
            assert(file@[i as int] == ch);
            if p {
                looks = true;
            }
            i = i + 1;
        }
        if looks {
            let rest = string_of(&v, k, n);
            return match parse_u32(rest.as_str()) {
                Some(line) => Some((file, line)),
                None => None,
            };
        }
    } else {
        assert(last_colon(spec@) is None) by {
            lemma_last_colon(spec@);
            if last_colon(spec@) is Some {
                let j = last_colon(spec@)->0;
                assert(spec@[j] == ':');
            }
        }
    }
    match parse_u32(spec) {
        Some(line) => Some((current_file.to_owned(), line)),
        None => None,
    }
}

// ── source lines ────────────────────────────────────────────────────────

/// Index of the first `\n` of `s` from `i` on, or its length.
pub open spec fn next_newline(s: Seq<char>, i: int) -> int
    decreases s.len() - i,
{
    if i < 0 || i >= s.len() {
        s.len() as int
    } else if s[i] == '\n' {
        i
    } else {
        next_newline(s, i + 1)
    }
}

pub proof fn lemma_next_newline(s: Seq<char>, i: int)
    requires
        0 <= i <= s.len(),
    ensures
        i <= next_newline(s, i) <= s.len(),
    decreases s.len() - i,
{
    if i < s.len() && s[i] != '\n' {
        lemma_next_newline(s, i + 1);
    }
}

/// `str::lines` of `s` from the `i`-th character on: split at `\n`, with a
/// `\r` before it dropped too.
pub open spec fn lines_from(s: Seq<char>, i: int) -> Seq<Seq<char>>
    decreases s.len() - i,
{
    if i < 0 || i >= s.len() {
        Seq::empty()
    } else {
        let j = next_newline(s, i);
        proof {
            lemma_next_newline(s, i);
        }
        let raw = s.subrange(i, j);
        let line = if j < s.len() && raw.len() > 0 && raw.last() == '\r' {
            raw.drop_last()
        } else {
            raw
        };
        if j < s.len() {
            seq![line] + lines_from(s, j + 1)
        } else {
            seq![line]
        }
    }
}

/// The `line`-th line (1-based; 0 reads as 1) of `source`, empty past the end.
pub open spec fn nth_line(source: Seq<char>, line: u32) -> Seq<char> {
    let idx = if line == 0 {
        0
    } else {
        line - 1
    };
    let ls = lines_from(source, 0);
    if idx < ls.len() {
        ls[idx]
    } else {
        Seq::empty()
    }
}

/// The text of line `line` (1-based) of `source`, empty when there is none.
pub fn source_line(source: &str, line: u32) -> (r: String)
    ensures
        r@ == nth_line(source@, line),
{
    let v = str_chars(source);
    let n = v.len();
    let idx: u32 = if line == 0 {
        0
    } else {
        line - 1
    };
    let mut count: u32 = 0;
    let mut i: usize = 0;
    let ghost mut pre: Seq<Seq<char>> = Seq::empty();
    while i < n
        invariant
            v@ == source@,
            n == v@.len(),
            0 <= i <= n,
            count <= idx,
            idx == (if line == 0 {
                0
            } else {
                line - 1
            }),
            pre.len() == count,
            lines_from(source@, 0) == pre + lines_from(source@, i as int),
        decreases n - i,
    {
        proof {
            lemma_next_newline(source@, i as int);
        }
        let mut j = i;
        while j < n && v[j] != '\n'
            invariant
                v@ == source@,
                n == v@.len(),
                i <= j <= n,
                next_newline(source@, i as int) == next_newline(source@, j as int),
            decreases n - j,
        {
            j = j + 1;
        }
        let end = if j < n && j > i && v[j - 1] == '\r' {
            j - 1
        } else {
            j
        };
        let ghost line_text = source@.subrange(i as int, end as int);
        proof {
            let raw = source@.subrange(i as int, j as int);
            if j < n && j > i && v@[j - 1] == '\r' {
                assert(raw.drop_last() =~= line_text);
            } else {
                assert(raw =~= line_text);
            }
            if j < n {
                assert(lines_from(source@, i as int) == seq![line_text] + lines_from(
                    source@,
                    j + 1,
                ));
            } else {
                assert(lines_from(source@, i as int) == seq![line_text]);
                assert(lines_from(source@, n as int) =~= Seq::<Seq<char>>::empty());
                assert(seq![line_text] =~= seq![line_text] + lines_from(source@, n as int));
            }
        }
        let ghost next: int = if j < n {
            j + 1
        } else {
            n as int
        };
        if count == idx {
            let r = string_of(&v, i, end);
            proof {
                let ls = lines_from(source@, 0);
                assert(ls == pre + lines_from(source@, i as int));
                assert(lines_from(source@, i as int)[0] == line_text);
                assert(ls[idx as int] == line_text);
                assert(idx < ls.len());
                assert(nth_line(source@, line) == ls[idx as int]);
            }
            return r;
        }
        proof {
            assert(pre + (seq![line_text] + lines_from(source@, next)) =~= pre.push(line_text)
                + lines_from(source@, next));
            pre = pre.push(line_text);
        }
        count = count + 1;
        i = if j < n {
            j + 1
        } else {
            n
        };
    }
    assert(lines_from(source@, i as int) =~= Seq::<Seq<char>>::empty());
    assert(pre + Seq::<Seq<char>>::empty() =~= pre);
    String::new()
}


// ── the debugger's state ────────────────────────────────────────────────

/// How the debugger goes on after a pause.
pub enum StepMode {
    /// Run until a breakpoint.
    Continue,
    /// Pause on the next statement.
    StepIn,
    /// Pause on the next statement outside `span` at this call depth.
    StepOver { depth: usize, file: String, span: Span },
    /// Pause when the call stack is at or below `depth`.
    StepOut { depth: usize },
}

/// Mathematical view of a [`StepMode`].
pub enum ModeV {
    Continue,
    StepIn,
    StepOver { depth: usize, file: Seq<char>, span: Span },
    StepOut { depth: usize },
}

pub open spec fn mode_view(m: StepMode) -> ModeV {
    match m {
        StepMode::Continue => ModeV::Continue,
        StepMode::StepIn => ModeV::StepIn,
        StepMode::StepOver { depth, file, span } => ModeV::StepOver { depth, file: file@, span },
        StepMode::StepOut { depth } => ModeV::StepOut { depth },
    }
}

/// What the caller shows after a command.
pub enum Reply {
    Nothing,
    /// The visible variables.
    Vars,
    /// The call stack.
    Stack,
    /// The list of commands.
    Help,
    /// The breakpoints, sorted.
    Breakpoints,
    /// A line of text.
    Text(String),
}

/// The debugger's state between pauses.
pub struct CliDebugger {
    breakpoints: Vec<(String, u32)>,
    mode: StepMode,
    last_line: String,
    pause_on_start: bool,
}

/// The breakpoints held in `v`, as a set of file and line.
pub open spec fn bp_set(v: Seq<(String, u32)>) -> Set<(Seq<char>, u32)> {
    Set::new(|p: (Seq<char>, u32)| exists|i: int| 0 <= i < v.len() && v[i].0@ == p.0 && v[i].1 == p.1)
}

/// Whether the debugger stops before a statement of `file` at `line`, with
/// `span`, when `depth` calls are in progress.
pub open spec fn pauses(
    bps: Set<(Seq<char>, u32)>,
    mode: ModeV,
    file: Seq<char>,
    line: u32,
    span: Span,
    depth: usize,
) -> bool {
    bps.contains((file, line)) || match mode {
        ModeV::Continue => false,
        ModeV::StepIn => true,
        ModeV::StepOver { depth: d, file: f, span: sp } => if depth < d {
            true
        } else if depth == d {
            file != f || !inside(sp, span)
        } else {
            false
        },
        ModeV::StepOut { depth: d } => depth <= d,
    }
}

/// The commands the debugger knows.
pub enum Cmd {
    Continue,
    Next,
    Step,
    Out,
    Vars,
    Stack,
    Break,
    Remove,
    Help,
    Quit,
    Empty,
    Unknown,
}

pub open spec fn command_of(w: Seq<char>) -> Cmd {
    if w == "continuar"@ || w == "c"@ || w == "continue"@ {
        Cmd::Continue
    } else if w == "proximo"@ || w == "próximo"@ || w == "n"@ || w == "next"@ {
        Cmd::Next
    } else if w == "entrar"@ || w == "s"@ || w == "step"@ {
        Cmd::Step
    } else if w == "sair"@ || w == "o"@ || w == "out"@ || w == "fin"@ {
        Cmd::Out
    } else if w == "vars"@ || w == "v"@ || w == "locais"@ {
        Cmd::Vars
    } else if w == "pilha"@ || w == "k"@ || w == "stack"@ || w == "bt"@ {
        Cmd::Stack
    } else if w == "ponto"@ || w == "break"@ || w == "b"@ {
        Cmd::Break
    } else if w == "remover"@ || w == "delete"@ || w == "d"@ {
        Cmd::Remove
    } else if w == "ajuda"@ || w == "h"@ || w == "help"@ || w == "?"@ {
        Cmd::Help
    } else if w == "terminar"@ || w == "q"@ || w == "quit"@ {
        Cmd::Quit
    } else if w.len() == 0 {
        Cmd::Empty
    } else {
        Cmd::Unknown
    }
}

/// The reply is the line of text `text`.
pub open spec fn says(r: Reply, text: Seq<char>) -> bool {
    r matches Reply::Text(t) && t@ == text
}

/// `"arquivo:linha"`.
pub open spec fn place_text(file: Seq<char>, line: u32) -> Seq<char> {
    file + seq![':'] + crate::text::decimal(line as nat)
}

fn place(file: &str, line: u32) -> (r: String)
    ensures
        r@ == place_text(file@, line),
{
    let mut r = file.to_owned();
    push_char(&mut r, ':');
    let d = u32_decimal(line);
    push_str(&mut r, d.as_str());
    r
}

fn text_reply(prefix: &str, rest: &str) -> (r: Reply)
    ensures
        r matches Reply::Text(t) && t@ == prefix@ + rest@,
{
    let mut t = prefix.to_owned();
    push_str(&mut t, rest);
    Reply::Text(t)
}

fn word_is(w: &String, a: &str) -> (r: bool)
    ensures
        r == (w@ == a@),
{
    text_is(w.as_str(), a)
}

impl CliDebugger {
    /// No two held breakpoints are the same.
    pub closed spec fn wf(&self) -> bool {
        forall|i: int, j: int|
            0 <= i < j < self.breakpoints@.len() ==> !(self.breakpoints@[i].0@
                == self.breakpoints@[j].0@ && self.breakpoints@[i].1 == self.breakpoints@[j].1)
    }

    pub closed spec fn bps(&self) -> Set<(Seq<char>, u32)> {
        bp_set(self.breakpoints@)
    }

    pub closed spec fn mode_v(&self) -> ModeV {
        mode_view(self.mode)
    }

    pub closed spec fn remembered(&self) -> Seq<char> {
        self.last_line@
    }

    pub closed spec fn starting(&self) -> bool {
        self.pause_on_start
    }

    /// A debugger that pauses on the first statement and then steps in.
    pub fn new() -> (d: CliDebugger)
        ensures
            d.wf(),
            d.bps() == Set::<(Seq<char>, u32)>::empty(),
            d.mode_v() == ModeV::StepIn,
            d.remembered() == Seq::<char>::empty(),
            d.starting(),
    {
        let d = CliDebugger {
            breakpoints: Vec::new(),
            mode: StepMode::StepIn,
            last_line: String::new(),
            pause_on_start: true,
        };
        assert(d.bps() =~= Set::<(Seq<char>, u32)>::empty());
        d
    }

    /// How the debugger goes on now.
    pub fn mode(&self) -> (m: &StepMode)
        ensures
            mode_view(*m) == self.mode_v(),
    {
        &self.mode
    }

    /// Sets how the debugger goes on.
    pub fn set_mode(&mut self, mode: StepMode)
        requires
            old(self).wf(),
        ensures
            final(self).wf(),
            final(self).mode_v() == mode_view(mode),
            final(self).bps() == old(self).bps(),
            final(self).remembered() == old(self).remembered(),
            final(self).starting() == old(self).starting(),
    {
        self.mode = mode;
    }

    /// The breakpoints, in the order they were set.
    /// The breakpoints as the debugger lists them: one `  file:line` a
    /// line, by file name and then by line; `(nenhum ponto de parada)` when
    /// there is none.
    pub fn breakpoint_listing(&self) -> (r: String)
        requires
            self.wf(),
        ensures
            exists|o: Seq<(Seq<char>, u32)>|
                bp_sorted(o) && (forall|e: (Seq<char>, u32)| #[trigger] o.contains(e)
                    <==> self.bps().contains(e)) && r@ == breakpoints_text(o),
    {
        let v = &self.breakpoints;
        let n = v.len();
        let mut order: Vec<usize> = Vec::new();
        let mut k: usize = 0;
        while k < n
            invariant
                n == v@.len(),
                v@ == self.breakpoints@,
                self.wf(),
                0 <= k <= n,
                order@.len() == k,
                forall|i: int| 0 <= i < order@.len() ==> #[trigger] order@[i] < k,
                bp_sorted(bp_items(v@, order@)),
                forall|e: (Seq<char>, u32)|
                    #[trigger] bp_items(v@, order@).contains(e) <==> exists|i: int|
                        0 <= i < k && bp_item(v@, i) == e,
            decreases n - k,
        {
            let ghost o = bp_items(v@, order@);
            let ghost x = bp_item(v@, k as int);
            let mut p: usize = 0;
            while p < order.len() && !bp_before_exec(v, k, order[p])
                invariant
                    n == v@.len(),
                    k < n,
                    order@.len() == o.len(),
                    o == bp_items(v@, order@),
                    x == bp_item(v@, k as int),
                    forall|i: int| 0 <= i < order@.len() ==> #[trigger] order@[i] < k,
                    0 <= p <= order@.len(),
                    forall|i: int| 0 <= i < p ==> !bp_before(x, #[trigger] o[i]),
                decreases order@.len() - p,
            {
                p = p + 1;
            }
            proof {
                // `x` is new: the breakpoints are distinct
                assert(!o.contains(x)) by {
                    if o.contains(x) {
                        let m = choose|m: int| 0 <= m < o.len() && o[m] == x;
                        assert(o[m] == bp_item(v@, order@[m] as int));
                        assert(order@[m] < k);
                    }
                }
            }
            let ghost old_order = order@;
            order.insert(p, k);
            proof {
                let o2 = bp_items(v@, order@);
                assert(o2 =~= o.insert(p as int, x));
                assert forall|i: int, j: int| 0 <= i < j < o2.len() implies bp_before(
                    #[trigger] o2[i],
                    #[trigger] o2[j],
                ) by {
                    if j < p {
                        assert(o2[i] == o[i] && o2[j] == o[j]);
                    } else if j == p {
                        assert(o2[i] == o[i]);
                        assert(!bp_before(x, o[i]));
                        assert(o[i] != x) by {
                            assert(o.contains(o[i]));
                        }
                        lemma_bp_before_order(x, o[i], x);
                    } else if i == p {
                        assert(o2[j] == o[j - 1]);
                        assert(p < o.len());
                        assert(bp_before(x, o[p as int]));
                        if j - 1 > p {
                            assert(bp_before(o[p as int], o[j - 1]));
                            lemma_bp_before_order(x, o[p as int], o[j - 1]);
                        }
                    } else if i < p {
                        assert(o2[i] == o[i] && o2[j] == o[j - 1]);
                    } else {
                        assert(o2[i] == o[i - 1] && o2[j] == o[j - 1]);
                    }
                }
                assert forall|e: (Seq<char>, u32)| #[trigger] o2.contains(e) <==> exists|i: int|
                    0 <= i < k + 1 && bp_item(v@, i) == e by {
                    if o2.contains(e) {
                        let m = choose|m: int| 0 <= m < o2.len() && o2[m] == e;
                        if m < p {
                            assert(o.contains(o[m]));
                        } else if m > p {
                            assert(o.contains(o[m - 1]));
                        } else {
                            assert(bp_item(v@, k as int) == e);
                        }
                    }
                    if exists|i: int| 0 <= i < k + 1 && bp_item(v@, i) == e {
                        let i = choose|i: int| 0 <= i < k + 1 && bp_item(v@, i) == e;
                        if i == k {
                            assert(o2[p as int] == e);
                        } else {
                            assert(o.contains(e));
                            let m = choose|m: int| 0 <= m < o.len() && o[m] == e;
                            if m < p {
                                assert(o2[m] == e);
                            } else {
                                assert(o2[m + 1] == e);
                            }
                        }
                    }
                }
                assert forall|i: int| 0 <= i < order@.len() implies #[trigger] order@[i] < k + 1 by {
                    if i < p {
                        assert(order@[i] == old_order[i]);
                    } else if i > p {
                        assert(order@[i] == old_order[i - 1]);
                    }
                }
            }
            k = k + 1;
        }
        let ghost o = bp_items(v@, order@);
        proof {
            assert forall|e: (Seq<char>, u32)| #[trigger] o.contains(e) <==> self.bps().contains(e) by {
                if o.contains(e) {
                    let i = choose|i: int| 0 <= i < n && bp_item(v@, i) == e;
                    assert(self.bps().contains(e));
                }
                if self.bps().contains(e) {
                    let i = choose|i: int|
                        0 <= i < v@.len() && v@[i].0@ == e.0 && v@[i].1 == e.1;
                    assert(bp_item(v@, i) == e);
                }
            }
        }
        if n == 0 {
            return "(nenhum ponto de parada)\n".to_owned();
        }
        let mut r = String::new();
        let mut j: usize = 0;
        while j < order.len()
            invariant
                n == v@.len(),
                o == bp_items(v@, order@),
                order@.len() == n,
                forall|i: int| 0 <= i < order@.len() ==> #[trigger] order@[i] < n,
                0 <= j <= order@.len(),
                r@ == bp_lines(o.take(j as int)),
            decreases order@.len() - j,
        {
            let b = &v[order[j]];
            push_str(&mut r, "  ");
            push_str(&mut r, place(b.0.as_str(), b.1).as_str());
            push_str(&mut r, "\n");
            proof {
                assert(o.take(j + 1).drop_last() =~= o.take(j as int));
                assert(o.take(j + 1).last() == o[j as int]);
                assert(r@ =~= bp_lines(o.take(j + 1)));
            }
            j = j + 1;
        }
        assert(o.take(o.len() as int) =~= o);
        r
    }

    pub fn breakpoints(&self) -> (v: &Vec<(String, u32)>)
        ensures
            bp_set(v@) == self.bps(),
    {
        &self.breakpoints
    }

    fn find(&self, file: &str, line: u32) -> (r: Option<usize>)
        ensures
            match r {
                Some(i) => i < self.breakpoints@.len() && self.breakpoints@[i as int].0@ == file@
                    && self.breakpoints@[i as int].1 == line,
                None => !self.bps().contains((file@, line)),
            },
    {
        let mut i: usize = 0;
        while i < self.breakpoints.len()
            invariant
                0 <= i <= self.breakpoints@.len(),
                forall|k: int|
                    0 <= k < i ==> !(self.breakpoints@[k].0@ == file@ && self.breakpoints@[k].1
                        == line),
            decreases self.breakpoints@.len() - i,
        {
            if self.breakpoints[i].1 == line && text_is(self.breakpoints[i].0.as_str(), file) {
                return Some(i);
            }
            i = i + 1;
        }
        None
    }

    /// Whether a breakpoint is set at `file`, `line`.
    pub fn has_breakpoint(&self, file: &str, line: u32) -> (b: bool)
        ensures
            b == self.bps().contains((file@, line)),
    {
        self.find(file, line).is_some()
    }

    /// Sets a breakpoint at `file`, `line`.
    pub fn add_breakpoint(&mut self, file: String, line: u32)
        requires
            old(self).wf(),
        ensures
            final(self).wf(),
            final(self).bps() == old(self).bps().insert((file@, line)),
            final(self).mode_v() == old(self).mode_v(),
            final(self).remembered() == old(self).remembered(),
            final(self).starting() == old(self).starting(),
    {
        match self.find(file.as_str(), line) {
            Some(_) => {
                assert(self.bps() =~= self.bps().insert((file@, line)));
            },
            None => {
                let ghost before = self.breakpoints@;
                let ghost key = (file@, line);
                self.breakpoints.push((file, line));
                assert(self.bps() =~= bp_set(before).insert(key)) by {
                    assert forall|p: (Seq<char>, u32)| #[trigger] self.bps().contains(p) implies bp_set(
                        before,
                    ).insert(key).contains(p) by {
                        let i = choose|i: int|
                            0 <= i < self.breakpoints@.len() && self.breakpoints@[i].0@ == p.0
                                && self.breakpoints@[i].1 == p.1;
                        if i < before.len() {
                            assert(before[i] == self.breakpoints@[i]);
                        }
                    }
                    assert forall|p: (Seq<char>, u32)| #[trigger] bp_set(before).insert(key).contains(
                        p,
                    ) implies self.bps().contains(p) by {
                        if p == key {
                            assert(self.breakpoints@[before.len() as int].0@ == p.0);
                        } else {
                            let i = choose|i: int|
                                0 <= i < before.len() && before[i].0@ == p.0 && before[i].1 == p.1;
                            assert(self.breakpoints@[i] == before[i]);
                        }
                    }
                }
            },
        }
    }

    /// Takes away the breakpoint at `file`, `line`; whether there was one.
    pub fn remove_breakpoint(&mut self, file: &str, line: u32) -> (found: bool)
        requires
            old(self).wf(),
        ensures
            final(self).wf(),
            found == old(self).bps().contains((file@, line)),
            final(self).bps() == old(self).bps().remove((file@, line)),
            final(self).mode_v() == old(self).mode_v(),
            final(self).remembered() == old(self).remembered(),
            final(self).starting() == old(self).starting(),
    {
        match self.find(file, line) {
            None => {
                assert(self.bps() =~= self.bps().remove((file@, line)));
                false
            },
            Some(i) => {
                let ghost before = self.breakpoints@;
                let ghost key = (file@, line);
                assert(bp_set(before).contains(key));
                self.breakpoints.remove(i);
                assert forall|k: int| 0 <= k < self.breakpoints@.len() implies #[trigger] self.breakpoints@[k]
                    == (if k < i {
                    before[k]
                } else {
                    before[k + 1]
                }) by {}
                assert(self.bps() =~= bp_set(before).remove(key)) by {
                    assert forall|p: (Seq<char>, u32)| #[trigger] self.bps().contains(p) implies bp_set(
                        before,
                    ).remove(key).contains(p) by {
                        let k = choose|k: int|
                            0 <= k < self.breakpoints@.len() && self.breakpoints@[k].0@ == p.0
                                && self.breakpoints@[k].1 == p.1;
                        let j = if k < i {
                            k
                        } else {
                            k + 1
                        };
                        assert(before[j] == self.breakpoints@[k]);
                        if p == key {
                            if j < i {
                                assert(!(before[j].0@ == before[i as int].0@ && before[j].1
                                    == before[i as int].1));
                            } else {
                                assert(!(before[i as int].0@ == before[j].0@ && before[i as int].1
                                    == before[j].1));
                            }
                        }
                    }
                    assert forall|p: (Seq<char>, u32)| #[trigger] bp_set(before).remove(key).contains(
                        p,
                    ) implies self.bps().contains(p) by {
                        let j = choose|j: int|
                            0 <= j < before.len() && before[j].0@ == p.0 && before[j].1 == p.1;
                        assert(j != i);
                        let k = if j < i {
                            j
                        } else {
                            j - 1
                        };
                        assert(self.breakpoints@[k] == before[j]);
                    }
                }
                true
            },
        }
    }

    /// Whether to stop before a statement of `file` at `line`, with `span`,
    /// when `depth` calls are in progress.
    pub fn should_pause(&self, file: &str, line: u32, span: Span, depth: usize) -> (b: bool)
        ensures
            b == pauses(self.bps(), self.mode_v(), file@, line, span, depth),
    {
        if self.has_breakpoint(file, line) {
            return true;
        }
        match &self.mode {
            StepMode::Continue => false,
            StepMode::StepIn => true,
            StepMode::StepOver { depth: d, file: f, span: sp } => {
                if depth < *d {
                    true
                } else if depth == *d {
                    !text_is(file, f.as_str()) || !strictly_inside(*sp, span)
                } else {
                    false
                }
            },
            StepMode::StepOut { depth: d } => depth <= *d,
        }
    }

    /// Before a statement: pauses on the very first one, then as
    /// [`Self::should_pause`] says.
    pub fn before_stmt(&mut self, file: &str, line: u32, span: Span, depth: usize) -> (b: bool)
        requires
            old(self).wf(),
        ensures
            final(self).wf(),
            b == (old(self).starting() || pauses(
                old(self).bps(),
                old(self).mode_v(),
                file@,
                line,
                span,
                depth,
            )),
            !final(self).starting(),
            final(self).bps() == old(self).bps(),
            final(self).mode_v() == old(self).mode_v(),
            final(self).remembered() == old(self).remembered(),
    {
        if self.pause_on_start {
            self.pause_on_start = false;
            return true;
        }
        self.should_pause(file, line, span, depth)
    }

    /// The command to run for the typed line: the line itself (trimmed), or
    /// the previous command when the line is blank.
    pub fn command_line(&mut self, typed: &str) -> (r: String)
        requires
            old(self).wf(),
        ensures
            final(self).wf(),
            crate::paths::trimmed(typed@).len() == 0 ==> r@ == old(self).remembered()
                && final(self).remembered() == old(self).remembered(),
            crate::paths::trimmed(typed@).len() > 0 ==> r@ == crate::paths::trimmed(typed@)
                && final(self).remembered() == r@,
            final(self).bps() == old(self).bps(),
            final(self).mode_v() == old(self).mode_v(),
            final(self).starting() == old(self).starting(),
    {
        let t = crate::paths::trim(typed);
        if t.as_str().is_empty() {
            self.last_line.clone()
        } else {
            self.last_line = t.clone();
            t
        }
    }

    /// Runs a typed debugger command at a pause in `file`, at `span`, with
    /// `depth` calls in progress: the action that ends the pause (none to
    /// keep asking) and what to show.
    pub fn handle_command(&mut self, line: &str, file: &str, span: Span, depth: usize) -> (r: (
        Option<DebugAction>,
        Reply,
    ))
        requires
            old(self).wf(),
        ensures
            final(self).wf(),
            final(self).remembered() == old(self).remembered(),
            final(self).starting() == old(self).starting(),
            ({
                let ws = words(line@);
                let cmd = if ws.len() > 0 {
                    ws[0]
                } else {
                    Seq::<char>::empty()
                };
                let arg = if ws.len() > 1 {
                    Some(ws[1])
                } else {
                    None
                };
                let same_bps = final(self).bps() == old(self).bps();
                let same_mode = final(self).mode_v() == old(self).mode_v();
                match command_of(cmd) {
                    Cmd::Continue => same_bps && final(self).mode_v() == ModeV::Continue && r.0
                        == Some(DebugAction::Continue) && r.1 is Nothing,
                    Cmd::Next => same_bps && final(self).mode_v() == (ModeV::StepOver {
                        depth,
                        file: file@,
                        span,
                    }) && r.0 == Some(DebugAction::Continue) && r.1 is Nothing,
                    Cmd::Step => same_bps && final(self).mode_v() == ModeV::StepIn && r.0 == Some(
                        DebugAction::Continue,
                    ) && r.1 is Nothing,
                    Cmd::Out => same_bps && final(self).mode_v() == (ModeV::StepOut {
                        depth: if depth > 0 {
                            (depth - 1) as usize
                        } else {
                            0
                        },
                    }) && r.0 == Some(DebugAction::Continue) && r.1 is Nothing,
                    Cmd::Vars => same_bps && same_mode && r.0 is None && r.1 is Vars,
                    Cmd::Stack => same_bps && same_mode && r.0 is None && r.1 is Stack,
                    Cmd::Help => same_bps && same_mode && r.0 is None && r.1 is Help,
                    Cmd::Quit => same_bps && same_mode && r.0 == Some(DebugAction::Quit) && r.1 is Nothing,
                    Cmd::Empty => same_bps && same_mode && r.0 is None && r.1 is Nothing,
                    Cmd::Unknown => same_bps && same_mode && r.0 is None && says(r.1, "comando desconhecido: "@ + cmd + " (ajuda para a lista)"@),
                    Cmd::Break => same_mode && r.0 is None && match arg {
                        None => same_bps && r.1 is Breakpoints,
                        Some(a) => match breakpoint_of(a, file@) {
                            Some((f, n)) => final(self).bps() == old(self).bps().insert((f, n))
                                && says(r.1, "ponto de parada em "@ + place_text(f, n)),
                            None => same_bps && says(r.1, "uso: ponto [arquivo:]linha"@),
                        },
                    },
                    Cmd::Remove => same_mode && r.0 is None && match arg {
                        Some(a) if parsed_u32(a) is Some => {
                            let n = parsed_u32(a)->0;
                            final(self).bps() == old(self).bps().remove((file@, n)) && says(
                                r.1,
                                (if old(self).bps().contains((file@, n)) {
                                    "removido "@
                                } else {
                                    "nenhum ponto de parada em "@
                                }) + place_text(file@, n),
                            )
                        },
                        _ => same_bps && says(r.1, "uso: remover linha"@),
                    },
                }
            }),
    {
        let ws = first_two_words(line);
        let cmd: String = if ws.len() > 0 {
            ws[0].clone()
        } else {
            String::new()
        };
        proof {
            reveal_strlit("continuar");
            reveal_strlit("c");
            reveal_strlit("continue");
        }
        if word_is(&cmd, "continuar") || word_is(&cmd, "c") || word_is(&cmd, "continue") {
            self.mode = StepMode::Continue;
            return (Some(DebugAction::Continue), Reply::Nothing);
        }
        if word_is(&cmd, "proximo") || word_is(&cmd, "próximo") || word_is(&cmd, "n") || word_is(
            &cmd,
            "next",
        ) {
            self.mode = StepMode::StepOver { depth, file: file.to_owned(), span };
            return (Some(DebugAction::Continue), Reply::Nothing);
        }
        if word_is(&cmd, "entrar") || word_is(&cmd, "s") || word_is(&cmd, "step") {
            self.mode = StepMode::StepIn;
            return (Some(DebugAction::Continue), Reply::Nothing);
        }
        if word_is(&cmd, "sair") || word_is(&cmd, "o") || word_is(&cmd, "out") || word_is(
            &cmd,
            "fin",
        ) {
            let d = if depth > 0 {
                depth - 1
            } else {
                0
            };
            self.mode = StepMode::StepOut { depth: d };
            return (Some(DebugAction::Continue), Reply::Nothing);
        }
        if word_is(&cmd, "vars") || word_is(&cmd, "v") || word_is(&cmd, "locais") {
            return (None, Reply::Vars);
        }
        if word_is(&cmd, "pilha") || word_is(&cmd, "k") || word_is(&cmd, "stack") || word_is(
            &cmd,
            "bt",
        ) {
            return (None, Reply::Stack);
        }
        if word_is(&cmd, "ponto") || word_is(&cmd, "break") || word_is(&cmd, "b") {
            if ws.len() < 2 {
                return (None, Reply::Breakpoints);
            }
            return match parse_breakpoint(ws[1].as_str(), file) {
                Some((f, n)) => {
                    let p = place(f.as_str(), n);
                    self.add_breakpoint(f, n);
                    (None, text_reply("ponto de parada em ", p.as_str()))
                },
                None => (None, Reply::Text("uso: ponto [arquivo:]linha".to_owned())),
            };
        }
        if word_is(&cmd, "remover") || word_is(&cmd, "delete") || word_is(&cmd, "d") {
            let n = if ws.len() < 2 {
                None
            } else {
                parse_u32(ws[1].as_str())
            };
            return match n {
                Some(n) => {
                    let p = place(file, n);
                    if self.remove_breakpoint(file, n) {
                        (None, text_reply("removido ", p.as_str()))
                    } else {
                        (None, text_reply("nenhum ponto de parada em ", p.as_str()))
                    }
                },
                None => (None, Reply::Text("uso: remover linha".to_owned())),
            };
        }
        if word_is(&cmd, "ajuda") || word_is(&cmd, "h") || word_is(&cmd, "help") || word_is(
            &cmd,
            "?",
        ) {
            return (None, Reply::Help);
        }
        if word_is(&cmd, "terminar") || word_is(&cmd, "q") || word_is(&cmd, "quit") {
            return (Some(DebugAction::Quit), Reply::Nothing);
        }
        if cmd.as_str().is_empty() {
            return (None, Reply::Nothing);
        }
        let mut t = "comando desconhecido: ".to_owned();
        push_str(&mut t, cmd.as_str());
        push_str(&mut t, " (ajuda para a lista)");
        (None, Reply::Text(t))
    }
}


// ── the breakpoint listing ──────────────────────────────────────────────

/// Breakpoint `a` comes before `b`: by file name, then by line.
pub open spec fn bp_before(a: (Seq<char>, u32), b: (Seq<char>, u32)) -> bool {
    text_before(a.0, b.0) || (a.0 == b.0 && a.1 < b.1)
}

proof fn lemma_bp_before_order(a: (Seq<char>, u32), b: (Seq<char>, u32), c: (Seq<char>, u32))
    ensures
        !bp_before(a, a),
        bp_before(a, b) && bp_before(b, c) ==> bp_before(a, c),
        a != b ==> bp_before(a, b) || bp_before(b, a),
{
    lemma_text_before_irreflexive(a.0);
    if text_before(a.0, b.0) && text_before(b.0, c.0) {
        lemma_text_before_transitive(a.0, b.0, c.0);
    }
    if a.0 != b.0 {
        lemma_text_before_total(a.0, b.0);
    }
}

/// `o` is in breakpoint order, each entry once.
pub open spec fn bp_sorted(o: Seq<(Seq<char>, u32)>) -> bool {
    forall|i: int, j: int| 0 <= i < j < o.len() ==> bp_before(#[trigger] o[i], #[trigger] o[j])
}

/// The lines `  file:line` of the breakpoints `o`, in turn.
pub open spec fn bp_lines(o: Seq<(Seq<char>, u32)>) -> Seq<char>
    decreases o.len(),
{
    if o.len() == 0 {
        Seq::empty()
    } else {
        bp_lines(o.drop_last()) + "  "@ + place_text(o.last().0, o.last().1) + "\n"@
    }
}

/// How the debugger lists the breakpoints `o`; `(nenhum ponto de parada)`
/// when there is none.
pub open spec fn breakpoints_text(o: Seq<(Seq<char>, u32)>) -> Seq<char> {
    if o.len() == 0 {
        "(nenhum ponto de parada)\n"@
    } else {
        bp_lines(o)
    }
}

/// The file and line of breakpoint `i` of `v`.
pub open spec fn bp_item(v: Seq<(String, u32)>, i: int) -> (Seq<char>, u32) {
    (v[i].0@, v[i].1)
}

/// The breakpoints of `v` at the places listed in `order`.
pub open spec fn bp_items(v: Seq<(String, u32)>, order: Seq<usize>) -> Seq<(Seq<char>, u32)> {
    order.map_values(|i: usize| bp_item(v, i as int))
}

fn bp_before_exec(v: &Vec<(String, u32)>, i: usize, j: usize) -> (r: bool)
    requires
        i < v@.len(),
        j < v@.len(),
    ensures
        r == bp_before(bp_item(v@, i as int), bp_item(v@, j as int)),
{
    let a = &v[i];
    let b = &v[j];
    text_before_exec(a.0.as_str(), b.0.as_str()) || (text_is(a.0.as_str(), b.0.as_str()) && a.1
        < b.1)
}

// ── what the debugger shows ─────────────────────────────────────────────

/// The calls of `st` from the innermost one: the first `k`, each on a
/// line `  i: name (file:line:column)`, numbered from 0.
pub open spec fn stack_entries(st: Seq<CallFrame>, k: nat) -> Seq<char>
    decreases k,
{
    if k == 0 {
        Seq::empty()
    } else {
        let f = st[st.len() - k];
        stack_entries(st, (k - 1) as nat) + "  "@ + decimal((k - 1) as nat) + ": "@ + f.name@
            + " ("@ + located(f.file@, f.span) + ")\n"@
    }
}

/// How the debugger lists the call stack `st`: one line a call, innermost
/// first; `(pilha vazia)` when no call is in progress.
pub open spec fn stack_listing_text(st: Seq<CallFrame>) -> Seq<char> {
    if st.len() == 0 {
        "(pilha vazia)\n"@
    } else {
        stack_entries(st, st.len())
    }
}

/// The debugger's listing of the call stack, innermost call first.
pub fn stack_listing(stack: &[CallFrame]) -> (r: String)
    ensures
        r@ == stack_listing_text(stack@),
{
    let n = stack.len();
    if n == 0 {
        return "(pilha vazia)\n".to_owned();
    }
    let mut r = String::new();
    let mut i: usize = 0;
    while i < n
        invariant
            n == stack@.len(),
            0 <= i <= n,
            r@ == stack_entries(stack@, i as nat),
        decreases n - i,
    {
        let f = &stack[n - 1 - i];
        let ghost before = r@;
        push_str(&mut r, "  ");
        push_str(&mut r, usize_decimal(i).as_str());
        push_str(&mut r, ": ");
        push_str(&mut r, f.name.as_str());
        push_str(&mut r, " (");
        push_str(&mut r, f.span.location_in(f.file.as_str()).as_str());
        push_str(&mut r, ")\n");
        proof {
            assert(stack@.len() - (i + 1) == n - 1 - i);
            assert(r@ =~= stack_entries(stack@, (i + 1) as nat));
        }
        i = i + 1;
    }
    r
}

/// The heading the debugger gives the names of a frame of kind `kind`.
pub open spec fn frame_label(kind: FrameKind) -> Seq<char> {
    match kind {
        FrameKind::Module => "módulo"@,
        FrameKind::Block => "bloco"@,
        FrameKind::Function => "função"@,
        FrameKind::Builtins => Seq::empty(),
    }
}

/// The lines `  name = value` of `bindings`, in turn.
pub open spec fn binding_lines(bindings: Seq<(Seq<char>, Seq<char>)>) -> Seq<char>
    decreases bindings.len(),
{
    if bindings.len() == 0 {
        Seq::empty()
    } else {
        binding_lines(bindings.drop_last()) + "  "@ + bindings.last().0 + " = "@
            + bindings.last().1 + "\n"@
    }
}

/// Whether a frame shows up in the listing: it is no frame of built-ins and
/// it holds names.
pub open spec fn frame_shown(f: (FrameKind, Seq<(Seq<char>, Seq<char>)>)) -> bool {
    f.0 != FrameKind::Builtins && f.1.len() > 0
}

/// The first `k` frames of `frames` as listed: each shown frame a `[label]`
/// heading, then its names.
pub open spec fn frame_lines(frames: Seq<(FrameKind, Seq<(Seq<char>, Seq<char>)>)>, k: int) -> Seq<
    char,
>
    decreases k,
{
    if k <= 0 {
        Seq::empty()
    } else {
        let f = frames[k - 1];
        frame_lines(frames, k - 1) + if frame_shown(f) {
            "["@ + frame_label(f.0) + "]\n"@ + binding_lines(f.1)
        } else {
            Seq::empty()
        }
    }
}

/// How the debugger lists the visible names, innermost frame first: each
/// frame (but the built-ins and empty ones) under its heading, one
/// `  name = value` a line; `(nenhuma variável)` when no frame shows.
pub open spec fn vars_text(frames: Seq<(FrameKind, Seq<(Seq<char>, Seq<char>)>)>) -> Seq<char> {
    if exists|i: int| 0 <= i < frames.len() && frame_shown(#[trigger] frames[i]) {
        frame_lines(frames, frames.len() as int)
    } else {
        "(nenhuma variável)\n"@
    }
}

/// Mathematical view of a frame's names and their texts.
pub open spec fn frame_view(f: (FrameKind, Vec<(String, String)>)) -> (
    FrameKind,
    Seq<(Seq<char>, Seq<char>)>,
) {
    (f.0, f.1@.map_values(|b: (String, String)| (b.0@, b.1@)))
}

/// The debugger's listing of the visible names: `frames` holds each frame
/// from the innermost out, its kind and its names (in order) with the text
/// of their values.
pub fn vars_listing(frames: &Vec<(FrameKind, Vec<(String, String)>)>) -> (r: String)
    ensures
        r@ == vars_text(frames@.map_values(|f: (FrameKind, Vec<(String, String)>)| frame_view(f))),
{
    let ghost fv = frames@.map_values(|f: (FrameKind, Vec<(String, String)>)| frame_view(f));
    let mut r = String::new();
    let mut any = false;
    let mut i: usize = 0;
    while i < frames.len()
        invariant
            0 <= i <= frames@.len(),
            fv == frames@.map_values(|f: (FrameKind, Vec<(String, String)>)| frame_view(f)),
            r@ == frame_lines(fv, i as int),
            any <==> exists|j: int| 0 <= j < i && frame_shown(#[trigger] fv[j]),
        decreases frames@.len() - i,
    {
        let f = &frames[i];
        let ghost fvi = fv[i as int];
        assert(fvi == frame_view(frames@[i as int]));
        let ghost before = r@;
        if f.0 != FrameKind::Builtins && f.1.len() > 0 {
            any = true;
            push_str(&mut r, "[");
            let label = match f.0 {
                FrameKind::Module => "módulo",
                FrameKind::Block => "bloco",
                FrameKind::Function => "função",
                FrameKind::Builtins => "",
            };
            push_str(&mut r, label);
            push_str(&mut r, "]\n");
            let ghost head = r@;
            let bs = &f.1;
            let ghost bv = fvi.1;
            let mut j: usize = 0;
            while j < bs.len()
                invariant
                    0 <= j <= bs@.len(),
                    bv == bs@.map_values(|b: (String, String)| (b.0@, b.1@)),
                    r@ == head + binding_lines(bv.take(j as int)),
                decreases bs@.len() - j,
            {
                push_str(&mut r, "  ");
                push_str(&mut r, bs[j].0.as_str());
                push_str(&mut r, " = ");
                push_str(&mut r, bs[j].1.as_str());
                push_str(&mut r, "\n");
                proof {
                    assert(bv.take(j + 1).drop_last() =~= bv.take(j as int));
                    assert(bv.take(j + 1).last() == (bs@[j as int].0@, bs@[j as int].1@));
                    assert(r@ =~= head + binding_lines(bv.take(j + 1)));
                }
                j = j + 1;
            }
            proof {
                assert(bv.take(bs@.len() as int) =~= bv);
                assert(frame_label(fvi.0) == label@);
                assert(r@ =~= before + ("["@ + frame_label(fvi.0) + "]\n"@ + binding_lines(fvi.1)));
            }
        } else {
            assert(r@ =~= before + Seq::<char>::empty());
        }
        proof {
            assert(frame_lines(fv, i + 1) == frame_lines(fv, i as int) + if frame_shown(fvi) {
                "["@ + frame_label(fvi.0) + "]\n"@ + binding_lines(fvi.1)
            } else {
                Seq::<char>::empty()
            });
            if frame_shown(fvi) {
                assert(exists|j: int| 0 <= j < i + 1 && frame_shown(#[trigger] fv[j]));
            }
        }
        i = i + 1;
    }
    if !any {
        return "(nenhuma variável)\n".to_owned();
    }
    r
}

/// How the debugger shows where it stopped: `quebrado em file:line:column`,
/// then the line's number right-aligned in four places, ` | ` and that
/// line of `source` without its trailing white space.
pub open spec fn stop_text(file: Seq<char>, span: Span, source: Seq<char>) -> Seq<char> {
    "quebrado em "@ + located(file, span) + "\n"@ + right_aligned(decimal(span.line as nat), 4)
        + " | "@ + trimmed_end(nth_line(source, span.line)) + "\n"@
}

/// What the debugger shows where it stopped: the place, then the line of
/// `source` it stopped at.
pub fn stop_listing(file: &str, span: Span, source: &str) -> (r: String)
    ensures
        r@ == stop_text(file@, span, source@),
{
    let mut r = "quebrado em ".to_owned();
    push_str(&mut r, span.location_in(file).as_str());
    push_str(&mut r, "\n");
    let num = u32_decimal(span.line);
    let w = str_chars(num.as_str()).len();
    let ghost head = r@;
    if w < 4 {
        let mut k: usize = 0;
        while k < 4 - w
            invariant
                w < 4,
                0 <= k <= 4 - w,
                r@ == head + Seq::new(k as nat, |_i: int| ' '),
            decreases 4 - w - k,
        {
            push_char(&mut r, ' ');
            k = k + 1;
            assert(r@ =~= head + Seq::new(k as nat, |_i: int| ' '));
        }
    }
    push_str(&mut r, num.as_str());
    proof {
        assert(r@ =~= head + right_aligned(decimal(span.line as nat), 4));
    }
    push_str(&mut r, " | ");
    let line = source_line(source, span.line);
    push_str(&mut r, trim_end(line.as_str()).as_str());
    push_str(&mut r, "\n");
    r
}


// ── where stepping stops ────────────────────────────────────────────────

/// A breakpoint at a statement's place stops there, whatever the stepping.
pub proof fn law_breakpoint_pauses(
    bps: Set<(Seq<char>, u32)>,
    mode: ModeV,
    file: Seq<char>,
    line: u32,
    span: Span,
    depth: usize,
)
    requires
        bps.contains((file, line)),
    ensures
        pauses(bps, mode, file, line, span, depth),
{
}

/// `continuar` stops only at breakpoints.
pub proof fn law_continue_pauses_only_at_breakpoints(
    bps: Set<(Seq<char>, u32)>,
    file: Seq<char>,
    line: u32,
    span: Span,
    depth: usize,
)
    ensures
        pauses(bps, ModeV::Continue, file, line, span, depth) == bps.contains((file, line)),
{
}

/// `entrar` stops at the very next statement, wherever it is.
pub proof fn law_step_in_pauses_everywhere(
    bps: Set<(Seq<char>, u32)>,
    file: Seq<char>,
    line: u32,
    span: Span,
    depth: usize,
)
    ensures
        pauses(bps, ModeV::StepIn, file, line, span, depth),
{
}

/// `proximo` steps over calls: after it was given at a statement run with
/// `d` calls in progress, no statement run deeper than that stops, unless a
/// breakpoint is there.
pub proof fn law_step_over_skips_deeper_calls(
    bps: Set<(Seq<char>, u32)>,
    d: usize,
    f: Seq<char>,
    sp: Span,
    file: Seq<char>,
    line: u32,
    span: Span,
    depth: usize,
)
    requires
        depth > d,
        !bps.contains((file, line)),
    ensures
        !pauses(bps, ModeV::StepOver { depth: d, file: f, span: sp }, file, line, span, depth),
{
}

/// `proximo` stops once the statement's function has returned (fewer calls
/// in progress), and, at the same depth, at the next statement that is not
/// a part of the one it was given at (another file, or a span that is not
/// strictly within that statement's span); parts of that statement run
/// without stopping, unless a breakpoint is there.
pub proof fn law_step_over_stops_after_the_statement(
    bps: Set<(Seq<char>, u32)>,
    d: usize,
    f: Seq<char>,
    sp: Span,
    file: Seq<char>,
    line: u32,
    span: Span,
    depth: usize,
)
    ensures
        depth < d ==> pauses(bps, ModeV::StepOver { depth: d, file: f, span: sp }, file, line, span, depth),
        depth == d ==> (pauses(bps, ModeV::StepOver { depth: d, file: f, span: sp }, file, line, span, depth)
            == (bps.contains((file, line)) || file != f || span.start < sp.start || span.end > sp.end
            || (span.start == sp.start && span.end == sp.end))),
{
}

/// `sair` stops at the first statement run once the current function has
/// returned, that is with at most `d` calls in progress; deeper ones run on
/// unless a breakpoint is there.
pub proof fn law_step_out_pauses_when_returned(
    bps: Set<(Seq<char>, u32)>,
    d: usize,
    file: Seq<char>,
    line: u32,
    span: Span,
    depth: usize,
)
    ensures
        pauses(bps, ModeV::StepOut { depth: d }, file, line, span, depth) == (depth <= d
            || bps.contains((file, line))),
{
}

} // verus!
