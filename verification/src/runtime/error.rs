//! Errors raised while a program runs, and how they are shown.
use vstd::prelude::*;

use crate::lexer::span::{location_text, Span};
use crate::text::{decimal, push_str, usize_decimal};

verus! {

/// One call in progress: the called name and where the call stands.
#[derive(Debug, Clone)]
pub struct CallFrame {
    pub name: String,
    pub file: String,
    pub span: Span,
}

/// A runtime error: its message, where it happened, and the calls in
/// progress (outermost first).
#[derive(Debug, Clone)]
pub struct RuntimeError {
    pub message: String,
    pub file: String,
    pub span: Span,
    pub stack: Vec<CallFrame>,
}

/// `"file:line:column"`.
pub open spec fn located(file: Seq<char>, span: Span) -> Seq<char> {
    file + seq![':'] + location_text(span.line, span.col)
}

/// The line that shows the `i`-th call counted from the innermost one.
pub open spec fn frame_line(i: nat, f: CallFrame) -> Seq<char> {
    "\n  "@ + decimal(i) + ": "@ + f.name@ + " ("@ + located(f.file@, f.span) + ")"@
}

/// The first `k` lines of the call stack `st`, innermost call first.
pub open spec fn stack_lines(st: Seq<CallFrame>, k: nat) -> Seq<char>
    decreases k,
{
    if k == 0 {
        Seq::empty()
    } else {
        stack_lines(st, (k - 1) as nat) + frame_line((k - 1) as nat, st[st.len() - k])
    }
}

/// How a runtime error is shown: `erro: <mensagem> em <arquivo:linha:coluna>`,
/// then, when calls are in progress, the call stack, innermost first.
pub open spec fn error_text(e: RuntimeError) -> Seq<char> {
    "erro: "@ + e.message@ + " em "@ + located(e.file@, e.span) + if e.stack@.len() > 0 {
        "\n"@ + "pilha de chamadas:"@ + stack_lines(e.stack@, e.stack@.len())
    } else {
        Seq::empty()
    }
}

impl RuntimeError {
    /// The text of this error, as it is printed.
    pub fn to_string(&self) -> (r: String)
        ensures
            r@ == error_text(*self),
    {
        let mut r = "erro: ".to_owned();
        push_str(&mut r, self.message.as_str());
        push_str(&mut r, " em ");
        let loc = self.span.location_in(self.file.as_str());
        push_str(&mut r, loc.as_str());
        let n = self.stack.len();
        if n > 0 {
            push_str(&mut r, "\n");
            push_str(&mut r, "pilha de chamadas:");
            let ghost head = r@;
            let mut i: usize = 0;
            while i < n
                invariant
                    n == self.stack@.len(),
                    0 <= i <= n,
                    r@ == head + stack_lines(self.stack@, i as nat),
                decreases n - i,
            {
                let f = &self.stack[n - 1 - i];
                push_str(&mut r, "\n  ");
                let num = usize_decimal(i);
                push_str(&mut r, num.as_str());
                push_str(&mut r, ": ");
                push_str(&mut r, f.name.as_str());
                push_str(&mut r, " (");
                let floc = f.span.location_in(f.file.as_str());
                push_str(&mut r, floc.as_str());
                push_str(&mut r, ")");
                proof {
                    assert(stack_lines(self.stack@, (i + 1) as nat) == stack_lines(
                        self.stack@,
                        i as nat,
                    ) + frame_line(i as nat, self.stack@[n - 1 - i]));
                    assert(r@ =~= head + stack_lines(self.stack@, (i + 1) as nat));
                }
                i = i + 1;
            }
        }
        r
    }
}

} // verus!
