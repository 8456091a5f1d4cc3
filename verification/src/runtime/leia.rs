//! Answers to `leia()`: who supplies them, and how a read line is cleaned.
use vstd::prelude::*;

verus! {

/// Line written to stderr (CLI `--marcador-leia`) or sent to the IDE
/// before `leia()` waits for a reply. The rest of the line is the prompt.
pub const LEIA_MARKER: &'static str = "<<<EXPRESSA-LEIA>>>";

/// Who answers `leia()` (the terminal, the classroom IDE, a test).
pub trait LeiaHost {
    /// Shows `prompt` and waits for one line.
    fn ask(&mut self, prompt: &str) -> Result<String, String>;

    /// All remaining input lines (no prompt). By default not available
    /// (the classroom dialog has no end of input).
    fn read_all_lines(&mut self) -> (r: Result<Vec<String>, String>)
        default_ensures
            r matches Err(m) && m@
                == "leia_linhas() lê a entrada padrão (pipe/arquivo); na Aula use leia() ou leia_arquivo"@,
    {
        Err(
            "leia_linhas() lê a entrada padrão (pipe/arquivo); na Aula use leia() ou leia_arquivo".to_owned(),
        )
    }
}

/// `line` without its line ending: a final `\n`, and then a `\r` before it.
pub open spec fn without_newline(line: Seq<char>) -> Seq<char> {
    if line.len() > 0 && line.last() == '\n' {
        let l = line.drop_last();
        if l.len() > 0 && l.last() == '\r' {
            l.drop_last()
        } else {
            l
        }
    } else {
        line
    }
}

/// Drops the line ending (`\n` or `\r\n`) that `read_line` keeps.
pub fn strip_newline(line: &mut String)
    ensures
        final(line)@ == without_newline(old(line)@),
{
    let v = crate::text::str_chars(line.as_str());
    let n = v.len();
    if n > 0 && v[n - 1] == '\n' {
        let end = if n > 1 && v[n - 2] == '\r' {
            n - 2
        } else {
            n - 1
        };
        let mut s = String::new();
        let mut k: usize = 0;
        while k < end
            invariant
                v@ == old(line)@,
                end < n == v@.len(),
                0 <= k <= end,
                s@ == v@.take(k as int),
            decreases end - k,
        {
            crate::text::push_char(&mut s, v[k]);
            k = k + 1;
            assert(v@.take(k as int) =~= v@.take(k - 1).push(v@[k - 1]));
        }
        proof {
            let l = v@.drop_last();
            if n > 1 && v@[n - 2] == '\r' {
                assert(s@ =~= l.drop_last());
            } else {
                assert(s@ =~= l);
            }
        }
        *line = s;
    }
}

} // verus!
