//! Source locations for tokens, AST nodes, and diagnostics.
use vstd::prelude::*;

use crate::text::{byte_off, decimal, is_boundary, push_char, push_chars, u32_decimal};

verus! {

/// A range of source text: where it starts (line and column, 1-based) and its
/// byte offsets `[start, end)`.
#[derive(Debug, Clone, Copy, PartialEq, Eq, Hash, Default, Structural)]
pub struct Span {
    /// 1-based line of the start of this span.
    pub line: u32,
    /// 1-based column of the start of this span (character-oriented).
    pub col: u32,
    /// Inclusive byte offset into the source.
    pub start: usize,
    /// Exclusive byte offset into the source.
    pub end: usize,
}

/// `"line:column"`.
pub open spec fn location_text(line: u32, col: u32) -> Seq<char> {
    decimal(line as nat) + seq![':'] + decimal(col as nat)
}

/// The span from the start of `a` (with its line and column) to the end of
/// `b`, never ending before `a` does.
pub open spec fn joined(a: Span, b: Span) -> Span {
    Span { line: a.line, col: a.col, start: a.start, end: if b.end >= a.end { b.end } else { a.end } }
}

/// The span covering `a` and `b`: it starts where the earlier one starts
/// (taking its line and column) and ends where the later one ends.
pub open spec fn merged(a: Span, b: Span) -> Span {
    let end = if a.end >= b.end { a.end } else { b.end };
    if a.start <= b.start {
        Span { line: a.line, col: a.col, start: a.start, end }
    } else {
        Span { line: b.line, col: b.col, start: b.start, end }
    }
}

/// Merging does not depend on the order of the two spans when they start at
/// different offsets.
pub proof fn law_merge_order_independent(a: Span, b: Span)
    requires
        a.start != b.start,
    ensures
        merged(a, b) == merged(b, a),
{
}

/// A joined span starts where (and at the line and column where) the first
/// one starts, and reaches past the ends of both.
pub proof fn law_join_covers(a: Span, b: Span)
    ensures
        joined(a, b).start == a.start && joined(a, b).line == a.line && joined(a, b).col == a.col,
        joined(a, b).end >= a.end && joined(a, b).end >= b.end,
{
}

/// A merged span contains both of its parts.
pub proof fn law_merge_covers(a: Span, b: Span)
    ensures
        merged(a, b).start <= a.start && merged(a, b).start <= b.start,
        merged(a, b).end >= a.end && merged(a, b).end >= b.end,
{
}

/// The byte at offset `o` lies in `[s.start, s.end)`.
pub open spec fn holds_byte(s: Span, o: int) -> bool {
    s.start <= o < s.end
}

impl Span {
    /// Span from absolute fields.
    pub fn new(line: u32, column: u32, start: usize, end: usize) -> (s: Span)
        requires
            start <= end,
        ensures
            s == (Span { line, col: column, start, end }),
    {
        Span { line, col: column, start, end }
    }

    /// Zero-width span at a cursor (e.g. end of input).
    pub fn empty(line: u32, column: u32, offset: usize) -> (s: Span)
        ensures
            s == (Span { line, col: column, start: offset, end: offset }),
    {
        Span { line, col: column, start: offset, end: offset }
    }

    /// Span starting at `(line, column, start)` with length `len` bytes.
    pub fn at(line: u32, column: u32, start: usize, len: usize) -> (s: Span)
        requires
            start + len <= usize::MAX,
        ensures
            s == (Span { line, col: column, start, end: (start + len) as usize }),
    {
        Span { line, col: column, start, end: start + len }
    }

    pub fn is_empty(self) -> (b: bool)
        ensures
            b == (self.start == self.end),
    {
        self.start == self.end
    }

    /// Length in bytes (`end - start`).
    pub fn len(self) -> (n: usize)
        requires
            self.start <= self.end,
        ensures
            n == self.end - self.start,
    {
        self.end - self.start
    }

    /// Text of `source` covered by this span.
    pub fn lexeme(self, source: &str) -> (r: String)
        requires
            self.start <= self.end,
            is_boundary(source@, self.start as int),
            is_boundary(source@, self.end as int),
        ensures
            forall|i: int, j: int|
                0 <= i <= j <= source@.len() && byte_off(source@, i) == self.start && byte_off(
                    source@,
                    j,
                ) == self.end ==> r@ == source@.subrange(i, j),
    {
        let cs = crate::text::str_chars(source);
        let nbytes = crate::text::str_byte_len(source);
        let ghost s = source@;
        let ghost a = choose|i: int| 0 <= i <= s.len() && byte_off(s, i) == self.start;
        let ghost b = choose|i: int| 0 <= i <= s.len() && byte_off(s, i) == self.end;
        proof {
            if b < a {
                crate::text::lemma_byte_off_mono(s, b, a);
            }
        }
        let mut out = String::new();
        let mut k: usize = 0;
        let mut off: usize = 0;
        while k < cs.len()
            invariant
                cs@ == s,
                0 <= a <= b <= s.len(),
                byte_off(s, a) == self.start,
                byte_off(s, b) == self.end,
                0 <= k <= s.len(),
                off == byte_off(s, k as int),
                forall|i: int| 0 <= i <= s.len() ==> byte_off(s, i) <= nbytes,
                out@ == s.subrange(a, if k < a { a } else if k > b { b } else { k as int }),
            decreases s.len() - k,
        {
            proof {
                crate::text::lemma_byte_off_step(s, k as int);
                assert(byte_off(s, k + 1) <= nbytes);
            }
            let c = cs[k];
            let w = crate::text::char_utf8_width(c);
            if self.start <= off && off < self.end {
                proof {
                    if (k as int) < a {
                        crate::text::lemma_byte_off_mono(s, k as int, a);
                    }
                    if (k as int) >= b {
                        crate::text::lemma_byte_off_mono(s, b, k as int);
                    }
                }
                push_char(&mut out, c);
                assert(s.subrange(a, k + 1) == s.subrange(a, k as int).push(c));
            } else {
                proof {
                    if a <= k && k < b {
                        crate::text::lemma_byte_off_mono(s, a, k as int);
                        crate::text::lemma_byte_off_mono(s, k as int, b);
                    }
                }
            }
            off = off + w;
            k = k + 1;
        }
        proof {
            crate::text::lemma_byte_off_injective(s, a, a);
        }
        assert forall|i: int, j: int|
            0 <= i <= j <= source@.len() && byte_off(source@, i) == self.start && byte_off(
                source@,
                j,
            ) == self.end implies out@ == source@.subrange(i, j) by {
            crate::text::lemma_byte_off_injective(s, i, a);
            crate::text::lemma_byte_off_injective(s, j, b);
        }
        out
    }

    /// Span from the start of `self` to the end of `other` (line and column from `self`).
    pub fn join(self, other: Span) -> (r: Span)
        ensures
            r == joined(self, other),
    {
        Span {
            line: self.line,
            col: self.col,
            start: self.start,
            end: if other.end >= self.end { other.end } else { self.end },
        }
    }

    /// Span covering both ranges, whatever their order; the start (with its
    /// line and column) is the earlier of the two.
    pub fn merge(self, other: Span) -> (r: Span)
        ensures
            r == merged(self, other),
    {
        let end = if self.end >= other.end { self.end } else { other.end };
        if self.start <= other.start {
            Span { line: self.line, col: self.col, start: self.start, end }
        } else {
            Span { line: other.line, col: other.col, start: other.start, end }
        }
    }

    /// `"line:column"` of the start.
    pub fn location(self) -> (r: String)
        ensures
            r@ == location_text(self.line, self.col),
    {
        let mut r = u32_decimal(self.line);
        push_char(&mut r, ':');
        let c = u32_decimal(self.col);
        crate::text::push_str(&mut r, &c);
        r
    }

    /// `"file:line:column"` of the start.
    pub fn location_in(self, file: &str) -> (r: String)
        ensures
            r@ == file@ + seq![':'] + location_text(self.line, self.col),
    {
        let mut r = String::new();
        crate::text::push_str(&mut r, file);
        push_char(&mut r, ':');
        let l = self.location();
        crate::text::push_str(&mut r, &l);
        r
    }

    /// Copy with a new exclusive end offset.
    pub fn with_end(self, end: usize) -> (r: Span)
        requires
            self.start <= end,
        ensures
            r == (Span { end, ..self }),
    {
        Span { end, ..self }
    }

    /// Zero-width span at the end of this span.
    pub fn end_point(self) -> (r: Span)
        ensures
            r == (Span { line: self.line, col: self.col, start: self.end, end: self.end }),
    {
        Span::empty(self.line, self.col, self.end)
    }

    /// Whether `offset` lies in `[start, end)`.
    pub fn contains_offset(self, offset: usize) -> (b: bool)
        ensures
            b == (self.start <= offset && offset < self.end),
    {
        self.start <= offset && offset < self.end
    }

    /// Whether the byte ranges overlap: some byte lies in both.
    pub fn overlaps(self, other: Span) -> (b: bool)
        ensures
            b == exists|o: int| #[trigger] holds_byte(self, o) && holds_byte(other, o),
    {
        let r = self.start < self.end && other.start < other.end && self.start < other.end
            && other.start < self.end;
        proof {
            if r {
                let o: int = if self.start >= other.start {
                    self.start as int
                } else {
                    other.start as int
                };
                assert(holds_byte(self, o) && holds_byte(other, o));
            }
        }
        r
    }
}

} // verus!
