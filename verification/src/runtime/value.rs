//! Text forms of values: number patterns, thousands groups, quoted text.
use vstd::prelude::*;

use crate::lexer::classes::{ascii_digit, is_ascii_digit, is_white_space};
use crate::paths::{trim, trimmed};
use crate::text::{
    byte_off, chars_string, i64_decimal, push_char, push_str, signed_decimal, str_byte_len,
    str_chars, text_is,
};

verus! {

/// Keys a `mapa` can hold.
#[derive(Clone, Debug, PartialEq, Eq)]
pub enum MapKey {
    Texto(String),
    Numero(i64),
    Bool(bool),
}

/// How a map key is written: text in double quotes (with `\\` and `"`
/// escaped), a whole number in decimal, a truth value as `verdadeiro` or
/// `falso`.
pub open spec fn key_text(k: MapKey) -> Seq<char> {
    match k {
        MapKey::Texto(s) => seq!['"'] + escaped(s@) + seq!['"'],
        MapKey::Numero(n) => signed_decimal(n as int),
        MapKey::Bool(b) => if b {
            "verdadeiro"@
        } else {
            "falso"@
        },
    }
}

impl MapKey {
    /// How the key is written.
    pub fn to_string(&self) -> (r: String)
        ensures
            r@ == key_text(*self),
    {
        match self {
            MapKey::Texto(s) => {
                let mut r = String::new();
                push_char(&mut r, '"');
                push_str(&mut r, escape_texto(s.as_str()).as_str());
                push_char(&mut r, '"');
                r
            },
            MapKey::Numero(n) => i64_decimal(*n),
            MapKey::Bool(b) => if *b {
                "verdadeiro".to_owned()
            } else {
                "falso".to_owned()
            },
        }
    }
}

/// How `numero()` / `escreva` read and print numbers in text.
/// Source literals always use `.` (`3.14`, `1_000`).
#[derive(Debug, Clone, Copy, PartialEq, Eq, Default, Structural)]
pub enum NumeroLocale {
    /// `1.000,5`: the default, as in Brazilian notebooks.
    #[default]
    PtBr,
    /// `1,000.5`
    EnUs,
}

/// `char::to_ascii_lowercase`.
pub open spec fn ascii_lower(c: char) -> char {
    if 0x41 <= (c as u32) <= 0x5A {
        ((c as u32) + 32) as char
    } else {
        c
    }
}

fn lower_char(c: char) -> (r: char)
    ensures
        r == ascii_lower(c),
{
    if 'A' <= c && c <= 'Z' {
        let b: u8 = (c as u32 + 32) as u8;
        b as char
    } else {
        c
    }
}

/// The pattern named `name` (trimmed, in any case).
pub open spec fn locale_named(name: Seq<char>) -> Option<NumeroLocale> {
    let k = trimmed(name).map_values(|c: char| ascii_lower(c));
    if k == "pt"@ || k == "pt-br"@ || k == "pt_br"@ || k == "br"@ || k == "brasil"@ || k
        == "brasileiro"@ {
        Some(NumeroLocale::PtBr)
    } else if k == "en"@ || k == "en-us"@ || k == "en_us"@ || k == "us"@ || k == "eua"@ || k
        == "americano"@ {
        Some(NumeroLocale::EnUs)
    } else {
        None
    }
}

impl NumeroLocale {
    /// The pattern called `s`: `pt`, `pt-br`, `br`, … or `en`, `en-us`, `us`, ….
    pub fn from_name(s: &str) -> (r: Option<NumeroLocale>)
        ensures
            r == locale_named(s@),
    {
        let t = trim(s);
        let v = str_chars(t.as_str());
        let mut k = String::new();
        let mut i: usize = 0;
        while i < v.len()
            invariant
                v@ == trimmed(s@),
                0 <= i <= v@.len(),
                k@ == v@.take(i as int).map_values(|c: char| ascii_lower(c)),
            decreases v@.len() - i,
        {
            push_char(&mut k, lower_char(v[i]));
            i = i + 1;
            assert(v@.take(i as int).map_values(|c: char| ascii_lower(c)) =~= v@.take(
                i - 1,
            ).map_values(|c: char| ascii_lower(c)).push(ascii_lower(v@[i - 1])));
        }
        assert(v@.take(v@.len() as int) =~= v@);
        let k = k.as_str();
        if text_is(k, "pt") || text_is(k, "pt-br") || text_is(k, "pt_br") || text_is(k, "br")
            || text_is(k, "brasil") || text_is(k, "brasileiro") {
            Some(NumeroLocale::PtBr)
        } else if text_is(k, "en") || text_is(k, "en-us") || text_is(k, "en_us") || text_is(k, "us")
            || text_is(k, "eua") || text_is(k, "americano") {
            Some(NumeroLocale::EnUs)
        } else {
            None
        }
    }
}

// ── thousands groups ────────────────────────────────────────────────────

/// `digits` with `sep` between groups of three, counted from the right.
pub open spec fn grouped(digits: Seq<char>, sep: char) -> Seq<char>
    decreases digits.len(),
{
    if digits.len() <= 3 {
        digits
    } else {
        grouped(digits.take(digits.len() - 3), sep) + seq![sep] + digits.skip(digits.len() - 3)
    }
}

/// `digits` with `sep` between groups of three, counted from the right.
pub fn group_thousands(digits: &str, sep: char) -> (r: String)
    ensures
        r@ == grouped(digits@, sep),
{
    let v = str_chars(digits);
    let n = v.len();
    let first = if n % 3 == 0 && n > 0 {
        3
    } else {
        n % 3
    };
    let mut out = String::new();
    let mut k: usize = 0;
    proof {
        lemma_grouped_split(digits@, sep, first as int);
    }
    while k < first
        invariant
            v@ == digits@,
            n == v@.len(),
            first <= n,
            0 <= k <= first,
            out@ == digits@.take(k as int),
        decreases first - k,
    {
        push_char(&mut out, v[k]);
        k = k + 1;
        assert(digits@.take(k as int) =~= digits@.take(k - 1).push(digits@[k - 1]));
    }
    while k < n
        invariant
            v@ == digits@,
            n == v@.len(),
            first <= k <= n,
            n > 0 ==> first >= 1,
            (n - k) % 3 == 0,
            out@ == grouped(digits@.take(k as int), sep),
        decreases n - k,
    {
        let ghost before = out@;
        assert(k + 3 <= n);
        push_char(&mut out, sep);
        push_char(&mut out, v[k]);
        push_char(&mut out, v[k + 1]);
        push_char(&mut out, v[k + 2]);
        proof {
            let t = digits@.take(k + 3);
            assert(t.len() > 3);
            assert(t.take(t.len() - 3) =~= digits@.take(k as int));
            assert(t.skip(t.len() - 3) =~= seq![v@[k as int], v@[k + 1], v@[k + 2]]);
            assert(out@ =~= before + seq![sep] + t.skip(t.len() - 3));
        }
        k = k + 3;
    }
    assert(digits@.take(n as int) =~= digits@);
    out
}

/// The first `first` digits (one to three, or none at all) form the leading
/// group, and the rest are whole groups of three.
proof fn lemma_grouped_split(digits: Seq<char>, sep: char, first: int)
    requires
        first == (if digits.len() % 3 == 0 && digits.len() > 0 {
            3
        } else {
            digits.len() % 3
        }),
    ensures
        first <= digits.len(),
        digits.len() > 0 ==> first >= 1,
        (digits.len() - first) % 3 == 0,
        grouped(digits.take(first), sep) == digits.take(first),
{
}


/// `s` as it is shown between double quotes: `\\` and `"` escaped with a `\\`.
pub open spec fn escaped(s: Seq<char>) -> Seq<char>
    decreases s.len(),
{
    if s.len() == 0 {
        Seq::empty()
    } else {
        let c = s.last();
        escaped(s.drop_last()) + if c == '\\' || c == '"' {
            seq!['\\', c]
        } else {
            seq![c]
        }
    }
}

/// Escapes `\\` and `"` so the text can be shown between double quotes.
pub fn escape_texto(s: &str) -> (r: String)
    ensures
        r@ == escaped(s@),
{
    let v = str_chars(s);
    let mut out = String::new();
    let mut k: usize = 0;
    while k < v.len()
        invariant
            v@ == s@,
            0 <= k <= v@.len(),
            out@ == escaped(s@.take(k as int)),
        decreases v@.len() - k,
    {
        let c = v[k];
        let ghost before = out@;
        assert(s@.take(k + 1).drop_last() =~= s@.take(k as int));
        if c == '\\' || c == '"' {
            push_char(&mut out, '\\');
        }
        push_char(&mut out, c);
        proof {
            if c == '\\' || c == '"' {
                assert(out@ =~= before + seq!['\\', c]);
            } else {
                assert(out@ =~= before + seq![c]);
            }
        }
        k = k + 1;
    }
    assert(s@.take(v@.len() as int) =~= s@);
    out
}


/// `s` without any `sep`.
pub open spec fn without_sep(s: Seq<char>, sep: char) -> Seq<char>
    decreases s.len(),
{
    if s.len() == 0 {
        Seq::empty()
    } else {
        without_sep(s.drop_last(), sep) + if s.last() == sep {
            Seq::empty()
        } else {
            seq![s.last()]
        }
    }
}

proof fn lemma_without_sep_add(a: Seq<char>, b: Seq<char>, sep: char)
    ensures
        without_sep(a + b, sep) == without_sep(a, sep) + without_sep(b, sep),
    decreases b.len(),
{
    if b.len() == 0 {
        assert(a + b =~= a);
        assert(without_sep(a, sep) + Seq::<char>::empty() =~= without_sep(a, sep));
    } else {
        lemma_without_sep_add(a, b.drop_last(), sep);
        assert((a + b).drop_last() =~= a + b.drop_last());
        assert((a + b).last() == b.last());
        let tail = if b.last() == sep {
            Seq::<char>::empty()
        } else {
            seq![b.last()]
        };
        assert(without_sep(a, sep) + without_sep(b.drop_last(), sep) + tail =~= without_sep(a, sep)
            + (without_sep(b.drop_last(), sep) + tail));
    }
}

proof fn lemma_without_sep_absent(s: Seq<char>, sep: char)
    requires
        !s.contains(sep),
    ensures
        without_sep(s, sep) == s,
    decreases s.len(),
{
    if s.len() > 0 {
        assert(!s.drop_last().contains(sep)) by {
            if s.drop_last().contains(sep) {
                let i = choose|i: int| 0 <= i < s.drop_last().len() && s.drop_last()[i] == sep;
                assert(s[i] == sep);
            }
        }
        lemma_without_sep_absent(s.drop_last(), sep);
        assert(s.last() != sep) by {
            assert(s[s.len() - 1] == s.last());
        }
        assert(s.drop_last().push(s.last()) =~= s);
    }
}

/// Grouping loses no digit: taking the separators out again gives back the
/// digits (when the separator is not one of them).
pub proof fn law_grouping_keeps_digits(digits: Seq<char>, sep: char)
    requires
        !digits.contains(sep),
    ensures
        without_sep(grouped(digits, sep), sep) == digits,
    decreases digits.len(),
{
    if digits.len() <= 3 {
        lemma_without_sep_absent(digits, sep);
    } else {
        let t = digits.take(digits.len() - 3);
        let u = digits.skip(digits.len() - 3);
        assert(!t.contains(sep)) by {
            if t.contains(sep) {
                let i = choose|i: int| 0 <= i < t.len() && t[i] == sep;
                assert(digits[i] == sep);
            }
        }
        assert(!u.contains(sep)) by {
            if u.contains(sep) {
                let i = choose|i: int| 0 <= i < u.len() && u[i] == sep;
                assert(digits[digits.len() - 3 + i] == sep);
            }
        }
        law_grouping_keeps_digits(t, sep);
        lemma_without_sep_absent(u, sep);
        lemma_without_sep_add(grouped(t, sep) + seq![sep], u, sep);
        lemma_without_sep_add(grouped(t, sep), seq![sep], sep);
        assert(seq![sep].drop_last() =~= Seq::<char>::empty());
        assert(seq![sep].last() == sep);
        assert(without_sep(Seq::<char>::empty(), sep) == Seq::<char>::empty());
        assert(Seq::<char>::empty() + Seq::<char>::empty() =~= Seq::<char>::empty());
        assert(without_sep(seq![sep], sep) =~= Seq::<char>::empty());
        assert(t + u =~= digits);
        assert(t + Seq::<char>::empty() =~= t);
    }
}


// ── numbers written in text ─────────────────────────────────────────────

/// `c` is an ASCII digit other than `sep`.
pub open spec fn group_digit(c: char, sep: char) -> bool {
    is_ascii_digit(c) && c != sep
}

/// What the thousands test looks at: the number without its sign (a
/// leading `-`, then a `+`).
pub open spec fn thousands_subject(s: Seq<char>) -> Seq<char> {
    let s1 = if s.len() > 0 && s[0] == '-' {
        s.skip(1)
    } else {
        s
    };
    if s1.len() > 0 && s1[0] == '+' {
        s1.skip(1)
    } else {
        s1
    }
}

/// `r` is a run of groups, each `sep` and three digits.
pub open spec fn groups_of_three(r: Seq<char>, sep: char) -> bool
    decreases r.len(),
{
    if r.len() == 0 {
        true
    } else if r.len() < 4 {
        false
    } else {
        &&& r[0] == sep
        &&& group_digit(r[1], sep)
        &&& group_digit(r[2], sep)
        &&& group_digit(r[3], sep)
        &&& groups_of_three(r.skip(4), sep)
    }
}

/// `t` is `p` digits, then one or more groups of `sep` and three digits.
pub open spec fn thousands_at(t: Seq<char>, sep: char, p: int) -> bool {
    &&& p < t.len()
    &&& t[p] == sep
    &&& forall|i: int| 0 <= i < p ==> group_digit(#[trigger] t[i], sep)
    &&& groups_of_three(t.skip(p), sep)
}

/// `s` is digits in groups of three split by `sep` (`1.000`, `12.345.678`):
/// one to three digits, then at least one group.
pub open spec fn is_thousands(s: Seq<char>, sep: char) -> bool {
    let t = thousands_subject(s);
    thousands_at(t, sep, 1) || thousands_at(t, sep, 2) || thousands_at(t, sep, 3)
}

/// Whether `v` from `k` on is groups of `sep` and three digits.
fn groups_from(v: &Vec<char>, k: usize, sep: char) -> (b: bool)
    requires
        k <= v@.len(),
    ensures
        b == groups_of_three(v@.skip(k as int), sep),
{
    let n = v.len();
    let mut j: usize = k;
    while j < n
        invariant
            k <= j <= n,
            n == v@.len(),
            groups_of_three(v@.skip(k as int), sep) == groups_of_three(v@.skip(j as int), sep),
        decreases n - j,
    {
        let ghost r = v@.skip(j as int);
        assert(r.len() > 0);
        if n - j < 4 {
            return false;
        }
        assert(r[0] == v@[j as int] && r[1] == v@[j + 1] && r[2] == v@[j + 2] && r[3] == v@[j + 3]);
        if v[j] != sep || !ascii_digit(v[j + 1]) || v[j + 1] == sep || !ascii_digit(v[j + 2])
            || v[j + 2] == sep || !ascii_digit(v[j + 3]) || v[j + 3] == sep {
            return false;
        }
        assert(r.skip(4) =~= v@.skip(j + 4));
        j = j + 4;
    }
    assert(v@.skip(j as int).len() == 0);
    true
}

/// Whether `v` from `start` on is `q` digits and then groups.
fn thousands_at_check(v: &Vec<char>, start: usize, q: usize, sep: char) -> (b: bool)
    requires
        start <= v@.len(),
        1 <= q <= 3,
    ensures
        b == thousands_at(v@.skip(start as int), sep, q as int),
{
    let ghost t = v@.skip(start as int);
    let n = v.len();
    if n - start <= q {
        return false;
    }
    let p = start + q;
    assert(t[q as int] == v@[p as int]);
    if v[p] != sep {
        return false;
    }
    let mut i: usize = start;
    while i < p
        invariant
            start <= i <= p,
            p == start + q,
            p < n,
            n == v@.len(),
            t == v@.skip(start as int),
            forall|j: int| 0 <= j < i - start ==> group_digit(#[trigger] t[j], sep),
        decreases p - i,
    {
        assert(t[i - start] == v@[i as int]);
        if !ascii_digit(v[i]) || v[i] == sep {
            assert(!group_digit(t[i - start], sep));
            return false;
        }
        i = i + 1;
    }
    assert(t.skip(q as int) =~= v@.skip(p as int));
    groups_from(v, p, sep)
}

/// `s` is digits in groups of three split by `sep` (`1.000`, `12.345.678`):
/// one to three digits, then at least one group. The sign in front (a `-`,
/// then a `+`) is passed over.
pub fn looks_like_thousands(s: &str, sep: char) -> (b: bool)
    ensures
        b == is_thousands(s@, sep),
{
    let v = str_chars(s);
    let n = v.len();
    let s1: usize = if n > 0 && v[0] == '-' {
        1
    } else {
        0
    };
    let start: usize = if s1 < n && v[s1] == '+' {
        s1 + 1
    } else {
        s1
    };
    proof {
        let s1s = if s@.len() > 0 && s@[0] == '-' {
            s@.skip(1)
        } else {
            s@
        };
        assert(s1s =~= s@.skip(s1 as int));
        assert(thousands_subject(s@) =~= v@.skip(start as int));
    }
    thousands_at_check(&v, start, 1, sep) || thousands_at_check(&v, start, 2, sep)
        || thousands_at_check(&v, start, 3, sep)
}

/// The sign that stays in front of a number: `-`, or nothing.
pub open spec fn sign_of(s: Seq<char>) -> Seq<char> {
    if s.len() > 0 && s[0] == '-' {
        seq!['-']
    } else {
        Seq::empty()
    }
}

/// `s` without its leading `-` or `+`.
pub open spec fn unsigned(s: Seq<char>) -> Seq<char> {
    if s.len() > 0 && (s[0] == '-' || s[0] == '+') {
        s.skip(1)
    } else {
        s
    }
}

/// `s` with its group separators `sep` taken out, a `+` sign dropped: `None`
/// when `s` holds a `sep` without being grouped in thousands.
pub open spec fn thousands_stripped(s: Seq<char>, sep: char) -> Option<Seq<char>> {
    if s.contains(sep) && !is_thousands(s, sep) {
        None
    } else {
        Some(sign_of(s) + without_sep(unsigned(s), sep))
    }
}

/// Whether `c` is one of `v` from `k` on.
fn contains_from(v: &Vec<char>, k: usize, c: char) -> (b: bool)
    requires
        k <= v@.len(),
    ensures
        b == v@.skip(k as int).contains(c),
{
    let mut j: usize = k;
    while j < v.len()
        invariant
            k <= j <= v@.len(),
            forall|i: int| k <= i < j ==> v@[i] != c,
        decreases v@.len() - j,
    {
        if v[j] == c {
            assert(v@.skip(k as int)[j - k] == c);
            return true;
        }
        j = j + 1;
    }
    proof {
        if v@.skip(k as int).contains(c) {
            let i = choose|i: int| 0 <= i < v@.skip(k as int).len() && v@.skip(k as int)[i] == c;
            assert(v@[k + i] == c);
        }
    }
    false
}

/// Takes the group separators `sep` out of `s` and drops a `+` sign; `None`
/// when `s` holds a `sep` without being grouped in thousands.
pub fn strip_thousands(s: &str, sep: char) -> (r: Option<String>)
    ensures
        r.deep_view() == thousands_stripped(s@, sep),
{
    let v = str_chars(s);
    let n = v.len();
    assert(v@.skip(0) =~= v@);
    if contains_from(&v, 0, sep) && !looks_like_thousands(s, sep) {
        return None;
    }
    let mut out = String::new();
    if n > 0 && v[0] == '-' {
        push_char(&mut out, '-');
    }
    let i: usize = if n > 0 && (v[0] == '-' || v[0] == '+') {
        1
    } else {
        0
    };
    assert(out@ =~= sign_of(s@));
    assert(unsigned(s@) =~= v@.subrange(i as int, n as int));
    let mut j: usize = i;
    while j < n
        invariant
            i <= j <= n,
            n == v@.len(),
            v@ == s@,
            out@ == sign_of(s@) + without_sep(v@.subrange(i as int, j as int), sep),
        decreases n - j,
    {
        let ghost before = v@.subrange(i as int, j as int);
        assert(v@.subrange(i as int, j + 1).drop_last() =~= before);
        assert(v@.subrange(i as int, j + 1).last() == v@[j as int]);
        if v[j] != sep {
            push_char(&mut out, v[j]);
        }
        j = j + 1;
        proof {
            let tail = if v@[j - 1] == sep {
                Seq::<char>::empty()
            } else {
                seq![v@[j - 1]]
            };
            assert(without_sep(v@.subrange(i as int, j as int), sep) == without_sep(before, sep)
                + tail);
            assert(out@ =~= sign_of(s@) + without_sep(before, sep) + tail);
        }
    }
    Some(out)
}

/// `c` occurs at most once in `s`.
pub open spec fn at_most_once(s: Seq<char>, c: char) -> bool {
    forall|i: int, j: int| 0 <= i < j < s.len() && #[trigger] s[i] == c ==> #[trigger] s[j] != c
}

/// Where `c` stands in `s` (the one place, when it occurs just once).
pub open spec fn place_of(s: Seq<char>, c: char) -> int {
    choose|i: int| 0 <= i < s.len() && s[i] == c
}

/// Where the last `c` of `s` stands.
pub open spec fn last_place_of(s: Seq<char>, c: char) -> int {
    choose|i: int| 0 <= i < s.len() && s[i] == c && !s.skip(i + 1).contains(c)
}

proof fn lemma_place_of(s: Seq<char>, c: char, i: int)
    requires
        at_most_once(s, c),
        0 <= i < s.len(),
        s[i] == c,
    ensures
        place_of(s, c) == i,
{
    let j = place_of(s, c);
    assert(0 <= j < s.len() && s[j] == c);
    if j < i {
        assert(s[j] == c ==> s[i] != c);
    } else if i < j {
        assert(s[i] == c ==> s[j] != c);
    }
}

proof fn lemma_last_place_of(s: Seq<char>, c: char, i: int)
    requires
        0 <= i < s.len(),
        s[i] == c,
        forall|j: int| i < j < s.len() ==> s[j] != c,
    ensures
        last_place_of(s, c) == i,
{
    assert(!s.skip(i + 1).contains(c)) by {
        if s.skip(i + 1).contains(c) {
            let t = s.skip(i + 1);
            let k = choose|k: int| 0 <= k < t.len() && t[k] == c;
            assert(s[i + 1 + k] == c);
        }
    }
    let j = last_place_of(s, c);
    assert(0 <= j < s.len() && s[j] == c && !s.skip(j + 1).contains(c));
    if j < i {
        assert(s.skip(j + 1)[i - j - 1] == c);
    }
}

/// Every character of `s` is an ASCII digit.
pub open spec fn all_ascii_digits(s: Seq<char>) -> bool {
    forall|i: int| 0 <= i < s.len() ==> is_ascii_digit(#[trigger] s[i])
}

/// A number as `pt` writes it (`1.000,5`), with `.` for the decimal point
/// and no group separators; `3.14`, as code writes it, is taken as it is.
pub open spec fn pt_br_text(s: Seq<char>) -> Option<Seq<char>> {
    if !at_most_once(s, ',') {
        None
    } else if s.contains(',') {
        let i = place_of(s, ',');
        let right = s.skip(i + 1);
        if right.len() == 0 || !all_ascii_digits(right) {
            None
        } else {
            match thousands_stripped(s.take(i), '.') {
                Some(l) => Some(l + seq!['.'] + right),
                None => None,
            }
        }
    } else if is_thousands(s, '.') {
        thousands_stripped(s, '.')
    } else if !at_most_once(s, '.') {
        None
    } else {
        Some(s)
    }
}

/// A number as `en` writes it (`1,000.5`), with no group separators.
pub open spec fn en_us_text(s: Seq<char>) -> Option<Seq<char>> {
    if !at_most_once(s, '.') {
        None
    } else if s.contains(',') {
        let lc = last_place_of(s, ',');
        if !s.skip(lc + 1).contains('.') && is_thousands(s, ',') {
            thousands_stripped(s, ',')
        } else if s.contains('.') {
            let d = place_of(s, '.');
            match thousands_stripped(s.take(d), ',') {
                Some(l) => Some(l + seq!['.'] + s.skip(d + 1)),
                None => None,
            }
        } else {
            thousands_stripped(s, ',')
        }
    } else {
        Some(s)
    }
}

/// `s` without `_` and spaces.
pub open spec fn without_blanks(s: Seq<char>) -> Seq<char>
    decreases s.len(),
{
    if s.len() == 0 {
        Seq::empty()
    } else {
        without_blanks(s.drop_last()) + if s.last() == '_' || s.last() == ' ' {
            Seq::empty()
        } else {
            seq![s.last()]
        }
    }
}

/// The number in `raw`, as the pattern `loc` reads it, written the way a
/// decimal parser takes it: `None` when the text is blank or the pattern
/// rules it out.
pub open spec fn decimal_text_of(loc: NumeroLocale, raw: Seq<char>) -> Option<Seq<char>> {
    let t = trimmed(raw);
    if t.len() == 0 {
        None
    } else {
        let s = without_blanks(t);
        match loc {
            NumeroLocale::PtBr => pt_br_text(s),
            NumeroLocale::EnUs => en_us_text(s),
        }
    }
}

/// Whether `c` occurs at most once in `v`, and where first.
fn first_place(v: &Vec<char>, c: char) -> (r: (bool, Option<usize>))
    ensures
        r.0 == at_most_once(v@, c),
        r.1 is None <==> !v@.contains(c),
        r.1 matches Some(i) ==> i < v@.len() && v@[i as int] == c && forall|j: int|
            0 <= j < i ==> v@[j] != c,
{
    let n = v.len();
    let mut first: Option<usize> = None;
    let mut i: usize = 0;
    while i < n
        invariant
            0 <= i <= n,
            n == v@.len(),
            first is None ==> forall|j: int| 0 <= j < i ==> v@[j] != c,
            first matches Some(f) ==> f < i && v@[f as int] == c && forall|j: int|
                0 <= j < i && j != f ==> v@[j] != c,
        decreases n - i,
    {
        if v[i] == c {
            if let Some(f) = first {
                proof {
                    assert(v@[f as int] == c && v@[i as int] == c);
                    assert(!at_most_once(v@, c));
                }
                return (false, Some(f));
            }
            first = Some(i);
        }
        i = i + 1;
    }
    proof {
        assert forall|a: int, b: int| 0 <= a < b < v@.len() && #[trigger] v@[a] == c implies #[trigger] v@[b]
            != c by {}
        if let Some(f) = first {
            assert(v@.contains(c)) by {
                assert(v@[f as int] == c);
            }
        } else {
            assert(!v@.contains(c)) by {
                if v@.contains(c) {
                    let k = choose|k: int| 0 <= k < v@.len() && v@[k] == c;
                    assert(v@[k] != c);
                }
            }
        }
    }
    (true, first)
}

/// The last place of `c` in `v`.
fn last_place(v: &Vec<char>, c: char) -> (r: Option<usize>)
    ensures
        r is None <==> !v@.contains(c),
        r matches Some(i) ==> i < v@.len() && v@[i as int] == c && forall|j: int|
            i < j < v@.len() ==> v@[j] != c,
{
    let mut k: usize = v.len();
    while k > 0
        invariant
            0 <= k <= v@.len(),
            forall|j: int| k <= j < v@.len() ==> v@[j] != c,
        decreases k,
    {
        if v[k - 1] == c {
            return Some(k - 1);
        }
        k = k - 1;
    }
    proof {
        if v@.contains(c) {
            let j = choose|j: int| 0 <= j < v@.len() && v@[j] == c;
            assert(v@[j] != c);
        }
    }
    None
}

/// Whether `s` is all ASCII digits.
fn digits_only(s: &str) -> (b: bool)
    ensures
        b == all_ascii_digits(s@),
{
    let v = str_chars(s);
    let mut k: usize = 0;
    while k < v.len()
        invariant
            0 <= k <= v@.len(),
            v@ == s@,
            forall|j: int| 0 <= j < k ==> is_ascii_digit(#[trigger] v@[j]),
        decreases v@.len() - k,
    {
        if !ascii_digit(v[k]) {
            return false;
        }
        k = k + 1;
    }
    true
}

/// The one text form `pt` gives a cleaned number.
fn pt_br_decimal(s: &str) -> (r: Option<String>)
    ensures
        r.deep_view() == pt_br_text(s@),
{
    let v = str_chars(s);
    let n = v.len();
    let (once, comma) = first_place(&v, ',');
    if !once {
        return None;
    }
    match comma {
        Some(i) => {
            proof {
                lemma_place_of(s@, ',', i as int);
            }
            let right = chars_string(&v, i + 1, n);
            assert(right@ =~= s@.skip(i + 1));
            if n - (i + 1) == 0 || !digits_only(right.as_str()) {
                return None;
            }
            let left = chars_string(&v, 0, i);
            assert(left@ =~= s@.take(i as int));
            match strip_thousands(left.as_str(), '.') {
                Some(mut l) => {
                    push_char(&mut l, '.');
                    push_str(&mut l, right.as_str());
                    Some(l)
                },
                None => None,
            }
        },
        None => {
            if looks_like_thousands(s, '.') {
                strip_thousands(s, '.')
            } else {
                let (dot_once, _) = first_place(&v, '.');
                if dot_once {
                    Some(s.to_owned())
                } else {
                    None
                }
            }
        },
    }
}

/// The one text form `en` gives a cleaned number.
fn en_us_decimal(s: &str) -> (r: Option<String>)
    ensures
        r.deep_view() == en_us_text(s@),
{
    let v = str_chars(s);
    let n = v.len();
    let (dot_once, dot) = first_place(&v, '.');
    if !dot_once {
        return None;
    }
    match last_place(&v, ',') {
        None => Some(s.to_owned()),
        Some(lc) => {
            proof {
                lemma_last_place_of(s@, ',', lc as int);
            }
            if !contains_from(&v, lc + 1, '.') && looks_like_thousands(s, ',') {
                return strip_thousands(s, ',');
            }
            match dot {
                Some(d) => {
                    proof {
                        lemma_place_of(s@, '.', d as int);
                    }
                    let left = chars_string(&v, 0, d);
                    assert(left@ =~= s@.take(d as int));
                    let right = chars_string(&v, d + 1, n);
                    assert(right@ =~= s@.skip(d + 1));
                    match strip_thousands(left.as_str(), ',') {
                        Some(mut l) => {
                            push_char(&mut l, '.');
                            push_str(&mut l, right.as_str());
                            Some(l)
                        },
                        None => None,
                    }
                },
                None => strip_thousands(s, ','),
            }
        },
    }
}

/// Every character of `d` is a digit other than `sep`.
pub open spec fn group_digits(d: Seq<char>, sep: char) -> bool {
    forall|i: int| 0 <= i < d.len() ==> group_digit(#[trigger] d[i], sep)
}

/// How many digits `grouped` leaves in front of the first separator.
pub open spec fn lead_len(n: int) -> int {
    if n % 3 == 0 {
        3
    } else {
        n % 3
    }
}

proof fn lemma_groups_concat(x: Seq<char>, y: Seq<char>, sep: char)
    requires
        groups_of_three(x, sep),
        groups_of_three(y, sep),
    ensures
        groups_of_three(x + y, sep),
    decreases x.len(),
{
    if x.len() == 0 {
        assert(x + y =~= y);
    } else {
        lemma_groups_concat(x.skip(4), y, sep);
        assert((x + y).skip(4) =~= x.skip(4) + y);
        assert((x + y)[0] == x[0] && (x + y)[1] == x[1] && (x + y)[2] == x[2] && (x + y)[3] == x[3]);
    }
}

/// `grouped(d)` is the lead digits of `d`, then a run of whole groups.
proof fn lemma_grouped_shape(d: Seq<char>, sep: char)
    requires
        d.len() >= 1,
        group_digits(d, sep),
    ensures
        1 <= lead_len(d.len() as int) <= 3,
        lead_len(d.len() as int) <= d.len(),
        grouped(d, sep).len() >= lead_len(d.len() as int),
        grouped(d, sep).take(lead_len(d.len() as int)) == d.take(lead_len(d.len() as int)),
        groups_of_three(grouped(d, sep).skip(lead_len(d.len() as int)), sep),
        d.len() > 3 ==> grouped(d, sep).len() > lead_len(d.len() as int),
    decreases d.len(),
{
    let f = lead_len(d.len() as int);
    if d.len() <= 3 {
        assert(grouped(d, sep).skip(f).len() == 0);
    } else {
        let d1 = d.take(d.len() - 3);
        let last = d.skip(d.len() - 3);
        assert(group_digits(d1, sep)) by {
            assert forall|i: int| 0 <= i < d1.len() implies group_digit(#[trigger] d1[i], sep) by {
                assert(d1[i] == d[i]);
            }
        }
        assert(lead_len(d1.len() as int) == f);
        lemma_grouped_shape(d1, sep);
        let g1 = grouped(d1, sep);
        let g = grouped(d, sep);
        assert(g == g1 + seq![sep] + last);
        let tail = seq![sep] + last;
        assert(last[0] == d[d.len() - 3] && last[1] == d[d.len() - 2] && last[2] == d[d.len() - 1]);
        assert(tail.skip(4) =~= Seq::<char>::empty());
        assert(groups_of_three(tail.skip(4), sep));
        assert(tail.len() == 4 && tail[0] == sep && tail[1] == last[0] && tail[2] == last[1]
            && tail[3] == last[2]);
        assert(group_digit(d[d.len() - 3], sep) && group_digit(d[d.len() - 2], sep) && group_digit(
            d[d.len() - 1],
            sep,
        ));
        assert(groups_of_three(tail, sep));
        lemma_groups_concat(g1.skip(f), tail, sep);
        assert(g.skip(f) =~= g1.skip(f) + tail);
        assert(g.take(f) =~= g1.take(f));
        assert(d1.take(f) =~= d.take(f));
    }
}

/// Reading back what `group_thousands` wrote: the grouped digits pass the
/// thousands test, and taking the separators out gives the digits again.
pub proof fn law_strip_undoes_grouping(digits: Seq<char>, sep: char)
    requires
        digits.len() >= 1,
        group_digits(digits, sep),
    ensures
        thousands_stripped(grouped(digits, sep), sep) == Some(digits),
{
    let g = grouped(digits, sep);
    let f = lead_len(digits.len() as int);
    lemma_grouped_shape(digits, sep);
    assert(!digits.contains(sep)) by {
        if digits.contains(sep) {
            let i = choose|i: int| 0 <= i < digits.len() && digits[i] == sep;
            assert(group_digit(digits[i], sep));
        }
    }
    law_grouping_keeps_digits(digits, sep);
    assert(g[0] == digits[0]) by {
        assert(g.take(f)[0] == digits.take(f)[0]);
    }
    assert(group_digit(digits[0], sep));
    assert(thousands_subject(g) == g);
    assert(sign_of(g) =~= Seq::<char>::empty());
    assert(unsigned(g) == g);
    if digits.len() > 3 {
        assert forall|i: int| 0 <= i < f implies group_digit(#[trigger] g[i], sep) by {
            assert(g.take(f)[i] == digits.take(f)[i]);
            assert(group_digit(digits[i], sep));
        }
        assert(g.skip(f)[0] == g[f]);
        assert(g[f] == sep);
        assert(thousands_at(g, sep, f));
        assert(is_thousands(g, sep));
    } else {
        assert(g == digits);
    }
    assert(Seq::<char>::empty() + digits =~= digits);
}

/// The separator `loc` puts between groups of three digits.
pub open spec fn group_sep(loc: NumeroLocale) -> char {
    match loc {
        NumeroLocale::PtBr => '.',
        NumeroLocale::EnUs => ',',
    }
}

/// The separator `loc` puts before the decimals.
pub open spec fn decimal_sep(loc: NumeroLocale) -> char {
    match loc {
        NumeroLocale::PtBr => ',',
        NumeroLocale::EnUs => '.',
    }
}

/// A number as `loc` writes it: the whole part in groups of three, then the
/// decimals, if there are any, after the decimal separator.
pub open spec fn written_number(loc: NumeroLocale, whole: Seq<char>, decimals: Seq<char>) -> Seq<
    char,
> {
    grouped(whole, group_sep(loc)) + if decimals.len() == 0 {
        Seq::empty()
    } else {
        seq![decimal_sep(loc)] + decimals
    }
}

/// The same number as a decimal parser takes it.
pub open spec fn plain_number(whole: Seq<char>, decimals: Seq<char>) -> Seq<char> {
    whole + if decimals.len() == 0 {
        Seq::empty()
    } else {
        seq!['.'] + decimals
    }
}

proof fn lemma_grouped_chars(d: Seq<char>, sep: char)
    requires
        group_digits(d, sep),
    ensures
        forall|i: int|
            0 <= i < grouped(d, sep).len() ==> #[trigger] grouped(d, sep)[i] == sep || group_digit(
                grouped(d, sep)[i],
                sep,
            ),
        d.len() >= 1 ==> grouped(d, sep).len() >= 1 && grouped(d, sep)[grouped(d, sep).len() - 1]
            == d[d.len() - 1],
    decreases d.len(),
{
    if d.len() > 3 {
        let d1 = d.take(d.len() - 3);
        assert(group_digits(d1, sep)) by {
            assert forall|i: int| 0 <= i < d1.len() implies group_digit(#[trigger] d1[i], sep) by {
                assert(d1[i] == d[i]);
            }
        }
        lemma_grouped_chars(d1, sep);
        let g1 = grouped(d1, sep);
        let last = d.skip(d.len() - 3);
        let g = grouped(d, sep);
        assert(g == g1 + seq![sep] + last);
        assert forall|i: int| 0 <= i < g.len() implies #[trigger] g[i] == sep || group_digit(
            g[i],
            sep,
        ) by {
            if i < g1.len() {
                assert(g[i] == g1[i]);
            } else if i > g1.len() {
                assert(g[i] == last[i - g1.len() - 1]);
                assert(last[i - g1.len() - 1] == d[d.len() - 3 + (i - g1.len() - 1)]);
            }
        }
        assert(g[g.len() - 1] == last[2]);
    }
}

proof fn lemma_without_blanks_absent(s: Seq<char>)
    requires
        forall|i: int| 0 <= i < s.len() ==> #[trigger] s[i] != '_' && s[i] != ' ',
    ensures
        without_blanks(s) == s,
    decreases s.len(),
{
    if s.len() > 0 {
        lemma_without_blanks_absent(s.drop_last());
        assert(s.last() == s[s.len() - 1]);
        assert(s.drop_last().push(s.last()) =~= s);
    }
}

/// The last group separator of a grouped number of more than three digits
/// stands four places from its end.
proof fn lemma_grouped_last_sep(d: Seq<char>, sep: char)
    requires
        d.len() > 3,
        group_digits(d, sep),
    ensures
        grouped(d, sep).len() >= 4,
        grouped(d, sep)[grouped(d, sep).len() - 4] == sep,
        forall|j: int|
            grouped(d, sep).len() - 4 < j < grouped(d, sep).len() ==> group_digit(
                #[trigger] grouped(d, sep)[j],
                sep,
            ),
{
    let d1 = d.take(d.len() - 3);
    let g1 = grouped(d1, sep);
    let last = d.skip(d.len() - 3);
    let g = grouped(d, sep);
    assert(g == g1 + seq![sep] + last);
    assert forall|j: int| g.len() - 4 < j < g.len() implies group_digit(#[trigger] g[j], sep) by {
        assert(g[j] == last[j - g1.len() - 1]);
        assert(last[j - g1.len() - 1] == d[d.len() - 3 + (j - g1.len() - 1)]);
    }
}

/// Reading back what a pattern writes: a number written by `loc` (its
/// whole part in groups of three, its decimals after the decimal separator)
/// is read by the same pattern as the plain digits, with `.` before the
/// decimals.
#[verifier::spinoff_prover]
#[verifier::rlimit(40)]
pub proof fn law_decimal_text_reads_written(
    loc: NumeroLocale,
    whole: Seq<char>,
    decimals: Seq<char>,
)
    requires
        whole.len() >= 1,
        all_ascii_digits(whole),
        all_ascii_digits(decimals),
    ensures
        decimal_text_of(loc, written_number(loc, whole, decimals)) == Some(
            plain_number(whole, decimals),
        ),
{
    let gs = group_sep(loc);
    let ds = decimal_sep(loc);
    let g = grouped(whole, gs);
    let tail = if decimals.len() == 0 {
        Seq::<char>::empty()
    } else {
        seq![ds] + decimals
    };
    let w = written_number(loc, whole, decimals);
    assert(w == g + tail);
    assert(group_digits(whole, gs)) by {
        assert forall|i: int| 0 <= i < whole.len() implies group_digit(#[trigger] whole[i], gs) by {
            assert(is_ascii_digit(whole[i]));
        }
    }
    lemma_grouped_chars(whole, gs);
    lemma_grouped_shape(whole, gs);
    law_strip_undoes_grouping(whole, gs);
    let f = lead_len(whole.len() as int);
    assert(g[0] == whole[0]) by {
        assert(g.take(f)[0] == whole.take(f)[0]);
    }
    assert(is_ascii_digit(whole[0]));
    // where each kind of character can stand in `w`
    assert forall|i: int| 0 <= i < g.len() implies #[trigger] w[i] == g[i] && (w[i] == gs
        || is_ascii_digit(w[i])) by {
        assert(g[i] == gs || group_digit(g[i], gs));
    }
    assert forall|i: int| g.len() < i < w.len() implies is_ascii_digit(#[trigger] w[i]) by {
        assert(w[i] == decimals[i - g.len() - 1]);
    }
    assert(decimals.len() > 0 ==> w[g.len() as int] == ds);
    assert(w.len() == g.len() + tail.len());
    // nothing to trim and no blanks
    assert(!is_white_space(w[0]));
    assert(!is_white_space(w[w.len() - 1])) by {
        if decimals.len() == 0 {
            assert(w[w.len() - 1] == g[g.len() - 1]);
            assert(is_ascii_digit(whole[whole.len() - 1]));
        } else {
            assert(w[w.len() - 1] == decimals[decimals.len() - 1]);
        }
    }
    assert(trimmed(w) =~= w);
    assert forall|i: int| 0 <= i < w.len() implies #[trigger] w[i] != '_' && w[i] != ' ' by {
        if i < g.len() {
            assert(w[i] == g[i]);
        } else if i > g.len() {
        }
    }
    lemma_without_blanks_absent(w);
    // the decimal separator stands only between the parts; `gs` only in `g`
    assert(at_most_once(w, ds)) by {
        assert forall|i: int, j: int| 0 <= i < j < w.len() && #[trigger] w[i] == ds implies #[trigger] w[j]
            != ds by {
            if i < g.len() {
                assert(w[i] == g[i]);
            }
        }
    }
    assert(w.take(g.len() as int) =~= g);
    let long = whole.len() > 3;
    if !long {
        assert(g == whole);
        assert(!g.contains(gs)) by {
            if g.contains(gs) {
                let k = choose|k: int| 0 <= k < g.len() && g[k] == gs;
                assert(is_ascii_digit(whole[k]));
            }
        }
    }
    if decimals.len() > 0 {
        assert(w.contains(ds)) by {
            assert(w[g.len() as int] == ds);
        }
        lemma_place_of(w, ds, g.len() as int);
        assert(w.skip(g.len() as int + 1) =~= decimals);
    }
    assert(plain_number(whole, decimals) == whole + if decimals.len() == 0 {
        Seq::<char>::empty()
    } else {
        seq!['.'] + decimals
    });
    match loc {
        NumeroLocale::PtBr => {
            if decimals.len() > 0 {
                assert(all_ascii_digits(w.skip(g.len() as int + 1)));
                assert(thousands_stripped(w.take(g.len() as int), '.') == Some(whole));
                assert(whole + seq!['.'] + decimals =~= whole + (seq!['.'] + decimals));
            } else {
                assert(w =~= g);
                assert(!w.contains(',')) by {
                    if w.contains(',') {
                        let k = choose|k: int| 0 <= k < w.len() && w[k] == ',';
                        assert(w[k] == g[k]);
                    }
                }
                if long {
                    assert(thousands_at(g, '.', f));
                } else {
                    assert(!is_thousands(g, '.')) by {
                        assert(thousands_subject(g) == g);
                    }
                    assert(at_most_once(w, '.'));
                }
                assert(whole + Seq::<char>::empty() =~= whole);
            }
        },
        NumeroLocale::EnUs => {
            if long {
                lemma_grouped_last_sep(whole, ',');
                let lc = g.len() - 4;
                assert(w[lc] == ',');
                assert forall|j: int| lc < j < w.len() implies w[j] != ',' by {
                    if j < g.len() {
                        assert(w[j] == g[j]);
                        assert(group_digit(g[j], ','));
                    } else if j > g.len() {
                    }
                }
                lemma_last_place_of(w, ',', lc);
                assert(w.contains(',')) by {
                    assert(w[lc] == ',');
                }
                if decimals.len() > 0 {
                    assert(w.skip(lc + 1)[3] == '.');
                    assert(w.skip(lc + 1).contains('.'));
                    assert(thousands_stripped(w.take(g.len() as int), ',') == Some(whole));
                    assert(whole + seq!['.'] + decimals =~= whole + (seq!['.'] + decimals));
                } else {
                    assert(w =~= g);
                    assert(!w.skip(lc + 1).contains('.')) by {
                        let r = w.skip(lc + 1);
                        if r.contains('.') {
                            let k = choose|k: int| 0 <= k < r.len() && r[k] == '.';
                            assert(w[lc + 1 + k] == '.');
                        }
                    }
                    assert(thousands_at(g, ',', f));
                    assert(whole + Seq::<char>::empty() =~= whole);
                }
            } else {
                assert(!w.contains(',')) by {
                    if w.contains(',') {
                        let k = choose|k: int| 0 <= k < w.len() && w[k] == ',';
                        if k < g.len() {
                            assert(w[k] == g[k]);
                        }
                    }
                }
                assert(w =~= plain_number(whole, decimals));
            }
        },
    }
}

/// The text of a number laid out by `loc` (or as code writes it, for
/// `None`), from its sign and the plain text `raw` of its size (`1234.5`):
/// the whole part in groups of three, the pattern's decimal separator.
pub open spec fn localized_text(loc: Option<NumeroLocale>, negative: bool, raw: Seq<char>) -> Seq<
    char,
> {
    let body = match loc {
        None => raw,
        Some(l) => if raw.contains('.') {
            let p = place_of(raw, '.');
            grouped(raw.take(p), group_sep(l)) + seq![decimal_sep(l)] + raw.skip(p + 1)
        } else {
            grouped(raw, group_sep(l))
        },
    };
    if negative {
        seq!['-'] + body
    } else {
        body
    }
}

/// Lays out a number from its sign and the plain text `raw` of its size
/// (digits, and `.` before the decimals, if any): for a pattern, the whole
/// part in groups of three and the pattern's decimal separator; for `None`,
/// as code writes it.
pub fn localize_digits(loc: Option<NumeroLocale>, negative: bool, raw: &str) -> (r: String)
    requires
        at_most_once(raw@, '.'),
    ensures
        r@ == localized_text(loc, negative, raw@),
{
    let v = str_chars(raw);
    let n = v.len();
    let mut out = String::new();
    if negative {
        push_char(&mut out, '-');
    }
    let ghost sign = out@;
    match loc {
        None => {
            push_str(&mut out, raw);
        },
        Some(l) => {
            let (thou, dec) = match l {
                NumeroLocale::PtBr => ('.', ','),
                NumeroLocale::EnUs => (',', '.'),
            };
            let (_, dot) = first_place(&v, '.');
            match dot {
                Some(p) => {
                    proof {
                        lemma_place_of(raw@, '.', p as int);
                    }
                    let int_part = chars_string(&v, 0, p);
                    assert(int_part@ =~= raw@.take(p as int));
                    let frac = chars_string(&v, p + 1, n);
                    assert(frac@ =~= raw@.skip(p + 1));
                    let g = group_thousands(int_part.as_str(), thou);
                    push_str(&mut out, g.as_str());
                    push_char(&mut out, dec);
                    push_str(&mut out, frac.as_str());
                },
                None => {
                    let g = group_thousands(raw, thou);
                    push_str(&mut out, g.as_str());
                },
            }
        },
    }
    proof {
        let body = localized_text(loc, false, raw@);
        assert(out@ =~= sign + body);
        if negative {
            assert(sign =~= seq!['-']);
        } else {
            assert(sign =~= Seq::<char>::empty());
        }
    }
    out
}

/// The text a pattern lays out for the number `whole.decimals` is what
/// `written_number` describes.
proof fn lemma_localized_is_written(loc: NumeroLocale, whole: Seq<char>, decimals: Seq<char>)
    requires
        all_ascii_digits(whole),
        all_ascii_digits(decimals),
    ensures
        localized_text(Some(loc), false, plain_number(whole, decimals)) == written_number(
            loc,
            whole,
            decimals,
        ),
{
    let raw = plain_number(whole, decimals);
    if decimals.len() == 0 {
        assert(raw =~= whole);
        assert(!raw.contains('.')) by {
            if raw.contains('.') {
                let k = choose|k: int| 0 <= k < raw.len() && raw[k] == '.';
                assert(is_ascii_digit(whole[k]));
            }
        }
        assert(grouped(whole, group_sep(loc)) + Seq::<char>::empty() =~= grouped(
            whole,
            group_sep(loc),
        ));
    } else {
        assert(raw[whole.len() as int] == '.');
        assert(at_most_once(raw, '.')) by {
            assert forall|i: int, j: int| 0 <= i < j < raw.len() && #[trigger] raw[i] == '.' implies #[trigger] raw[j]
                != '.' by {
                if i < whole.len() {
                    assert(is_ascii_digit(whole[i]));
                } else if j > whole.len() {
                    assert(raw[j] == decimals[j - whole.len() - 1]);
                    assert(is_ascii_digit(decimals[j - whole.len() - 1]));
                }
            }
        }
        lemma_place_of(raw, '.', whole.len() as int);
        assert(raw.take(whole.len() as int) =~= whole);
        assert(raw.skip(whole.len() as int + 1) =~= decimals);
        assert(grouped(whole, group_sep(loc)) + seq![decimal_sep(loc)] + decimals =~= grouped(
            whole,
            group_sep(loc),
        ) + (seq![decimal_sep(loc)] + decimals));
    }
}

/// The shape of what a pattern writes: a digit first, no white space at
/// either end, no `_` or space anywhere.
proof fn lemma_written_shape(loc: NumeroLocale, whole: Seq<char>, decimals: Seq<char>)
    requires
        whole.len() >= 1,
        all_ascii_digits(whole),
        all_ascii_digits(decimals),
    ensures
        written_number(loc, whole, decimals).len() > 0,
        is_ascii_digit(written_number(loc, whole, decimals)[0]),
        !is_white_space(
            written_number(loc, whole, decimals)[written_number(loc, whole, decimals).len() - 1],
        ),
        forall|i: int|
            0 <= i < written_number(loc, whole, decimals).len() ==> #[trigger] written_number(
                loc,
                whole,
                decimals,
            )[i] != '_' && written_number(loc, whole, decimals)[i] != ' ',
{
    let gs = group_sep(loc);
    let ds = decimal_sep(loc);
    let g = grouped(whole, gs);
    let tail = if decimals.len() == 0 {
        Seq::<char>::empty()
    } else {
        seq![ds] + decimals
    };
    let w = written_number(loc, whole, decimals);
    assert(w == g + tail);
    assert(group_digits(whole, gs)) by {
        assert forall|i: int| 0 <= i < whole.len() implies group_digit(#[trigger] whole[i], gs) by {
            assert(is_ascii_digit(whole[i]));
        }
    }
    lemma_grouped_chars(whole, gs);
    lemma_grouped_shape(whole, gs);
    let f = lead_len(whole.len() as int);
    assert(g[0] == whole[0]) by {
        assert(g.take(f)[0] == whole.take(f)[0]);
    }
    assert(is_ascii_digit(whole[0]));
    assert(w[0] == g[0]);
    assert(!is_white_space(w[w.len() - 1])) by {
        if decimals.len() == 0 {
            assert(w[w.len() - 1] == g[g.len() - 1]);
            assert(is_ascii_digit(whole[whole.len() - 1]));
        } else {
            assert(w[w.len() - 1] == decimals[decimals.len() - 1]);
        }
    }
    assert forall|i: int| 0 <= i < w.len() implies #[trigger] w[i] != '_' && w[i] != ' ' by {
        if i < g.len() {
            assert(w[i] == g[i]);
            assert(g[i] == gs || group_digit(g[i], gs));
        } else if i > g.len() {
            assert(w[i] == decimals[i - g.len() - 1]);
        }
    }
}

/// `-` in front of `w`.
pub open spec fn negated(w: Seq<char>) -> Seq<char> {
    seq!['-'] + w
}

/// `-` in front of what `o` holds, if anything.
pub open spec fn negated_opt(o: Option<Seq<char>>) -> Option<Seq<char>> {
    match o {
        Some(x) => Some(negated(x)),
        None => None,
    }
}

proof fn lemma_neg_chars(w: Seq<char>, c: char)
    requires
        c != '-',
    ensures
        negated(w).contains(c) == w.contains(c),
        at_most_once(negated(w), c) == at_most_once(w, c),
{
    let n = negated(w);
    assert forall|i: int| 0 <= i < w.len() implies #[trigger] n[i + 1] == w[i] by {}
    if n.contains(c) {
        let i = choose|i: int| 0 <= i < n.len() && n[i] == c;
        assert(w[i - 1] == c);
    }
    if w.contains(c) {
        let i = choose|i: int| 0 <= i < w.len() && w[i] == c;
        assert(n[i + 1] == c);
    }
    if at_most_once(w, c) {
        assert forall|i: int, j: int| 0 <= i < j < n.len() && #[trigger] n[i] == c implies #[trigger] n[j]
            != c by {
            assert(n[i] == w[i - 1]);
            assert(n[j] == w[j - 1]);
            assert(w[i - 1] == c ==> w[j - 1] != c);
        }
    }
    if at_most_once(n, c) {
        assert forall|i: int, j: int| 0 <= i < j < w.len() && #[trigger] w[i] == c implies #[trigger] w[j]
            != c by {
            assert(n[i + 1] == w[i]);
            assert(n[j + 1] == w[j]);
            assert(n[i + 1] == c ==> n[j + 1] != c);
        }
    }
}

/// A `-` in front of an unsigned number stays in front of it when group
/// separators are taken out.
proof fn lemma_stripped_neg(l: Seq<char>, sep: char)
    requires
        l.len() > 0,
        l[0] != '-',
        l[0] != '+',
        sep != '-',
    ensures
        thousands_stripped(negated(l), sep) == negated_opt(thousands_stripped(l, sep)),
{
    let n = negated(l);
    lemma_neg_chars(l, sep);
    assert(n.skip(1) =~= l);
    assert(thousands_subject(n) == l);
    assert(thousands_subject(l) == l);
    assert(sign_of(n) == seq!['-']);
    assert(sign_of(l) =~= Seq::<char>::empty());
    assert(unsigned(n) == l);
    assert(unsigned(l) == l);
    assert(Seq::<char>::empty() + without_sep(l, sep) =~= without_sep(l, sep));
}

/// What `pt` reads of an unsigned number with a `-` in front is that `-` in
/// front of what it reads of the number.
#[verifier::spinoff_prover]
proof fn lemma_neg_pt(w: Seq<char>)
    requires
        w.len() > 0,
        is_ascii_digit(w[0]),
    ensures
        pt_br_text(negated(w)) == negated_opt(pt_br_text(w)),
{
    let n = negated(w);
    assert forall|i: int| 0 <= i < w.len() implies #[trigger] n[i + 1] == w[i] by {}
    lemma_neg_chars(w, ',');
    lemma_neg_chars(w, '.');
    assert(thousands_subject(n) == w) by {
        assert(n.skip(1) =~= w);
    }
    assert(thousands_subject(w) == w);
    assert(is_thousands(n, '.') == is_thousands(w, '.'));
    lemma_stripped_neg(w, '.');
    if at_most_once(w, ',') && w.contains(',') {
        let i = place_of(w, ',');
        assert(0 <= i < w.len() && w[i] == ',');
        assert(i >= 1);
        lemma_place_of(n, ',', i + 1);
        assert(n.skip(i + 2) =~= w.skip(i + 1));
        assert(n.take(i + 1) =~= negated(w.take(i)));
        lemma_stripped_neg(w.take(i), '.');
        match thousands_stripped(w.take(i), '.') {
            Some(l) => {
                assert(negated(l) + seq!['.'] + w.skip(i + 1) =~= negated(
                    l + seq!['.'] + w.skip(i + 1),
                ));
            },
            None => {},
        }
    }
}

/// What `en` reads of an unsigned number with a `-` in front is that `-` in
/// front of what it reads of the number.
#[verifier::spinoff_prover]
#[verifier::rlimit(50)]
proof fn lemma_neg_en(w: Seq<char>)
    requires
        w.len() > 0,
        is_ascii_digit(w[0]),
    ensures
        en_us_text(negated(w)) == negated_opt(en_us_text(w)),
{
    let n = negated(w);
    assert forall|i: int| 0 <= i < w.len() implies #[trigger] n[i + 1] == w[i] by {}
    lemma_neg_chars(w, ',');
    lemma_neg_chars(w, '.');
    assert(thousands_subject(n) == w) by {
        assert(n.skip(1) =~= w);
    }
    assert(thousands_subject(w) == w);
    assert(is_thousands(n, ',') == is_thousands(w, ','));
    lemma_stripped_neg(w, ',');
    if at_most_once(w, '.') && w.contains(',') {
        lemma_neg_last_comma(w);
        if !(!w.skip(last_place_of(w, ',') + 1).contains('.') && is_thousands(w, ',')) && w.contains(
            '.',
        ) {
            lemma_neg_en_point(w);
        }
    }
}

/// A sequence that holds `c` has a last `c`.
proof fn lemma_last_place_exists(s: Seq<char>, c: char)
    requires
        s.contains(c),
    ensures
        exists|i: int| 0 <= i < s.len() && s[i] == c && !s.skip(i + 1).contains(c),
    decreases s.len(),
{
    let k = s.len() - 1;
    if s[k] == c {
        assert(s.skip(k + 1).len() == 0);
        assert(0 <= k < s.len() && s[k] == c && !s.skip(k + 1).contains(c));
    } else {
        let d = s.drop_last();
        let j = choose|j: int| 0 <= j < s.len() && s[j] == c;
        assert(d[j] == c);
        lemma_last_place_exists(d, c);
        let i = choose|i: int| 0 <= i < d.len() && d[i] == c && !d.skip(i + 1).contains(c);
        assert(s.skip(i + 1) =~= d.skip(i + 1).push(s[k]));
        let t = s.skip(i + 1);
        if t.contains(c) {
            let m = choose|m: int| 0 <= m < t.len() && t[m] == c;
            if m < d.skip(i + 1).len() {
                assert(d.skip(i + 1)[m] == c);
            }
        }
        assert(0 <= i < s.len() && s[i] == c && !s.skip(i + 1).contains(c));
    }
}

/// The last `,` of a number moves one place on when a `-` is put in front,
/// and what follows it stays the same.
proof fn lemma_neg_last_comma(w: Seq<char>)
    requires
        w.contains(','),
    ensures
        last_place_of(negated(w), ',') == last_place_of(w, ',') + 1,
        negated(w).skip(last_place_of(w, ',') + 2) == w.skip(last_place_of(w, ',') + 1),
{
    let n = negated(w);
    lemma_last_place_exists(w, ',');
    let lc = last_place_of(w, ',');
    assert(0 <= lc < w.len() && w[lc] == ',' && !w.skip(lc + 1).contains(','));
    assert forall|j: int| lc + 1 < j < n.len() implies n[j] != ',' by {
        assert(n[j] == w[j - 1]);
        assert(w.skip(lc + 1)[j - 1 - (lc + 1)] == w[j - 1]);
    }
    assert(n[lc + 1] == w[lc]);
    lemma_last_place_of(n, ',', lc + 1);
    assert(n.skip(lc + 2) =~= w.skip(lc + 1));
}

/// The `.` case of `en`: a `-` in front of an unsigned number stays in front
/// of its whole part with the groups taken out.
#[verifier::spinoff_prover]
proof fn lemma_neg_en_point(w: Seq<char>)
    requires
        w.len() > 0,
        is_ascii_digit(w[0]),
        w.contains('.'),
        at_most_once(w, '.'),
    ensures
        ({
            let n = negated(w);
            let dn = place_of(n, '.');
            let d = place_of(w, '.');
            (match thousands_stripped(n.take(dn), ',') {
                Some(l) => Some(l + seq!['.'] + n.skip(dn + 1)),
                None => None,
            }) == negated_opt(
                match thousands_stripped(w.take(d), ',') {
                    Some(l) => Some(l + seq!['.'] + w.skip(d + 1)),
                    None => None,
                },
            )
        }),
{
    let n = negated(w);
    assert forall|i: int| 0 <= i < w.len() implies #[trigger] n[i + 1] == w[i] by {}
    lemma_neg_chars(w, '.');
    let d = place_of(w, '.');
    assert(0 <= d < w.len() && w[d] == '.');
    assert(d >= 1);
    lemma_place_of(n, '.', d + 1);
    assert(n.skip(d + 2) =~= w.skip(d + 1));
    assert(n.take(d + 1) =~= negated(w.take(d)));
    lemma_stripped_neg(w.take(d), ',');
    match thousands_stripped(w.take(d), ',') {
        Some(l) => {
            assert(negated(l) + seq!['.'] + w.skip(d + 1) =~= negated(l + seq!['.'] + w.skip(d + 1)));
        },
        None => {},
    }
}

/// A `-` in front of an unsigned number (a digit first, nothing to trim, no
/// blanks) stays in front of what a pattern reads of it.
proof fn lemma_neg_text(loc: NumeroLocale, w: Seq<char>)
    requires
        w.len() > 0,
        is_ascii_digit(w[0]),
        !is_white_space(w[w.len() - 1]),
        forall|i: int| 0 <= i < w.len() ==> #[trigger] w[i] != '_' && w[i] != ' ',
    ensures
        decimal_text_of(loc, negated(w)) == negated_opt(decimal_text_of(loc, w)),
{
    let n = negated(w);
    assert forall|i: int| 0 <= i < w.len() implies #[trigger] n[i + 1] == w[i] by {}
    assert(n[n.len() - 1] == w[w.len() - 1]);
    assert(trimmed(w) =~= w);
    assert(trimmed(n) =~= n);
    lemma_without_blanks_absent(w);
    assert forall|i: int| 0 <= i < n.len() implies #[trigger] n[i] != '_' && n[i] != ' ' by {
        if i > 0 {
            assert(n[i] == w[i - 1]);
        }
    }
    lemma_without_blanks_absent(n);
    match loc {
        NumeroLocale::PtBr => lemma_neg_pt(w),
        NumeroLocale::EnUs => lemma_neg_en(w),
    }
}

/// A pattern reads back what it lays out: for a number (a `-` in front when
/// `negative`, then `whole` digits and maybe `decimals`), reading the text
/// that `localize_digits` makes for the pattern gives the plain text again.
pub proof fn law_read_back_of_layout(
    loc: NumeroLocale,
    negative: bool,
    whole: Seq<char>,
    decimals: Seq<char>,
)
    requires
        whole.len() >= 1,
        all_ascii_digits(whole),
        all_ascii_digits(decimals),
    ensures
        decimal_text_of(loc, localized_text(Some(loc), negative, plain_number(whole, decimals)))
            == Some(
            if negative {
                negated(plain_number(whole, decimals))
            } else {
                plain_number(whole, decimals)
            },
        ),
{
    lemma_localized_is_written(loc, whole, decimals);
    law_decimal_text_reads_written(loc, whole, decimals);
    if negative {
        lemma_written_shape(loc, whole, decimals);
        lemma_neg_text(loc, written_number(loc, whole, decimals));
    }
}

// ── matrices laid out in text ───────────────────────────────────────────

/// Length of `s` in UTF-8 bytes.
pub open spec fn byte_len(s: Seq<char>) -> nat {
    byte_off(s, s.len() as int)
}

/// The widest cell (in bytes) of column `j` among the first `k` rows; 0
/// when none of them has that column.
pub open spec fn widest(cells: Seq<Seq<Seq<char>>>, j: int, k: int) -> nat
    decreases k,
{
    if k <= 0 {
        0
    } else {
        let w = widest(cells, j, k - 1);
        let row = cells[k - 1];
        if 0 <= j < row.len() && byte_len(row[j]) > w {
            byte_len(row[j])
        } else {
            w
        }
    }
}

/// `c` pushed to the right of a field `w` characters wide.
pub open spec fn right_aligned(c: Seq<char>, w: nat) -> Seq<char> {
    if c.len() < w {
        Seq::new((w - c.len()) as nat, |_i: int| ' ') + c
    } else {
        c
    }
}

/// `parts`, with `sep` between each two.
pub open spec fn joined(parts: Seq<Seq<char>>, sep: Seq<char>) -> Seq<char>
    decreases parts.len(),
{
    if parts.len() == 0 {
        Seq::empty()
    } else if parts.len() == 1 {
        parts[0]
    } else {
        joined(parts.drop_last(), sep) + sep + parts.last()
    }
}

/// One row of a matrix: its cells right-aligned to their columns' widths,
/// two spaces apart, between `[ ` and ` ]`.
pub open spec fn matrix_line(cells: Seq<Seq<Seq<char>>>, i: int) -> Seq<char> {
    let row = cells[i];
    "[ "@ + joined(
        Seq::new(row.len(), |j: int| right_aligned(row[j], widest(cells, j, cells.len() as int))),
        "  "@,
    ) + " ]"@
}

/// A matrix whose cells read `cells`, one row a line; `[]` when it has no
/// rows.
pub open spec fn matrix_text(cells: Seq<Seq<Seq<char>>>) -> Seq<char> {
    if cells.len() == 0 {
        "[]"@
    } else {
        joined(Seq::new(cells.len(), |i: int| matrix_line(cells, i)), seq!['\n'])
    }
}

proof fn lemma_joined_push(parts: Seq<Seq<char>>, sep: Seq<char>, k: int)
    requires
        1 <= k < parts.len(),
    ensures
        joined(parts.take(k + 1), sep) == joined(parts.take(k), sep) + sep + parts[k],
{
    assert(parts.take(k + 1).drop_last() =~= parts.take(k));
}

/// The text of a cell pushed to the right of a field `w` characters wide.
fn push_right_aligned(out: &mut String, c: &str, w: usize)
    ensures
        final(out)@ == old(out)@ + right_aligned(c@, w as nat),
{
    let n = str_chars(c).len();
    let ghost start = out@;
    if n < w {
        let mut k: usize = 0;
        while k < w - n
            invariant
                n < w,
                0 <= k <= w - n,
                out@ == start + Seq::new(k as nat, |_i: int| ' '),
            decreases w - n - k,
        {
            push_char(out, ' ');
            k = k + 1;
            assert(out@ =~= start + Seq::new(k as nat, |_i: int| ' '));
        }
    }
    push_str(out, c);
    proof {
        if n < w {
            assert(out@ =~= start + (Seq::new((w - n) as nat, |_i: int| ' ') + c@));
        } else {
            assert(out@ =~= start + c@);
        }
    }
}

/// Width of column `j`: its widest cell, in bytes.
fn column_width(cells: &Vec<Vec<String>>, j: usize) -> (w: usize)
    ensures
        w == widest(cells.deep_view(), j as int, cells@.len() as int),
{
    let mut w: usize = 0;
    let mut i: usize = 0;
    while i < cells.len()
        invariant
            0 <= i <= cells@.len(),
            w == widest(cells.deep_view(), j as int, i as int),
        decreases cells@.len() - i,
    {
        let row = &cells[i];
        let ghost drow = cells.deep_view()[i as int];
        assert(drow =~= row.deep_view());
        if j < row.len() {
            assert(drow[j as int] == row@[j as int]@);
            let b = str_byte_len(row[j].as_str());
            if b > w {
                w = b;
            }
        }
        i = i + 1;
    }
    w
}

/// Lays out a matrix whose cells read `cells` (the rows no longer than the
/// first): each cell right-aligned to its column's widest cell, cells two
/// spaces apart between `[ ` and ` ]`, one row a line; `[]` with no rows.
pub fn layout_matriz(cells: &Vec<Vec<String>>) -> (r: String)
    requires
        forall|i: int| 0 <= i < cells@.len() ==> (#[trigger] cells@[i])@.len() <= cells@[0]@.len(),
    ensures
        r@ == matrix_text(cells.deep_view()),
{
    let ghost dv = cells.deep_view();
    if cells.len() == 0 {
        return "[]".to_owned();
    }
    let cols = cells[0].len();
    let mut widths: Vec<usize> = Vec::new();
    let mut j: usize = 0;
    while j < cols
        invariant
            0 <= j <= cols,
            cols == cells@[0]@.len(),
            dv == cells.deep_view(),
            widths@.len() == j,
            forall|k: int| 0 <= k < j ==> #[trigger] widths@[k] == widest(dv, k, dv.len() as int),
        decreases cols - j,
    {
        widths.push(column_width(cells, j));
        j = j + 1;
    }
    let ghost lines = Seq::new(dv.len(), |i: int| matrix_line(dv, i));
    let mut out = String::new();
    let mut i: usize = 0;
    while i < cells.len()
        invariant
            0 <= i <= cells@.len(),
            cells@.len() >= 1,
            dv == cells.deep_view(),
            lines == Seq::new(dv.len(), |i: int| matrix_line(dv, i)),
            widths@.len() == cols,
            cols == cells@[0]@.len(),
            forall|i: int| 0 <= i < cells@.len() ==> (#[trigger] cells@[i])@.len() <= cells@[0]@.len(),
            forall|k: int| 0 <= k < cols ==> #[trigger] widths@[k] == widest(dv, k, dv.len() as int),
            i == 0 ==> out@ == Seq::<char>::empty(),
            i > 0 ==> out@ == joined(lines.take(i as int), seq!['\n']),
        decreases cells@.len() - i,
    {
        let ghost before = out@;
        if i > 0 {
            push_char(&mut out, '\n');
        }
        let ghost mid = out@;
        let row = &cells[i];
        let ghost drow = dv[i as int];
        assert(drow =~= row.deep_view());
        let ghost parts = Seq::new(
            drow.len(),
            |j: int| right_aligned(drow[j], widest(dv, j, dv.len() as int)),
        );
        push_str(&mut out, "[ ");
        let mut j: usize = 0;
        while j < row.len()
            invariant
                0 <= j <= row@.len(),
                row@.len() <= cols,
                widths@.len() == cols,
                drow == row.deep_view(),
                parts == Seq::new(
                    drow.len(),
                    |j: int| right_aligned(drow[j], widest(dv, j, dv.len() as int)),
                ),
                forall|k: int| 0 <= k < cols ==> #[trigger] widths@[k] == widest(dv, k, dv.len() as int),
                j == 0 ==> out@ == mid + "[ "@,
                j > 0 ==> out@ == mid + "[ "@ + joined(parts.take(j as int), "  "@),
            decreases row@.len() - j,
        {
            let ghost prev = out@;
            if j > 0 {
                push_str(&mut out, "  ");
            }
            assert(drow[j as int] == row@[j as int]@);
            push_right_aligned(&mut out, row[j].as_str(), widths[j]);
            proof {
                if j == 0 {
                    assert(parts.take(1).len() == 1);
                    assert(joined(parts.take(1), "  "@) == parts.take(1)[0]);
                    assert(out@ =~= mid + "[ "@ + joined(parts.take(1), "  "@));
                } else {
                    lemma_joined_push(parts, "  "@, j as int);
                    assert(out@ =~= mid + "[ "@ + joined(parts.take(j + 1), "  "@));
                }
            }
            j = j + 1;
        }
        push_str(&mut out, " ]");
        proof {
            let line = matrix_line(dv, i as int);
            assert(line == "[ "@ + joined(parts, "  "@) + " ]"@);
            if row@.len() == 0 {
                assert(parts.len() == 0);
                assert(joined(parts, "  "@) == Seq::<char>::empty());
                assert(out@ =~= mid + line);
            } else {
                assert(parts.take(row@.len() as int) =~= parts);
                assert(out@ =~= mid + line);
            }
            assert(lines[i as int] == line);
            if i == 0 {
                assert(lines.take(1).len() == 1);
                assert(joined(lines.take(1), seq!['\n']) == lines.take(1)[0]);
                assert(out@ =~= joined(lines.take(1), seq!['\n']));
            } else {
                lemma_joined_push(lines, seq!['\n'], i as int);
                assert(out@ =~= joined(lines.take(i + 1), seq!['\n']));
            }
        }
        i = i + 1;
    }
    assert(lines.take(lines.len() as int) =~= lines);
    out
}

/// The entries of a matrix held as rows.
pub open spec fn matrix_view<T>(rows: Seq<Vec<T>>) -> Seq<Seq<T>> {
    rows.map_values(|r: Vec<T>| r@)
}

/// The width of a matrix: the length of its first row (0 with no rows).
pub open spec fn width_of<T>(m: Seq<Seq<T>>) -> nat {
    if m.len() == 0 {
        0
    } else {
        m[0].len()
    }
}

/// Every row of `m` has at least `w` entries.
pub open spec fn rows_at_least<T>(m: Seq<Seq<T>>, w: nat) -> bool {
    forall|i: int| 0 <= i < m.len() ==> (#[trigger] m[i]).len() >= w
}

/// The transposed matrix: its `j`-th row holds the `j`-th entry of each row
/// of `m`; it has as many rows as the first row of `m` is long.
pub open spec fn transposed<T>(m: Seq<Seq<T>>) -> Seq<Seq<T>> {
    Seq::new(width_of(m), |j: int| Seq::new(m.len(), |i: int| m[i][j]))
}

/// Transposes a matrix (`transposta`): rows become columns. The rows must
/// be at least as long as the first one.
pub fn transpose<T: Copy>(rows: &Vec<Vec<T>>) -> (out: Vec<Vec<T>>)
    requires
        rows_at_least(matrix_view(rows@), width_of(matrix_view(rows@))),
    ensures
        matrix_view(out@) == transposed(matrix_view(rows@)),
{
    let ghost m = matrix_view(rows@);
    let h = rows.len();
    let w: usize = if h == 0 {
        0
    } else {
        rows[0].len()
    };
    assert(w == width_of(m));
    let mut out: Vec<Vec<T>> = Vec::new();
    let mut j: usize = 0;
    while j < w
        invariant
            h == rows@.len(),
            m == matrix_view(rows@),
            w == width_of(m),
            rows_at_least(m, w as nat),
            0 <= j <= w,
            out@.len() == j,
            forall|a: int| 0 <= a < j ==> (#[trigger] out@[a])@ == transposed(m)[a],
        decreases w - j,
    {
        let mut col: Vec<T> = Vec::new();
        let mut i: usize = 0;
        while i < h
            invariant
                h == rows@.len(),
                m == matrix_view(rows@),
                rows_at_least(m, w as nat),
                j < w,
                0 <= i <= h,
                col@.len() == i,
                forall|b: int| 0 <= b < i ==> col@[b] == (#[trigger] m[b])[j as int],
            decreases h - i,
        {
            assert(m[i as int] == rows@[i as int]@);
            assert(m[i as int].len() >= w);
            col.push(rows[i][j]);
            i = i + 1;
        }
        assert(col@ =~= transposed(m)[j as int]);
        out.push(col);
        j = j + 1;
    }
    assert(matrix_view(out@) =~= transposed(m));
    out
}

/// What `det` makes of the shape of `m`: its order when it is square and of
/// order 1 to 3, or the error reported.
pub open spec fn det_order<T>(m: Seq<Seq<T>>) -> Result<nat, Seq<char>> {
    if m.len() == 0 || exists|i: int| 0 <= i < m.len() && (#[trigger] m[i]).len() != m.len() {
        Err("det() exige matriz quadrada"@)
    } else if m.len() > 3 {
        Err("det() só para matrizes 1×1, 2×2 ou 3×3"@)
    } else {
        Ok(m.len())
    }
}

/// The order of the square matrix `rows` whose determinant `det` takes (1
/// to 3), or the error reported for its shape.
pub fn det_shape<T>(rows: &Vec<Vec<T>>) -> (r: Result<usize, String>)
    ensures
        match det_order(matrix_view(rows@)) {
            Ok(n) => r matches Ok(k) && k == n,
            Err(m) => r matches Err(x) && x@ == m,
        },
{
    let ghost m = matrix_view(rows@);
    let n = rows.len();
    let mut square = n > 0;
    let mut i: usize = 0;
    while i < n
        invariant
            n == rows@.len(),
            m == matrix_view(rows@),
            0 <= i <= n,
            square <==> (n > 0 && forall|j: int| 0 <= j < i ==> (#[trigger] m[j]).len() == n),
        decreases n - i,
    {
        assert(m[i as int] == rows@[i as int]@);
        if rows[i].len() != n {
            square = false;
        }
        i = i + 1;
    }
    if !square {
        proof {
            if n > 0 {
                let j = choose|j: int| 0 <= j < n && !((#[trigger] m[j]).len() == n);
                assert(m[j].len() != m.len());
            }
        }
        return Err("det() exige matriz quadrada".to_owned());
    }
    if n > 3 {
        return Err("det() só para matrizes 1×1, 2×2 ou 3×3".to_owned());
    }
    Ok(n)
}

/// The identity matrix of order `n`, with `one` on the diagonal and `zero`
/// elsewhere.
pub open spec fn identity_of<T>(n: nat, zero: T, one: T) -> Seq<Seq<T>> {
    Seq::new(n, |i: int| Seq::new(n, |j: int| if i == j { one } else { zero }))
}

/// The identity matrix of order `n` (`identidade`): `one` on the diagonal,
/// `zero` elsewhere.
pub fn identity<T: Copy>(n: usize, zero: T, one: T) -> (r: Vec<Vec<T>>)
    ensures
        matrix_view(r@) == identity_of(n as nat, zero, one),
{
    let mut out: Vec<Vec<T>> = Vec::new();
    let mut i: usize = 0;
    while i < n
        invariant
            0 <= i <= n,
            out@.len() == i,
            forall|a: int| 0 <= a < i ==> (#[trigger] out@[a])@ == identity_of(n as nat, zero, one)[a],
        decreases n - i,
    {
        let mut row: Vec<T> = Vec::new();
        let mut j: usize = 0;
        while j < n
            invariant
                0 <= j <= n,
                i < n,
                row@.len() == j,
                forall|b: int| 0 <= b < j ==> row@[b] == if b == i { one } else { zero },
            decreases n - j,
        {
            if j == i {
                row.push(one);
            } else {
                row.push(zero);
            }
            j = j + 1;
        }
        assert(row@ =~= identity_of(n as nat, zero, one)[i as int]);
        out.push(row);
        i = i + 1;
    }
    assert(matrix_view(out@) =~= identity_of(n as nat, zero, one));
    out
}

/// Transposing twice gives the matrix back, when all its rows are as long
/// as the first one and that is not empty.
pub proof fn law_transpose_twice<T>(m: Seq<Seq<T>>)
    requires
        m.len() > 0,
        m[0].len() > 0,
        forall|i: int| 0 <= i < m.len() ==> (#[trigger] m[i]).len() == m[0].len(),
    ensures
        transposed(transposed(m)) == m,
{
    let t = transposed(m);
    assert(t[0].len() == m.len());
    assert(transposed(t).len() == m.len());
    assert forall|i: int| 0 <= i < m.len() implies #[trigger] transposed(t)[i] == m[i] by {
        assert(transposed(t)[i] =~= m[i]);
    }
    assert(transposed(t) =~= m);
}

impl NumeroLocale {
    /// The number in `raw`, as this pattern reads it, written the way a
    /// decimal parser takes it: trimmed, without `_` and spaces, without
    /// group separators and with `.` for the decimal point. `None` when the
    /// text is blank or the pattern rules it out (two decimal commas, a
    /// comma with no digits after it, misplaced group separators, …).
    pub fn decimal_text(self, raw: &str) -> (r: Option<String>)
        ensures
            r.deep_view() == decimal_text_of(self, raw@),
    {
        let t = trim(raw);
        let v = str_chars(t.as_str());
        if v.len() == 0 {
            return None;
        }
        let mut s = String::new();
        let mut k: usize = 0;
        while k < v.len()
            invariant
                0 <= k <= v@.len(),
                v@ == trimmed(raw@),
                s@ == without_blanks(v@.take(k as int)),
            decreases v@.len() - k,
        {
            let c = v[k];
            let ghost before = s@;
            assert(v@.take(k + 1).drop_last() =~= v@.take(k as int));
            if c != '_' && c != ' ' {
                push_char(&mut s, c);
            }
            k = k + 1;
            assert(s@ =~= without_blanks(v@.take(k as int)));
        }
        assert(v@.take(v@.len() as int) =~= v@);
        match self {
            NumeroLocale::PtBr => pt_br_decimal(s.as_str()),
            NumeroLocale::EnUs => en_us_decimal(s.as_str()),
        }
    }
}

} // verus!
