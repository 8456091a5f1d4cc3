//! Small text utilities shared by the lexer, the parser and the runtime helpers.
use vstd::prelude::*;

verus! {

/// The character for a decimal digit `d` (0..=9).
pub open spec fn digit_char(d: nat) -> char {
    (48 + d) as char
}

/// Decimal rendering of a natural number, most significant digit first.
pub open spec fn decimal(n: nat) -> Seq<char>
    decreases n,
{
    if n < 10 {
        seq![digit_char(n)]
    } else {
        decimal(n / 10).push(digit_char(n % 10))
    }
}

/// Appends one character to a `String`.
#[verifier::external_body]
pub(crate) fn push_char(s: &mut String, c: char)
    ensures
        final(s)@ == old(s)@.push(c),
{
    s.push(c);
}

/// Appends a run of characters to a `String`.
pub fn push_chars(s: &mut String, cs: &[char])
    ensures
        final(s)@ == old(s)@ + cs@,
{
    let mut i: usize = 0;
    while i < cs.len()
        invariant
            0 <= i <= cs@.len(),
            s@ == old(s)@ + cs@.subrange(0, i as int),
        decreases cs@.len() - i,
    {
        push_char(s, cs[i]);
        i = i + 1;
        assert(cs@.subrange(0, i as int) == cs@.subrange(0, i - 1).push(cs@[i - 1]));
    }
    assert(cs@.subrange(0, cs@.len() as int) == cs@);
}

fn digit(d: u32) -> (c: char)
    requires
        d < 10,
    ensures
        c == digit_char(d as nat),
{
    let b: u8 = 48u8 + (d as u8);
    b as char
}

/// Decimal text of `n`, as `usize`'s `Display` writes it.
pub fn usize_decimal(n: usize) -> (s: String)
    ensures
        s@ == decimal(n as nat),
    decreases n,
{
    if n < 10 {
        let mut s = String::new();
        push_char(&mut s, digit(n as u32));
        s
    } else {
        let mut s = usize_decimal(n / 10);
        push_char(&mut s, digit((n % 10) as u32));
        s
    }
}

/// Decimal text of `n`, as `u64`'s `Display` writes it.
pub fn u64_decimal(n: u64) -> (s: String)
    ensures
        s@ == decimal(n as nat),
    decreases n,
{
    if n < 10 {
        let mut s = String::new();
        push_char(&mut s, digit(n as u32));
        s
    } else {
        let mut s = u64_decimal(n / 10);
        push_char(&mut s, digit((n % 10) as u32));
        s
    }
}

/// Decimal text of an integer, with a `-` in front when it is negative.
pub open spec fn signed_decimal(n: int) -> Seq<char> {
    if n < 0 {
        seq!['-'] + decimal((-n) as nat)
    } else {
        decimal(n as nat)
    }
}

/// Decimal text of `n`, as `i64`'s `Display` writes it.
pub fn i64_decimal(n: i64) -> (s: String)
    ensures
        s@ == signed_decimal(n as int),
{
    if n < 0 {
        let m: u64 = if n == i64::MIN {
            9223372036854775808u64
        } else {
            (-n) as u64
        };
        let mut s = String::new();
        push_char(&mut s, '-');
        let d = u64_decimal(m);
        push_str(&mut s, d.as_str());
        assert(s@ =~= seq!['-'] + decimal((-n) as nat));
        s
    } else {
        u64_decimal(n as u64)
    }
}

/// Decimal text of `n`, as `u32`'s `Display` writes it.
pub fn u32_decimal(n: u32) -> (s: String)
    ensures
        s@ == decimal(n as nat),
    decreases n,
{
    if n < 10 {
        let mut s = String::new();
        push_char(&mut s, digit(n));
        s
    } else {
        let mut s = u32_decimal(n / 10);
        push_char(&mut s, digit(n % 10));
        s
    }
}

} // verus!

verus! {

/// The characters of `s`, in order.
pub fn str_chars(s: &str) -> (v: Vec<char>)
    ensures
        v@ == s@,
{
    let mut v: Vec<char> = Vec::new();
    for c in it: s.chars()
        invariant
            v@ == it.seq().take(it.index() as int),
            it.seq() == s@,
    {
        v.push(c);
    }
    v
}

} // verus!

verus! {

/// Number of bytes of `c` in UTF-8.
pub open spec fn utf8_width(c: char) -> nat {
    if (c as u32) < 0x80 {
        1
    } else if (c as u32) < 0x800 {
        2
    } else if (c as u32) < 0x10000 {
        3
    } else {
        4
    }
}

/// `char::len_utf8`: number of bytes of `c` in UTF-8.
pub fn char_utf8_width(c: char) -> (w: usize)
    ensures
        w == utf8_width(c),
        1 <= w <= 4,
{
    let u = c as u32;
    if u < 0x80 {
        1
    } else if u < 0x800 {
        2
    } else if u < 0x10000 {
        3
    } else {
        4
    }
}

/// Byte offset, in UTF-8, of the `i`-th character of `s`.
pub open spec fn byte_off(s: Seq<char>, i: int) -> nat
    decreases i,
{
    if i <= 0 || s.len() == 0 {
        0
    } else if i > s.len() {
        byte_off(s, s.len() as int)
    } else {
        byte_off(s, i - 1) + utf8_width(s[i - 1])
    }
}

/// 1-based line of the `i`-th character of `s`.
pub open spec fn pos_line(s: Seq<char>, i: int) -> nat
    decreases i,
{
    if i <= 0 || s.len() == 0 {
        1
    } else if i > s.len() {
        pos_line(s, s.len() as int)
    } else if s[i - 1] == '\n' {
        pos_line(s, i - 1) + 1
    } else {
        pos_line(s, i - 1)
    }
}

/// 1-based column (in characters) of the `i`-th character of `s`.
pub open spec fn pos_col(s: Seq<char>, i: int) -> nat
    decreases i,
{
    if i <= 0 || s.len() == 0 {
        1
    } else if i > s.len() {
        pos_col(s, s.len() as int)
    } else if s[i - 1] == '\n' {
        1
    } else {
        pos_col(s, i - 1) + 1
    }
}

/// Whether `b` is the byte offset of some character boundary of `s`.
pub open spec fn is_boundary(s: Seq<char>, b: int) -> bool {
    exists|i: int| 0 <= i <= s.len() && byte_off(s, i) == b
}

pub proof fn lemma_byte_off_step(s: Seq<char>, i: int)
    requires
        0 <= i < s.len(),
    ensures
        byte_off(s, i + 1) == byte_off(s, i) + utf8_width(s[i]),
{
}

pub proof fn lemma_byte_off_mono(s: Seq<char>, i: int, j: int)
    requires
        0 <= i <= j <= s.len(),
    ensures
        byte_off(s, i) + (j - i) <= byte_off(s, j),
        i < j ==> byte_off(s, i) < byte_off(s, j),
    decreases j - i,
{
    if i < j {
        lemma_byte_off_mono(s, i, j - 1);
    }
}

pub proof fn lemma_byte_off_injective(s: Seq<char>, i: int, j: int)
    requires
        0 <= i <= s.len(),
        0 <= j <= s.len(),
        byte_off(s, i) == byte_off(s, j),
    ensures
        i == j,
{
    if i < j {
        lemma_byte_off_mono(s, i, j);
    } else if j < i {
        lemma_byte_off_mono(s, j, i);
    }
}

pub proof fn lemma_line_col_bound(s: Seq<char>, i: int)
    requires
        0 <= i <= s.len(),
    ensures
        pos_line(s, i) <= i + 1,
        pos_col(s, i) <= i + 1,
    decreases i,
{
    if i > 0 {
        lemma_line_col_bound(s, i - 1);
    }
}

} // verus!

verus! {

proof fn lemma_scalar_width(c: char)
    ensures
        vstd::utf8::encode_scalar(c as u32).len() == utf8_width(c),
{
    broadcast use vstd::utf8::char_is_scalar;

    assert(vstd::utf8::is_scalar(c as u32));
}

proof fn lemma_encode_push(a: Seq<char>, c: char)
    ensures
        vstd::utf8::encode_utf8(a.push(c)).len() == vstd::utf8::encode_utf8(a).len() + utf8_width(c),
    decreases a.len(),
{
    lemma_scalar_width(c);
    if a.len() == 0 {
        assert(a.push(c).drop_first() =~= Seq::<char>::empty());
        assert(vstd::utf8::encode_utf8(Seq::<char>::empty()) =~= Seq::<u8>::empty());
    } else {
        assert(a.push(c).drop_first() =~= a.drop_first().push(c));
        lemma_encode_push(a.drop_first(), c);
    }
}

/// The byte offset of the end of `s` is the length of its UTF-8 encoding.
pub proof fn lemma_byte_off_is_encoding_len(s: Seq<char>, i: int)
    requires
        0 <= i <= s.len(),
    ensures
        byte_off(s, i) == vstd::utf8::encode_utf8(s.subrange(0, i)).len(),
    decreases i,
{
    if i == 0 {
        assert(s.subrange(0, 0) =~= Seq::<char>::empty());
        assert(vstd::utf8::encode_utf8(Seq::<char>::empty()) =~= Seq::<u8>::empty());
    } else {
        lemma_byte_off_is_encoding_len(s, i - 1);
        assert(s.subrange(0, i) =~= s.subrange(0, i - 1).push(s[i - 1]));
        lemma_encode_push(s.subrange(0, i - 1), s[i - 1]);
    }
}

/// Length in bytes of `s`, with the fact that every character boundary of it fits in `usize`.
pub fn str_byte_len(s: &str) -> (n: usize)
    ensures
        n == byte_off(s@, s@.len() as int),
        forall|i: int| 0 <= i <= s@.len() ==> byte_off(s@, i) <= n,
{
    let n = s.as_bytes().len();
    proof {
        lemma_byte_off_is_encoding_len(s@, s@.len() as int);
        assert(s@.subrange(0, s@.len() as int) =~= s@);
        assert forall|i: int| 0 <= i <= s@.len() implies byte_off(s@, i) <= n by {
            lemma_byte_off_mono(s@, i, s@.len() as int);
        }
    }
    n
}

} // verus!

verus! {

/// The characters of `v` from `lo` up to `hi`, as a string.
pub fn chars_string(v: &Vec<char>, lo: usize, hi: usize) -> (r: String)
    requires
        lo <= hi <= v@.len(),
    ensures
        r@ == v@.subrange(lo as int, hi as int),
{
    let mut r = String::new();
    let mut j: usize = lo;
    while j < hi
        invariant
            lo <= j <= hi <= v@.len(),
            r@ == v@.subrange(lo as int, j as int),
        decreases hi - j,
    {
        push_char(&mut r, v[j]);
        j = j + 1;
        assert(v@.subrange(lo as int, j as int) =~= v@.subrange(lo as int, j - 1).push(v@[j - 1]));
    }
    r
}

/// Appends the text of `t` to `s`.
pub fn push_str(s: &mut String, t: &str)
    ensures
        final(s)@ == old(s)@ + t@,
{
    let cs = str_chars(t);
    push_chars(s, cs.as_slice());
}

} // verus!

verus! {

/// Name for the text that `str`'s `Debug` writes for `s` (in double quotes, with escapes).
pub uninterp spec fn str_debug_text(s: Seq<char>) -> Seq<char>;

/// Calls `str`'s `Debug` formatting.
#[verifier::external_body]
pub fn str_debug(s: &str) -> (r: String)
    ensures
        r@ == str_debug_text(s@),
{
    format!("{s:?}")
}

} // verus!

verus! {

/// `t` occurs in `s` starting at the `i`-th character.
pub open spec fn occurs_at(s: Seq<char>, t: Seq<char>, i: int) -> bool {
    0 <= i && i + t.len() <= s.len() && s.subrange(i, i + t.len()) == t
}

/// `t` occurs somewhere in `s`.
pub open spec fn has_sub(s: Seq<char>, t: Seq<char>) -> bool {
    exists|i: int| occurs_at(s, t, i)
}

fn matches_at(s: &Vec<char>, t: &Vec<char>, i: usize) -> (b: bool)
    requires
        i + t@.len() <= s@.len(),
    ensures
        b == occurs_at(s@, t@, i as int),
{
    let n = s.len();
    let mut j: usize = 0;
    while j < t.len()
        invariant
            n == s@.len(),
            i + t@.len() <= s@.len(),
            0 <= j <= t@.len(),
            forall|k: int| 0 <= k < j ==> s@[i + k] == t@[k],
        decreases t@.len() - j,
    {
        if s[i + j] != t[j] {
            assert(s@.subrange(i as int, i + t@.len())[j as int] != t@[j as int]);
            return false;
        }
        j = j + 1;
    }
    assert(s@.subrange(i as int, i + t@.len()) =~= t@);
    true
}

/// `str::contains` for a text pattern: whether `t` occurs in `s`.
pub fn str_contains(s: &str, t: &str) -> (b: bool)
    ensures
        b == has_sub(s@, t@),
{
    let sv = str_chars(s);
    let tv = str_chars(t);
    if tv.len() > sv.len() {
        return false;
    }
    let last = sv.len() - tv.len();
    let mut i: usize = 0;
    loop
        invariant
            sv@ == s@,
            tv@ == t@,
            last == sv@.len() - tv@.len(),
            0 <= i <= last,
            forall|k: int| 0 <= k < i ==> !occurs_at(s@, t@, k),
        decreases last - i,
    {
        if matches_at(&sv, &tv, i) {
            return true;
        }
        if i == last {
            return false;
        }
        i = i + 1;
    }
}

/// Every character of `s` is white space.
pub open spec fn all_white(s: Seq<char>) -> bool {
    forall|i: int| 0 <= i < s.len() ==> crate::lexer::classes::is_white_space(#[trigger] s[i])
}

/// `s.trim().is_empty()`: whether `s` holds nothing but white space.
pub fn is_blank(s: &str) -> (b: bool)
    ensures
        b == all_white(s@),
{
    let v = str_chars(s);
    let mut i: usize = 0;
    while i < v.len()
        invariant
            v@ == s@,
            0 <= i <= v@.len(),
            forall|k: int| 0 <= k < i ==> crate::lexer::classes::is_white_space(#[trigger] s@[k]),
        decreases v@.len() - i,
    {
        if !crate::lexer::classes::white_space(v[i]) {
            return false;
        }
        i = i + 1;
    }
    true
}

} // verus!

verus! {

/// First index, from `i` on, of a character of `s` that is not white space.
pub open spec fn skip_white(s: Seq<char>, i: int) -> int
    decreases s.len() - i,
{
    if i < 0 || i >= s.len() {
        s.len() as int
    } else if crate::lexer::classes::is_white_space(s[i]) {
        skip_white(s, i + 1)
    } else {
        i
    }
}

/// First index, from `i` on, of a white space character of `s`.
pub open spec fn word_end(s: Seq<char>, i: int) -> int
    decreases s.len() - i,
{
    if i < 0 || i >= s.len() {
        s.len() as int
    } else if crate::lexer::classes::is_white_space(s[i]) {
        i
    } else {
        word_end(s, i + 1)
    }
}

pub proof fn lemma_skip_white(s: Seq<char>, i: int)
    requires
        0 <= i <= s.len(),
    ensures
        i <= skip_white(s, i) <= s.len(),
        skip_white(s, i) < s.len() ==> !crate::lexer::classes::is_white_space(
            s[skip_white(s, i)],
        ),
    decreases s.len() - i,
{
    if i < s.len() && crate::lexer::classes::is_white_space(s[i]) {
        lemma_skip_white(s, i + 1);
    }
}

pub proof fn lemma_word_end(s: Seq<char>, i: int)
    requires
        0 <= i <= s.len(),
    ensures
        i <= word_end(s, i) <= s.len(),
    decreases s.len() - i,
{
    if i < s.len() && !crate::lexer::classes::is_white_space(s[i]) {
        lemma_word_end(s, i + 1);
    }
}

/// `str::split_whitespace` of `s` from the `i`-th character on.
pub open spec fn words_from(s: Seq<char>, i: int) -> Seq<Seq<char>>
    decreases s.len() - i,
{
    if i < 0 || i > s.len() {
        Seq::empty()
    } else {
        let a = skip_white(s, i);
        proof {
            lemma_skip_white(s, i);
        }
        if a >= s.len() {
            Seq::empty()
        } else {
            let b = word_end(s, a + 1);
            proof {
                lemma_word_end(s, a + 1);
            }
            seq![s.subrange(a, b)] + words_from(s, b)
        }
    }
}

/// `str::split_whitespace`: the words of `s`, in order.
pub open spec fn words(s: Seq<char>) -> Seq<Seq<char>> {
    words_from(s, 0)
}

/// The first two words of `s` (fewer when it has fewer).
pub fn first_two_words(s: &str) -> (r: Vec<String>)
    ensures
        r@.len() == if words(s@).len() < 2 {
            words(s@).len()
        } else {
            2
        },
        forall|k: int| 0 <= k < r@.len() ==> #[trigger] r@[k]@ == words(s@)[k],
{
    let v = str_chars(s);
    let n = v.len();
    let mut out: Vec<String> = Vec::new();
    let mut i: usize = 0;
    let ghost mut done: Seq<Seq<char>> = Seq::empty();
    while out.len() < 2
        invariant
            v@ == s@,
            n == v@.len(),
            0 <= i <= n,
            out@.len() <= 2,
            out@.len() == done.len(),
            forall|k: int| 0 <= k < out@.len() ==> #[trigger] out@[k]@ == done[k],
            words(s@) == done + words_from(s@, i as int),
        decreases 3 - out@.len(), n - i,
    {
        proof {
            lemma_skip_white(s@, i as int);
        }
        let mut a = i;
        while a < n && crate::lexer::classes::white_space(v[a])
            invariant
                v@ == s@,
                n == v@.len(),
                i <= a <= n,
                skip_white(s@, i as int) == skip_white(s@, a as int),
            decreases n - a,
        {
            a = a + 1;
        }
        if a >= n {
            assert(words_from(s@, i as int) =~= Seq::<Seq<char>>::empty());
            assert(done + Seq::<Seq<char>>::empty() =~= done);
            return out;
        }
        proof {
            lemma_word_end(s@, a + 1);
        }
        let mut b = a + 1;
        while b < n && !crate::lexer::classes::white_space(v[b])
            invariant
                v@ == s@,
                n == v@.len(),
                a < b <= n,
                word_end(s@, a + 1) == word_end(s@, b as int),
            decreases n - b,
        {
            b = b + 1;
        }
        let mut w = String::new();
        let mut k = a;
        while k < b
            invariant
                v@ == s@,
                a <= k <= b <= n,
                n == v@.len(),
                w@ == s@.subrange(a as int, k as int),
            decreases b - k,
        {
            push_char(&mut w, v[k]);
            k = k + 1;
            assert(s@.subrange(a as int, k as int) =~= s@.subrange(a as int, k - 1).push(
                s@[k - 1],
            ));
        }
        proof {
            let wd = s@.subrange(a as int, b as int);
            assert(words_from(s@, i as int) == seq![wd] + words_from(s@, b as int));
            assert(done + (seq![wd] + words_from(s@, b as int)) =~= done.push(wd) + words_from(
                s@,
                b as int,
            ));
            done = done.push(wd);
        }
        out.push(w);
        i = b;
    }
    proof {
        assert(words(s@).len() >= 2);
        assert forall|k: int| 0 <= k < out@.len() implies #[trigger] out@[k]@ == words(s@)[k] by {
            assert(words(s@)[k] == done[k]);
        }
    }
    out
}

/// The number written by the decimal digits `d`, most significant first.
pub open spec fn digits_value(d: Seq<char>) -> nat
    decreases d.len(),
{
    if d.len() == 0 {
        0
    } else {
        digits_value(d.drop_last()) * 10 + ((d.last() as u32) - 48) as nat
    }
}

/// `s` without a leading `+`.
pub open spec fn unsigned_digits(s: Seq<char>) -> Seq<char> {
    if s.len() > 0 && s[0] == '+' {
        s.drop_first()
    } else {
        s
    }
}

/// `str::parse::<u32>`: an optional `+`, then at least one ASCII digit, and
/// a value that fits.
pub open spec fn parsed_u32(s: Seq<char>) -> Option<u32> {
    let d = unsigned_digits(s);
    if d.len() == 0 || !(forall|i: int|
        0 <= i < d.len() ==> crate::lexer::classes::is_ascii_digit(#[trigger] d[i])) {
        None
    } else if digits_value(d) > u32::MAX {
        None
    } else {
        Some(digits_value(d) as u32)
    }
}

/// `s.parse::<u32>().ok()`.
pub fn parse_u32(s: &str) -> (r: Option<u32>)
    ensures
        r == parsed_u32(s@),
{
    let v = str_chars(s);
    let n = v.len();
    let start: usize = if n > 0 && v[0] == '+' {
        1
    } else {
        0
    };
    let ghost d = unsigned_digits(s@);
    assert(d =~= s@.subrange(start as int, n as int));
    if start >= n {
        return None;
    }
    let mut acc: u64 = 0;
    let mut over = false;
    let mut k = start;
    while k < n
        invariant
            v@ == s@,
            n == v@.len(),
            start <= k <= n,
            d == s@.subrange(start as int, n as int),
            d == unsigned_digits(s@),
            forall|i: int| start <= i < k ==> crate::lexer::classes::is_ascii_digit(#[trigger] s@[i]),
            !over ==> acc == digits_value(s@.subrange(start as int, k as int)) && acc <= u32::MAX,
            over ==> digits_value(s@.subrange(start as int, k as int)) > u32::MAX,
        decreases n - k,
    {
        let c = v[k];
        if !crate::lexer::classes::ascii_digit(c) {
            assert(d[k - start] == c);
            assert(!crate::lexer::classes::is_ascii_digit(d[k - start]));
            assert(0 <= k - start < d.len());
            assert(!(forall|i: int|
                0 <= i < d.len() ==> crate::lexer::classes::is_ascii_digit(#[trigger] d[i])));
            return None;
        }
        let ghost prev = s@.subrange(start as int, k as int);
        assert(s@.subrange(start as int, k + 1).drop_last() =~= prev);
        assert(s@.subrange(start as int, k + 1).last() == c);
        let dg: u64 = (c as u32 - 48) as u64;
        if !over {
            let nv = acc * 10 + dg;
            if nv > 0xffff_ffff {
                over = true;
            } else {
                acc = nv;
            }
        }
        k = k + 1;
    }
    assert(s@.subrange(start as int, n as int) =~= d);
    assert forall|i: int| 0 <= i < d.len() implies crate::lexer::classes::is_ascii_digit(
        #[trigger] d[i],
    ) by {
        assert(d[i] == s@[start + i]);
    }
    if over {
        None
    } else {
        Some(acc as u32)
    }
}

} // verus!

verus! {

/// Whether the texts `a` and `b` are equal.
pub fn text_is(a: &str, b: &str) -> (r: bool)
    ensures
        r == (a@ == b@),
{
    let av = str_chars(a);
    let bv = str_chars(b);
    if av.len() != bv.len() {
        return false;
    }
    let mut k: usize = 0;
    while k < av.len()
        invariant
            av@ == a@,
            bv@ == b@,
            av@.len() == bv@.len(),
            0 <= k <= av@.len(),
            forall|i: int| 0 <= i < k ==> av@[i] == bv@[i],
        decreases av@.len() - k,
    {
        if av[k] != bv[k] {
            return false;
        }
        k = k + 1;
    }
    assert(a@ =~= b@);
    true
}

} // verus!

verus! {

// ── the order of texts ──────────────────────────────────────────────────

/// `a` comes before `b` character by character, a proper prefix first (the
/// order of `str`).
pub open spec fn text_before(a: Seq<char>, b: Seq<char>) -> bool
    decreases a.len(),
{
    if a.len() == 0 {
        b.len() > 0
    } else if b.len() == 0 {
        false
    } else if a[0] != b[0] {
        a[0] < b[0]
    } else {
        text_before(a.skip(1), b.skip(1))
    }
}

pub proof fn lemma_text_before_irreflexive(a: Seq<char>)
    ensures
        !text_before(a, a),
    decreases a.len(),
{
    if a.len() > 0 {
        lemma_text_before_irreflexive(a.skip(1));
    }
}

pub proof fn lemma_text_before_transitive(a: Seq<char>, b: Seq<char>, c: Seq<char>)
    requires
        text_before(a, b),
        text_before(b, c),
    ensures
        text_before(a, c),
    decreases a.len(),
{
    if a.len() > 0 && b.len() > 0 && c.len() > 0 {
        if a[0] == b[0] && b[0] == c[0] {
            lemma_text_before_transitive(a.skip(1), b.skip(1), c.skip(1));
        }
    }
}

pub proof fn lemma_text_before_total(a: Seq<char>, b: Seq<char>)
    requires
        a != b,
    ensures
        text_before(a, b) || text_before(b, a),
    decreases a.len(),
{
    if a.len() > 0 && b.len() > 0 {
        if a[0] == b[0] {
            if a.skip(1) == b.skip(1) {
                assert(a =~= seq![a[0]] + a.skip(1));
                assert(b =~= seq![b[0]] + b.skip(1));
            }
            lemma_text_before_total(a.skip(1), b.skip(1));
        }
    } else if a.len() == 0 && b.len() == 0 {
        assert(a =~= b);
    }
}

/// Whether `a` comes before `b` (`a < b` on `str`).
pub fn text_before_exec(a: &str, b: &str) -> (r: bool)
    ensures
        r == text_before(a@, b@),
{
    let va = str_chars(a);
    let vb = str_chars(b);
    let mut k: usize = 0;
    assert(a@.skip(0) =~= a@ && b@.skip(0) =~= b@);
    while k < va.len() && k < vb.len() && va[k] == vb[k]
        invariant
            va@ == a@,
            vb@ == b@,
            k <= va@.len(),
            k <= vb@.len(),
            text_before(a@, b@) == text_before(a@.skip(k as int), b@.skip(k as int)),
        decreases va@.len() - k,
    {
        assert(a@.skip(k as int).skip(1) =~= a@.skip(k + 1));
        assert(b@.skip(k as int).skip(1) =~= b@.skip(k + 1));
        k = k + 1;
    }
    if k == va.len() {
        k < vb.len()
    } else if k == vb.len() {
        false
    } else {
        assert(a@.skip(k as int)[0] == va@[k as int] && b@.skip(k as int)[0] == vb@[k as int]);
        va[k] < vb[k]
    }
}

/// `order` lists each place of `names` once, the names in order (equal
/// names in the order of their places).
pub open spec fn is_name_order(names: Seq<Seq<char>>, order: Seq<usize>) -> bool {
    &&& order.len() == names.len()
    &&& forall|i: int| 0 <= i < order.len() ==> #[trigger] order[i] < names.len()
    &&& forall|i: int, j: int| 0 <= i < j < order.len() ==> #[trigger] order[i] != #[trigger] order[j]
    &&& forall|i: int, j: int|
        0 <= i < j < order.len() ==> !text_before(
            names[#[trigger] order[j] as int],
            names[#[trigger] order[i] as int],
        )
    &&& forall|i: int, j: int|
        0 <= i < j < order.len() && names[order[i] as int] == names[order[j] as int] ==> #[trigger] order[i]
            < #[trigger] order[j]
}

/// The places of `names` with the names in order (`sort` on `str`, equal
/// names keeping their order).
pub fn name_order(names: &Vec<String>) -> (order: Vec<usize>)
    ensures
        is_name_order(names.deep_view(), order@),
{
    let ghost nv = names.deep_view();
    let n = names.len();
    let mut order: Vec<usize> = Vec::new();
    let mut k: usize = 0;
    while k < n
        invariant
            n == names@.len(),
            nv == names.deep_view(),
            0 <= k <= n,
            order@.len() == k,
            forall|i: int| 0 <= i < order@.len() ==> #[trigger] order@[i] < k,
            forall|i: int, j: int|
                0 <= i < j < order@.len() ==> #[trigger] order@[i] != #[trigger] order@[j],
            forall|i: int, j: int|
                0 <= i < j < order@.len() ==> !text_before(
                    nv[#[trigger] order@[j] as int],
                    nv[#[trigger] order@[i] as int],
                ),
            forall|i: int, j: int|
                0 <= i < j < order@.len() && nv[order@[i] as int] == nv[order@[j] as int]
                    ==> #[trigger] order@[i] < #[trigger] order@[j],
        decreases n - k,
    {
        let ghost o = order@;
        let ghost x = nv[k as int];
        assert(x == names@[k as int]@);
        let mut p: usize = 0;
        while p < order.len() && !text_before_exec(names[k].as_str(), names[order[p]].as_str())
            invariant
                n == names@.len(),
                nv == names.deep_view(),
                k < n,
                o == order@,
                x == nv[k as int],
                forall|i: int| 0 <= i < order@.len() ==> #[trigger] order@[i] < k,
                0 <= p <= order@.len(),
                forall|i: int| 0 <= i < p ==> !text_before(x, nv[#[trigger] o[i] as int]),
            decreases order@.len() - p,
        {
            assert(nv[order@[p as int] as int] == names@[order@[p as int] as int]@);
            p = p + 1;
        }
        proof {
            if p < order@.len() {
                assert(nv[order@[p as int] as int] == names@[order@[p as int] as int]@);
                assert(text_before(x, nv[o[p as int] as int]));
            }
        }
        order.insert(p, k);
        proof {
            let o2 = order@;
            assert(o2 =~= o.insert(p as int, k));
            assert forall|i: int| 0 <= i < o2.len() implies #[trigger] o2[i] < k + 1 by {
                if i < p {
                    assert(o2[i] == o[i]);
                } else if i > p {
                    assert(o2[i] == o[i - 1]);
                }
            }
            assert forall|i: int, j: int| 0 <= i < j < o2.len() implies #[trigger] o2[i]
                != #[trigger] o2[j] by {
                if j < p {
                    assert(o2[i] == o[i] && o2[j] == o[j]);
                } else if j == p {
                    assert(o2[i] == o[i]);
                } else if i == p {
                    assert(o2[j] == o[j - 1]);
                } else if i < p {
                    assert(o2[i] == o[i] && o2[j] == o[j - 1]);
                } else {
                    assert(o2[i] == o[i - 1] && o2[j] == o[j - 1]);
                }
            }
            assert forall|i: int, j: int| 0 <= i < j < o2.len() implies !text_before(
                nv[#[trigger] o2[j] as int],
                nv[#[trigger] o2[i] as int],
            ) by {
                if j < p {
                    assert(o2[i] == o[i] && o2[j] == o[j]);
                } else if j == p {
                    assert(o2[i] == o[i]);
                    assert(o2[j] == k);
                } else if i == p {
                    assert(o2[j] == o[j - 1]);
                    assert(o2[i] == k);
                    assert(text_before(x, nv[o[p as int] as int]));
                    if j - 1 > p {
                        assert(!text_before(nv[o[j - 1] as int], nv[o[p as int] as int]));
                    } else {
                        lemma_text_before_irreflexive(nv[o[p as int] as int]);
                    }
                    if text_before(nv[o[j - 1] as int], x) {
                        lemma_text_before_transitive(
                            nv[o[j - 1] as int],
                            x,
                            nv[o[p as int] as int],
                        );
                    }
                } else if i < p {
                    assert(o2[i] == o[i] && o2[j] == o[j - 1]);
                } else {
                    assert(o2[i] == o[i - 1] && o2[j] == o[j - 1]);
                }
            }
            assert forall|i: int, j: int|
                0 <= i < j < o2.len() && nv[o2[i] as int] == nv[o2[j] as int] implies #[trigger] o2[i]
                < #[trigger] o2[j] by {
                if j < p {
                    assert(o2[i] == o[i] && o2[j] == o[j]);
                } else if j == p {
                    assert(o2[i] == o[i]);
                } else if i == p {
                    assert(o2[j] == o[j - 1]);
                    assert(text_before(x, nv[o[p as int] as int]));
                    if j - 1 > p {
                        assert(!text_before(nv[o[j - 1] as int], nv[o[p as int] as int]));
                    } else {
                        lemma_text_before_irreflexive(nv[o[p as int] as int]);
                    }
                    assert(nv[o2[j] as int] == x);
                } else if i < p {
                    assert(o2[i] == o[i] && o2[j] == o[j - 1]);
                } else {
                    assert(o2[i] == o[i - 1] && o2[j] == o[j - 1]);
                }
            }
        }
        k = k + 1;
    }
    order
}

} // verus!
