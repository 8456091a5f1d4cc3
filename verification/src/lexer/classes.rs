//! Character classes used by the scanner.
use vstd::prelude::*;

verus! {

/// The Unicode `White_Space` property.
pub open spec fn is_white_space(c: char) -> bool {
    let u = c as u32;
    ||| 0x09 <= u <= 0x0D
    ||| u == 0x20
    ||| u == 0x85
    ||| u == 0xA0
    ||| u == 0x1680
    ||| 0x2000 <= u <= 0x200A
    ||| u == 0x2028
    ||| u == 0x2029
    ||| u == 0x202F
    ||| u == 0x205F
    ||| u == 0x3000
}

/// `char::is_whitespace`.
pub fn white_space(c: char) -> (b: bool)
    ensures
        b == is_white_space(c),
{
    let u = c as u32;
    (0x09 <= u && u <= 0x0D) || u == 0x20 || u == 0x85 || u == 0xA0 || u == 0x1680 || (0x2000 <= u
        && u <= 0x200A) || u == 0x2028 || u == 0x2029 || u == 0x202F || u == 0x205F || u == 0x3000
}

pub open spec fn is_ascii_digit(c: char) -> bool {
    0x30 <= (c as u32) <= 0x39
}

pub fn ascii_digit(c: char) -> (b: bool)
    ensures
        b == is_ascii_digit(c),
{
    let u = c as u32;
    0x30 <= u && u <= 0x39
}

pub open spec fn is_ascii_letter(c: char) -> bool {
    ||| 0x41 <= (c as u32) <= 0x5A
    ||| 0x61 <= (c as u32) <= 0x7A
}

pub fn ascii_letter(c: char) -> (b: bool)
    ensures
        b == is_ascii_letter(c),
{
    let u = c as u32;
    (0x41 <= u && u <= 0x5A) || (0x61 <= u && u <= 0x7A)
}

pub open spec fn is_hex_digit(c: char) -> bool {
    ||| is_ascii_digit(c)
    ||| 0x41 <= (c as u32) <= 0x46
    ||| 0x61 <= (c as u32) <= 0x66
}

pub open spec fn hex_digit_value(c: char) -> nat {
    if is_ascii_digit(c) {
        (c as u32 - 0x30) as nat
    } else if 0x41 <= (c as u32) <= 0x46 {
        (c as u32 - 0x41 + 10) as nat
    } else {
        (c as u32 - 0x61 + 10) as nat
    }
}

/// Value of a run of hexadecimal digits, most significant first.
pub open spec fn hex_value(h: Seq<char>) -> nat
    decreases h.len(),
{
    if h.len() == 0 {
        0
    } else {
        hex_value(h.drop_last()) * 16 + hex_digit_value(h.last())
    }
}

pub fn hex_digit(c: char) -> (r: Option<u32>)
    ensures
        r is Some <==> is_hex_digit(c),
        r matches Some(d) ==> d == hex_digit_value(c) && d < 16,
{
    let u = c as u32;
    if 0x30 <= u && u <= 0x39 {
        Some(u - 0x30)
    } else if 0x41 <= u && u <= 0x46 {
        Some(u - 0x41 + 10)
    } else if 0x61 <= u && u <= 0x66 {
        Some(u - 0x61 + 10)
    } else {
        None
    }
}

/// Name for what `char::is_alphabetic` answers: whether `c` has the Unicode
/// `Alphabetic` property.
pub uninterp spec fn alphabetic(c: char) -> bool;

/// Calls `char::is_alphabetic`. The contract names its answer, and states
/// the one fact the standard library's code shows plainly: among ASCII
/// characters exactly the letters are alphabetic.
#[verifier::external_body]
pub fn char_is_alphabetic(c: char) -> (b: bool)
    ensures
        b == alphabetic(c),
        (c as u32) < 0x80 ==> (b <==> is_ascii_letter(c)),
{
    c.is_alphabetic()
}

/// Name for what `char::is_numeric` answers: whether `c` is in one of the
/// Unicode number categories (`Nd`, `Nl`, `No`).
pub uninterp spec fn numeric(c: char) -> bool;

/// Calls `char::is_numeric`. The contract names its answer, and states what
/// the standard library's code shows plainly: among ASCII characters exactly
/// `0`..`9` are numeric.
#[verifier::external_body]
pub fn char_is_numeric(c: char) -> (b: bool)
    ensures
        b == numeric(c),
        (c as u32) < 0x80 ==> (b <==> is_ascii_digit(c)),
{
    c.is_numeric()
}

/// Calls `char::from_u32`: the character with code `u`, if `u` is a Unicode scalar value.
#[verifier::external_body]
pub fn char_from_u32(u: u32) -> (r: Option<char>)
    ensures
        r is Some <==> vstd::utf8::is_scalar(u),
        r matches Some(c) ==> c as u32 == u,
{
    char::from_u32(u)
}

/// Name for the text that `char`'s `Debug` writes (the character in single
/// quotes, with escapes).
pub uninterp spec fn char_debug_text(c: char) -> Seq<char>;

/// Calls `char`'s `Debug` formatting.
#[verifier::external_body]
pub fn char_debug(c: char) -> (r: String)
    ensures
        r@ == char_debug_text(c),
{
    format!("{c:?}")
}

} // verus!
