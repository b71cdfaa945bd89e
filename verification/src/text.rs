//! Character classes and text building used by the scanner and the printer.

use vstd::prelude::*;

verus! {

/// Characters with the Unicode `White_Space` property.
pub open spec fn spec_is_whitespace(c: char) -> bool {
    ||| ('\u{9}' <= c && c <= '\u{d}')
    ||| c == ' '
    ||| c == '\u{85}'
    ||| c == '\u{a0}'
    ||| c == '\u{1680}'
    ||| ('\u{2000}' <= c && c <= '\u{200a}')
    ||| c == '\u{2028}'
    ||| c == '\u{2029}'
    ||| c == '\u{202f}'
    ||| c == '\u{205f}'
    ||| c == '\u{3000}'
}

/// Whether `c` has the Unicode `Alphabetic` property (as `char::is_alphabetic` decides).
pub uninterp spec fn spec_is_alphabetic(c: char) -> bool;

/// Whether `c` is alphabetic or numeric (as `char::is_alphanumeric` decides).
pub uninterp spec fn spec_is_alphanumeric(c: char) -> bool;

/// ASCII letters.
pub open spec fn spec_is_ascii_letter(c: char) -> bool {
    ('a' <= c && c <= 'z') || ('A' <= c && c <= 'Z')
}

/// Whether `c` is alphabetic: among ASCII characters exactly the letters, elsewhere as the
/// Unicode `Alphabetic` property says.
pub open spec fn alphabetic(c: char) -> bool {
    if (c as u32) < 128 {
        spec_is_ascii_letter(c)
    } else {
        spec_is_alphabetic(c)
    }
}

/// Whether `c` is alphabetic or numeric: among ASCII characters exactly the letters and the
/// decimal digits, elsewhere as the Unicode `Alphabetic` and numeric properties say.
pub open spec fn alphanumeric(c: char) -> bool {
    if (c as u32) < 128 {
        spec_is_ascii_letter(c) || ('0' <= c && c <= '9')
    } else {
        spec_is_alphanumeric(c)
    }
}

/// ASCII decimal digits.
pub open spec fn spec_is_ascii_digit(c: char) -> bool {
    '0' <= c && c <= '9'
}

/// ASCII hexadecimal digits.
pub open spec fn spec_is_ascii_hexdigit(c: char) -> bool {
    ||| spec_is_ascii_digit(c)
    ||| ('a' <= c && c <= 'f')
    ||| ('A' <= c && c <= 'F')
}

/// Octal digits.
pub open spec fn spec_is_octal_digit(c: char) -> bool {
    '0' <= c && c <= '7'
}

/// The value of a hexadecimal digit.
pub open spec fn spec_hex_value(c: char) -> int {
    if spec_is_ascii_digit(c) {
        c as int - '0' as int
    } else if 'a' <= c && c <= 'f' {
        c as int - 'a' as int + 10
    } else {
        c as int - 'A' as int + 10
    }
}

/// Control characters: the Unicode general category `Cc`.
pub open spec fn spec_is_control(c: char) -> bool {
    c <= '\u{1f}' || ('\u{7f}' <= c && c <= '\u{9f}')
}

/// The numbers that are Unicode scalar values.
pub open spec fn spec_is_scalar_value(code: u32) -> bool {
    code <= 0xD7FF || (0xE000 <= code && code <= 0x10FFFF)
}

/// Whether `c` has the Unicode `White_Space` property, the class that `char::is_whitespace`
/// decides.
pub fn is_whitespace(c: char) -> (r: bool)
    ensures
        r == spec_is_whitespace(c),
{
    ('\u{9}' <= c && c <= '\u{d}') || c == ' ' || c == '\u{85}' || c == '\u{a0}' || c == '\u{1680}' || ('\u{2000}'
        <= c && c <= '\u{200a}') || c == '\u{2028}' || c == '\u{2029}' || c == '\u{202f}' || c == '\u{205f}' || c
        == '\u{3000}'
}

/// `char::is_alphabetic`, which the standard library documents as the Unicode `Alphabetic`
/// property: among ASCII characters that property holds of the letters alone; elsewhere the
/// result is named, not described.
#[verifier::external_body]
pub(crate) fn is_alphabetic(c: char) -> (r: bool)
    ensures
        (c as u32) < 128 ==> r == spec_is_ascii_letter(c),
        (c as u32) >= 128 ==> r == spec_is_alphabetic(c),
{
    c.is_alphabetic()
}

/// `char::is_alphanumeric`, documented as `is_alphabetic` or `is_numeric`: among ASCII
/// characters that holds of the letters and the decimal digits alone; elsewhere the result is
/// named, not described.
#[verifier::external_body]
pub(crate) fn is_alphanumeric(c: char) -> (r: bool)
    ensures
        (c as u32) < 128 ==> r == (spec_is_ascii_letter(c) || ('0' <= c && c <= '9')),
        (c as u32) >= 128 ==> r == spec_is_alphanumeric(c),
{
    c.is_alphanumeric()
}

/// `char::from_u32`: the character with that code, where the code is a Unicode scalar value.
#[verifier::external_body]
pub(crate) fn char_from_u32(code: u32) -> (r: Option<char>)
    ensures
        spec_is_scalar_value(code) ==> r == Some(code as char),
        !spec_is_scalar_value(code) ==> r is None,
{
    char::from_u32(code)
}

/// `String::push`: appends one character.
#[verifier::external_body]
pub(crate) fn push_char(s: &mut String, c: char)
    ensures
        final(s)@ == old(s)@.push(c),
{
    s.push(c)
}

/// The text `str::to_uppercase` gives for `s`: every character replaced by its Unicode
/// uppercase mapping.
pub uninterp spec fn uppercase_of(s: Seq<char>) -> Seq<char>;

/// The text `str::to_lowercase` gives for `s`: every character replaced by its Unicode
/// lowercase mapping.
pub uninterp spec fn lowercase_of(s: Seq<char>) -> Seq<char>;

/// `str::to_uppercase`: a new text with the Unicode uppercase mapping of each character. The
/// mapping comes from Unicode's tables (a character may map to several), so the result is
/// named, not described.
#[verifier::external_body]
pub(crate) fn to_uppercase(s: &str) -> (r: String)
    ensures
        r@ == uppercase_of(s@),
{
    s.to_uppercase()
}

/// `str::to_lowercase`: a new text with the Unicode lowercase mapping of each character, as
/// Unicode's tables give it; the result is named, not described.
#[verifier::external_body]
pub(crate) fn to_lowercase(s: &str) -> (r: String)
    ensures
        r@ == lowercase_of(s@),
{
    s.to_lowercase()
}

/// Whether the two texts hold the same characters.
pub(crate) fn str_eq(a: &str, b: &str) -> (r: bool)
    ensures
        r == (a@ == b@),
{
    let x = chars_of(a);
    let y = chars_of(b);
    if x.len() != y.len() {
        return false;
    }
    let mut i: usize = 0;
    while i < x.len()
        invariant
            x@ == a@,
            y@ == b@,
            x.len() == y.len(),
            i <= x.len(),
            forall|k: int| 0 <= k < i ==> x@[k] == y@[k],
        decreases x.len() - i,
    {
        if x[i] != y[i] {
            return false;
        }
        i = i + 1;
    }
    assert(x@ =~= y@);
    true
}

/// Whether `c` is an ASCII decimal digit.
pub fn is_ascii_digit(c: char) -> (r: bool)
    ensures
        r == spec_is_ascii_digit(c),
{
    '0' <= c && c <= '9'
}

/// Whether `c` is an ASCII hexadecimal digit.
pub fn is_ascii_hexdigit(c: char) -> (r: bool)
    ensures
        r == spec_is_ascii_hexdigit(c),
{
    ('0' <= c && c <= '9') || ('a' <= c && c <= 'f') || ('A' <= c && c <= 'F')
}

/// Whether `c` is an octal digit.
pub fn is_octal_digit(c: char) -> (r: bool)
    ensures
        r == spec_is_octal_digit(c),
{
    '0' <= c && c <= '7'
}

/// Whether `c` is a control character.
pub fn is_control(c: char) -> (r: bool)
    ensures
        r == spec_is_control(c),
{
    c <= '\u{1f}' || ('\u{7f}' <= c && c <= '\u{9f}')
}

/// The value of a hexadecimal digit.
pub fn hex_value(c: char) -> (r: u32)
    requires
        spec_is_ascii_hexdigit(c),
    ensures
        r == spec_hex_value(c),
        r < 16,
{
    if '0' <= c && c <= '9' {
        (c as u32) - ('0' as u32)
    } else if 'a' <= c && c <= 'f' {
        (c as u32) - ('a' as u32) + 10
    } else {
        (c as u32) - ('A' as u32) + 10
    }
}

/// The character whose code is the byte `b`.
pub fn char_from_byte(b: u8) -> (r: char)
    ensures
        r == (b as char),
        r as u32 == b as u32,
{
    b as char
}

/// The characters of `input`, in order.
pub fn chars_of(input: &str) -> (r: Vec<char>)
    ensures
        r@ == input@,
{
    broadcast use vstd::string::group_string_axioms;

    let mut chars: Vec<char> = Vec::new();
    for c in it: input.chars()
        invariant
            chars@ == it.seq().take(it.index() as int),
    {
        chars.push(c);
    }
    assert(chars@ =~= input@);
    chars
}

/// A `String` holding exactly the characters of `v`.
pub fn string_from_chars(v: &Vec<char>, from: usize, to: usize) -> (r: String)
    requires
        from <= to <= v.len(),
    ensures
        r@ == v@.subrange(from as int, to as int),
{
    let mut s = String::new();
    let mut i = from;
    while i < to
        invariant
            from <= i <= to <= v.len(),
            s@ == v@.subrange(from as int, i as int),
        decreases to - i,
    {
        push_char(&mut s, v[i]);
        assert(v@.subrange(from as int, i + 1) == v@.subrange(from as int, i as int).push(v@[i as int]));
        i = i + 1;
    }
    s
}

} // verus!
