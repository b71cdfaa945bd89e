//! The computations behind the `Texto` and `Lista` modules that Tenda programs call.
//!
//! Text is measured as Rust measures a `str`: lengths and positions handed to and
//! returned from `Texto` count UTF-8 bytes, while the edits themselves work on characters.

use vstd::prelude::*;
use vstd::utf8::*;
use vstd::std_specs::cmp::PartialEqSpec;
use crate::text::{chars_of, is_whitespace, push_char, spec_is_whitespace, string_from_chars, to_uppercase, to_lowercase, uppercase_of, lowercase_of};

verus! {

/// Why a `Texto` or `Lista` operation refused its arguments.
#[derive(Debug, Clone, Copy, PartialEq, Eq, Structural)]
pub enum BoundsError {
    /// A position at or past the end: `len` is the length it was measured against.
    IndexOutOfBounds { index: usize, len: usize },
    /// A range whose start lies after its end; `bound` is the end.
    InvalidRangeBounds { bound: usize },
}

/// The UTF-8 bytes of a character sequence.
pub open spec fn utf8_bytes(s: Seq<char>) -> Seq<u8> {
    encode_utf8(s)
}

/// The number of UTF-8 bytes of `c`.
pub open spec fn char_width(c: char) -> nat {
    encode_scalar(c as u32).len()
}

/// The byte position at which the character at index `i` of `s` starts.
pub open spec fn byte_offset(s: Seq<char>, i: int) -> nat {
    utf8_bytes(s.take(i)).len()
}

/// Whether `sub` occurs in `s` starting at character index `i`.
pub open spec fn occurs_at(s: Seq<char>, sub: Seq<char>, i: int) -> bool {
    0 <= i && i + sub.len() <= s.len() && s.subrange(i, i + sub.len()) == sub
}

/// Whether `sub` occurs anywhere in `s`.
pub open spec fn occurs_in(s: Seq<char>, sub: Seq<char>) -> bool {
    exists|i: int| occurs_at(s, sub, i)
}

/// The character index of the first occurrence of `sub` in `s`, if any.
pub open spec fn first_occurrence(s: Seq<char>, sub: Seq<char>) -> Option<int> {
    if occurs_in(s, sub) {
        Some(choose|i: int| occurs_at(s, sub, i) && forall|j: int| 0 <= j < i ==> !occurs_at(s, sub, j))
    } else {
        None
    }
}

/// An occurrence with none before it is the first one.
pub proof fn lemma_first_occurrence_is(s: Seq<char>, sub: Seq<char>, i: int)
    requires
        occurs_at(s, sub, i),
        forall|j: int| 0 <= j < i ==> !occurs_at(s, sub, j),
    ensures
        first_occurrence(s, sub) == Some(i),
{
    assert(occurs_in(s, sub));
    let w = choose|w: int| occurs_at(s, sub, w) && forall|j: int| 0 <= j < w ==> !occurs_at(s, sub, j);
    assert(occurs_at(s, sub, w) && forall|j: int| 0 <= j < w ==> !occurs_at(s, sub, j));
    if w < i {
        assert(!occurs_at(s, sub, w));
    }
    if w > i {
        assert(!occurs_at(s, sub, i));
    }
}

/// Encoding a concatenation concatenates the encodings.
pub proof fn lemma_utf8_concat(a: Seq<char>, b: Seq<char>)
    ensures
        utf8_bytes(a + b) == utf8_bytes(a) + utf8_bytes(b),
    decreases a.len(),
{
    if a.len() == 0 {
        assert(a + b =~= b);
        assert(utf8_bytes(a) =~= Seq::<u8>::empty());
        assert(utf8_bytes(a) + utf8_bytes(b) =~= utf8_bytes(b));
    } else {
        assert((a + b).drop_first() =~= a.drop_first() + b);
        lemma_utf8_concat(a.drop_first(), b);
        assert((a + b)[0] == a[0]);
        assert(utf8_bytes(a + b) =~= encode_scalar(a[0] as u32) + (utf8_bytes(a.drop_first()) + utf8_bytes(b)));
    }
}

/// One more character moves the byte position by that character's width.
pub proof fn lemma_byte_offset_step(s: Seq<char>, i: int)
    requires
        0 <= i < s.len(),
    ensures
        byte_offset(s, i + 1) == byte_offset(s, i) + char_width(s[i]),
{
    assert(s.take(i + 1) =~= s.take(i) + seq![s[i]]);
    lemma_utf8_concat(s.take(i), seq![s[i]]);
    assert(seq![s[i]].drop_first() =~= Seq::<char>::empty());
    assert(utf8_bytes(seq![s[i]]) =~= encode_scalar(s[i] as u32) + utf8_bytes(Seq::<char>::empty()));
}

/// Byte positions never pass the length of the whole encoding.
pub proof fn lemma_byte_offset_bounded(s: Seq<char>, i: int)
    requires
        0 <= i <= s.len(),
    ensures
        byte_offset(s, i) <= utf8_bytes(s).len(),
{
    assert(s =~= s.take(i) + s.skip(i));
    lemma_utf8_concat(s.take(i), s.skip(i));
}

/// `char::len_utf8`, computed from the code point.
pub fn char_utf8_width(c: char) -> (r: usize)
    ensures
        r == char_width(c),
        1 <= r <= 4,
{
    proof {
        char_is_scalar(c);
    }
    let code = c as u32;
    if code < 0x80 {
        1
    } else if code < 0x800 {
        2
    } else if code < 0x10000 {
        3
    } else {
        4
    }
}

/// Whether `sub` occurs in `chars` at index `i` (checked character by character).
fn occurs_at_exec(chars: &Vec<char>, sub: &Vec<char>, i: usize) -> (r: bool)
    ensures
        r == occurs_at(chars@, sub@, i as int),
{
    if i > chars.len() || sub.len() > chars.len() - i {
        return false;
    }
    let mut k: usize = 0;
    while k < sub.len()
        invariant
            i + sub.len() <= chars.len(),
            k <= sub.len(),
            forall|m: int| 0 <= m < k ==> chars@[i + m] == sub@[m],
        decreases sub.len() - k,
    {
        if chars[i + k] != sub[k] {
            assert(chars@.subrange(i as int, i + sub.len())[k as int] != sub@[k as int]);
            return false;
        }
        k = k + 1;
    }
    assert(chars@.subrange(i as int, i + sub.len()) =~= sub@);
    true
}

/// `Texto.índice_de`: the byte position of the first occurrence of `subtext` in `text`.
pub fn index_of(text: &str, subtext: &str) -> (r: Option<usize>)
    requires
        utf8_bytes(text@).len() <= usize::MAX,
    ensures
        match first_occurrence(text@, subtext@) {
            Some(i) => r == Some(byte_offset(text@, i) as usize),
            None => r is None,
        },
{
    let chars = chars_of(text);
    let sub = chars_of(subtext);
    let mut i: usize = 0;
    let mut offset: usize = 0;
    while i < chars.len()
        invariant
            chars@ == text@,
            sub@ == subtext@,
            utf8_bytes(text@).len() <= usize::MAX,
            i <= chars.len(),
            offset == byte_offset(text@, i as int),
            forall|j: int| 0 <= j < i ==> !occurs_at(text@, subtext@, j),
        decreases chars.len() - i,
    {
        if occurs_at_exec(&chars, &sub, i) {
            proof {
                lemma_first_occurrence_is(text@, subtext@, i as int);
            }
            return Some(offset);
        }
        proof {
            lemma_byte_offset_step(text@, i as int);
            lemma_byte_offset_bounded(text@, i + 1);
        }
        let w = char_utf8_width(chars[i]);
        offset = offset + w;
        i = i + 1;
    }
    if occurs_at_exec(&chars, &sub, i) {
        proof {
            lemma_first_occurrence_is(text@, subtext@, i as int);
        }
        return Some(offset);
    }
    proof {
        assert forall|j: int| !occurs_at(text@, subtext@, j) by {
            if 0 <= j < i {
            }
        }
    }
    None
}

/// The number of whitespace characters at the start of `s`.
pub open spec fn leading_whitespace(s: Seq<char>) -> nat
    decreases s.len(),
{
    if s.len() > 0 && spec_is_whitespace(s[0]) {
        1 + leading_whitespace(s.drop_first())
    } else {
        0
    }
}

/// The number of whitespace characters at the end of `s`.
pub open spec fn trailing_whitespace(s: Seq<char>) -> nat
    decreases s.len(),
{
    if s.len() > 0 && spec_is_whitespace(s.last()) {
        1 + trailing_whitespace(s.drop_last())
    } else {
        0
    }
}

/// `s` without its leading whitespace.
pub open spec fn trim_start_spec(s: Seq<char>) -> Seq<char> {
    s.skip(leading_whitespace(s) as int)
}

/// `s` without its trailing whitespace.
pub open spec fn trim_end_spec(s: Seq<char>) -> Seq<char> {
    s.take(s.len() - trailing_whitespace(s))
}

/// Whether `c` is not whitespace.
pub open spec fn not_whitespace(c: char) -> bool {
    !spec_is_whitespace(c)
}

proof fn lemma_leading_whitespace_bounded(s: Seq<char>)
    ensures
        leading_whitespace(s) <= s.len(),
    decreases s.len(),
{
    if s.len() > 0 && spec_is_whitespace(s[0]) {
        lemma_leading_whitespace_bounded(s.drop_first());
    }
}

proof fn lemma_trailing_whitespace_bounded(s: Seq<char>)
    ensures
        trailing_whitespace(s) <= s.len(),
    decreases s.len(),
{
    if s.len() > 0 && spec_is_whitespace(s.last()) {
        lemma_trailing_whitespace_bounded(s.drop_last());
    }
}

/// Counting leading whitespace from index `k` on, where all before `k` is whitespace.
proof fn lemma_leading_whitespace_from(s: Seq<char>, k: int)
    requires
        0 <= k <= s.len(),
        forall|j: int| 0 <= j < k ==> spec_is_whitespace(s[j]),
    ensures
        leading_whitespace(s) == k + leading_whitespace(s.skip(k)),
    decreases k,
{
    if k > 0 {
        lemma_leading_whitespace_from(s.drop_first(), k - 1);
        assert(s.drop_first().skip(k - 1) =~= s.skip(k));
    } else {
        assert(s.skip(0) =~= s);
    }
}

/// Counting trailing whitespace down to index `k`, where all from `k` on is whitespace.
proof fn lemma_trailing_whitespace_from(s: Seq<char>, k: int)
    requires
        0 <= k <= s.len(),
        forall|j: int| k <= j < s.len() ==> spec_is_whitespace(s[j]),
    ensures
        trailing_whitespace(s) == (s.len() - k) + trailing_whitespace(s.take(k)),
    decreases s.len() - k,
{
    if k < s.len() {
        lemma_trailing_whitespace_from(s.drop_last(), k);
        assert(s.drop_last().take(k) =~= s.take(k));
    } else {
        assert(s.take(k) =~= s);
    }
}

/// `Texto.contém`: whether `subtext` occurs in `text`.
pub fn contains(text: &str, subtext: &str) -> (r: bool)
    ensures
        r == occurs_in(text@, subtext@),
{
    let chars = chars_of(text);
    let sub = chars_of(subtext);
    let mut i: usize = 0;
    while i < chars.len()
        invariant
            chars@ == text@,
            sub@ == subtext@,
            i <= chars.len(),
            forall|j: int| 0 <= j < i ==> !occurs_at(text@, subtext@, j),
        decreases chars.len() - i,
    {
        if occurs_at_exec(&chars, &sub, i) {
            return true;
        }
        i = i + 1;
    }
    if occurs_at_exec(&chars, &sub, i) {
        return true;
    }
    proof {
        assert forall|j: int| !occurs_at(text@, subtext@, j) by {
            if 0 <= j < i {
            }
        }
    }
    false
}

/// `Texto.começa_com`: whether `text` starts with `prefix`.
pub fn starts_with(text: &str, prefix: &str) -> (r: bool)
    ensures
        r == prefix@.is_prefix_of(text@),
{
    let chars = chars_of(text);
    let pre = chars_of(prefix);
    let r = occurs_at_exec(&chars, &pre, 0);
    proof {
        if prefix@.is_prefix_of(text@) {
            assert(text@.subrange(0, prefix@.len() as int) =~= prefix@);
        }
    }
    r
}

/// `Texto.termina_com`: whether `text` ends with `suffix`.
pub fn ends_with(text: &str, suffix: &str) -> (r: bool)
    ensures
        r == suffix@.is_suffix_of(text@),
{
    let chars = chars_of(text);
    let suf = chars_of(suffix);
    if suf.len() > chars.len() {
        return false;
    }
    let r = occurs_at_exec(&chars, &suf, chars.len() - suf.len());
    proof {
        if suffix@.is_suffix_of(text@) {
            assert(text@.subrange(text@.len() - suffix@.len(), text@.len() as int) =~= suffix@);
        }
    }
    r
}

/// `Texto.remova_prefixo`: `text` without `prefix` where it starts with it, else `text` itself.
pub fn remove_prefix(text: &str, prefix: &str) -> (r: String)
    ensures
        prefix@.is_prefix_of(text@) ==> r@ == text@.skip(prefix@.len() as int),
        !prefix@.is_prefix_of(text@) ==> r@ == text@,
{
    let chars = chars_of(text);
    if starts_with(text, prefix) {
        let pre = chars_of(prefix);
        string_from_chars(&chars, pre.len(), chars.len())
    } else {
        string_from_chars(&chars, 0, chars.len())
    }
}

/// `Texto.remova_sufixo`: `text` without `suffix` where it ends with it, else `text` itself.
pub fn remove_suffix(text: &str, suffix: &str) -> (r: String)
    ensures
        suffix@.is_suffix_of(text@) ==> r@ == text@.take(text@.len() - suffix@.len()),
        !suffix@.is_suffix_of(text@) ==> r@ == text@,
{
    let chars = chars_of(text);
    if ends_with(text, suffix) {
        let suf = chars_of(suffix);
        string_from_chars(&chars, 0, chars.len() - suf.len())
    } else {
        string_from_chars(&chars, 0, chars.len())
    }
}

/// `Texto.inverta`: the characters of `text` in reverse order.
pub fn reverse(text: &str) -> (r: String)
    ensures
        r@ == text@.reverse(),
{
    let chars = chars_of(text);
    let mut out = String::new();
    let mut i: usize = chars.len();
    while i > 0
        invariant
            chars@ == text@,
            i <= chars.len(),
            out@.len() == chars.len() - i,
            forall|k: int| 0 <= k < out@.len() ==> out@[k] == text@[text@.len() - 1 - k],
        decreases i,
    {
        i = i - 1;
        push_char(&mut out, chars[i]);
    }
    assert(out@ =~= text@.reverse());
    out
}

/// `Texto.remova_espaços`: `text` without any whitespace character.
pub fn remove_whitespace(text: &str) -> (r: String)
    ensures
        r@ == text@.filter(|c: char| not_whitespace(c)),
{
    let chars = chars_of(text);
    let mut out = String::new();
    let mut i: usize = 0;
    while i < chars.len()
        invariant
            chars@ == text@,
            i <= chars.len(),
            out@ == text@.take(i as int).filter(|c: char| not_whitespace(c)),
        decreases chars.len() - i,
    {
        proof {
            reveal(Seq::filter);
            assert(text@.take(i + 1).drop_last() =~= text@.take(i as int));
            assert(text@.take(i + 1).last() == text@[i as int]);
        }
        if !is_whitespace(chars[i]) {
            push_char(&mut out, chars[i]);
        }
        i = i + 1;
    }
    assert(text@.take(chars.len() as int) =~= text@);
    out
}

/// The number of whitespace characters at the start of `chars`.
fn count_leading_whitespace(chars: &Vec<char>) -> (r: usize)
    ensures
        r == leading_whitespace(chars@),
{
    let mut k: usize = 0;
    while k < chars.len() && is_whitespace(chars[k])
        invariant
            k <= chars.len(),
            forall|j: int| 0 <= j < k ==> spec_is_whitespace(chars@[j]),
        decreases chars.len() - k,
    {
        k = k + 1;
    }
    proof {
        lemma_leading_whitespace_from(chars@, k as int);
        assert(leading_whitespace(chars@.skip(k as int)) == 0) by {
            if k < chars.len() {
                assert(chars@.skip(k as int)[0] == chars@[k as int]);
            }
        }
    }
    k
}

/// The number of whitespace characters at the end of `chars`.
fn count_trailing_whitespace(chars: &Vec<char>) -> (r: usize)
    ensures
        r == trailing_whitespace(chars@),
{
    let mut k: usize = chars.len();
    while k > 0 && is_whitespace(chars[k - 1])
        invariant
            k <= chars.len(),
            forall|j: int| k <= j < chars.len() ==> spec_is_whitespace(chars@[j]),
        decreases k,
    {
        k = k - 1;
    }
    proof {
        lemma_trailing_whitespace_from(chars@, k as int);
        assert(trailing_whitespace(chars@.take(k as int)) == 0) by {
            if k > 0 {
                assert(chars@.take(k as int).last() == chars@[k - 1]);
            }
        }
    }
    chars.len() - k
}

/// `Texto.remova_espaços_início`: `text` without its leading whitespace.
pub fn trim_start(text: &str) -> (r: String)
    ensures
        r@ == trim_start_spec(text@),
{
    let chars = chars_of(text);
    let k = count_leading_whitespace(&chars);
    proof {
        lemma_leading_whitespace_bounded(text@);
    }
    string_from_chars(&chars, k, chars.len())
}

/// `Texto.remova_espaços_fim`: `text` without its trailing whitespace.
pub fn trim_end(text: &str) -> (r: String)
    ensures
        r@ == trim_end_spec(text@),
{
    let chars = chars_of(text);
    let k = count_trailing_whitespace(&chars);
    proof {
        lemma_trailing_whitespace_bounded(text@);
    }
    string_from_chars(&chars, 0, chars.len() - k)
}

/// `Texto.remova_espaços_início_fim`: `text` without whitespace at either end.
pub fn trim(text: &str) -> (r: String)
    ensures
        r@ == trim_end_spec(trim_start_spec(text@)),
{
    let start = trim_start(text);
    trim_end(start.as_str())
}

/// `Texto.para_lista` and `Lista.de_texto`: one text per character of `text`.
pub fn to_char_texts(text: &str) -> (r: Vec<String>)
    ensures
        r.len() == text@.len(),
        forall|i: int| 0 <= i < r.len() ==> r[i]@ == seq![text@[i]],
{
    let chars = chars_of(text);
    let mut out: Vec<String> = Vec::new();
    let mut i: usize = 0;
    while i < chars.len()
        invariant
            chars@ == text@,
            i <= chars.len(),
            out.len() == i,
            forall|k: int| 0 <= k < i ==> out[k]@ == seq![text@[k]],
        decreases chars.len() - i,
    {
        let mut one = String::new();
        push_char(&mut one, chars[i]);
        assert(one@ =~= seq![text@[i as int]]);
        out.push(one);
        i = i + 1;
    }
    out
}

/// A character boundary of a valid encoding stays one in the part after an earlier boundary.
proof fn lemma_boundary_after(bytes: Seq<u8>, a: int, b: int)
    requires
        valid_utf8(bytes),
        0 <= a <= b <= bytes.len(),
        is_char_boundary(bytes, a),
        is_char_boundary(bytes, b),
    ensures
        valid_utf8(bytes.subrange(a, bytes.len() as int)),
        is_char_boundary(bytes.subrange(a, bytes.len() as int), b - a),
{
    let t = bytes.subrange(a, bytes.len() as int);
    valid_utf8_split(bytes, a);
    if b == a {
    } else if b == bytes.len() {
        is_char_boundary_start_end_of_seq(t);
    } else {
        is_char_boundary_iff_not_is_continuation_byte(bytes, b);
        is_char_boundary_iff_not_is_continuation_byte(t, b - a);
        assert(t[b - a] == bytes[b]);
    }
}

/// The part of `text` between the byte positions `from` and `to`, both character boundaries.
pub(crate) fn byte_range(text: &str, from: usize, to: usize) -> (r: String)
    requires
        from <= to <= utf8_bytes(text@).len(),
        is_char_boundary(utf8_bytes(text@), from as int),
        is_char_boundary(utf8_bytes(text@), to as int),
    ensures
        utf8_bytes(r@) == utf8_bytes(text@).subrange(from as int, to as int),
{
    let ghost bytes = utf8_bytes(text@);
    proof {
        encode_utf8_valid_utf8(text@);
        lemma_boundary_after(bytes, from as int, to as int);
    }
    let (_, rest) = text.split_at(from);
    assert(utf8_bytes(rest@) =~= bytes.subrange(from as int, bytes.len() as int));
    let (mid, _) = rest.split_at(to - from);
    assert(utf8_bytes(mid@) =~= bytes.subrange(from as int, to as int));
    mid.to_owned()
}

/// `Texto.subtexto`: the `len` bytes of `text` from byte position `start`.
pub fn substring(text: &str, start: usize, len: usize) -> (r: Result<String, BoundsError>)
    requires
        utf8_bytes(text@).len() <= usize::MAX,
        start < utf8_bytes(text@).len() ==> start + len <= utf8_bytes(text@).len(),
        start < utf8_bytes(text@).len() ==> is_char_boundary(utf8_bytes(text@), start as int),
        start < utf8_bytes(text@).len() ==> is_char_boundary(utf8_bytes(text@), start + len),
    ensures
        start >= utf8_bytes(text@).len() ==> r == Err::<String, BoundsError>(
            BoundsError::IndexOutOfBounds { index: start, len: utf8_bytes(text@).len() as usize },
        ),
        start < utf8_bytes(text@).len() ==> (r matches Ok(s) && utf8_bytes(s@)
            == utf8_bytes(text@).subrange(start as int, start + len)),
{
    let n = text.len();
    if start >= n {
        return Err(BoundsError::IndexOutOfBounds { index: start, len: n });
    }
    Ok(byte_range(text, start, start + len))
}

/// `Texto.corta`: the bytes of `text` from position `start` through position `end`.
pub fn slice_inclusive(text: &str, start: usize, end: usize) -> (r: Result<String, BoundsError>)
    requires
        utf8_bytes(text@).len() <= usize::MAX,
        start <= end < utf8_bytes(text@).len() ==> is_char_boundary(utf8_bytes(text@), start as int),
        start <= end < utf8_bytes(text@).len() ==> is_char_boundary(utf8_bytes(text@), end + 1),
    ensures
        start > end ==> r == Err::<String, BoundsError>(BoundsError::InvalidRangeBounds { bound: end }),
        start <= end && end >= utf8_bytes(text@).len() ==> r == Err::<String, BoundsError>(
            BoundsError::IndexOutOfBounds { index: end, len: utf8_bytes(text@).len() as usize },
        ),
        start <= end < utf8_bytes(text@).len() ==> (r matches Ok(s) && utf8_bytes(s@)
            == utf8_bytes(text@).subrange(start as int, end + 1)),
{
    if start > end {
        return Err(BoundsError::InvalidRangeBounds { bound: end });
    }
    let n = text.len();
    if end >= n {
        return Err(BoundsError::IndexOutOfBounds { index: end, len: n });
    }
    Ok(byte_range(text, start, end + 1))
}

/// `s` without the characters at indices `from` up to (not including) `to`, the bounds cut to `s`.
pub open spec fn without_range(s: Seq<char>, from: int, to: int) -> Seq<char> {
    let a = if from < s.len() { from } else { s.len() as int };
    let b = if to < a { a } else if to < s.len() { to } else { s.len() as int };
    s.subrange(0, a) + s.subrange(b, s.len() as int)
}

/// `Texto.remova`: `text` without the `len` characters from character index `start`;
/// `start` is checked against the byte length of `text`.
pub fn remove_chars(text: &str, start: usize, len: usize) -> (r: Result<String, BoundsError>)
    requires
        utf8_bytes(text@).len() <= usize::MAX,
        start < utf8_bytes(text@).len() && start < text@.len() ==> start + len <= usize::MAX,
    ensures
        start >= utf8_bytes(text@).len() ==> r == Err::<String, BoundsError>(
            BoundsError::IndexOutOfBounds { index: start, len: utf8_bytes(text@).len() as usize },
        ),
        start < utf8_bytes(text@).len() ==> (r matches Ok(s) && s@ == without_range(
            text@,
            start as int,
            start + len,
        )),
{
    let n = text.len();
    if start >= n {
        return Err(BoundsError::IndexOutOfBounds { index: start, len: n });
    }
    let chars = chars_of(text);
    if chars.len() <= start {
        let all = string_from_chars(&chars, 0, chars.len());
        assert(all@ =~= without_range(text@, start as int, start + len));
        return Ok(all);
    }
    let end = start + len;
    let mut out = String::new();
    let mut i: usize = 0;
    while i < chars.len()
        invariant
            chars@ == text@,
            start < chars.len(),
            end == start + len,
            i <= chars.len(),
            i <= start ==> out@ == text@.subrange(0, i as int),
            i > start ==> out@ == text@.subrange(0, start as int) + text@.subrange(
                if end < i { end as int } else { i as int },
                i as int,
            ),
        decreases chars.len() - i,
    {
        if i < start || i >= end {
            push_char(&mut out, chars[i]);
        }
        proof {
            if i + 1 <= start {
                assert(text@.subrange(0, i + 1) =~= text@.subrange(0, i as int).push(text@[i as int]));
            } else if i == start {
                assert(out@ =~= text@.subrange(0, start as int) + text@.subrange(
                    if end < i + 1 { end as int } else { i + 1 },
                    i + 1,
                ));
            } else if i >= end {
                assert(text@.subrange(end as int, i + 1) =~= text@.subrange(end as int, i as int).push(text@[i as int]));
                assert(out@ =~= text@.subrange(0, start as int) + text@.subrange(end as int, i + 1));
            } else {
                assert(out@ =~= text@.subrange(0, start as int) + text@.subrange(
                    if end < i + 1 { end as int } else { i + 1 },
                    i + 1,
                ));
            }
        }
        i = i + 1;
    }
    assert(out@ =~= without_range(text@, start as int, start + len));
    Ok(out)
}

/// `s` with every occurrence of `from` replaced by `to`, scanning left to right without
/// overlap; an empty `from` matches before every character and at the end.
pub open spec fn replace_all(s: Seq<char>, from: Seq<char>, to: Seq<char>) -> Seq<char>
    decreases s.len(),
{
    if s.len() == 0 {
        if from.len() == 0 {
            to
        } else {
            Seq::empty()
        }
    } else if from.len() == 0 {
        to + seq![s[0]] + replace_all(s.drop_first(), from, to)
    } else if from.is_prefix_of(s) {
        to + replace_all(s.skip(from.len() as int), from, to)
    } else {
        seq![s[0]] + replace_all(s.drop_first(), from, to)
    }
}

/// The pieces of `s` between the occurrences of a non-empty `sep`, found left to right
/// without overlap: one more piece than occurrences.
pub open spec fn split_on(s: Seq<char>, sep: Seq<char>) -> Seq<Seq<char>>
    decreases s.len(),
{
    if sep.len() == 0 || s.len() == 0 {
        seq![s]
    } else if sep.is_prefix_of(s) {
        seq![Seq::<char>::empty()] + split_on(s.skip(sep.len() as int), sep)
    } else {
        let rest = split_on(s.drop_first(), sep);
        seq![seq![s[0]] + rest[0]] + rest.drop_first()
    }
}

/// The pieces `ps` written one after another with `sep` between each two.
pub open spec fn join_with(ps: Seq<Seq<char>>, sep: Seq<char>) -> Seq<char>
    decreases ps.len(),
{
    if ps.len() == 0 {
        Seq::empty()
    } else if ps.len() == 1 {
        ps[0]
    } else {
        ps[0] + sep + join_with(ps.drop_first(), sep)
    }
}

/// There is always at least one piece, and the first is where `s` begins.
proof fn lemma_split_first(s: Seq<char>, sep: Seq<char>)
    ensures
        split_on(s, sep).len() >= 1,
        split_on(s, sep)[0].is_prefix_of(s),
    decreases s.len(),
{
    if sep.len() == 0 || s.len() == 0 {
    } else if sep.is_prefix_of(s) {
        lemma_split_first(s.skip(sep.len() as int), sep);
    } else {
        lemma_split_first(s.drop_first(), sep);
        let rest = split_on(s.drop_first(), sep);
        assert((seq![s[0]] + rest[0]).is_prefix_of(s)) by {
            assert forall|k: int| 0 <= k < (seq![s[0]] + rest[0]).len() implies (seq![s[0]] + rest[0])[k] == s[k] by {
                if k > 0 {
                    assert(rest[0][k - 1] == s.drop_first()[k - 1]);
                }
            }
        }
    }
}

/// Splitting at a non-empty separator and writing the pieces back with it gives the text
/// back: the pieces and the occurrences between them make up the whole text.
pub proof fn split_then_join_gives_back(s: Seq<char>, sep: Seq<char>)
    requires
        sep.len() > 0,
    ensures
        join_with(split_on(s, sep), sep) == s,
    decreases s.len(),
{
    if s.len() == 0 {
    } else if sep.is_prefix_of(s) {
        let t = s.skip(sep.len() as int);
        split_then_join_gives_back(t, sep);
        lemma_split_first(t, sep);
        let ps = split_on(s, sep);
        assert(ps.drop_first() =~= split_on(t, sep));
        assert(s =~= sep + t) by {
            assert forall|k: int| 0 <= k < s.len() implies s[k] == (sep + t)[k] by {
                if k < sep.len() {
                    assert(sep[k] == s[k]);
                }
            }
        }
        assert(join_with(ps, sep) =~= Seq::<char>::empty() + sep + join_with(split_on(t, sep), sep));
    } else {
        let t = s.drop_first();
        split_then_join_gives_back(t, sep);
        lemma_split_first(t, sep);
        let rest = split_on(t, sep);
        let ps = split_on(s, sep);
        assert(ps[0] == seq![s[0]] + rest[0]);
        assert(ps.drop_first() =~= rest.drop_first());
        if rest.len() == 1 {
            assert(join_with(rest, sep) == rest[0]);
            assert(s =~= seq![s[0]] + t);
        } else {
            assert(join_with(rest, sep) == rest[0] + sep + join_with(rest.drop_first(), sep));
            assert(join_with(ps, sep) == ps[0] + sep + join_with(ps.drop_first(), sep));
            assert(s =~= seq![s[0]] + t);
            assert(join_with(ps, sep) =~= seq![s[0]] + join_with(rest, sep));
        }
    }
}

/// No piece between the occurrences of a non-empty separator holds the separator.
pub proof fn pieces_hold_no_separator(s: Seq<char>, sep: Seq<char>)
    requires
        sep.len() > 0,
    ensures
        forall|k: int| 0 <= k < split_on(s, sep).len() ==> !occurs_in(#[trigger] split_on(s, sep)[k], sep),
    decreases s.len(),
{
    lemma_split_first(s, sep);
    if s.len() == 0 {
        assert forall|k: int| 0 <= k < split_on(s, sep).len() implies !occurs_in(#[trigger] split_on(s, sep)[k], sep) by {
            assert(split_on(s, sep)[k] == s);
        }
    } else if sep.is_prefix_of(s) {
        let t = s.skip(sep.len() as int);
        pieces_hold_no_separator(t, sep);
        let ps = split_on(s, sep);
        assert forall|k: int| 0 <= k < ps.len() implies !occurs_in(#[trigger] ps[k], sep) by {
            if k == 0 {
                assert(ps[0] == Seq::<char>::empty());
            } else {
                assert(ps[k] == split_on(t, sep)[k - 1]);
            }
        }
    } else {
        let t = s.drop_first();
        pieces_hold_no_separator(t, sep);
        lemma_split_first(t, sep);
        let rest = split_on(t, sep);
        let ps = split_on(s, sep);
        let first = seq![s[0]] + rest[0];
        assert(ps[0] == first);
        assert(first.is_prefix_of(s)) by {
            assert forall|k: int| 0 <= k < first.len() implies first[k] == s[k] by {
                if k > 0 {
                    assert(rest[0][k - 1] == t[k - 1]);
                }
            }
        }
        assert(!occurs_in(first, sep)) by {
            if occurs_in(first, sep) {
                let i = choose|i: int| occurs_at(first, sep, i);
                if i == 0 {
                    assert(sep.is_prefix_of(s)) by {
                        assert forall|k: int| 0 <= k < sep.len() implies sep[k] == s[k] by {
                            assert(first.subrange(0, sep.len() as int)[k] == first[k]);
                        }
                    }
                } else {
                    assert(occurs_at(rest[0], sep, i - 1)) by {
                        assert(rest[0].subrange(i - 1, i - 1 + sep.len()) =~= first.subrange(i, i + sep.len()));
                    }
                    assert(!occurs_in(rest[0], sep));
                }
            }
        }
        assert forall|k: int| 0 <= k < ps.len() implies !occurs_in(#[trigger] ps[k], sep) by {
            if k > 0 {
                assert(ps[k] == rest[k]);
            }
        }
    }
}

/// `replace` at a non-empty pattern, in full: the text is cut into pieces at the occurrences
/// of the pattern, found left to right without overlap (written back with the pattern, the
/// pieces give the text; no piece holds the pattern), and the result writes the same pieces
/// with the replacement between each two. So every occurrence, the last one included, is
/// replaced, and the rest of the text is kept as it is.
pub proof fn replace_law(s: Seq<char>, from: Seq<char>, to: Seq<char>)
    requires
        from.len() > 0,
    ensures
        replace_all(s, from, to) == join_with(split_on(s, from), to),
        join_with(split_on(s, from), from) == s,
        forall|k: int| 0 <= k < split_on(s, from).len() ==> !occurs_in(#[trigger] split_on(s, from)[k], from),
{
    replace_joins_pieces(s, from, to);
    split_then_join_gives_back(s, from);
    pieces_hold_no_separator(s, from);
}

/// Each character of `s` as a text of its own.
pub open spec fn singles(s: Seq<char>) -> Seq<Seq<char>> {
    s.map_values(|c: char| seq![c])
}

/// `replace` at an empty pattern: the pattern is found before every character and at the end,
/// so the result writes the replacement, then each character followed by the replacement.
pub proof fn replace_empty_law(s: Seq<char>, to: Seq<char>)
    ensures
        replace_all(s, Seq::empty(), to) == join_with(seq![Seq::<char>::empty()] + singles(s) + seq![Seq::<char>::empty()], to),
    decreases s.len(),
{
    let e = Seq::<char>::empty();
    let ps = seq![e] + singles(s) + seq![e];
    if s.len() == 0 {
        assert(ps =~= seq![e, e]);
        assert(ps.drop_first() =~= seq![e]);
        assert(join_with(ps, to) == e + to + join_with(ps.drop_first(), to));
        assert(join_with(ps, to) =~= to);
    } else {
        let t = s.drop_first();
        replace_empty_law(t, to);
        let rest = singles(t) + seq![e];
        let pt = seq![e] + singles(t) + seq![e];
        assert(pt.drop_first() =~= rest);
        assert(join_with(pt, to) == e + to + join_with(rest, to));
        assert(ps.drop_first() =~= seq![seq![s[0]]] + rest);
        assert((seq![seq![s[0]]] + rest).drop_first() =~= rest);
        assert(join_with(seq![seq![s[0]]] + rest, to) == seq![s[0]] + to + join_with(rest, to));
        assert(join_with(ps, to) == e + to + join_with(ps.drop_first(), to));
        assert(replace_all(s, e, to) == to + seq![s[0]] + replace_all(t, e, to));
        assert(join_with(ps, to) =~= to + seq![s[0]] + join_with(pt, to));
    }
}

/// Replacing a non-empty pattern writes the pieces of the text between its occurrences with
/// the replacement between each two: every occurrence, the last one included, is replaced,
/// and nothing else changes.
pub proof fn replace_joins_pieces(s: Seq<char>, from: Seq<char>, to: Seq<char>)
    requires
        from.len() > 0,
    ensures
        replace_all(s, from, to) == join_with(split_on(s, from), to),
    decreases s.len(),
{
    if s.len() == 0 {
    } else if from.is_prefix_of(s) {
        let t = s.skip(from.len() as int);
        replace_joins_pieces(t, from, to);
        lemma_split_first(t, from);
        let ps = split_on(s, from);
        assert(ps.drop_first() =~= split_on(t, from));
        assert(join_with(ps, to) =~= Seq::<char>::empty() + to + join_with(split_on(t, from), to));
    } else {
        let t = s.drop_first();
        replace_joins_pieces(t, from, to);
        lemma_split_first(t, from);
        let rest = split_on(t, from);
        let ps = split_on(s, from);
        assert(ps[0] == seq![s[0]] + rest[0]);
        assert(ps.drop_first() =~= rest.drop_first());
        if rest.len() == 1 {
            assert(join_with(rest, to) == rest[0]);
        } else {
            assert(join_with(rest, to) == rest[0] + to + join_with(rest.drop_first(), to));
            assert(join_with(ps, to) == ps[0] + to + join_with(ps.drop_first(), to));
            assert(join_with(ps, to) =~= seq![s[0]] + join_with(rest, to));
        }
    }
}

/// `s` written `n` times in a row.
pub open spec fn repeat_spec(s: Seq<char>, n: nat) -> Seq<char>
    decreases n,
{
    if n == 0 {
        Seq::empty()
    } else {
        repeat_spec(s, (n - 1) as nat) + s
    }
}

/// Appends the characters of `v` to `out`.
fn push_chars(out: &mut String, v: &Vec<char>)
    ensures
        final(out)@ == old(out)@ + v@,
{
    let mut i: usize = 0;
    while i < v.len()
        invariant
            i <= v.len(),
            out@ == old(out)@ + v@.take(i as int),
        decreases v.len() - i,
    {
        push_char(out, v[i]);
        assert(v@.take(i + 1) =~= v@.take(i as int).push(v@[i as int]));
        i = i + 1;
    }
    assert(v@.take(v.len() as int) =~= v@);
}

/// `Texto.substitua`: `text` with every occurrence of `pattern` replaced by `replacement`.
pub fn replace(text: &str, pattern: &str, replacement: &str) -> (r: String)
    ensures
        r@ == replace_all(text@, pattern@, replacement@),
        pattern@.len() > 0 ==> r@ == join_with(split_on(text@, pattern@), replacement@),
        pattern@.len() == 0 ==> r@ == join_with(
            seq![Seq::<char>::empty()] + singles(text@) + seq![Seq::<char>::empty()],
            replacement@,
        ),
{
    proof {
        if pattern@.len() > 0 {
            replace_law(text@, pattern@, replacement@);
        } else {
            replace_empty_law(text@, replacement@);
            assert(pattern@ =~= Seq::<char>::empty());
        }
    }
    let chars = chars_of(text);
    let from = chars_of(pattern);
    let to = chars_of(replacement);
    let mut out = String::new();
    let mut i: usize = 0;
    assert(text@.skip(0) =~= text@);
    assert(out@ + replace_all(text@, pattern@, replacement@) =~= replace_all(text@, pattern@, replacement@));
    while i < chars.len()
        invariant
            chars@ == text@,
            from@ == pattern@,
            to@ == replacement@,
            i <= chars.len(),
            replace_all(text@, pattern@, replacement@) == out@ + replace_all(text@.skip(i as int), pattern@, replacement@),
        decreases chars.len() - i,
    {
        let ghost rest = text@.skip(i as int);
        assert(rest.drop_first() =~= text@.skip(i + 1));
        assert(rest[0] == text@[i as int]);
        let ghost before = out@;
        if from.len() == 0 {
            push_chars(&mut out, &to);
            push_char(&mut out, chars[i]);
            assert(out@ + replace_all(text@.skip(i + 1), pattern@, replacement@) =~= before + replace_all(rest, pattern@, replacement@)) by {
                assert(replace_all(rest, pattern@, replacement@) == replacement@ + seq![rest[0]] + replace_all(rest.drop_first(), pattern@, replacement@));
            };
            i = i + 1;
        } else if occurs_at_exec(&chars, &from, i) {
            push_chars(&mut out, &to);
            proof {
                assert(pattern@.is_prefix_of(rest)) by {
                    assert(rest.subrange(0, pattern@.len() as int) =~= text@.subrange(i as int, i + pattern@.len()));
                }
                assert(rest.skip(pattern@.len() as int) =~= text@.skip(i + pattern@.len()));
            }
            i = i + from.len();
        } else {
            push_char(&mut out, chars[i]);
            proof {
                assert(!pattern@.is_prefix_of(rest)) by {
                    if pattern@.is_prefix_of(rest) {
                        assert(text@.subrange(i as int, i + pattern@.len()) =~= rest.subrange(0, pattern@.len() as int));
                    }
                }
            }
            i = i + 1;
        }
    }
    if from.len() == 0 {
        push_chars(&mut out, &to);
    }
    assert(text@.skip(i as int) =~= Seq::<char>::empty());
    out
}

/// `Texto.repita`: `text` written `times` times in a row.
pub fn repeat(text: &str, times: usize) -> (r: String)
    ensures
        r@ == repeat_spec(text@, times as nat),
{
    let chars = chars_of(text);
    let mut out = String::new();
    let mut k: usize = 0;
    while k < times
        invariant
            chars@ == text@,
            k <= times,
            out@ == repeat_spec(text@, k as nat),
        decreases times - k,
    {
        push_chars(&mut out, &chars);
        k = k + 1;
    }
    out
}

/// `Lista.remova_por_índice`: takes out and returns the element at `index`.
pub fn remove_at<T>(list: &mut Vec<T>, index: usize) -> (r: Result<T, BoundsError>)
    ensures
        index >= old(list).len() ==> r == Err::<T, BoundsError>(
            BoundsError::IndexOutOfBounds { index, len: old(list).len() },
        ) && final(list)@ == old(list)@,
        index < old(list).len() ==> r == Ok::<T, BoundsError>(old(list)@[index as int])
            && final(list)@ == old(list)@.remove(index as int),
{
    let len = list.len();
    if len <= index {
        return Err(BoundsError::IndexOutOfBounds { index, len });
    }
    Ok(list.remove(index))
}

/// `Lista.obtenha`: the element at `index`.
pub fn get_at<T>(list: &Vec<T>, index: usize) -> (r: Result<&T, BoundsError>)
    ensures
        index >= list.len() ==> r == Err::<&T, BoundsError>(
            BoundsError::IndexOutOfBounds { index, len: list.len() },
        ),
        index < list.len() ==> r == Ok::<&T, BoundsError>(&list@[index as int]),
{
    let len = list.len();
    if len <= index {
        return Err(BoundsError::IndexOutOfBounds { index, len });
    }
    Ok(&list[index])
}

/// `Lista.fatia`: copies of the elements from index `start` through index `end`.
pub fn slice_list<T: Clone>(list: &Vec<T>, start: usize, end: usize) -> (r: Result<Vec<T>, BoundsError>)
    ensures
        start > end ==> r == Err::<Vec<T>, BoundsError>(BoundsError::InvalidRangeBounds { bound: end }),
        start <= end && end >= list.len() ==> r == Err::<Vec<T>, BoundsError>(
            BoundsError::IndexOutOfBounds { index: end, len: list.len() },
        ),
        start <= end < list.len() ==> (r matches Ok(v) && v.len() == end - start + 1 && forall|k: int|
            0 <= k < v.len() ==> cloned(list@[start + k], #[trigger] v@[k])),
{
    if start > end {
        return Err(BoundsError::InvalidRangeBounds { bound: end });
    }
    let len = list.len();
    if end >= len {
        return Err(BoundsError::IndexOutOfBounds { index: end, len });
    }
    let mut out: Vec<T> = Vec::new();
    let mut i: usize = start;
    while i <= end
        invariant
            start <= i <= end + 1,
            end < list.len(),
            out.len() == i - start,
            forall|k: int| 0 <= k < out.len() ==> cloned(list@[start + k], #[trigger] out@[k]),
        decreases end + 1 - i,
    {
        let item = list[i].clone();
        out.push(item);
        i = i + 1;
    }
    Ok(out)
}

/// `Texto.para_maiúsculas`: `text` in upper case.
pub fn to_upper(text: &str) -> (r: String)
    ensures
        r@ == uppercase_of(text@),
{
    to_uppercase(text)
}

/// `Texto.para_minúsculas`: `text` in lower case.
pub fn to_lower(text: &str) -> (r: String)
    ensures
        r@ == lowercase_of(text@),
{
    to_lowercase(text)
}

/// The elements of `s` that are not equal to `value`, in order.
pub open spec fn all_but<T: PartialEq>(s: Seq<T>, value: T) -> Seq<T> {
    s.filter(|x: T| !x.eq_spec(&value))
}

/// `Lista.índice_de`: the index of the first element equal to `value`, by the element type's
/// `==`.
pub fn list_index_of<T: PartialEq>(list: &Vec<T>, value: &T) -> (r: Option<usize>)
    ensures
        T::obeys_eq_spec() ==> match r {
            Some(i) => i < list.len() && list@[i as int].eq_spec(value) && forall|j: int|
                0 <= j < i ==> !(#[trigger] list@[j]).eq_spec(value),
            None => forall|j: int| 0 <= j < list.len() ==> !(#[trigger] list@[j]).eq_spec(value),
        },
{
    let mut i: usize = 0;
    while i < list.len()
        invariant
            i <= list.len(),
            T::obeys_eq_spec() ==> forall|j: int| 0 <= j < i ==> !(#[trigger] list@[j]).eq_spec(value),
        decreases list.len() - i,
    {
        if list[i].eq(value) {
            return Some(i);
        }
        i = i + 1;
    }
    None
}

/// `Lista.contém`: whether an element is equal to `value`, by the element type's `==`.
pub fn list_contains<T: PartialEq>(list: &Vec<T>, value: &T) -> (r: bool)
    ensures
        T::obeys_eq_spec() ==> r == exists|j: int| 0 <= j < list.len() && (#[trigger] list@[j]).eq_spec(value),
{
    match list_index_of(list, value) {
        Some(i) => {
            assert(T::obeys_eq_spec() ==> list@[i as int].eq_spec(value));
            true
        },
        None => false,
    }
}

/// `Lista.remova`: takes out the first element equal to `value` and returns it; the list is
/// left as it is where none is.
pub fn remove_value<T: PartialEq>(list: &mut Vec<T>, value: &T) -> (r: Option<T>)
    ensures
        T::obeys_eq_spec() ==> match r {
            Some(x) => exists|i: int| {
                &&& 0 <= i < old(list).len()
                &&& (#[trigger] old(list)@[i]).eq_spec(value)
                &&& forall|j: int| 0 <= j < i ==> !(#[trigger] old(list)@[j]).eq_spec(value)
                &&& x == old(list)@[i]
                &&& final(list)@ == old(list)@.remove(i)
            },
            None => {
                &&& forall|j: int| 0 <= j < old(list).len() ==> !(#[trigger] old(list)@[j]).eq_spec(value)
                &&& final(list)@ == old(list)@
            },
        },
        !T::obeys_eq_spec() ==> (r is None ==> final(list)@ == old(list)@),
{
    match list_index_of(list, value) {
        Some(i) => {
            if i < list.len() {
                let x = list.remove(i);
                Some(x)
            } else {
                None
            }
        },
        None => None,
    }
}

/// `Lista.remova_todos`: takes out every element equal to `value`, keeping the others in order.
pub fn remove_all<T: PartialEq>(list: &mut Vec<T>, value: &T)
    ensures
        T::obeys_eq_spec() ==> final(list)@ == all_but(old(list)@, *value),
{
    let ghost orig = list@;
    let ghost keep = |x: T| !x.eq_spec(value);
    let mut i: usize = 0;
    let mut k: usize = 0;
    assert(orig.take(0).filter(keep) =~= Seq::<T>::empty()) by {
        reveal(Seq::filter);
    }
    assert(list@.take(0) =~= Seq::<T>::empty());
    assert(list@.skip(0) =~= orig.skip(0));
    while i < list.len()
        invariant
            orig == old(list)@,
            keep == (|x: T| !x.eq_spec(value)),
            i <= list.len(),
            k <= orig.len(),
            list.len() - i == orig.len() - k,
            T::obeys_eq_spec() ==> list@.take(i as int) == orig.take(k as int).filter(keep),
            list@.skip(i as int) == orig.skip(k as int),
        decreases list.len() - i,
    {
        let ghost before = list@;
        assert(k < orig.len() && orig.len() == old(list).len());
        proof {
            assert(before[i as int] == orig[k as int]) by {
                assert(before.skip(i as int)[0] == orig.skip(k as int)[0]);
            }
            reveal(Seq::filter);
            assert(orig.take(k + 1).drop_last() =~= orig.take(k as int));
            assert(orig.take(k + 1).last() == orig[k as int]);
        }
        if list[i].eq(value) {
            let _ = list.remove(i);
            proof {
                assert(list@.take(i as int) =~= before.take(i as int));
                assert forall|m: int| 0 <= m < orig.skip(k + 1).len() implies list@.skip(i as int)[m] == #[trigger] orig.skip(k
                    + 1)[m] by {
                    assert(orig.skip(k + 1)[m] == orig.skip(k as int)[m + 1]);
                    assert(before.skip(i as int)[m + 1] == before[i + 1 + m]);
                }
                assert(list@.skip(i as int) =~= orig.skip(k + 1));
            }
        } else {
            proof {
                assert(list@.take(i + 1) =~= before.take(i as int).push(before[i as int]));
                assert forall|m: int| 0 <= m < orig.skip(k + 1).len() implies list@.skip(i + 1)[m] == #[trigger] orig.skip(k
                    + 1)[m] by {
                    assert(orig.skip(k + 1)[m] == orig.skip(k as int)[m + 1]);
                    assert(before.skip(i as int)[m + 1] == before[i + 1 + m]);
                }
                assert(list@.skip(i + 1) =~= orig.skip(k + 1));
            }
            i = i + 1;
        }
        k = k + 1;
    }
    proof {
        assert(orig.take(orig.len() as int) =~= orig);
        assert(list@.take(i as int) =~= list@);
    }
}

} // verus!
