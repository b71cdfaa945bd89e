//! Pieces of the runtime's values that carry no numbers: value kinds, freezable containers,
//! and the escaping of text for display.

use vstd::prelude::*;
use crate::text::{chars_of, push_char, is_control, spec_is_control, char_from_byte};

verus! {

/// The kinds of runtime values.
#[derive(Debug, Clone, Copy, PartialEq, Eq, Structural)]
pub enum ValueType {
    Number,
    Boolean,
    String,
    Function,
    List,
    Range,
    Nil,
    AssociativeArray,
    Date,
    Module,
}

/// The name of a value kind as shown to users.
pub open spec fn value_type_name(t: ValueType) -> Seq<char> {
    match t {
        ValueType::Number => "número"@,
        ValueType::Boolean => "lógico"@,
        ValueType::String => "texto"@,
        ValueType::Function => "função"@,
        ValueType::List => "lista"@,
        ValueType::Range => "intervalo"@,
        ValueType::AssociativeArray => "dicionário"@,
        ValueType::Date => "data"@,
        ValueType::Nil => "Nada"@,
        ValueType::Module => "módulo"@,
    }
}

impl ValueType {
    /// The name of the kind as shown to users.
    pub fn to_display_string(&self) -> (r: String)
        ensures
            r@ == value_type_name(*self),
    {
        match self {
            ValueType::Number => String::from_str("número"),
            ValueType::Boolean => String::from_str("lógico"),
            ValueType::String => String::from_str("texto"),
            ValueType::Function => String::from_str("função"),
            ValueType::List => String::from_str("lista"),
            ValueType::Range => String::from_str("intervalo"),
            ValueType::AssociativeArray => String::from_str("dicionário"),
            ValueType::Date => String::from_str("data"),
            ValueType::Nil => String::from_str("Nada"),
            ValueType::Module => String::from_str("módulo"),
        }
    }
}

/// The refusal to change a frozen value.
#[derive(Debug, Clone, Copy, PartialEq, Eq, Structural)]
pub enum DynamicValueError {
    Frozen,
}

/// A value that can be changed until it is frozen.
#[derive(Debug, Clone)]
pub struct DynamicValue<T> {
    value: T,
    frozen: bool,
}

impl<T> DynamicValue<T> {
    /// The value held.
    pub closed spec fn spec_value(&self) -> T {
        self.value
    }

    /// Whether the value is frozen.
    pub closed spec fn spec_frozen(&self) -> bool {
        self.frozen
    }

    /// A changeable value.
    pub fn new(value: T) -> (r: DynamicValue<T>)
        ensures
            r.spec_value() == value,
            !r.spec_frozen(),
    {
        DynamicValue { value, frozen: false }
    }

    /// A frozen value.
    pub fn new_frozen(value: T) -> (r: DynamicValue<T>)
        ensures
            r.spec_value() == value,
            r.spec_frozen(),
    {
        DynamicValue { value, frozen: true }
    }

    /// Freezes the value; it stays as it is.
    pub fn freeze(&mut self)
        ensures
            final(self).spec_value() == old(self).spec_value(),
            final(self).spec_frozen(),
    {
        self.frozen = true;
    }

    /// Whether the value is frozen.
    pub fn is_frozen(&self) -> (r: bool)
        ensures
            r == self.spec_frozen(),
    {
        self.frozen
    }

    /// The value, to read.
    pub fn borrow(&self) -> (r: &T)
        ensures
            *r == self.spec_value(),
    {
        &self.value
    }

    /// The value, to change, unless it is frozen.
    pub fn borrow_mut_checked(&mut self) -> (r: Result<&mut T, DynamicValueError>)
        ensures
            old(self).spec_frozen() ==> r == Err::<&mut T, DynamicValueError>(DynamicValueError::Frozen)
                && *final(self) == *old(self),
            !old(self).spec_frozen() ==> r is Ok,
            r matches Ok(v) ==> *v == old(self).spec_value() && final(self).spec_value() == *final(v)
                && !final(self).spec_frozen(),
    {
        if self.frozen {
            Err(DynamicValueError::Frozen)
        } else {
            Ok(&mut self.value)
        }
    }
}

/// The uppercase hexadecimal digit of `n` (below 16).
pub open spec fn hex_digit_upper(n: int) -> char {
    if n < 10 {
        ('0' as int + n) as char
    } else {
        ('A' as int + n - 10) as char
    }
}

/// How one character is written inside a quoted text: the characters the scanner reads as
/// escapes get their escape, other control characters a `\xHH` escape, the rest themselves.
pub open spec fn escape_char(c: char) -> Seq<char> {
    if c == '\0' {
        seq!['\\', '0']
    } else if c == '\u{7}' {
        seq!['\\', 'a']
    } else if c == '\u{8}' {
        seq!['\\', 'b']
    } else if c == '\u{c}' {
        seq!['\\', 'f']
    } else if c == '\u{b}' {
        seq!['\\', 'v']
    } else if c == '\u{1b}' {
        seq!['\\', 'e']
    } else if c == '\r' {
        seq!['\\', 'r']
    } else if c == '\n' {
        seq!['\\', 'n']
    } else if c == '\t' {
        seq!['\\', 't']
    } else if c == '\\' {
        seq!['\\', '\\']
    } else if c == '"' {
        seq!['\\', '"']
    } else if c == '\'' {
        seq!['\\', '\'']
    } else if spec_is_control(c) {
        seq!['\\', 'x', hex_digit_upper(c as int / 16), hex_digit_upper(c as int % 16)]
    } else {
        seq![c]
    }
}

/// How a text is written inside quotes: each character escaped in turn.
pub open spec fn escape_seq(t: Seq<char>) -> Seq<char>
    decreases t.len(),
{
    if t.len() == 0 {
        Seq::empty()
    } else {
        escape_seq(t.drop_last()) + escape_char(t.last())
    }
}

/// The uppercase hexadecimal digit of `n`.
fn hex_digit(n: u32) -> (r: char)
    requires
        n < 16,
    ensures
        r == hex_digit_upper(n as int),
{
    if n < 10 {
        let b: u8 = (n as u8) + 48;
        char_from_byte(b)
    } else {
        let b: u8 = (n as u8) + 55;
        char_from_byte(b)
    }
}

/// Appends the two characters `\` and `e`.
fn push_escape(result: &mut String, e: char)
    ensures
        final(result)@ == old(result)@ + seq!['\\', e],
{
    push_char(result, '\\');
    push_char(result, e);
    assert(final(result)@ =~= old(result)@ + seq!['\\', e]);
}

/// Appends `\x` and the two uppercase hexadecimal digits of the control character `c`.
fn push_hex_escape(result: &mut String, c: char)
    requires
        spec_is_control(c),
    ensures
        final(result)@ == old(result)@ + seq![
            '\\',
            'x',
            hex_digit_upper(c as int / 16),
            hex_digit_upper(c as int % 16),
        ],
{
    let byte = c as u32;
    assert(byte as int == c as int);
    assert(byte <= 0x9f);
    push_char(result, '\\');
    push_char(result, 'x');
    push_char(result, hex_digit(byte / 16));
    push_char(result, hex_digit(byte % 16));
    assert(final(result)@ =~= old(result)@ + seq![
        '\\',
        'x',
        hex_digit_upper(c as int / 16),
        hex_digit_upper(c as int % 16),
    ]);
}

/// Writes `s` so that it can stand between quotes: line breaks, quotes, backslashes and other
/// control characters become escapes.
pub fn escape_special_chars(s: &str) -> (r: String)
    ensures
        r@ == escape_seq(s@),
{
    let chars = chars_of(s);
    let mut result = String::new();
    let mut i: usize = 0;
    assert(chars@.take(0) =~= Seq::<char>::empty());
    while i < chars.len()
        invariant
            i <= chars.len(),
            chars@ == s@,
            result@ == escape_seq(chars@.take(i as int)),
        decreases chars.len() - i,
    {
        let c = chars[i];
        assert(chars@.take(i + 1).drop_last() =~= chars@.take(i as int));
        assert(chars@.take(i + 1).last() == c);
        if c == '\0' {
            push_escape(&mut result, '0');
        } else if c == '\u{7}' {
            push_escape(&mut result, 'a');
        } else if c == '\u{8}' {
            push_escape(&mut result, 'b');
        } else if c == '\u{c}' {
            push_escape(&mut result, 'f');
        } else if c == '\u{b}' {
            push_escape(&mut result, 'v');
        } else if c == '\u{1b}' {
            push_escape(&mut result, 'e');
        } else if c == '\r' {
            push_escape(&mut result, 'r');
        } else if c == '\n' {
            push_escape(&mut result, 'n');
        } else if c == '\t' {
            push_escape(&mut result, 't');
        } else if c == '\\' {
            push_escape(&mut result, '\\');
        } else if c == '"' {
            push_escape(&mut result, '"');
        } else if c == '\'' {
            push_escape(&mut result, '\'');
        } else if is_control(c) {
            push_hex_escape(&mut result, c);
        } else {
            push_char(&mut result, c);
        }
        i = i + 1;
    }
    assert(chars@.take(chars.len() as int) =~= chars@);
    result
}

} // verus!
