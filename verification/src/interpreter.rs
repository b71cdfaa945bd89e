//! Plain data of the interpreter: keys of associative arrays, kinds of values, file errors,
//! stack errors and function parameters.

use vstd::prelude::*;
use crate::text::{push_char, char_from_byte};

verus! {

/// A key of an associative array.
#[derive(Debug, Clone, Hash, PartialEq, Eq)]
pub enum AssociativeArrayKey {
    String(String),
    Number(i64),
}

/// The decimal digit `d` as a character.
pub open spec fn digit_char(d: nat) -> char {
    (('0' as nat) + d) as char
}

/// The decimal digits of `n`, most significant first, without leading zeros (`0` is "0").
pub open spec fn nat_digits(n: nat) -> Seq<char>
    decreases n,
{
    if n < 10 {
        seq![digit_char(n)]
    } else {
        nat_digits(n / 10).push(digit_char(n % 10))
    }
}

/// The decimal text of `n`, with a `-` in front where it is negative.
pub open spec fn int_text(n: int) -> Seq<char> {
    if n < 0 {
        seq!['-'] + nat_digits((-n) as nat)
    } else {
        nat_digits(n as nat)
    }
}

/// The text of a key: the string itself, or the number in decimal.
pub open spec fn key_text(k: AssociativeArrayKey) -> Seq<char> {
    match k {
        AssociativeArrayKey::String(s) => s@,
        AssociativeArrayKey::Number(n) => int_text(n as int),
    }
}

/// Appends the decimal digits of `n` to `s`.
pub(crate) fn push_digits(s: &mut String, n: u64)
    ensures
        final(s)@ == old(s)@ + nat_digits(n as nat),
    decreases n,
{
    if n >= 10 {
        push_digits(s, n / 10);
    }
    let d: u64 = n % 10;
    let c = char_from_byte(48u8 + (d as u8));
    push_char(s, c);
    assert(c == digit_char(d as nat));
    assert(old(s)@ + nat_digits(n as nat) =~= final(s)@) by {
        if n >= 10 {
            assert(nat_digits(n as nat) == nat_digits((n / 10) as nat).push(digit_char((n % 10) as nat)));
        }
    }
}

/// The decimal text of `n`.
pub fn int_to_text(n: i64) -> (r: String)
    ensures
        r@ == int_text(n as int),
{
    let mut s = String::new();
    if n < 0 {
        push_char(&mut s, '-');
        let m: u64 = if n == i64::MIN {
            9223372036854775808u64
        } else {
            (-n) as u64
        };
        push_digits(&mut s, m);
        assert(s@ =~= int_text(n as int));
    } else {
        push_digits(&mut s, n as u64);
        assert(s@ =~= int_text(n as int));
    }
    s
}

impl AssociativeArrayKey {
    /// The text of the key: the string itself, or the number in decimal.
    pub fn to_display_string(&self) -> (r: String)
        ensures
            r@ == key_text(*self),
    {
        match self {
            AssociativeArrayKey::String(key) => key.clone(),
            AssociativeArrayKey::Number(key) => int_to_text(*key),
        }
    }
}

/// Why a file operation failed.
#[derive(Debug, Clone, Copy, PartialEq, Eq)]
#[non_exhaustive]
pub enum FileErrorKind {
    NotFound,
    PermissionDenied,
    AlreadyExists,
    Other,
}

/// The kind of a value.
#[derive(Debug, PartialEq, Eq, Clone, Copy)]
pub enum ValueType {
    Number,
    Boolean,
    String,
    Function,
    List,
    Range,
    Nil,
}

/// The name of a kind of value, as programs see it.
pub open spec fn value_type_name(t: ValueType) -> Seq<char> {
    match t {
        ValueType::Number => "número"@,
        ValueType::Boolean => "lógico"@,
        ValueType::String => "texto"@,
        ValueType::Function => "função"@,
        ValueType::List => "lista"@,
        ValueType::Range => "intervalo"@,
        ValueType::Nil => "Nada"@,
    }
}

impl ValueType {
    /// The name of the kind, as programs see it.
    pub fn to_display_string(&self) -> (r: String)
        ensures
            r@ == value_type_name(*self),
    {
        match self {
            ValueType::Number => String::from_str("número"),
            ValueType::Boolean => String::from_str("lógico"),
            ValueType::String => String::from_str("texto"),
            ValueType::Function => String::from_str("função"),
            ValueType::List => String::from_str("lista"),
            ValueType::Range => String::from_str("intervalo"),
            ValueType::Nil => String::from_str("Nada"),
        }
    }
}

/// Why a variable could not be declared or assigned.
#[derive(Debug, PartialEq, Eq, Clone)]
pub enum StackError {
    /// The innermost scope already declares it.
    AlreadyDeclared,
    /// No scope declares it.
    AssignToUndefined(String),
}

/// A parameter of a function value: its name and whether a closure captures it.
#[derive(Debug, Clone)]
pub struct FunctionParam {
    pub name: String,
    pub is_captured: bool,
}

impl From<crate::ast::FunctionParam> for FunctionParam {
    fn from(param: crate::ast::FunctionParam) -> (r: FunctionParam) {
        FunctionParam { name: param.name, is_captured: param.captured }
    }
}

impl vstd::std_specs::convert::FromSpecImpl<crate::ast::FunctionParam> for FunctionParam {
    open spec fn obeys_from_spec() -> bool {
        true
    }

    open spec fn from_spec(param: crate::ast::FunctionParam) -> FunctionParam {
        FunctionParam { name: param.name, is_captured: param.captured }
    }
}

} // verus!
