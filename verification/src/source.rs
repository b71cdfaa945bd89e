//! Identities of source texts.

use vstd::prelude::*;
use crate::interpreter::{nat_digits, push_digits};
use crate::text::push_char;

verus! {

/// An opaque identifier of a source text.
#[derive(Debug, Clone, Copy, PartialEq, Eq, Hash)]
pub struct UniqueId(pub usize);

/// Hands out fresh identifiers, starting at 1 (0 is reserved for the dummy source).
///
/// Identifiers are distinct among those one counter hands out (until it wraps), not across
/// counters: a program keeps a single counter and passes it by `&mut` to every place that
/// creates a source.
#[derive(Debug)]
pub struct IdCounter {
    next: usize,
}

impl IdCounter {
    /// The value the next call of `UniqueId::new` hands out.
    pub closed spec fn next_id(&self) -> usize {
        self.next
    }

    /// A counter whose first identifier is 1.
    pub fn new() -> (r: IdCounter)
        ensures
            r.next_id() == 1,
    {
        IdCounter { next: 1 }
    }
}

impl UniqueId {
    /// Takes the counter's next identifier and advances the counter (wrapping at `usize::MAX`).
    pub fn new(counter: &mut IdCounter) -> (r: UniqueId)
        ensures
            r.0 == old(counter).next_id(),
            final(counter).next_id() == (if old(counter).next_id() == usize::MAX {
                0
            } else {
                old(counter).next_id() + 1
            }),
    {
        let id = counter.next;
        counter.next = counter.next.wrapping_add(1);
        UniqueId(id)
    }
}

} // verus!

verus! {

/// A source text as the scanner and the reports know it: an identifier and an optional name.
#[derive(Debug, Clone, Copy)]
pub struct IdentifiedSource {
    id: UniqueId,
    name: Option<&'static str>,
}

/// The identifier of the dummy source.
pub open spec fn dummy_id() -> usize {
    0
}

impl IdentifiedSource {
    /// The source's identifier.
    pub closed spec fn spec_id(&self) -> usize {
        self.id.0
    }

    /// The source's name, if it has one.
    pub closed spec fn spec_name(&self) -> Option<&'static str> {
        self.name
    }

    /// A fresh, unnamed source whose identifier is the counter's next one.
    pub fn new(counter: &mut IdCounter) -> (r: IdentifiedSource)
        ensures
            r.spec_id() == old(counter).next_id(),
            r.spec_name() is None,
            final(counter).next_id() == (if old(counter).next_id() == usize::MAX {
                0
            } else {
                old(counter).next_id() + 1
            }),
    {
        IdentifiedSource { id: UniqueId::new(counter), name: None }
    }

    /// The unnamed source with the reserved identifier 0.
    pub fn dummy() -> (r: IdentifiedSource)
        ensures
            r.spec_id() == dummy_id(),
            r.spec_name() is None,
    {
        IdentifiedSource { id: UniqueId(0), name: None }
    }

    /// Gives the source a name; its identifier stays.
    pub fn set_name(&mut self, name: &'static str)
        ensures
            final(self).spec_id() == old(self).spec_id(),
            final(self).spec_name() == Some(name),
    {
        self.name = Some(name);
    }

    /// The source's identifier.
    pub fn id(&self) -> (r: UniqueId)
        ensures
            r.0 == self.spec_id(),
    {
        self.id
    }

    /// The source's name, if it has one.
    pub fn name(&self) -> (r: Option<&'static str>)
        ensures
            r == self.spec_name(),
    {
        self.name
    }

    /// How reports show the source: its name, or `<anônimo k>` with `k` its identifier.
    pub fn to_display_string(&self) -> (r: String)
        ensures
            r@ == source_text(*self),
    {
        match self.name {
            Some(name) => name.to_owned(),
            None => {
                let mut s = String::new();
                push_str_chars(&mut s, "<anônimo ");
                push_digits(&mut s, self.id.0 as u64);
                push_char(&mut s, '>');
                s
            },
        }
    }

    /// Two sources are the same source when their identifiers agree.
    pub fn same_as(&self, other: &IdentifiedSource) -> (r: bool)
        ensures
            r == (self.spec_id() == other.spec_id()),
    {
        self.id.0 == other.id.0
    }
}

/// How reports show a source: its name, or `<anônimo k>` with `k` its identifier.
pub open spec fn source_text(s: IdentifiedSource) -> Seq<char> {
    match s.spec_name() {
        Some(name) => name@,
        None => "<anônimo "@ + nat_digits(s.spec_id() as nat) + seq!['>'],
    }
}

/// Appends the characters of `t` to `s`.
fn push_str_chars(s: &mut String, t: &str)
    ensures
        final(s)@ == old(s)@ + t@,
{
    let chars = crate::text::chars_of(t);
    let mut i: usize = 0;
    while i < chars.len()
        invariant
            chars@ == t@,
            i <= chars.len(),
            s@ == old(s)@ + t@.take(i as int),
        decreases chars.len() - i,
    {
        push_char(s, chars[i]);
        assert(t@.take(i + 1) =~= t@.take(i as int).push(t@[i as int]));
        i = i + 1;
    }
    assert(t@.take(chars.len() as int) =~= t@);
}

impl PartialEq for IdentifiedSource {
    fn eq(&self, other: &Self) -> (r: bool) {
        self.id.0 == other.id.0
    }
}

impl vstd::std_specs::cmp::PartialEqSpecImpl for IdentifiedSource {
    open spec fn obeys_eq_spec() -> bool {
        true
    }

    open spec fn eq_spec(&self, other: &IdentifiedSource) -> bool {
        self.spec_id() == other.spec_id()
    }
}

impl Eq for IdentifiedSource {}

} // verus!
