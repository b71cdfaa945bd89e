//! Variables of a running program: the cells that hold their values, the environments that
//! name them, the frames of calls and the stack of frames.
//!
//! A cell either owns its value or shares it, through a reference-counted mutable box, with
//! the closures that capture it; writing to a shared cell writes through to every holder.

use vstd::prelude::*;
use std::cell::RefCell;
use std::rc::Rc;
use crate::runtime::{EnvironmentSetError, EnvironmentSealError, StackDefinitionError, StackAssignmentError};
use crate::text::str_eq;

verus! {

/// `std::cell::RefCell`, the mutable box that shared cells hold.
#[verifier::external_type_specification]
#[verifier::external_body]
#[verifier::reject_recursive_types(T)]
pub struct ExRefCell<T: ?Sized>(std::cell::RefCell<T>);

/// Makes a new shared box holding `value` (`Rc::new(RefCell::new(value))`). Nothing is
/// stated of the box: its contents change through other holders.
#[verifier::external_body]
fn share_new<V>(value: V) -> Rc<RefCell<V>> {
    Rc::new(RefCell::new(value))
}

/// Writes `value` into the box (`*cell.borrow_mut() = value`). Nothing is stated of the
/// box's contents afterwards; the call is made only where no borrow of the box is live.
#[verifier::external_body]
fn share_write<V>(cell: &Rc<RefCell<V>>, value: V) {
    *cell.borrow_mut() = value;
}

/// A copy of the value in the box (`cell.borrow().clone()`). Nothing is stated of it: the
/// contents change through other holders.
#[verifier::external_body]
fn share_read<V: Clone>(cell: &Rc<RefCell<V>>) -> V {
    cell.borrow().clone()
}

/// Another handle to the same allocation (`Rc::clone`): it equals the given one.
#[verifier::external_body]
pub(crate) fn share_handle<T>(rc: &Rc<T>) -> (r: Rc<T>)
    ensures
        r == *rc,
{
    Rc::clone(rc)
}

/// The cell of a variable.
#[derive(Debug)]
#[verifier::reject_recursive_types(V)]
pub enum ValueCell<V> {
    /// The value, owned by the variable.
    Owned(V),
    /// A box shared with the closures that capture the variable.
    Shared(Rc<RefCell<V>>),
    /// A box shared with the environment of another module.
    External(Rc<RefCell<V>>),
}

/// Whether a cell shares its value.
pub open spec fn is_shared_cell<V>(c: ValueCell<V>) -> bool {
    c is Shared || c is External
}

impl<V> ValueCell<V> {
    /// A cell that owns `value`.
    pub fn new(value: V) -> (r: ValueCell<V>)
        ensures
            r == ValueCell::Owned(value),
    {
        ValueCell::Owned(value)
    }

    /// A cell that shares `value` with the closures that capture it.
    pub fn new_shared(value: V) -> (r: ValueCell<V>)
        ensures
            r is Shared,
    {
        ValueCell::Shared(share_new(value))
    }

    /// A cell that shares `value` with other modules.
    pub fn new_external(value: V) -> (r: ValueCell<V>)
        ensures
            r is External,
    {
        ValueCell::External(share_new(value))
    }

    /// A copy of the value: of the owned value, or of the box's contents.
    pub fn extract(&self) -> (r: V)
        where V: Clone,
        ensures
            *self matches ValueCell::Owned(v) ==> cloned::<V>(v, r),
    {
        match self {
            ValueCell::Owned(val) => val.clone(),
            ValueCell::Shared(val) => share_read(val),
            ValueCell::External(val) => share_read(val),
        }
    }

    /// A copy of the cell: a copy of an owned value, another handle to a shared box.
    pub fn duplicate(&self) -> (r: ValueCell<V>)
        where V: Clone,
        ensures
            match *self {
                ValueCell::Owned(v) => r matches ValueCell::Owned(w) && cloned::<V>(v, w),
                _ => r == *self,
            },
    {
        match self {
            ValueCell::Owned(val) => ValueCell::Owned(val.clone()),
            ValueCell::Shared(val) => ValueCell::Shared(share_handle(val)),
            ValueCell::External(val) => ValueCell::External(share_handle(val)),
        }
    }
}

/// The variables of a scope: a cell for each name, and the names that are sealed.
#[derive(Debug)]
#[verifier::reject_recursive_types(V)]
pub struct Environment<V> {
    state: Vec<(String, ValueCell<V>)>,
    sealed_vars: Vec<String>,
}

impl<V> Environment<V> {
    /// No name is bound twice.
    pub closed spec fn wf(&self) -> bool {
        forall|i: int, j: int|
            0 <= i < j < self.state@.len() ==> (#[trigger] self.state@[i]).0@ != (#[trigger] self.state@[j]).0@
    }

    /// Whether `name` is bound.
    pub closed spec fn binds(&self, name: Seq<char>) -> bool {
        exists|i: int| 0 <= i < self.state@.len() && (#[trigger] self.state@[i]).0@ == name
    }

    /// The cell bound to `name`, if any.
    pub closed spec fn cell(&self, name: Seq<char>) -> Option<ValueCell<V>> {
        if self.binds(name) {
            let i = choose|i: int| 0 <= i < self.state@.len() && (#[trigger] self.state@[i]).0@ == name;
            Some(self.state@[i].1)
        } else {
            None
        }
    }

    /// Whether `name` is sealed.
    pub closed spec fn is_sealed(&self, name: Seq<char>) -> bool {
        exists|i: int| 0 <= i < self.sealed_vars@.len() && (#[trigger] self.sealed_vars@[i])@ == name
    }

    /// `self` and `other` bind the same cells and seal the same names, except for `name`.
    pub open spec fn same_except(&self, other: &Environment<V>, name: Seq<char>) -> bool {
        &&& forall|n: Seq<char>| n != name ==> #[trigger] self.cell(n) == other.cell(n)
        &&& forall|n: Seq<char>| n != name ==> #[trigger] self.is_sealed(n) == other.is_sealed(n)
    }

    /// The index of the entry for `name`, if any.
    fn find(&self, name: &str) -> (r: Option<usize>)
        requires
            self.wf(),
        ensures
            match r {
                Some(i) => i < self.state@.len() && self.state@[i as int].0@ == name@ && self.cell(name@)
                    == Some(self.state@[i as int].1),
                None => !self.binds(name@) && self.cell(name@) is None,
            },
    {
        let mut i: usize = 0;
        while i < self.state.len()
            invariant
                self.wf(),
                i <= self.state.len(),
                forall|j: int| 0 <= j < i ==> (#[trigger] self.state@[j]).0@ != name@,
            decreases self.state.len() - i,
        {
            if str_eq(self.state[i].0.as_str(), name) {
                assert(self.binds(name@));
                let ghost k = choose|k: int| 0 <= k < self.state@.len() && (#[trigger] self.state@[k]).0@ == name@;
                assert(k == i) by {
                    if k != i {
                        if k < i {
                            assert(self.state@[k].0@ != self.state@[i as int].0@);
                        } else {
                            assert(self.state@[i as int].0@ != self.state@[k].0@);
                        }
                    }
                }
                return Some(i);
            }
            i = i + 1;
        }
        None
    }

    /// An empty environment.
    pub fn new() -> (r: Environment<V>)
        ensures
            r.wf(),
            forall|n: Seq<char>| #[trigger] r.cell(n) is None,
            forall|n: Seq<char>| !#[trigger] r.is_sealed(n),
    {
        Environment { state: Vec::new(), sealed_vars: Vec::new() }
    }

    /// The cell bound to `name`, if any.
    pub fn get(&self, name: &str) -> (r: Option<&ValueCell<V>>)
        requires
            self.wf(),
        ensures
            match r {
                Some(c) => self.cell(name@) == Some(*c),
                None => self.cell(name@) is None,
            },
    {
        match self.find(name) {
            Some(i) => Some(&self.state[i].1),
            None => None,
        }
    }

    /// Whether `name` is bound.
    pub fn has(&self, name: &str) -> (r: bool)
        requires
            self.wf(),
        ensures
            r == self.cell(name@) is Some,
    {
        self.find(name).is_some()
    }

    /// Binds `name` to `value`; where `name` is bound to a shared cell, writes the value into
    /// the box instead and leaves the binding as it is.
    pub fn set_or_replace(&mut self, name: String, value: ValueCell<V>)
        where V: Clone,
        requires
            old(self).wf(),
        ensures
            final(self).wf(),
            final(self).same_except(&*old(self), name@),
            final(self).is_sealed(name@) == old(self).is_sealed(name@),
            match old(self).cell(name@) {
                Some(c) => if is_shared_cell(c) {
                    final(self).cell(name@) == Some(c)
                } else {
                    final(self).cell(name@) == Some(value)
                },
                None => final(self).cell(name@) == Some(value),
            },
    {
        let ghost before = *old(self);
        match self.find(name.as_str()) {
            Some(i) => {
                match &self.state[i].1 {
                    ValueCell::Shared(rc) => {
                        share_write(rc, value.extract());
                        return;
                    },
                    ValueCell::External(rc) => {
                        share_write(rc, value.extract());
                        return;
                    },
                    ValueCell::Owned(_) => {},
                }
                let ghost nm = self.state@[i as int].0;
                self.state.set(i, (name, value));
                proof {
                    assert(self.state@[i as int].0@ == nm@);
                    self.lemma_cells_after_update(before, i as int);
                }
            },
            None => {
                self.state.push((name, value));
                proof {
                    assert(self.state@.drop_last() =~= before.state@);
                    self.lemma_cells_after_push(before);
                }
            },
        }
    }

    /// After the entry at `i` of `before` is replaced by one of the same name, the cells of
    /// other names are unchanged and the name is bound to the new cell.
    proof fn lemma_cells_after_update(&self, before: Environment<V>, i: int)
        requires
            before.wf(),
            0 <= i < before.state@.len(),
            self.state@ == before.state@.update(i, self.state@[i]),
            self.state@[i].0@ == before.state@[i].0@,
            self.sealed_vars@ == before.sealed_vars@,
        ensures
            self.wf(),
            self.same_except(&before, self.state@[i].0@),
            self.cell(self.state@[i].0@) == Some(self.state@[i].1),
            self.is_sealed(self.state@[i].0@) == before.is_sealed(self.state@[i].0@),
    {
        let name = self.state@[i].0@;
        assert(self.wf()) by {
            assert forall|a: int, b: int| 0 <= a < b < self.state@.len() implies (#[trigger] self.state@[a]).0@
                != (#[trigger] self.state@[b]).0@ by {
                assert(before.state@[a].0@ != before.state@[b].0@);
            }
        }
        assert forall|n: Seq<char>| n != name implies #[trigger] self.cell(n) == before.cell(n) by {
            if self.binds(n) {
                let k = choose|k: int| 0 <= k < self.state@.len() && (#[trigger] self.state@[k]).0@ == n;
                assert(before.state@[k].0@ == n);
                assert(before.binds(n));
                let k2 = choose|k: int| 0 <= k < before.state@.len() && (#[trigger] before.state@[k]).0@ == n;
                assert(k == k2) by {
                    if k != k2 {
                        if k < k2 {
                            assert(before.state@[k].0@ != before.state@[k2].0@);
                        } else {
                            assert(before.state@[k2].0@ != before.state@[k].0@);
                        }
                    }
                }
                let k3 = choose|k: int| 0 <= k < self.state@.len() && (#[trigger] self.state@[k]).0@ == n;
                assert(k3 == k);
            } else {
                if before.binds(n) {
                    let k = choose|k: int| 0 <= k < before.state@.len() && (#[trigger] before.state@[k]).0@ == n;
                    assert(self.state@[k].0@ == n);
                }
            }
        }
        assert(self.binds(name));
        let k = choose|k: int| 0 <= k < self.state@.len() && (#[trigger] self.state@[k]).0@ == name;
        assert(k == i) by {
            if k != i {
                if k < i {
                    assert(self.state@[k].0@ != self.state@[i].0@);
                } else {
                    assert(self.state@[i].0@ != self.state@[k].0@);
                }
            }
        }
    }

    /// After an entry with a new name is pushed, the cells of other names are unchanged and
    /// the name is bound to the new cell.
    proof fn lemma_cells_after_push(&self, before: Environment<V>)
        requires
            before.wf(),
            self.state@.len() == before.state@.len() + 1,
            self.state@.drop_last() == before.state@,
            !before.binds(self.state@.last().0@),
            self.sealed_vars@ == before.sealed_vars@,
        ensures
            self.wf(),
            self.same_except(&before, self.state@.last().0@),
            self.cell(self.state@.last().0@) == Some(self.state@.last().1),
    {
        let name = self.state@.last().0@;
        let last = self.state@.len() - 1;
        assert forall|a: int| 0 <= a < last implies self.state@[a] == before.state@[a] by {
            assert(self.state@.drop_last()[a] == self.state@[a]);
        }
        assert(self.wf()) by {
            assert forall|a: int, b: int| 0 <= a < b < self.state@.len() implies (#[trigger] self.state@[a]).0@
                != (#[trigger] self.state@[b]).0@ by {
                if b == last {
                    assert(before.state@[a].0@ != name);
                } else {
                    assert(before.state@[a].0@ != before.state@[b].0@);
                }
            }
        }
        assert forall|n: Seq<char>| n != name implies #[trigger] self.cell(n) == before.cell(n) by {
            if self.binds(n) {
                let k = choose|k: int| 0 <= k < self.state@.len() && (#[trigger] self.state@[k]).0@ == n;
                assert(k != last);
                assert(before.state@[k].0@ == n);
                assert(before.binds(n));
                let k2 = choose|k: int| 0 <= k < before.state@.len() && (#[trigger] before.state@[k]).0@ == n;
                assert(self.state@[k2].0@ == n);
                assert(k == k2) by {
                    if k != k2 {
                        if k < k2 {
                            assert(self.state@[k].0@ != self.state@[k2].0@);
                        } else {
                            assert(self.state@[k2].0@ != self.state@[k].0@);
                        }
                    }
                }
            } else {
                if before.binds(n) {
                    let k = choose|k: int| 0 <= k < before.state@.len() && (#[trigger] before.state@[k]).0@ == n;
                    assert(self.state@[k].0@ == n);
                }
            }
        }
        assert(self.binds(name));
        let k = choose|k: int| 0 <= k < self.state@.len() && (#[trigger] self.state@[k]).0@ == name;
        assert(k == last) by {
            if k != last {
                assert(self.state@[k].0@ != self.state@[last].0@);
            }
        }
    }
}

/// `out` holds, with distinct names, exactly the entries of `src[..i]` whose cell is external:
/// `out[k]` is `src[idx[k]]`, and `src[j]`, where external, is `out[back[j]]`.
spec fn collects_external<V>(
    src: Seq<(String, ValueCell<V>)>,
    out: Seq<(String, ValueCell<V>)>,
    i: int,
    idx: Seq<int>,
    back: Seq<int>,
) -> bool {
    &&& idx.len() == out.len()
    &&& forall|k: int| 0 <= k < out.len() ==> 0 <= #[trigger] idx[k] < i && out[k] == src[idx[k]]
        && src[idx[k]].1 is External
    &&& back.len() == i
    &&& forall|j: int| 0 <= j < i && (#[trigger] src[j]).1 is External ==> 0 <= back[j] < out.len()
        && out[back[j]] == src[j]
    &&& forall|a: int, b: int| 0 <= a < b < out.len() ==> (#[trigger] out[a]).0@ != (#[trigger] out[b]).0@
}

/// Considering `src[i]` keeps `collects_external`.
proof fn lemma_collects_external_step<V>(
    env: &Environment<V>,
    out: Seq<(String, ValueCell<V>)>,
    idx: Seq<int>,
    back: Seq<int>,
    i: int,
)
    requires
        env.wf(),
        0 <= i < env.state@.len(),
        collects_external(env.state@, out, i, idx, back),
    ensures
        env.state@[i].1 is External ==> collects_external(
            env.state@,
            out.push(env.state@[i]),
            i + 1,
            idx.push(i),
            back.push(out.len() as int),
        ),
        !(env.state@[i].1 is External) ==> collects_external(env.state@, out, i + 1, idx, back.push(0)),
{
    let src = env.state@;
    if src[i].1 is External {
        let out2 = out.push(src[i]);
        let idx2 = idx.push(i);
        let back2 = back.push(out.len() as int);
        assert forall|k: int| 0 <= k < out2.len() implies 0 <= #[trigger] idx2[k] < i + 1 && out2[k] == src[idx2[k]]
            && src[idx2[k]].1 is External by {
            if k < out.len() {
                assert(idx2[k] == idx[k]);
                assert(out2[k] == out[k]);
            }
        }
        assert forall|j: int| 0 <= j < i + 1 && (#[trigger] src[j]).1 is External implies 0 <= back2[j] < out2.len()
            && out2[back2[j]] == src[j] by {
            if j < i {
                assert(back2[j] == back[j]);
                assert(out2[back[j]] == out[back[j]]);
            }
        }
        assert forall|a: int, b: int| 0 <= a < b < out2.len() implies (#[trigger] out2[a]).0@ != (#[trigger] out2[b]).0@ by {
            assert(out2[a] == out[a]);
            if b == out.len() {
                let ja = idx[a];
                assert(out[a] == src[ja]);
                assert(env.state@[ja].0@ != env.state@[i].0@);
            } else {
                assert(out2[b] == out[b]);
            }
        }
    } else {
        let back2 = back.push(0);
        assert forall|j: int| 0 <= j < i + 1 && (#[trigger] src[j]).1 is External implies 0 <= back2[j] < out.len()
            && out[back2[j]] == src[j] by {
            assert(back2[j] == back[j]);
        }
    }
}

impl<V> Environment<V> {
    /// Whether `name` is sealed.
    fn sealed_contains(&self, name: &str) -> (r: bool)
        ensures
            r == self.is_sealed(name@),
    {
        let mut i: usize = 0;
        while i < self.sealed_vars.len()
            invariant
                i <= self.sealed_vars.len(),
                forall|j: int| 0 <= j < i ==> (#[trigger] self.sealed_vars@[j])@ != name@,
            decreases self.sealed_vars.len() - i,
        {
            if str_eq(self.sealed_vars[i].as_str(), name) {
                assert(self.sealed_vars@[i as int]@ == name@);
                return true;
            }
            i = i + 1;
        }
        false
    }

    /// Sets `name` as `set_or_replace` does, unless it is sealed.
    pub fn set(&mut self, name: String, value: ValueCell<V>) -> (r: Result<(), EnvironmentSetError>)
        where V: Clone,
        requires
            old(self).wf(),
        ensures
            final(self).wf(),
            old(self).is_sealed(name@) ==> r == Err::<(), EnvironmentSetError>(EnvironmentSetError::SealedVariable(name))
                && *final(self) == *old(self),
            !old(self).is_sealed(name@) ==> r is Ok && final(self).same_except(&*old(self), name@)
                && !final(self).is_sealed(name@) && match old(self).cell(name@) {
                Some(c) => if is_shared_cell(c) {
                    final(self).cell(name@) == Some(c)
                } else {
                    final(self).cell(name@) == Some(value)
                },
                None => final(self).cell(name@) == Some(value),
            },
    {
        if self.sealed_contains(name.as_str()) {
            return Err(EnvironmentSetError::SealedVariable(name));
        }
        self.set_or_replace(name, value);
        Ok(())
    }

    /// Seals `name`, which must be bound: from then on `set` refuses it.
    pub fn seal(&mut self, name: String) -> (r: Result<(), EnvironmentSealError>)
        requires
            old(self).wf(),
        ensures
            final(self).wf(),
            old(self).cell(name@) is None ==> r == Err::<(), EnvironmentSealError>(EnvironmentSealError::VariableNotFound(name))
                && *final(self) == *old(self),
            old(self).cell(name@) is Some ==> r is Ok && final(self).is_sealed(name@)
                && final(self).cell(name@) == old(self).cell(name@) && final(self).same_except(&*old(self), name@),
    {
        if !self.has(name.as_str()) {
            return Err(EnvironmentSealError::VariableNotFound(name));
        }
        let ghost before = *self;
        let ghost nm = name@;
        self.sealed_vars.push(name);
        proof {
            let last = self.sealed_vars@.len() - 1;
            assert(self.sealed_vars@[last]@ == nm);
            assert(self.state@ =~= before.state@);
            assert forall|n: Seq<char>| n != nm implies #[trigger] self.is_sealed(n) == before.is_sealed(n) by {
                if before.is_sealed(n) {
                    let k = choose|k: int| 0 <= k < before.sealed_vars@.len() && (#[trigger] before.sealed_vars@[k])@ == n;
                    assert(self.sealed_vars@[k] == before.sealed_vars@[k]);
                }
                if self.is_sealed(n) {
                    let k = choose|k: int| 0 <= k < self.sealed_vars@.len() && (#[trigger] self.sealed_vars@[k])@ == n;
                    assert(k != last);
                    assert(self.sealed_vars@[k] == before.sealed_vars@[k]);
                }
            }
            assert forall|n: Seq<char>| #[trigger] self.cell(n) == before.cell(n) by {
                assert(self.binds(n) == before.binds(n));
            }
        }
        Ok(())
    }

    /// The environment of the variables whose cells are shared with other modules, with the
    /// same sealed names.
    pub fn external(&self) -> (r: Environment<V>)
        requires
            self.wf(),
        ensures
            r.wf(),
            forall|n: Seq<char>| #[trigger] r.cell(n) == match self.cell(n) {
                Some(c) => if c is External { Some(c) } else { None },
                None => None,
            },
            forall|n: Seq<char>| #[trigger] r.is_sealed(n) == self.is_sealed(n),
    {
        let mut state: Vec<(String, ValueCell<V>)> = Vec::new();
        let mut i: usize = 0;
        let ghost mut idx: Seq<int> = Seq::empty();
        let ghost mut back: Seq<int> = Seq::empty();
        while i < self.state.len()
            invariant
                self.wf(),
                i <= self.state.len(),
                collects_external(self.state@, state@, i as int, idx, back),
            decreases self.state.len() - i,
        {
            proof {
                lemma_collects_external_step(self, state@, idx, back, i as int);
            }
            match &self.state[i].1 {
                ValueCell::External(rc) => {
                    let e = (self.state[i].0.clone(), ValueCell::External(share_handle(rc)));
                    assert(e == self.state@[i as int]);
                    proof {
                        idx = idx.push(i as int);
                        back = back.push(state@.len() as int);
                    }
                    state.push(e);
                },
                _ => {
                    proof {
                        back = back.push(0);
                    }
                },
            }
            i = i + 1;
        }
        let mut sealed: Vec<String> = Vec::new();
        let mut j: usize = 0;
        while j < self.sealed_vars.len()
            invariant
                j <= self.sealed_vars.len(),
                sealed@ == self.sealed_vars@.take(j as int),
            decreases self.sealed_vars.len() - j,
        {
            sealed.push(self.sealed_vars[j].clone());
            j = j + 1;
            assert(sealed@ =~= self.sealed_vars@.take(j as int));
        }
        assert(sealed@ =~= self.sealed_vars@);
        let r = Environment { state, sealed_vars: sealed };
        proof {
            assert forall|n: Seq<char>| #[trigger] r.is_sealed(n) == self.is_sealed(n) by {
                if r.is_sealed(n) {
                    let k = choose|k: int| 0 <= k < r.sealed_vars@.len() && (#[trigger] r.sealed_vars@[k])@ == n;
                    assert(self.sealed_vars@[k] == r.sealed_vars@[k]);
                }
                if self.is_sealed(n) {
                    let k = choose|k: int| 0 <= k < self.sealed_vars@.len() && (#[trigger] self.sealed_vars@[k])@ == n;
                    assert(self.sealed_vars@[k] == r.sealed_vars@[k]);
                }
            }
            assert forall|n: Seq<char>| #[trigger] r.cell(n) == match self.cell(n) {
                Some(c) => if c is External { Some(c) } else { None },
                None => None,
            } by {
                if r.binds(n) {
                    let k = choose|k: int| 0 <= k < r.state@.len() && (#[trigger] r.state@[k]).0@ == n;
                    let j = idx[k];
                    assert(r.state@[k] == self.state@[j]);
                    assert(self.state@[j].0@ == n);
                    assert(self.binds(n));
                    let j2 = choose|j: int| 0 <= j < self.state@.len() && (#[trigger] self.state@[j]).0@ == n;
                    assert(j == j2) by {
                        if j < j2 {
                            assert(self.state@[j].0@ != self.state@[j2].0@);
                        } else if j2 < j {
                            assert(self.state@[j2].0@ != self.state@[j].0@);
                        }
                    }
                } else {
                    if self.binds(n) {
                        let j = choose|j: int| 0 <= j < self.state@.len() && (#[trigger] self.state@[j]).0@ == n;
                        if self.state@[j].1 is External {
                            let k = back[j];
                            assert(r.state@[k] == self.state@[j]);
                            assert(r.state@[k].0@ == n);
                        }
                    }
                }
            }
        }
        r
    }
}

/// What a frame carries between statements: the value being returned and whether a loop is
/// being broken out of or continued.
#[derive(Debug)]
#[verifier::reject_recursive_types(V)]
pub struct FrameState<V> {
    pub return_value: Option<ValueCell<V>>,
    pub loop_break_flag: bool,
    pub loop_continue_flag: bool,
}

/// `b` is a copy of the cell `a`: a copy of an owned value, the same shared box.
pub open spec fn cell_copy<V: Clone>(a: ValueCell<V>, b: ValueCell<V>) -> bool {
    match a {
        ValueCell::Owned(v) => b matches ValueCell::Owned(w) && cloned::<V>(v, w),
        _ => b == a,
    }
}

/// `b` is a copy of the optional cell `a`.
pub open spec fn opt_cell_copy<V: Clone>(a: Option<ValueCell<V>>, b: Option<ValueCell<V>>) -> bool {
    match a {
        Some(c) => b matches Some(d) && cell_copy(c, d),
        None => b is None,
    }
}

/// `b` is a copy of the state `a`.
pub open spec fn state_copy<V: Clone>(a: FrameState<V>, b: FrameState<V>) -> bool {
    &&& opt_cell_copy(a.return_value, b.return_value)
    &&& b.loop_break_flag == a.loop_break_flag
    &&& b.loop_continue_flag == a.loop_continue_flag
}

/// Whether a state returns a value or breaks out of or continues a loop.
pub open spec fn state_dirty<V>(s: FrameState<V>) -> bool {
    s.return_value is Some || s.loop_break_flag || s.loop_continue_flag
}

impl<V> FrameState<V> {
    /// A state that returns nothing and breaks out of and continues no loop.
    pub fn new() -> (r: FrameState<V>)
        ensures
            r.return_value is None,
            !r.loop_break_flag,
            !r.loop_continue_flag,
    {
        FrameState { return_value: None, loop_break_flag: false, loop_continue_flag: false }
    }

    /// A copy of the state.
    pub fn duplicate(&self) -> (r: FrameState<V>)
        where V: Clone,
        ensures
            state_copy(*self, r),
    {
        let return_value = match &self.return_value {
            Some(c) => Some(c.duplicate()),
            None => None,
        };
        FrameState {
            return_value,
            loop_break_flag: self.loop_break_flag,
            loop_continue_flag: self.loop_continue_flag,
        }
    }
}

/// The frame of a call: its environment and its state.
#[derive(Debug)]
#[verifier::reject_recursive_types(V)]
pub struct Frame<V> {
    pub env: Environment<V>,
    pub state: FrameState<V>,
}

impl<V> Frame<V> {
    /// A frame with an empty environment and a clean state.
    pub fn new() -> (r: Frame<V>)
        ensures
            r.env.wf(),
            forall|n: Seq<char>| #[trigger] r.env.cell(n) is None,
            forall|n: Seq<char>| !#[trigger] r.env.is_sealed(n),
            !state_dirty(r.state),
    {
        Frame { env: Environment::new(), state: FrameState::new() }
    }

    /// A frame with the environment `env` and a clean state.
    pub fn from_env(env: Environment<V>) -> (r: Frame<V>)
        ensures
            r.env == env,
            !state_dirty(r.state),
    {
        Frame { env, state: FrameState::new() }
    }

    /// The frame's environment.
    pub fn get_env(&self) -> (r: &Environment<V>)
        ensures
            *r == self.env,
    {
        &self.env
    }

    /// The frame's environment, to change.
    pub fn get_env_mut(&mut self) -> (r: &mut Environment<V>)
        ensures
            *r == old(self).env,
            final(self).env == *final(r),
            final(self).state == old(self).state,
    {
        &mut self.env
    }

    /// The value being returned, if any.
    pub fn get_return_value(&self) -> (r: Option<&ValueCell<V>>)
        ensures
            match self.state.return_value {
                Some(c) => r == Some(&c),
                None => r is None,
            },
    {
        match &self.state.return_value {
            Some(c) => Some(c),
            None => None,
        }
    }

    /// Sets the value being returned.
    pub fn set_return_value(&mut self, value: ValueCell<V>)
        ensures
            final(self).state.return_value == Some(value),
            final(self).state.loop_break_flag == old(self).state.loop_break_flag,
            final(self).state.loop_continue_flag == old(self).state.loop_continue_flag,
            final(self).env == old(self).env,
    {
        self.state.return_value = Some(value);
    }

    /// Clears the value being returned.
    pub fn clear_return_value(&mut self)
        ensures
            final(self).state.return_value is None,
            final(self).state.loop_break_flag == old(self).state.loop_break_flag,
            final(self).state.loop_continue_flag == old(self).state.loop_continue_flag,
            final(self).env == old(self).env,
    {
        self.state.return_value = None;
    }

    /// Whether a loop is being broken out of.
    pub fn has_loop_break_flag(&self) -> (r: bool)
        ensures
            r == self.state.loop_break_flag,
    {
        self.state.loop_break_flag
    }

    /// Sets whether a loop is being broken out of.
    pub fn set_loop_break_flag(&mut self, value: bool)
        ensures
            final(self).state.loop_break_flag == value,
            final(self).state.return_value == old(self).state.return_value,
            final(self).state.loop_continue_flag == old(self).state.loop_continue_flag,
            final(self).env == old(self).env,
    {
        self.state.loop_break_flag = value;
    }

    /// Whether a loop is being continued.
    pub fn has_loop_continue_flag(&self) -> (r: bool)
        ensures
            r == self.state.loop_continue_flag,
    {
        self.state.loop_continue_flag
    }

    /// Sets whether a loop is being continued.
    pub fn set_loop_continue_flag(&mut self, value: bool)
        ensures
            final(self).state.loop_continue_flag == value,
            final(self).state.return_value == old(self).state.return_value,
            final(self).state.loop_break_flag == old(self).state.loop_break_flag,
            final(self).env == old(self).env,
    {
        self.state.loop_continue_flag = value;
    }

    /// The frame's state.
    pub fn get_state(&self) -> (r: &FrameState<V>)
        ensures
            *r == self.state,
    {
        &self.state
    }

    /// Replaces the frame's state.
    pub fn set_state(&mut self, state: FrameState<V>)
        ensures
            final(self).state == state,
            final(self).env == old(self).env,
    {
        self.state = state;
    }

    /// Whether the frame returns a value or breaks out of or continues a loop.
    pub fn is_state_dirty(&self) -> (r: bool)
        ensures
            r == state_dirty(self.state),
    {
        self.state.return_value.is_some() || self.state.loop_break_flag || self.state.loop_continue_flag
    }
}

/// The cell that the frames `fs`, searched from the last, bind to `name`.
pub open spec fn lookup_frames<V>(fs: Seq<Frame<V>>, name: Seq<char>) -> Option<ValueCell<V>>
    decreases fs.len(),
{
    if fs.len() == 0 {
        None
    } else {
        match fs.last().env.cell(name) {
            Some(c) => Some(c),
            None => lookup_frames(fs.drop_last(), name),
        }
    }
}

/// The index of the last of the frames `fs` that binds `name`, if any.
pub open spec fn binding_frame<V>(fs: Seq<Frame<V>>, name: Seq<char>) -> Option<int>
    decreases fs.len(),
{
    if fs.len() == 0 {
        None
    } else if fs.last().env.cell(name) is Some {
        Some(fs.len() - 1)
    } else {
        binding_frame(fs.drop_last(), name)
    }
}

/// The stack of a running program: the global frame, the frames of the calls in progress and
/// a read-only base environment of builtins.
#[derive(Debug)]
#[verifier::reject_recursive_types(V)]
pub struct Stack<V> {
    pub global: Frame<V>,
    pub frames: Vec<Frame<V>>,
    pub base: Option<Rc<Environment<V>>>,
}

impl<V> Stack<V> {
    /// The environments are well formed.
    pub open spec fn wf(&self) -> bool {
        &&& self.global.env.wf()
        &&& forall|i: int| 0 <= i < self.frames@.len() ==> (#[trigger] self.frames@[i]).env.wf()
        &&& match self.base {
            Some(b) => b.wf(),
            None => true,
        }
    }

    /// The frame of the innermost call, or the global frame.
    pub open spec fn innermost(&self) -> Frame<V> {
        if self.frames@.len() > 0 {
            self.frames@.last()
        } else {
            self.global
        }
    }

    /// The cell bound to `name` in the base environment, if any.
    pub open spec fn base_cell(&self, name: Seq<char>) -> Option<ValueCell<V>> {
        match self.base {
            Some(b) => b.cell(name),
            None => None,
        }
    }

    /// The cell that `name` reads: from the innermost frame that binds it, else the global
    /// frame, else the base environment.
    pub open spec fn lookup_view(&self, name: Seq<char>) -> Option<ValueCell<V>> {
        match lookup_frames(self.frames@, name) {
            Some(c) => Some(c),
            None => match self.global.env.cell(name) {
                Some(c) => Some(c),
                None => self.base_cell(name),
            },
        }
    }

    /// `self` holds the frames of `old`.
    pub open spec fn unchanged_from(&self, old: &Stack<V>) -> bool {
        &&& self.frames@ == old.frames@
        &&& self.global == old.global
        &&& self.base == old.base
    }

    /// `self` is `old` with the innermost frame replaced by `f`.
    pub open spec fn with_innermost(&self, old: &Stack<V>, f: Frame<V>) -> bool {
        &&& self.base == old.base
        &&& if old.frames@.len() > 0 {
            &&& self.frames@ == old.frames@.update(old.frames@.len() - 1, f)
            &&& self.global == old.global
        } else {
            &&& self.frames@ == old.frames@
            &&& self.global == f
        }
    }

    /// A stack with an empty global frame, no calls and no base environment.
    pub fn new() -> (r: Stack<V>)
        ensures
            r.wf(),
            r.frames@.len() == 0,
            r.base is None,
            forall|n: Seq<char>| #[trigger] r.lookup_view(n) is None,
            forall|n: Seq<char>| #[trigger] r.global.env.cell(n) is None,
    {
        let r = Stack { global: Frame::new(), frames: Vec::new(), base: None };
        assert forall|n: Seq<char>| #[trigger] r.lookup_view(n) is None by {
            assert(r.global.env.cell(n) is None);
        }
        r
    }

    /// A stack with an empty global frame, no calls and the base environment `base`.
    pub fn with_base(base: Rc<Environment<V>>) -> (r: Stack<V>)
        requires
            base.wf(),
        ensures
            r.wf(),
            r.frames@.len() == 0,
            r.base == Some(base),
            forall|n: Seq<char>| #[trigger] r.lookup_view(n) == base.cell(n),
            forall|n: Seq<char>| #[trigger] r.global.env.cell(n) is None,
    {
        let r = Stack { global: Frame::new(), frames: Vec::new(), base: Some(base) };
        assert forall|n: Seq<char>| #[trigger] r.lookup_view(n) == base.cell(n) by {
            assert(r.global.env.cell(n) is None);
        }
        r
    }

    /// The innermost frame, to change.
    fn innermost_mut(&mut self) -> (r: &mut Frame<V>)
        ensures
            *r == old(self).innermost(),
            final(self).with_innermost(&*old(self), *final(r)),
    {
        if self.frames.len() > 0 {
            let n = self.frames.len() - 1;
            &mut self.frames[n]
        } else {
            &mut self.global
        }
    }

    /// Whether the innermost frame binds `name`.
    pub fn is_name_in_local_scope(&self, name: &str) -> (r: bool)
        requires
            self.wf(),
        ensures
            r == self.innermost().env.cell(name@) is Some,
    {
        if self.frames.len() > 0 {
            self.frames[self.frames.len() - 1].env.has(name)
        } else {
            self.global.env.has(name)
        }
    }

    /// Whether the base environment binds `name`.
    pub fn is_in_base_env(&self, name: &str) -> (r: bool)
        requires
            self.wf(),
        ensures
            r == self.base_cell(name@) is Some,
    {
        match &self.base {
            Some(env) => env.has(name),
            None => false,
        }
    }

    /// The cell that `name` reads: from the innermost frame that binds it, else the global
    /// frame, else the base environment.
    pub fn lookup(&self, name: &str) -> (r: Option<&ValueCell<V>>)
        requires
            self.wf(),
        ensures
            match self.lookup_view(name@) {
                Some(c) => r == Some(&c),
                None => r is None,
            },
    {
        let mut i = self.frames.len();
        assert(self.frames@.take(i as int) =~= self.frames@);
        while i > 0
            invariant
                self.wf(),
                i <= self.frames@.len(),
                lookup_frames(self.frames@, name@) == lookup_frames(self.frames@.take(i as int), name@),
            decreases i,
        {
            let ghost pre = self.frames@.take(i as int);
            assert(pre.drop_last() =~= self.frames@.take(i - 1));
            assert(pre.last() == self.frames@[i - 1]);
            if let Some(var) = self.frames[i - 1].env.get(name) {
                return Some(var);
            }
            i = i - 1;
        }
        if let Some(var) = self.global.env.get(name) {
            return Some(var);
        }
        if let Some(base_env) = &self.base {
            if let Some(var) = base_env.get(name) {
                return Some(var);
            }
        }
        None
    }

    /// Enters a call.
    pub fn push(&mut self, frame: Frame<V>)
        ensures
            final(self).frames@ == old(self).frames@.push(frame),
            final(self).global == old(self).global,
            final(self).base == old(self).base,
    {
        self.frames.push(frame);
    }

    /// Sets the value that the innermost frame returns.
    pub fn set_return_value(&mut self, value: ValueCell<V>)
        ensures
            final(self).innermost().state.return_value == Some(value),
            final(self).innermost().env == old(self).innermost().env,
            final(self).innermost().state.loop_break_flag == old(self).innermost().state.loop_break_flag,
            final(self).innermost().state.loop_continue_flag == old(self).innermost().state.loop_continue_flag,
            final(self).with_innermost(&*old(self), final(self).innermost()),
    {
        let f = self.innermost_mut();
        f.set_return_value(value);
    }

    /// Whether the frame of the innermost call returns a value (the global frame is not asked).
    pub fn has_return_value(&self) -> (r: bool)
        ensures
            r == (self.frames@.len() > 0 && self.frames@.last().state.return_value is Some),
    {
        if self.frames.len() > 0 {
            self.frames[self.frames.len() - 1].state.return_value.is_some()
        } else {
            false
        }
    }

    /// Takes a copy of the value that the innermost frame returns, and clears it.
    pub fn consume_return_value(&mut self) -> (r: Option<ValueCell<V>>)
        where V: Clone,
        ensures
            opt_cell_copy(old(self).innermost().state.return_value, r),
            final(self).innermost().state.return_value is None,
            final(self).innermost().env == old(self).innermost().env,
            final(self).innermost().state.loop_break_flag == old(self).innermost().state.loop_break_flag,
            final(self).innermost().state.loop_continue_flag == old(self).innermost().state.loop_continue_flag,
            final(self).with_innermost(&*old(self), final(self).innermost()),
    {
        let f = self.innermost_mut();
        let value = match f.get_return_value() {
            Some(c) => Some(c.duplicate()),
            None => None,
        };
        f.clear_return_value();
        value
    }

    /// Sets whether the innermost frame breaks out of a loop.
    pub fn set_loop_break_flag(&mut self, value: bool)
        ensures
            final(self).innermost().state.loop_break_flag == value,
            final(self).innermost().env == old(self).innermost().env,
            final(self).innermost().state.return_value == old(self).innermost().state.return_value,
            final(self).innermost().state.loop_continue_flag == old(self).innermost().state.loop_continue_flag,
            final(self).with_innermost(&*old(self), final(self).innermost()),
    {
        let f = self.innermost_mut();
        f.set_loop_break_flag(value);
    }

    /// Whether the innermost frame breaks out of a loop.
    pub fn has_loop_break_flag(&self) -> (r: bool)
        ensures
            r == self.innermost().state.loop_break_flag,
    {
        if self.frames.len() > 0 {
            self.frames[self.frames.len() - 1].has_loop_break_flag()
        } else {
            self.global.has_loop_break_flag()
        }
    }

    /// Sets whether the innermost frame continues a loop.
    pub fn set_loop_continue_flag(&mut self, value: bool)
        ensures
            final(self).innermost().state.loop_continue_flag == value,
            final(self).innermost().env == old(self).innermost().env,
            final(self).innermost().state.return_value == old(self).innermost().state.return_value,
            final(self).innermost().state.loop_break_flag == old(self).innermost().state.loop_break_flag,
            final(self).with_innermost(&*old(self), final(self).innermost()),
    {
        let f = self.innermost_mut();
        f.set_loop_continue_flag(value);
    }

    /// Whether the innermost frame continues a loop.
    pub fn has_loop_continue_flag(&self) -> (r: bool)
        ensures
            r == self.innermost().state.loop_continue_flag,
    {
        if self.frames.len() > 0 {
            self.frames[self.frames.len() - 1].has_loop_continue_flag()
        } else {
            self.global.has_loop_continue_flag()
        }
    }

    /// The global environment.
    pub fn global(&self) -> (r: &Environment<V>)
        ensures
            *r == self.global.env,
    {
        &self.global.env
    }

    /// The global environment, to change.
    pub fn global_mut(&mut self) -> (r: &mut Environment<V>)
        ensures
            *r == old(self).global.env,
            final(self).global.env == *final(r),
            final(self).global.state == old(self).global.state,
            final(self).frames == old(self).frames,
            final(self).base == old(self).base,
    {
        &mut self.global.env
    }
}

/// `new` is `old` after `set_or_replace(name, value)`.
pub open spec fn replaced<V>(old: Environment<V>, new: Environment<V>, name: Seq<char>, value: ValueCell<V>) -> bool {
    &&& new.wf()
    &&& new.same_except(&old, name)
    &&& new.is_sealed(name) == old.is_sealed(name)
    &&& match old.cell(name) {
        Some(c) => if is_shared_cell(c) {
            new.cell(name) == Some(c)
        } else {
            new.cell(name) == Some(value)
        },
        None => new.cell(name) == Some(value),
    }
}

impl<V: Clone> Stack<V> {
    /// Declares `name` in the innermost frame, unless that frame binds it already.
    pub fn define(&mut self, name: String, value: ValueCell<V>) -> (r: Result<(), StackDefinitionError>)
        requires
            old(self).wf(),
        ensures
            final(self).wf(),
            old(self).innermost().env.cell(name@) is Some ==> r == Err::<(), StackDefinitionError>(
                StackDefinitionError::AlreadyDeclared,
            ) && final(self).unchanged_from(&*old(self)),
            old(self).innermost().env.cell(name@) is None ==> {
                &&& r is Ok
                &&& replaced(old(self).innermost().env, final(self).innermost().env, name@, value)
                &&& final(self).innermost().state == old(self).innermost().state
                &&& final(self).with_innermost(&*old(self), final(self).innermost())
                &&& final(self).lookup_view(name@) == Some(value)
            },
    {
        let ghost before = *old(self);
        let f = self.innermost_mut();
        proof {
            if before.frames@.len() > 0 {
                assert(before.frames@[before.frames@.len() - 1].env.wf());
            }
        }
        if f.env.has(name.as_str()) {
            proof {
                if before.frames@.len() > 0 {
                    assert(self.frames@ =~= before.frames@);
                }
            }
            return Err(StackDefinitionError::AlreadyDeclared);
        }
        let ghost nm = name@;
        f.env.set_or_replace(name, value);
        proof {
            if before.frames@.len() > 0 {
                assert(self.frames@.last() == self.frames@[self.frames@.len() - 1]);
                assert forall|i: int| 0 <= i < self.frames@.len() implies (#[trigger] self.frames@[i]).env.wf() by {
                    if i < self.frames@.len() - 1 {
                        assert(self.frames@[i] == before.frames@[i]);
                    }
                }
                assert(self.frames@.drop_last().len() + 1 == self.frames@.len());
            }
        }
        Ok(())
    }
}

/// The frame that `binding_frame` finds is the one `lookup_frames` reads, and no frame after it
/// binds the name.
proof fn lemma_binding_frame<V>(fs: Seq<Frame<V>>, name: Seq<char>)
    ensures
        match binding_frame(fs, name) {
            Some(j) => {
                &&& 0 <= j < fs.len()
                &&& fs[j].env.cell(name) is Some
                &&& lookup_frames(fs, name) == fs[j].env.cell(name)
                &&& forall|i: int| j < i < fs.len() ==> (#[trigger] fs[i]).env.cell(name) is None
            },
            None => {
                &&& lookup_frames(fs, name) is None
                &&& forall|i: int| 0 <= i < fs.len() ==> (#[trigger] fs[i]).env.cell(name) is None
            },
        },
    decreases fs.len(),
{
    if fs.len() > 0 {
        lemma_binding_frame(fs.drop_last(), name);
        assert forall|i: int| 0 <= i < fs.len() - 1 implies fs.drop_last()[i] == fs[i] by {}
    }
}

/// Replacing the frame `j` that binds `name` last by one that still binds it makes
/// `lookup_frames` read the new frame.
proof fn lemma_lookup_after_update<V>(fs: Seq<Frame<V>>, j: int, f: Frame<V>, name: Seq<char>)
    requires
        binding_frame(fs, name) == Some(j),
        f.env.cell(name) is Some,
    ensures
        0 <= j < fs.len(),
        binding_frame(fs.update(j, f), name) == Some(j),
        lookup_frames(fs.update(j, f), name) == f.env.cell(name),
    decreases fs.len(),
{
    lemma_binding_frame(fs, name);
    let gs = fs.update(j, f);
    if j == fs.len() - 1 {
        assert(gs.last() == f);
    } else {
        assert(gs.last() == fs.last());
        assert(fs.last().env.cell(name) is None);
        assert(gs.drop_last() =~= fs.drop_last().update(j, f));
        assert(binding_frame(fs.drop_last(), name) == Some(j));
        lemma_lookup_after_update(fs.drop_last(), j, f, name);
    }
}

impl<V: Clone> Stack<V> {
    /// Assigns `value` to `name` where the innermost frame that binds it, or the global frame,
    /// binds it; names of the base environment cannot be assigned, nor sealed names.
    pub fn assign(&mut self, name: String, value: ValueCell<V>) -> (r: Result<(), StackAssignmentError>)
        requires
            old(self).wf(),
        ensures
            final(self).wf(),
            old(self).base_cell(name@) is Some ==> r == Err::<(), StackAssignmentError>(
                StackAssignmentError::AssignToBaseEnvironment,
            ) && final(self).unchanged_from(&*old(self)),
            old(self).base_cell(name@) is None ==> match binding_frame(old(self).frames@, name@) {
                Some(j) => if old(self).frames@[j].env.is_sealed(name@) {
                    r == Err::<(), StackAssignmentError>(StackAssignmentError::Unreassignable(name))
                        && final(self).unchanged_from(&*old(self))
                } else {
                    &&& r is Ok
                    &&& final(self).frames@.len() == old(self).frames@.len()
                    &&& forall|i: int| 0 <= i < old(self).frames@.len() && i != j ==> final(self).frames@[i]
                        == #[trigger] old(self).frames@[i]
                    &&& replaced(old(self).frames@[j].env, final(self).frames@[j].env, name@, value)
                    &&& final(self).frames@[j].state == old(self).frames@[j].state
                    &&& final(self).global == old(self).global
                    &&& final(self).base == old(self).base
                },
                None => if old(self).global.env.cell(name@) is None {
                    r == Err::<(), StackAssignmentError>(StackAssignmentError::AssignToUndefined(name))
                        && final(self).unchanged_from(&*old(self))
                } else if old(self).global.env.is_sealed(name@) {
                    r == Err::<(), StackAssignmentError>(StackAssignmentError::Unreassignable(name))
                        && final(self).unchanged_from(&*old(self))
                } else {
                    &&& r is Ok
                    &&& final(self).frames@ == old(self).frames@
                    &&& replaced(old(self).global.env, final(self).global.env, name@, value)
                    &&& final(self).global.state == old(self).global.state
                    &&& final(self).base == old(self).base
                },
            },
            r is Ok ==> match old(self).lookup_view(name@) {
                Some(c) => final(self).lookup_view(name@) == if is_shared_cell(c) { Some(c) } else { Some(value) },
                None => false,
            },
    {
        let ghost before = *old(self);
        let mut k = self.frames.len();
        assert(self.frames@.take(k as int) =~= self.frames@);
        while k > 0 && !self.frames[k - 1].env.has(name.as_str())
            invariant
                self.wf(),
                *self == before,
                k <= self.frames@.len(),
                binding_frame(self.frames@, name@) == binding_frame(self.frames@.take(k as int), name@),
            decreases k,
        {
            let ghost pre = self.frames@.take(k as int);
            assert(pre.drop_last() =~= self.frames@.take(k - 1));
            assert(pre.last() == self.frames@[k - 1]);
            k = k - 1;
        }
        proof {
            lemma_binding_frame(before.frames@, name@);
            if k > 0 {
                let pre = self.frames@.take(k as int);
                assert(pre.last() == self.frames@[k - 1]);
                assert(binding_frame(self.frames@, name@) == Some(k - 1));
            } else {
                assert(self.frames@.take(0) =~= Seq::<Frame<V>>::empty());
            }
        }
        if let Some(base_env) = &self.base {
            if base_env.has(name.as_str()) {
                return Err(StackAssignmentError::AssignToBaseEnvironment);
            }
        }
        if k > 0 {
            let j = k - 1;
            let ghost nm = name@;
            assert(self.frames@[j as int].env.wf());
            let res = self.frames[j].env.set(name, value);
            match res {
                Ok(()) => {
                    proof {
                        assert forall|i: int| 0 <= i < self.frames@.len() implies (#[trigger] self.frames@[i]).env.wf() by {
                            if i != j {
                                assert(self.frames@[i] == before.frames@[i]);
                            }
                        }
                        let f = self.frames@[j as int];
                        assert(self.frames@ =~= before.frames@.update(j as int, f));
                        lemma_lookup_after_update(before.frames@, j as int, f, nm);
                    }
                    Ok(())
                },
                Err(e) => {
                    proof {
                        assert(self.frames@ =~= before.frames@);
                    }
                    Err(StackAssignmentError::from_set_error(e))
                },
            }
        } else {
            if self.global.env.has(name.as_str()) {
                let ghost nm = name@;
                let res = self.global.env.set(name, value);
                match res {
                    Ok(()) => {
                        proof {
                            assert(lookup_frames(self.frames@, nm) is None);
                        }
                        Ok(())
                    },
                    Err(e) => Err(StackAssignmentError::from_set_error(e)),
                }
            } else {
                Err(StackAssignmentError::AssignToUndefined(name))
            }
        }
    }
}

/// `new` is the stack `old` after `pop`: the innermost call left, a copy of its state, where it
/// returns a value or breaks out of or continues a loop, given to the frame below.
pub open spec fn popped<V: Clone>(old: Stack<V>, new: Stack<V>) -> bool {
    &&& new.wf()
    &&& new.base == old.base
    &&& old.frames@.len() == 0 ==> {
        &&& new.frames@.len() == 0
        &&& new.global.env == old.global.env
        &&& if state_dirty(old.global.state) {
            state_copy(old.global.state, new.global.state)
        } else {
            new.global.state == old.global.state
        }
    }
    &&& old.frames@.len() == 1 ==> {
        &&& new.frames@.len() == 0
        &&& new.global.env == old.global.env
        &&& if state_dirty(old.frames@[0].state) {
            state_copy(old.frames@[0].state, new.global.state)
        } else {
            new.global.state == old.global.state
        }
    }
    &&& old.frames@.len() >= 2 ==> {
        let n = old.frames@.len() - 1;
        &&& new.frames@.len() == n
        &&& new.global == old.global
        &&& forall|i: int| 0 <= i < n - 1 ==> new.frames@[i] == #[trigger] old.frames@[i]
        &&& new.frames@[n - 1].env == old.frames@[n - 1].env
        &&& if state_dirty(old.frames@[n].state) {
            state_copy(old.frames@[n].state, new.frames@[n - 1].state)
        } else {
            new.frames@[n - 1].state == old.frames@[n - 1].state
        }
    }
}

/// Entering a call with a clean frame and leaving it gives back the frames there were:
/// `pop` undoes `push`.
pub proof fn push_then_pop<V: Clone>(s0: Stack<V>, frame: Frame<V>, s1: Stack<V>, s2: Stack<V>)
    requires
        s0.wf(),
        s1.frames@ == s0.frames@.push(frame),
        s1.global == s0.global,
        s1.base == s0.base,
        !state_dirty(frame.state),
        popped(s1, s2),
    ensures
        s2.unchanged_from(&s0),
{
    assert(s1.frames@[s0.frames@.len() as int] == frame);
    if s0.frames@.len() > 0 {
        assert forall|i: int| 0 <= i < s0.frames@.len() implies s2.frames@[i] == s0.frames@[i] by {
            assert(s1.frames@[i] == s0.frames@[i]);
        }
        assert(s2.frames@ =~= s0.frames@);
    } else {
        assert(s2.frames@ =~= s0.frames@);
    }
}

impl<V: Clone> Stack<V> {
    /// Leaves the innermost call. Where its frame returns a value or breaks out of or continues
    /// a loop, a copy of its state goes to the frame below it (the global frame where there is
    /// none). With no call in progress, only that copy is made, onto the global frame itself.
    pub fn pop(&mut self)
        requires
            old(self).wf(),
        ensures
            popped(*old(self), *final(self)),
    {
        let ghost before = *old(self);
        let len = self.frames.len();
        if len == 0 {
            if self.global.is_state_dirty() {
                let st = self.global.state.duplicate();
                self.global.set_state(st);
            }
            return;
        }
        if self.frames[len - 1].is_state_dirty() {
            let st = self.frames[len - 1].state.duplicate();
            if len >= 2 {
                self.frames[len - 2].set_state(st);
            } else {
                self.global.set_state(st);
            }
        }
        let _ = self.frames.pop();
        proof {
            assert forall|i: int| 0 <= i < self.frames@.len() implies (#[trigger] self.frames@[i]).env.wf() by {
                assert(self.frames@[i].env == before.frames@[i].env);
            }
        }
    }
}

} // verus!
