//! The stacks of the modules of a running program, and the imports each module made.

use vstd::prelude::*;
use std::rc::Rc;
use crate::environment::{Environment, Stack, share_handle};
use crate::text::str_eq;

verus! {

/// No two entries of `s` have the same key.
pub open spec fn unique_keys<T>(s: Seq<(String, T)>) -> bool {
    forall|i: int, j: int| 0 <= i < j < s.len() ==> (#[trigger] s[i]).0@ != (#[trigger] s[j]).0@
}

/// Whether an entry of `s` has the key `k`.
pub open spec fn has_key<T>(s: Seq<(String, T)>, k: Seq<char>) -> bool {
    exists|i: int| 0 <= i < s.len() && (#[trigger] s[i]).0@ == k
}

/// The value of the entry of `s` with key `k`, if any.
pub open spec fn value_at<T>(s: Seq<(String, T)>, k: Seq<char>) -> Option<T> {
    if has_key(s, k) {
        let i = choose|i: int| 0 <= i < s.len() && (#[trigger] s[i]).0@ == k;
        Some(s[i].1)
    } else {
        None
    }
}

/// In a list of unique keys, the entry with key `s[i].0` is the one at `i`.
proof fn lemma_value_at_index<T>(s: Seq<(String, T)>, i: int)
    requires
        unique_keys(s),
        0 <= i < s.len(),
    ensures
        value_at(s, s[i].0@) == Some(s[i].1),
{
    assert(has_key(s, s[i].0@));
    let k = choose|k: int| 0 <= k < s.len() && (#[trigger] s[k]).0@ == s[i].0@;
    if k < i {
        assert(s[k].0@ != s[i].0@);
    } else if k > i {
        assert(s[i].0@ != s[k].0@);
    }
}

/// Replacing the value of the entry at `i` keeps the keys unique, gives that key the new value
/// and leaves the other keys as they were.
proof fn lemma_value_at_update<T>(s: Seq<(String, T)>, i: int, v: T)
    requires
        unique_keys(s),
        0 <= i < s.len(),
    ensures
        unique_keys(s.update(i, (s[i].0, v))),
        value_at(s.update(i, (s[i].0, v)), s[i].0@) == Some(v),
        forall|k: Seq<char>| k != s[i].0@ ==> #[trigger] value_at(s.update(i, (s[i].0, v)), k) == value_at(s, k),
{
    let t = s.update(i, (s[i].0, v));
    assert forall|a: int, b: int| 0 <= a < b < t.len() implies (#[trigger] t[a]).0@ != (#[trigger] t[b]).0@ by {
        assert(s[a].0@ != s[b].0@);
    }
    lemma_value_at_index(t, i);
    assert forall|k: Seq<char>| k != s[i].0@ implies #[trigger] value_at(t, k) == value_at(s, k) by {
        if has_key(s, k) {
            let j = choose|j: int| 0 <= j < s.len() && (#[trigger] s[j]).0@ == k;
            assert(t[j] == s[j]);
            lemma_value_at_index(s, j);
            lemma_value_at_index(t, j);
        } else if has_key(t, k) {
            let j = choose|j: int| 0 <= j < t.len() && (#[trigger] t[j]).0@ == k;
            assert(t[j] == s[j]);
        }
    }
}

/// Adding an entry with a new key keeps the keys unique, gives that key the value and leaves
/// the other keys as they were.
proof fn lemma_value_at_push<T>(s: Seq<(String, T)>, key: String, v: T)
    requires
        unique_keys(s),
        !has_key(s, key@),
    ensures
        unique_keys(s.push((key, v))),
        value_at(s.push((key, v)), key@) == Some(v),
        forall|k: Seq<char>| k != key@ ==> #[trigger] value_at(s.push((key, v)), k) == value_at(s, k),
{
    let t = s.push((key, v));
    assert forall|a: int, b: int| 0 <= a < b < t.len() implies (#[trigger] t[a]).0@ != (#[trigger] t[b]).0@ by {
        assert(t[a] == s[a]);
        if b < s.len() {
            assert(t[b] == s[b]);
        }
    }
    lemma_value_at_index(t, s.len() as int);
    assert forall|k: Seq<char>| k != key@ implies #[trigger] value_at(t, k) == value_at(s, k) by {
        if has_key(s, k) {
            let j = choose|j: int| 0 <= j < s.len() && (#[trigger] s[j]).0@ == k;
            assert(t[j] == s[j]);
            lemma_value_at_index(s, j);
            lemma_value_at_index(t, j);
        } else if has_key(t, k) {
            let j = choose|j: int| 0 <= j < t.len() && (#[trigger] t[j]).0@ == k;
            if j < s.len() {
                assert(t[j] == s[j]);
            }
        }
    }
}

/// A module at run time: its stack and its imports.
#[derive(Debug)]
#[verifier::reject_recursive_types(V)]
pub struct RuntimeUnit<V, I> {
    pub stack: Stack<V>,
    pub imports: Vec<I>,
}

/// The main program and the modules, by path, with the module currently running (none for the
/// main program) and the builtins every stack reads.
#[derive(Debug)]
#[verifier::reject_recursive_types(V)]
pub struct Store<V, I> {
    modules: Vec<(String, RuntimeUnit<V, I>)>,
    main: RuntimeUnit<V, I>,
    current: Option<String>,
    builtins: Option<Rc<Environment<V>>>,
}

/// A fresh stack: no calls, an empty global frame, and `base` for its base environment.
pub open spec fn fresh_stack<V>(s: Stack<V>, base: Option<Rc<Environment<V>>>) -> bool {
    &&& s.wf()
    &&& s.frames@.len() == 0
    &&& s.base == base
    &&& forall|n: Seq<char>| #[trigger] s.global.env.cell(n) is None
}

impl<V, I> Store<V, I> {
    /// No path names two modules, and the builtins are well formed.
    pub closed spec fn wf(&self) -> bool {
        &&& unique_keys(self.modules@)
        &&& match self.builtins {
            Some(b) => b.wf(),
            None => true,
        }
    }

    /// The path of the module currently running, if any.
    pub closed spec fn current_path(&self) -> Option<Seq<char>> {
        match self.current {
            Some(p) => Some(p@),
            None => None,
        }
    }

    /// The builtins.
    pub closed spec fn base(&self) -> Option<Rc<Environment<V>>> {
        self.builtins
    }

    /// The main program.
    pub closed spec fn main_unit(&self) -> RuntimeUnit<V, I> {
        self.main
    }

    /// The module of path `path`, if any.
    pub closed spec fn module(&self, path: Seq<char>) -> Option<RuntimeUnit<V, I>> {
        value_at(self.modules@, path)
    }

    /// The unit currently running: the current module, or the main program where there is no
    /// current module or no module of its path.
    pub open spec fn current_unit(&self) -> RuntimeUnit<V, I> {
        match self.current_path() {
            Some(p) => match self.module(p) {
                Some(u) => u,
                None => self.main_unit(),
            },
            None => self.main_unit(),
        }
    }

    /// The index of the module of path `path`, if any.
    fn find(&self, path: &str) -> (r: Option<usize>)
        requires
            self.wf(),
        ensures
            match r {
                Some(i) => i < self.modules@.len() && self.modules@[i as int].0@ == path@ && self.module(path@)
                    == Some(self.modules@[i as int].1),
                None => self.module(path@) is None,
            },
    {
        let mut i: usize = 0;
        while i < self.modules.len()
            invariant
                self.wf(),
                i <= self.modules.len(),
                forall|j: int| 0 <= j < i ==> (#[trigger] self.modules@[j]).0@ != path@,
            decreases self.modules.len() - i,
        {
            if str_eq(self.modules[i].0.as_str(), path) {
                assert(has_key(self.modules@, path@));
                let ghost k = choose|k: int| 0 <= k < self.modules@.len() && (#[trigger] self.modules@[k]).0@ == path@;
                assert(k == i) by {
                    if k < i {
                        assert(self.modules@[k].0@ != self.modules@[i as int].0@);
                    } else if k > i {
                        assert(self.modules@[i as int].0@ != self.modules@[k].0@);
                    }
                }
                return Some(i);
            }
            i = i + 1;
        }
        None
    }

    /// A store with an empty main program, no modules and no builtins.
    pub fn new() -> (r: Store<V, I>)
        ensures
            r.wf(),
            r.current_path() is None,
            r.base() is None,
            fresh_stack(r.main_unit().stack, None),
            r.main_unit().imports@.len() == 0,
            forall|p: Seq<char>| #[trigger] r.module(p) is None,
    {
        let r = Store {
            modules: Vec::new(),
            main: RuntimeUnit { stack: Stack::new(), imports: Vec::new() },
            current: None,
            builtins: None,
        };
        r
    }

    /// A store whose stacks read `builtins`, with an empty main program and no modules.
    pub fn with_builtins(builtins: Environment<V>) -> (r: Store<V, I>)
        requires
            builtins.wf(),
        ensures
            r.wf(),
            r.current_path() is None,
            r.base() matches Some(b) && *b == builtins,
            fresh_stack(r.main_unit().stack, r.base()),
            r.main_unit().imports@.len() == 0,
            forall|p: Seq<char>| #[trigger] r.module(p) is None,
    {
        let builtins = Rc::new(builtins);
        let stack = Stack::with_base(share_handle(&builtins));
        let r = Store {
            modules: Vec::new(),
            main: RuntimeUnit { stack, imports: Vec::new() },
            current: None,
            builtins: Some(builtins),
        };
        r
    }
}

impl<V, I> Store<V, I> {
    /// `self` holds the modules, main program and builtins of `old`.
    pub open spec fn same_units(&self, old: &Store<V, I>) -> bool {
        &&& self.wf()
        &&& forall|p: Seq<char>| #[trigger] self.module(p) == old.module(p)
        &&& self.main_unit() == old.main_unit()
        &&& self.base() == old.base()
    }

    /// Runs the main program from now on.
    pub fn switch_to_main(&mut self)
        requires
            old(self).wf(),
        ensures
            final(self).same_units(&*old(self)),
            final(self).current_path() is None,
    {
        self.current = None;
    }

    /// Runs the module of path `path` from now on.
    pub fn switch_to_module(&mut self, path: String)
        requires
            old(self).wf(),
        ensures
            final(self).same_units(&*old(self)),
            final(self).current_path() == Some(path@),
    {
        self.current = Some(path);
    }

    /// The stack of the unit currently running.
    pub fn get_current(&self) -> (r: &Stack<V>)
        requires
            self.wf(),
        ensures
            *r == self.current_unit().stack,
    {
        match &self.current {
            Some(path) => match self.find(path.as_str()) {
                Some(i) => &self.modules[i].1.stack,
                None => &self.main.stack,
            },
            None => &self.main.stack,
        }
    }

    /// The stack of the unit currently running, to change.
    pub fn get_current_mut(&mut self) -> (r: &mut Stack<V>)
        requires
            old(self).wf(),
        ensures
            *r == old(self).current_unit().stack,
            final(self).wf(),
            final(self).current_path() == old(self).current_path(),
            final(self).base() == old(self).base(),
            final(self).current_unit().stack == *final(r),
            final(self).current_unit().imports == old(self).current_unit().imports,
            forall|p: Seq<char>| old(self).current_path() != Some(p) ==> #[trigger] final(self).module(p)
                == old(self).module(p),
            old(self).current_path() is Some && old(self).module(old(self).current_path()->0) is Some
                ==> final(self).main_unit() == old(self).main_unit(),
    {
        let ghost before = *self;
        let found = match &self.current {
            Some(path) => self.find(path.as_str()),
            None => None,
        };
        match found {
            Some(i) => {
                proof {
                    let p = self.modules@[i as int].0@;
                    assert(self.current_path() == Some(p));
                }
                let r = &mut self.modules[i].1.stack;
                proof {
                    let u = RuntimeUnit { stack: *final(r), imports: before.modules@[i as int].1.imports };
                    lemma_value_at_update(before.modules@, i as int, u);
                }
                r
            },
            None => &mut self.main.stack,
        }
    }

    /// The stack of the module of path `path`, if any.
    pub fn find_module(&self, path: &str) -> (r: Option<&Stack<V>>)
        requires
            self.wf(),
        ensures
            match self.module(path@) {
                Some(u) => r == Some(&u.stack),
                None => r is None,
            },
    {
        match self.find(path) {
            Some(i) => Some(&self.modules[i].1.stack),
            None => None,
        }
    }

    /// Adds a module of path `path`, with a fresh stack and the imports `imports`, unless there
    /// is one already.
    fn create_module_helper(&mut self, path: String, imports: Vec<I>)
        requires
            old(self).wf(),
        ensures
            final(self).wf(),
            final(self).current_path() == old(self).current_path(),
            final(self).base() == old(self).base(),
            final(self).main_unit() == old(self).main_unit(),
            forall|p: Seq<char>| p != path@ ==> #[trigger] final(self).module(p) == old(self).module(p),
            old(self).module(path@) is Some ==> final(self).module(path@) == old(self).module(path@),
            old(self).module(path@) is None ==> (final(self).module(path@) matches Some(u) && fresh_stack(
                u.stack,
                old(self).base(),
            ) && u.imports@ == imports@),
    {
        if self.find(path.as_str()).is_some() {
            return;
        }
        let stack = match &self.builtins {
            Some(builtins) => Stack::with_base(share_handle(builtins)),
            None => Stack::new(),
        };
        let ghost before = self.modules@;
        let unit = RuntimeUnit { stack, imports };
        proof {
            lemma_value_at_push(before, path, unit);
        }
        self.modules.push((path, unit));
    }

    /// Adds a module of path `path`, with a fresh stack and no imports, unless there is one
    /// already.
    pub fn create_module(&mut self, path: String)
        requires
            old(self).wf(),
        ensures
            final(self).wf(),
            final(self).current_path() == old(self).current_path(),
            final(self).base() == old(self).base(),
            final(self).main_unit() == old(self).main_unit(),
            forall|p: Seq<char>| p != path@ ==> #[trigger] final(self).module(p) == old(self).module(p),
            old(self).module(path@) is Some ==> final(self).module(path@) == old(self).module(path@),
            old(self).module(path@) is None ==> (final(self).module(path@) matches Some(u) && fresh_stack(
                u.stack,
                old(self).base(),
            ) && u.imports@.len() == 0),
    {
        self.create_module_helper(path, Vec::new());
    }

    /// Records an import of the unit currently running; a current module that does not exist
    /// yet is added, with a fresh stack and this import.
    pub fn add_import_to_current(&mut self, import: I)
        requires
            old(self).wf(),
        ensures
            final(self).wf(),
            final(self).current_path() == old(self).current_path(),
            final(self).base() == old(self).base(),
            match old(self).current_path() {
                None => {
                    &&& final(self).main_unit().stack == old(self).main_unit().stack
                    &&& final(self).main_unit().imports@ == old(self).main_unit().imports@.push(import)
                    &&& forall|p: Seq<char>| #[trigger] final(self).module(p) == old(self).module(p)
                },
                Some(path) => {
                    &&& final(self).main_unit() == old(self).main_unit()
                    &&& forall|p: Seq<char>| p != path ==> #[trigger] final(self).module(p) == old(self).module(p)
                    &&& match old(self).module(path) {
                        Some(u) => final(self).module(path) matches Some(v) && v.stack == u.stack
                            && v.imports@ == u.imports@.push(import),
                        None => final(self).module(path) matches Some(v) && fresh_stack(v.stack, old(self).base())
                            && v.imports@ == seq![import],
                    }
                },
            },
    {
        let found = match &self.current {
            Some(path) => self.find(path.as_str()),
            None => None,
        };
        match found {
            Some(i) => {
                let ghost before = self.modules@;
                self.modules[i].1.imports.push(import);
                proof {
                    let u = self.modules@[i as int].1;
                    assert(self.modules@ =~= before.update(i as int, (before[i as int].0, u)));
                    lemma_value_at_update(before, i as int, u);
                    lemma_value_at_index(before, i as int);
                }
            },
            None => {
                match &self.current {
                    Some(path) => {
                        let path = path.clone();
                        let mut imports = Vec::new();
                        imports.push(import);
                        assert(imports@ =~= seq![import]);
                        self.create_module_helper(path, imports);
                    },
                    None => {
                        self.main.imports.push(import);
                    },
                }
            },
        }
    }
}

} // verus!
