//! Records of captured variables: which function refers to which variable declared outside it.

use vstd::prelude::*;

verus! {

/// A function (`inner_fn_id`) whose body refers (`free_variable_id`) to a variable declared
/// outside it (`enclosed_var_id`), named `var_name`.
#[derive(Debug, Clone)]
pub struct VarCapture {
    pub inner_fn_id: usize,
    pub free_variable_id: usize,
    pub enclosed_var_id: usize,
    pub var_name: String,
}

impl VarCapture {
    /// A capture record made of its parts.
    pub fn new(inner_fn_id: usize, free_variable_id: usize, enclosed_var_id: usize, var_name: String) -> (r:
        VarCapture)
        ensures
            r.inner_fn_id == inner_fn_id,
            r.free_variable_id == free_variable_id,
            r.enclosed_var_id == enclosed_var_id,
            r.var_name == var_name,
    {
        VarCapture { inner_fn_id, free_variable_id, enclosed_var_id, var_name }
    }
}

/// The capture records of a program.
#[derive(Debug)]
pub struct VarCaptureList(pub Vec<VarCapture>);

/// The names of the records of `caps` whose function is `f`, in order.
pub open spec fn names_captured_by(caps: Seq<VarCapture>, f: usize) -> Seq<Seq<char>>
    decreases caps.len(),
{
    if caps.len() == 0 {
        Seq::empty()
    } else {
        let rest = names_captured_by(caps.drop_last(), f);
        if caps.last().inner_fn_id == f {
            rest.push(caps.last().var_name@)
        } else {
            rest
        }
    }
}

impl VarCaptureList {
    /// A list of the given records.
    pub fn new(closures: Vec<VarCapture>) -> (r: VarCaptureList)
        ensures
            r.0@ == closures@,
    {
        VarCaptureList(closures)
    }

    /// Whether some record's enclosed variable is the declaration `var_decl`.
    pub fn is_enclosed_var_decl(&self, var_decl: usize) -> (r: bool)
        ensures
            r == exists|i: int| 0 <= i < self.0.len() && (#[trigger] self.0@[i]).enclosed_var_id == var_decl,
    {
        let mut i: usize = 0;
        while i < self.0.len()
            invariant
                i <= self.0.len(),
                forall|j: int| 0 <= j < i ==> (#[trigger] self.0@[j]).enclosed_var_id != var_decl,
            decreases self.0.len() - i,
        {
            if self.0[i].enclosed_var_id == var_decl {
                return true;
            }
            i = i + 1;
        }
        false
    }

    /// Whether some record's reference is `var_ref`.
    pub fn is_free_variable_ref(&self, var_ref: usize) -> (r: bool)
        ensures
            r == exists|i: int| 0 <= i < self.0.len() && (#[trigger] self.0@[i]).free_variable_id == var_ref,
    {
        let mut i: usize = 0;
        while i < self.0.len()
            invariant
                i <= self.0.len(),
                forall|j: int| 0 <= j < i ==> (#[trigger] self.0@[j]).free_variable_id != var_ref,
            decreases self.0.len() - i,
        {
            if self.0[i].free_variable_id == var_ref {
                return true;
            }
            i = i + 1;
        }
        false
    }

    /// The names of the variables that the function `func_decl` captures, in record order.
    pub fn get_free_vars_in_fn(&self, func_decl: usize) -> (r: Vec<String>)
        ensures
            r@.map_values(|s: String| s@) == names_captured_by(self.0@, func_decl),
    {
        let mut out: Vec<String> = Vec::new();
        let mut i: usize = 0;
        assert(self.0@.take(0) =~= Seq::<VarCapture>::empty());
        assert(out@.map_values(|s: String| s@) =~= Seq::<Seq<char>>::empty());
        while i < self.0.len()
            invariant
                i <= self.0.len(),
                out@.map_values(|s: String| s@) == names_captured_by(self.0@.take(i as int), func_decl),
            decreases self.0.len() - i,
        {
            let ghost before = out@.map_values(|s: String| s@);
            assert(self.0@.take(i + 1).drop_last() =~= self.0@.take(i as int));
            if self.0[i].inner_fn_id == func_decl {
                let name = self.0[i].var_name.clone();
                out.push(name);
                assert(out@.map_values(|s: String| s@) =~= before.push(self.0@[i as int].var_name@));
            }
            i = i + 1;
        }
        assert(self.0@.take(self.0.len() as int) =~= self.0@);
        out
    }
}

/// A function (`func_decl`) whose body refers (`reference`) to a variable declared outside it
/// (`var_decl`), named `var_name`.
#[derive(Debug, Clone)]
pub struct Closure {
    pub func_decl: usize,
    pub reference: usize,
    pub var_decl: usize,
    pub var_name: String,
}

impl Closure {
    /// A record made of its parts.
    pub fn new(func_decl: usize, reference: usize, var_decl: usize, var_name: String) -> (r: Closure)
        ensures
            r.func_decl == func_decl,
            r.reference == reference,
            r.var_decl == var_decl,
            r.var_name == var_name,
    {
        Closure { func_decl, reference, var_decl, var_name }
    }
}

/// The capture records of a program, in the older form.
#[derive(Debug)]
pub struct ClosureList(pub Vec<Closure>);

/// The records of `cs` whose function is `f`, in order.
pub open spec fn closures_of(cs: Seq<Closure>, f: usize) -> Seq<Closure>
    decreases cs.len(),
{
    if cs.len() == 0 {
        Seq::empty()
    } else {
        let rest = closures_of(cs.drop_last(), f);
        if cs.last().func_decl == f {
            rest.push(cs.last())
        } else {
            rest
        }
    }
}

/// The records of a function are those of the list whose function it is, each of them, in the
/// list's order: `closures_of` is the list filtered by the function.
pub proof fn closures_of_filters(cs: Seq<Closure>, f: usize)
    ensures
        closures_of(cs, f) == cs.filter(|c: Closure| c.func_decl == f),
        forall|k: int| 0 <= k < closures_of(cs, f).len() ==> (#[trigger] closures_of(cs, f)[k]).func_decl == f,
    decreases cs.len(),
{
    reveal(Seq::filter);
    if cs.len() > 0 {
        closures_of_filters(cs.drop_last(), f);
        let rest = closures_of(cs.drop_last(), f);
        if cs.last().func_decl == f {
            assert forall|k: int| 0 <= k < closures_of(cs, f).len() implies (#[trigger] closures_of(cs, f)[k]).func_decl == f by {
                if k < rest.len() {
                    assert(closures_of(cs, f)[k] == rest[k]);
                }
            }
        }
    }
}

impl ClosureList {
    /// A list of the given records.
    pub fn new(closures: Vec<Closure>) -> (r: ClosureList)
        ensures
            r.0@ == closures@,
    {
        ClosureList(closures)
    }

    /// Whether some record's variable is the declaration `var_decl`.
    pub fn is_captured_var_decl(&self, var_decl: usize) -> (r: bool)
        ensures
            r == exists|i: int| 0 <= i < self.0.len() && (#[trigger] self.0@[i]).var_decl == var_decl,
    {
        let mut i: usize = 0;
        while i < self.0.len()
            invariant
                i <= self.0.len(),
                forall|j: int| 0 <= j < i ==> (#[trigger] self.0@[j]).var_decl != var_decl,
            decreases self.0.len() - i,
        {
            if self.0[i].var_decl == var_decl {
                return true;
            }
            i = i + 1;
        }
        false
    }

    /// Whether some record's reference is `var_ref`.
    pub fn is_captured_var_ref(&self, var_ref: usize) -> (r: bool)
        ensures
            r == exists|i: int| 0 <= i < self.0.len() && (#[trigger] self.0@[i]).reference == var_ref,
    {
        let mut i: usize = 0;
        while i < self.0.len()
            invariant
                i <= self.0.len(),
                forall|j: int| 0 <= j < i ==> (#[trigger] self.0@[j]).reference != var_ref,
            decreases self.0.len() - i,
        {
            if self.0[i].reference == var_ref {
                return true;
            }
            i = i + 1;
        }
        false
    }

    /// The records whose function is `func_decl`, in order.
    pub fn get_closures(&self, func_decl: usize) -> (r: Vec<&Closure>)
        ensures
            r@.map_values(|c: &Closure| *c) == closures_of(self.0@, func_decl),
            r@.map_values(|c: &Closure| *c) == self.0@.filter(|c: Closure| c.func_decl == func_decl),
            forall|k: int| 0 <= k < r.len() ==> (#[trigger] r@[k]).func_decl == func_decl,
    {
        proof {
            closures_of_filters(self.0@, func_decl);
        }
        let mut out: Vec<&Closure> = Vec::new();
        let mut i: usize = 0;
        assert(self.0@.take(0) =~= Seq::<Closure>::empty());
        assert(out@.map_values(|c: &Closure| *c) =~= Seq::<Closure>::empty());
        while i < self.0.len()
            invariant
                i <= self.0.len(),
                out@.map_values(|c: &Closure| *c) == closures_of(self.0@.take(i as int), func_decl),
            decreases self.0.len() - i,
        {
            let ghost before = out@.map_values(|c: &Closure| *c);
            assert(self.0@.take(i + 1).drop_last() =~= self.0@.take(i as int));
            if self.0[i].func_decl == func_decl {
                out.push(&self.0[i]);
                assert(out@.map_values(|c: &Closure| *c) =~= before.push(self.0@[i as int]));
            }
            i = i + 1;
        }
        assert(self.0@.take(self.0.len() as int) =~= self.0@);
        assert forall|k: int| 0 <= k < out.len() implies (#[trigger] out@[k]).func_decl == func_decl by {
            assert(out@.map_values(|c: &Closure| *c)[k] == *out@[k]);
            assert(closures_of(self.0@, func_decl)[k].func_decl == func_decl);
        }
        out
    }

    /// The names of the records whose function is `func_decl`, in order.
    pub fn get_closures_names(&self, func_decl: usize) -> (r: Vec<String>)
        ensures
            r@.map_values(|s: String| s@) == closures_of(self.0@, func_decl).map_values(|c: Closure| c.var_name@),
            r@.map_values(|s: String| s@) == self.0@.filter(|c: Closure| c.func_decl == func_decl).map_values(
                |c: Closure| c.var_name@,
            ),
    {
        proof {
            closures_of_filters(self.0@, func_decl);
        }
        let closures = self.get_closures(func_decl);
        let mut out: Vec<String> = Vec::new();
        let mut i: usize = 0;
        while i < closures.len()
            invariant
                i <= closures.len(),
                closures@.map_values(|c: &Closure| *c) == closures_of(self.0@, func_decl),
                out@.map_values(|s: String| s@) =~= closures_of(self.0@, func_decl).take(i as int).map_values(|c: Closure| c.var_name@),
            decreases closures.len() - i,
        {
            let ghost cl = closures_of(self.0@, func_decl);
            let ghost before = out@.map_values(|s: String| s@);
            assert(closures@.map_values(|c: &Closure| *c)[i as int] == cl[i as int]);
            let name = closures[i].var_name.clone();
            assert(name@ == cl[i as int].var_name@);
            out.push(name);
            assert(out@.map_values(|s: String| s@) =~= before.push(name@));
            assert(cl.take(i + 1) =~= cl.take(i as int).push(cl[i as int]));
            assert(cl.take(i + 1).map_values(|c: Closure| c.var_name@) =~= cl.take(i as int).map_values(
                |c: Closure| c.var_name@,
            ).push(cl[i as int].var_name@));
            i = i + 1;
        }
        assert(closures_of(self.0@, func_decl).take(closures.len() as int) =~= closures_of(self.0@, func_decl));
        out
    }
}

} // verus!
