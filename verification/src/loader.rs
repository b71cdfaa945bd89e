//! The order in which source files are loaded along their imports, and the cycles of
//! imports that stop it.

use vstd::prelude::*;

verus! {

/// A cycle of imports: each path imports the next, and the last imports the first.
#[derive(Debug, Clone)]
pub struct Cycle(pub Vec<String>);

/// The paths joined by arrows, in order.
pub open spec fn joined_with_arrows(ps: Seq<Seq<char>>) -> Seq<char>
    decreases ps.len(),
{
    if ps.len() == 0 {
        Seq::empty()
    } else if ps.len() == 1 {
        ps[0]
    } else {
        joined_with_arrows(ps.drop_last()) + " → "@ + ps.last()
    }
}

impl Cycle {
    /// The paths of the cycle joined by arrows, in order.
    pub fn to_display_string(&self) -> (r: String)
        ensures
            r@ == joined_with_arrows(self.0@.map_values(|p: String| p@)),
    {
        let ghost ps = self.0@.map_values(|p: String| p@);
        let mut out = String::new();
        let mut i: usize = 0;
        assert(ps.take(0) =~= Seq::<Seq<char>>::empty());
        while i < self.0.len()
            invariant
                i <= self.0.len(),
                ps == self.0@.map_values(|p: String| p@),
                out@ == joined_with_arrows(ps.take(i as int)),
            decreases self.0.len() - i,
        {
            assert(ps.take(i + 1).drop_last() =~= ps.take(i as int));
            assert(ps.take(i + 1).last() == self.0@[i as int]@);
            if i > 0 {
                out.append(" → ");
            } else {
                assert(ps.take(1) =~= seq![self.0@[0]@]);
            }
            out.append(self.0[i].as_str());
            i = i + 1;
        }
        assert(ps.take(self.0.len() as int) =~= ps);
        out
    }
}

/// Module `a` imports module `b`: in `g`, the list of module `a` holds `b`.
pub open spec fn imports(g: Seq<Vec<usize>>, a: usize, b: usize) -> bool {
    a < g.len() && g[a as int]@.contains(b)
}

/// Every import names a module of the graph.
pub open spec fn graph_wf(g: Seq<Vec<usize>>) -> bool {
    forall|a: int, j: int| 0 <= a < g.len() && 0 <= j < g[a]@.len() ==> (#[trigger] g[a]@[j]) < g.len()
}

/// Modules of the graph, each at most once.
pub open spec fn distinct_modules(g: Seq<Vec<usize>>, s: Seq<usize>) -> bool {
    &&& s.no_duplicates()
    &&& forall|k: int| 0 <= k < s.len() ==> (#[trigger] s[k]) < g.len()
}

/// Module `x` comes before position `k` of `order`.
pub open spec fn placed_before(order: Seq<usize>, k: int, x: usize) -> bool {
    exists|m: int| 0 <= m < k && order[m] == x
}

/// Every module of `order` comes after all the modules it imports.
pub open spec fn imports_first(g: Seq<Vec<usize>>, order: Seq<usize>) -> bool {
    forall|k: int, j: int| 0 <= k < order.len() && 0 <= j < g[order[k] as int]@.len() ==> #[trigger] placed_before(
        order,
        k,
        g[order[k] as int]@[j],
    )
}

/// Each module of `path` imports the next.
pub open spec fn import_path(g: Seq<Vec<usize>>, path: Seq<usize>) -> bool {
    forall|k: int| 0 <= k < path.len() - 1 ==> imports(g, #[trigger] path[k], path[k + 1])
}

/// `c` is a cycle of imports: a path of at least one import that ends where it starts.
pub open spec fn is_cycle(g: Seq<Vec<usize>>, c: Seq<usize>) -> bool {
    &&& c.len() >= 2
    &&& c[0] == c.last()
    &&& import_path(g, c)
}

/// Module `a` reaches module `b`: a path of imports, possibly empty, leads from `a` to `b`.
pub open spec fn reaches(g: Seq<Vec<usize>>, a: usize, b: usize) -> bool {
    exists|path: Seq<usize>| path.len() >= 1 && path[0] == a && path.last() == b && #[trigger] import_path(g, path)
}

/// Every module reaches itself.
proof fn lemma_reaches_self(g: Seq<Vec<usize>>, a: usize)
    ensures
        reaches(g, a, a),
{
    let path = seq![a];
    assert(import_path(g, path));
}

/// A module reaches what the modules it imports reach.
proof fn lemma_reaches_through(g: Seq<Vec<usize>>, a: usize, b: usize, c: usize)
    requires
        imports(g, a, b),
        reaches(g, b, c),
    ensures
        reaches(g, a, c),
{
    let path = choose|path: Seq<usize>| path.len() >= 1 && path[0] == b && path.last() == c && #[trigger] import_path(g, path);
    let longer = seq![a] + path;
    assert(import_path(g, longer)) by {
        assert forall|k: int| 0 <= k < longer.len() - 1 implies imports(g, #[trigger] longer[k], longer[k + 1]) by {
            if k > 0 {
                assert(longer[k] == path[k - 1] && longer[k + 1] == path[k]);
            }
        }
    }
    assert(longer[0] == a && longer.last() == c);
}

/// An order that places imports first, and holds the start of a path of imports, holds its
/// end too.
proof fn lemma_path_stays_in_order(g: Seq<Vec<usize>>, order: Seq<usize>, path: Seq<usize>)
    requires
        imports_first(g, order),
        path.len() >= 1,
        import_path(g, path),
        order.contains(path[0]),
    ensures
        order.contains(path.last()),
    decreases path.len(),
{
    if path.len() > 1 {
        assert(imports(g, path[0], path[1]));
        let j = choose|j: int| 0 <= j < g[path[0] as int]@.len() && g[path[0] as int]@[j] == path[1];
        let k = choose|k: int| 0 <= k < order.len() && order[k] == path[0];
        assert(placed_before(order, k, g[order[k] as int]@[j]));
        let rest = path.drop_first();
        assert(import_path(g, rest)) by {
            assert forall|i: int| 0 <= i < rest.len() - 1 implies imports(g, #[trigger] rest[i], rest[i + 1]) by {
                assert(rest[i] == path[i + 1] && rest[i + 1] == path[i + 2]);
            }
        }
        lemma_path_stays_in_order(g, order, rest);
        assert(rest.last() == path.last());
    }
}

/// An order that places imports first and holds `a` holds every module that `a` reaches.
proof fn lemma_reached_in_order(g: Seq<Vec<usize>>, order: Seq<usize>, a: usize, b: usize)
    requires
        imports_first(g, order),
        order.contains(a),
        reaches(g, a, b),
    ensures
        order.contains(b),
{
    let path = choose|path: Seq<usize>| path.len() >= 1 && path[0] == a && path.last() == b && #[trigger] import_path(g, path);
    lemma_path_stays_in_order(g, order, path);
}

/// Modules of the graph, each at most once, are no more than the graph has.
proof fn lemma_distinct_bounded(g: Seq<Vec<usize>>, s: Seq<usize>)
    requires
        distinct_modules(g, s),
    ensures
        s.len() <= g.len(),
{
    let t = s.map_values(|x: usize| x as int);
    assert(t.no_duplicates()) by {
        assert forall|i: int, j: int| 0 <= i < t.len() && 0 <= j < t.len() && i != j implies t[i] != t[j] by {
            assert(s[i] != s[j]);
        }
    }
    t.unique_seq_to_set();
    vstd::set_lib::lemma_int_range(0, g.len() as int);
    assert(t.to_set().subset_of(vstd::set_lib::set_int_range(0, g.len() as int))) by {
        assert forall|x: int| t.to_set().contains(x) implies vstd::set_lib::set_int_range(0, g.len() as int).contains(x) by {
            let i = choose|i: int| 0 <= i < t.len() && t[i] == x;
            assert(s[i] < g.len());
        }
    }
    vstd::set_lib::lemma_len_subset(t.to_set(), vstd::set_lib::set_int_range(0, g.len() as int));
}

/// What loading module `p` gives, depth first, with `stack` the modules being loaded and `done`
/// those loaded: the cycle met, if one is, and the modules loaded after it. A module loaded
/// already gives nothing new; a module on the stack gives the cycle from where it stands on
/// the stack back to itself; any other module loads its imports in order, stopping at the
/// first cycle, and is then loaded itself.
pub open spec fn load_spec(g: Seq<Vec<usize>>, p: usize, stack: Seq<usize>, done: Seq<usize>) -> (Option<Seq<usize>>, Seq<usize>)
    decreases g.len() - stack.len(), 1int, 0int,
{
    if done.contains(p) {
        (None, done)
    } else if stack.contains(p) {
        let k = choose|k: int| 0 <= k < stack.len() && stack[k] == p;
        (Some(stack.subrange(k, stack.len() as int).push(p)), done)
    } else if stack.len() >= g.len() || p >= g.len() {
        (None, done)
    } else {
        match imports_spec(g, p, stack.push(p), 0, done) {
            (Some(c), d) => (Some(c), d),
            (None, d) => (None, d.push(p)),
        }
    }
}

/// What loading the imports of `p` from the `j`-th on gives, as `load_spec` says, in order,
/// stopping at the first cycle.
pub open spec fn imports_spec(g: Seq<Vec<usize>>, p: usize, stack: Seq<usize>, j: int, done: Seq<usize>) -> (Option<
    Seq<usize>,
>, Seq<usize>)
    decreases g.len() - stack.len() + 1, 0int, g[p as int]@.len() - j,
{
    if j < 0 || p >= g.len() || j >= g[p as int]@.len() || stack.len() > g.len() {
        (None, done)
    } else {
        match load_spec(g, g[p as int]@[j], stack, done) {
            (Some(c), d) => (Some(c), d),
            (None, d) => imports_spec(g, p, stack, j + 1, d),
        }
    }
}

/// Whether `x` is in `s`.
fn holds(s: &Vec<usize>, x: usize) -> (r: Option<usize>)
    ensures
        match r {
            Some(i) => i < s.len() && s@[i as int] == x && forall|k: int| 0 <= k < i ==> s@[k] != x,
            None => !s@.contains(x),
        },
{
    let mut i: usize = 0;
    while i < s.len()
        invariant
            i <= s.len(),
            forall|k: int| 0 <= k < i ==> s@[k] != x,
        decreases s.len() - i,
    {
        if s[i] == x {
            return Some(i);
        }
        i = i + 1;
    }
    None
}

/// Loads module `p` after the modules it imports, depth first: `stack` holds the modules being
/// loaded, each importing the next and the last importing `p`; `done` the modules loaded, in
/// order. Where `p` is loaded already, nothing changes; where `p` is on the stack, the stack
/// from `p` on, then `p` again, is the cycle reported.
fn visit(g: &Vec<Vec<usize>>, p: usize, stack: &mut Vec<usize>, done: &mut Vec<usize>) -> (r: Result<(), Vec<usize>>)
    requires
        graph_wf(g@),
        p < g.len(),
        distinct_modules(g@, old(stack)@),
        import_path(g@, old(stack)@),
        old(stack).len() > 0 ==> imports(g@, old(stack)@.last(), p),
        distinct_modules(g@, old(done)@),
        imports_first(g@, old(done)@),
    ensures
        final(stack)@ == old(stack)@,
        distinct_modules(g@, final(done)@),
        imports_first(g@, final(done)@),
        final(done)@.len() >= old(done)@.len(),
        final(done)@.take(old(done)@.len() as int) == old(done)@,
        forall|k: int| old(done)@.len() <= k < final(done)@.len() ==> !old(stack)@.contains(#[trigger] final(done)@[k]),
        r is Ok ==> final(done)@.contains(p),
        r matches Err(c) ==> is_cycle(g@, c@) && reaches(g@, p, c@[0]),
        r is Ok ==> forall|k: int| old(done)@.len() <= k < final(done)@.len() ==> reaches(g@, p, #[trigger] final(done)@[k]),
        old(done)@.contains(p) ==> r is Ok && final(done)@ == old(done)@,
        !old(done)@.contains(p) && old(stack)@.contains(p) ==> final(done)@ == old(done)@ && exists|k: int|
            0 <= k < old(stack)@.len() && old(stack)@[k] == p && (r matches Err(c) && c@ == old(stack)@.subrange(
                k,
                old(stack)@.len() as int,
            ).push(p)),
        ({
            let (res, d) = load_spec(g@, p, old(stack)@, old(done)@);
            &&& final(done)@ == d
            &&& (r is Ok <==> res is None)
            &&& r matches Err(c) ==> res == Some(c@)
        }),
    decreases g.len() - old(stack).len(),
{
    if holds(done, p).is_some() {
        assert(done@.take(done@.len() as int) =~= done@);
        return Ok(());
    }
    if let Some(start) = holds(stack, p) {
        let mut cycle: Vec<usize> = Vec::new();
        let mut i: usize = start;
        while i < stack.len()
            invariant
                start <= i <= stack.len(),
                stack@[start as int] == p,
                cycle@ == stack@.subrange(start as int, i as int),
            decreases stack.len() - i,
        {
            cycle.push(stack[i]);
            assert(cycle@ =~= stack@.subrange(start as int, i + 1));
            i = i + 1;
        }
        cycle.push(p);
        proof {
            let k = choose|k: int| 0 <= k < stack@.len() && stack@[k] == p;
            assert(k == start) by {
                if k != start {
                    assert(stack@[k] == stack@[start as int]);
                }
            }
            lemma_reaches_self(g@, p);
            assert(cycle@ =~= stack@.subrange(start as int, stack@.len() as int).push(p));
        }
        assert(is_cycle(g@, cycle@)) by {
            assert forall|k: int| 0 <= k < cycle@.len() - 1 implies imports(g@, #[trigger] cycle@[k], cycle@[k + 1]) by {
                if k + 1 < cycle@.len() - 1 {
                    assert(cycle@[k] == stack@[start + k]);
                    assert(cycle@[k + 1] == stack@[start + k + 1]);
                } else {
                    assert(cycle@[k] == stack@.last());
                }
            }
        }
        assert(done@.take(done@.len() as int) =~= done@);
        return Err(cycle);
    }
    let ghost stack0 = stack@;
    let ghost done0 = done@;
    stack.push(p);
    proof {
        assert(distinct_modules(g@, stack@)) by {
            assert forall|i: int, j: int| 0 <= i < stack@.len() && 0 <= j < stack@.len() && i != j implies stack@[i] != stack@[j] by {
                if i < stack0.len() && j < stack0.len() {
                } else if i < stack0.len() {
                    assert(stack0.contains(stack@[i]));
                } else {
                    assert(stack0.contains(stack@[j]));
                }
            }
        }
        lemma_distinct_bounded(g@, stack@);
        assert(import_path(g@, stack@)) by {
            assert forall|k: int| 0 <= k < stack@.len() - 1 implies imports(g@, #[trigger] stack@[k], stack@[k + 1]) by {
                if k + 1 < stack0.len() {
                    assert(stack@[k] == stack0[k] && stack@[k + 1] == stack0[k + 1]);
                    assert(imports(g@, stack0[k], stack0[k + 1]));
                }
            }
        }
    }
    let deps = &g[p];
    let mut j: usize = 0;
    while j < deps.len()
        invariant
            graph_wf(g@),
            p < g.len(),
            deps@ == g@[p as int]@,
            stack0 == old(stack)@,
            done0 == old(done)@,
            stack@ == stack0.push(p),
            distinct_modules(g@, stack@),
            import_path(g@, stack@),
            stack@.len() <= g.len(),
            !done0.contains(p),
            !stack0.contains(p),
            j <= deps.len(),
            distinct_modules(g@, done@),
            imports_first(g@, done@),
            done@.len() >= done0.len(),
            done@.take(done0.len() as int) == done0,
            forall|k: int| done0.len() <= k < done@.len() ==> !stack@.contains(#[trigger] done@[k]),
            forall|m: int| 0 <= m < j ==> done@.contains(#[trigger] deps@[m]),
            forall|k: int| done0.len() <= k < done@.len() ==> reaches(g@, p, #[trigger] done@[k]),
            imports_spec(g@, p, stack0.push(p), 0, done0) == imports_spec(g@, p, stack0.push(p), j as int, done@),
            stack0.len() < g.len(),
        decreases deps.len() - j,
    {
        let q = deps[j];
        assert(q < g.len());
        assert(imports(g@, stack@.last(), q)) by {
            assert(g@[p as int]@[j as int] == q);
        }
        let ghost done1 = done@;
        assert(imports(g@, p, q)) by {
            assert(g@[p as int]@[j as int] == q);
        }
        match visit(g, q, stack, done) {
            Ok(()) => {},
            Err(c) => {
                stack.pop();
                proof {
                    lemma_reaches_through(g@, p, q, c@[0]);
                    assert(stack@ =~= stack0);
                    assert(done@.take(done0.len() as int) =~= done1.take(done0.len() as int)) by {
                        assert(done@.take(done1.len() as int) == done1);
                    }
                    assert forall|k: int| done0.len() <= k < done@.len() implies !stack0.contains(#[trigger] done@[k]) by {
                        if k < done1.len() {
                            assert(done@[k] == done1[k]) by {
                                assert(done@.take(done1.len() as int)[k] == done@[k]);
                            }
                            if stack0.contains(done@[k]) {
                                let i = choose|i: int| 0 <= i < stack0.len() && stack0[i] == done@[k];
                                assert(stack@.push(p)[i] == done1[k]);
                            }
                        } else {
                            if stack0.contains(done@[k]) {
                                let i = choose|i: int| 0 <= i < stack0.len() && stack0[i] == done@[k];
                                assert(stack0.push(p)[i] == done@[k]);
                            }
                        }
                    }
                }
                return Err(c);
            },
        }
        proof {
            assert(done@.take(done1.len() as int) == done1);
            assert(done@.take(done0.len() as int) =~= done1.take(done0.len() as int));
            assert forall|m: int| 0 <= m < j + 1 implies done@.contains(#[trigger] deps@[m]) by {
                if m < j {
                    let i = choose|i: int| 0 <= i < done1.len() && done1[i] == deps@[m];
                    assert(done@.take(done1.len() as int)[i] == done@[i]);
                }
            }
            assert forall|k: int| done0.len() <= k < done@.len() implies !stack@.contains(#[trigger] done@[k]) by {
                if k < done1.len() {
                    assert(done@.take(done1.len() as int)[k] == done@[k]);
                }
            }
            assert forall|k: int| done0.len() <= k < done@.len() implies reaches(g@, p, #[trigger] done@[k]) by {
                if k < done1.len() {
                    assert(done@.take(done1.len() as int)[k] == done@[k]);
                } else {
                    lemma_reaches_through(g@, p, q, done@[k]);
                }
            }
        }
        j = j + 1;
    }
    let ghost done2 = done@;
    assert(!done2.contains(p)) by {
        if done2.contains(p) {
            let k = choose|k: int| 0 <= k < done2.len() && done2[k] == p;
            if k < done0.len() {
                assert(done2.take(done0.len() as int)[k] == done2[k]);
            } else {
                assert(stack@.contains(done2[k])) by {
                    assert(stack@[stack@.len() - 1] == p);
                }
            }
        }
    }
    done.push(p);
    stack.pop();
    proof {
        assert(stack@ =~= stack0);
        assert(done@.take(done0.len() as int) =~= done2.take(done0.len() as int));
        assert(done@[done@.len() - 1] == p);
        assert(distinct_modules(g@, done@)) by {
            assert forall|i: int, k: int| 0 <= i < done@.len() && 0 <= k < done@.len() && i != k implies done@[i] != done@[k] by {
                if i < done2.len() && k < done2.len() {
                    assert(done@[i] == done2[i] && done@[k] == done2[k]);
                } else if i < done2.len() {
                    assert(done2.contains(done@[i]));
                } else {
                    assert(done2.contains(done@[k]));
                }
            }
        }
        {
            assert forall|k: int, j2: int| 0 <= k < done@.len() && 0 <= j2 < g@[done@[k] as int]@.len() implies #[trigger] placed_before(
                done@,
                k,
                g@[done@[k] as int]@[j2],
            ) by {
                if k < done2.len() {
                    assert(done@[k] == done2[k]);
                    assert(imports_first(g@, done2));
                    assert(0 <= j2 < g@[done2[k] as int]@.len());
                    let x = g@[done2[k] as int]@[j2];
                    assert(placed_before(done2, k, x));
                    let m = choose|m: int| 0 <= m < k && done2[m] == x;
                    assert(done@[m] == done2[m]);
                    assert(0 <= m < k && done@[m] == g@[done@[k] as int]@[j2]);
                } else {
                    assert(done@[k] == p);
                    assert(done2.contains(deps@[j2]));
                    let m = choose|m: int| 0 <= m < done2.len() && done2[m] == deps@[j2];
                    assert(done@[m] == done2[m]);
                    assert(0 <= m < k && done@[m] == g@[done@[k] as int]@[j2]);
                }
            }
        }
        assert(imports_first(g@, done@));
        assert forall|k: int| done0.len() <= k < done@.len() implies !stack0.contains(#[trigger] done@[k]) by {
            if k < done2.len() {
                assert(done@[k] == done2[k]);
                if stack0.contains(done2[k]) {
                    let i = choose|i: int| 0 <= i < stack0.len() && stack0[i] == done2[k];
                    assert(stack0.push(p)[i] == done2[k]);
                }
            }
        }
        assert(done@.contains(p)) by {
            assert(done@[done@.len() - 1] == p);
        }
        assert forall|k: int| done0.len() <= k < done@.len() implies reaches(g@, p, #[trigger] done@[k]) by {
            if k < done2.len() {
                assert(done@[k] == done2[k]);
            } else {
                lemma_reaches_self(g@, p);
            }
        }
    }
    Ok(())
}

/// The modules that module `entry` needs, itself included, in an order in which each comes
/// after every module it imports; or a cycle of imports met on the way, from a module back
/// to itself. The order and the cycle are those of the depth-first walk that `load_spec`
/// describes: imports in the order they are listed, each module after its imports, and the
/// cycle as found on the stack of modules being loaded.
pub fn import_order(g: &Vec<Vec<usize>>, entry: usize) -> (r: Result<Vec<usize>, Vec<usize>>)
    requires
        graph_wf(g@),
        entry < g.len(),
    ensures
        r matches Ok(order) ==> order@.contains(entry) && distinct_modules(g@, order@) && imports_first(g@, order@),
        r matches Ok(order) ==> forall|k: int| 0 <= k < order.len() ==> reaches(g@, entry, #[trigger] order@[k]),
        r matches Ok(order) ==> forall|m: usize| reaches(g@, entry, m) ==> #[trigger] order@.contains(m),
        r is Ok ==> forall|c: Seq<usize>| #[trigger] is_cycle(g@, c) ==> !reaches(g@, entry, c[0]),
        r matches Err(c) ==> is_cycle(g@, c@) && reaches(g@, entry, c@[0]),
        ({
            let (res, d) = load_spec(g@, entry, Seq::empty(), Seq::empty());
            &&& res matches Some(c) ==> (r matches Err(c2) && c2@ == c)
            &&& res is None ==> (r matches Ok(o) && o@ == d)
        }),
{
    let mut stack: Vec<usize> = Vec::new();
    let mut done: Vec<usize> = Vec::new();
    assert(stack@ =~= Seq::<usize>::empty());
    assert(done@ =~= Seq::<usize>::empty());
    match visit(g, entry, &mut stack, &mut done) {
        Ok(()) => {
            proof {
                assert forall|m: usize| reaches(g@, entry, m) implies #[trigger] done@.contains(m) by {
                    lemma_reached_in_order(g@, done@, entry, m);
                }
                assert forall|c: Seq<usize>| #[trigger] is_cycle(g@, c) implies !reaches(g@, entry, c[0]) by {
                    if reaches(g@, entry, c[0]) {
                        lemma_reached_in_order(g@, done@, entry, c[0]);
                        ordered_modules_leave_out_cycles(g@, done@, c);
                        assert(c[0] == c[0int]);
                    }
                }
            }
            Ok(done)
        },
        Err(c) => Err(c),
    }
}

/// An order in which every module comes after the modules it imports holds no module of a
/// cycle of imports: along the cycle each module stands before the one that imports it, so
/// the first would stand before itself. So where `import_order` gives an order, no cycle of
/// imports passes through a module it loads.
pub proof fn ordered_modules_leave_out_cycles(g: Seq<Vec<usize>>, order: Seq<usize>, c: Seq<usize>)
    requires
        distinct_modules(g, order),
        imports_first(g, order),
        is_cycle(g, c),
    ensures
        forall|i: int| 0 <= i < c.len() ==> !order.contains(#[trigger] c[i]),
{
    assert forall|i0: int| 0 <= i0 < c.len() implies !order.contains(#[trigger] c[i0]) by {
        lemma_cycle_rotates_out(g, order, c, i0);
    }
}

/// Position `t` steps after position `s` along a cycle of `n` imports.
spec fn around(s: int, t: int, n: int) -> int {
    if s + t >= n {
        s + t - n
    } else {
        s + t
    }
}

/// Following a cycle from a module that stands at `q` of an order that places imports first,
/// each step lands strictly earlier in the order.
proof fn lemma_walk(g: Seq<Vec<usize>>, order: Seq<usize>, c: Seq<usize>, s: int, t: int, q: int) -> (r: int)
    requires
        imports_first(g, order),
        is_cycle(g, c),
        0 <= s < c.len() - 1,
        0 <= t <= c.len() - 1,
        0 <= q < order.len(),
        order[q] == c[around(s, t, c.len() - 1)],
    ensures
        0 <= r <= q - (c.len() - 1 - t),
        order[r] == c[s],
    decreases c.len() - 1 - t,
{
    let n = c.len() - 1;
    if t == n {
        q
    } else {
        let cur = around(s, t, n);
        assert(imports(g, c[cur], c[cur + 1]));
        let x = c[cur + 1];
        let j = choose|j: int| 0 <= j < g[c[cur] as int]@.len() && g[c[cur] as int]@[j] == x;
        assert(placed_before(order, q, g[order[q] as int]@[j]));
        let m = choose|m: int| 0 <= m < q && order[m] == x;
        if cur + 1 == n {
            assert(c[n] == c[0]);
        }
        lemma_walk(g, order, c, s, t + 1, m)
    }
}

/// No module of a cycle stands in an order that places imports first: following the cycle
/// from it round to itself would place it before itself.
proof fn lemma_cycle_rotates_out(g: Seq<Vec<usize>>, order: Seq<usize>, c: Seq<usize>, i0: int)
    requires
        distinct_modules(g, order),
        imports_first(g, order),
        is_cycle(g, c),
        0 <= i0 < c.len(),
    ensures
        !order.contains(c[i0]),
{
    if order.contains(c[i0]) {
        let n = c.len() - 1;
        let s = if i0 == n { 0 } else { i0 };
        assert(c[s] == c[i0]);
        let k0 = choose|k: int| 0 <= k < order.len() && order[k] == c[i0];
        let r = lemma_walk(g, order, c, s, 0, k0);
        assert(order[r] == order[k0] && r < k0);
    }
}

} // verus!
