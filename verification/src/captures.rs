//! Finding the variables that functions capture from the blocks around them, and marking them
//! in the syntax tree.
//!
//! A reference is identified by the `uid` of its `Variable` node; a function by the `uid` of its
//! declaration. A free-variable reference is a pair (reference, innermost function it occurs in).

use vstd::prelude::*;
use crate::ast::{Ast, Stmt, Expr, Decl, FunctionParam, Literal, decl_name, decl_uid};
use crate::closures::VarCapture;
use crate::text::str_eq;

verus! {

// ---------------------------------------------------------------- references to a name

/// Whether a parameter is named `name`.
pub open spec fn has_param(params: Seq<FunctionParam>, name: Seq<char>) -> bool {
    exists|i: int| 0 <= i < params.len() && (#[trigger] params[i]).name@ == name
}

/// The references to `name` in an expression, in order. A function with a parameter of that
/// name hides it; inside a function only a block body is searched.
pub open spec fn var_refs_expr(e: Expr, name: Seq<char>) -> Seq<usize>
    decreases e,
{
    match e {
        Expr::Binary(b) => var_refs_expr(*b.lhs, name) + var_refs_expr(*b.rhs, name),
        Expr::Unary(u) => var_refs_expr(*u.rhs, name),
        Expr::Ternary(t) => var_refs_expr(*t.cond, name) + var_refs_expr(*t.then_branch, name)
            + var_refs_expr(*t.or_else, name),
        Expr::Call(c) => var_refs_exprs(c.args@, name) + var_refs_expr(*c.callee, name),
        Expr::Access(a) => var_refs_expr(*a.index, name) + var_refs_expr(*a.subscripted, name),
        Expr::Assign(a) => var_refs_expr(*a.name, name) + var_refs_expr(*a.value, name),
        Expr::List(l) => var_refs_exprs(l.elements@, name),
        Expr::AssociativeArray(a) => var_refs_pairs(a.elements@, name),
        Expr::Grouping(g) => var_refs_expr(*g.expr, name),
        Expr::Literal(_) => Seq::empty(),
        Expr::AnonymousFunction(f) => if has_param(f.params@, name) {
            Seq::empty()
        } else {
            match *f.body {
                Stmt::Block(b) => var_refs_stmts(b.inner.inner@, name),
                _ => Seq::empty(),
            }
        },
        Expr::Variable(v) => if v.name@ == name {
            seq![v.uid]
        } else {
            Seq::empty()
        },
    }
}

/// The references to `name` in a list of expressions, in order.
pub open spec fn var_refs_exprs(es: Seq<Expr>, name: Seq<char>) -> Seq<usize>
    decreases es,
{
    if es.len() == 0 {
        Seq::empty()
    } else {
        var_refs_exprs(es.drop_last(), name) + var_refs_expr(es[es.len() - 1], name)
    }
}

/// The references to `name` in the values of key-value pairs, in order.
pub open spec fn var_refs_pairs(ps: Seq<(Literal, Expr)>, name: Seq<char>) -> Seq<usize>
    decreases ps,
{
    if ps.len() == 0 {
        Seq::empty()
    } else {
        var_refs_pairs(ps.drop_last(), name) + var_refs_expr(ps[ps.len() - 1].1, name)
    }
}

/// The references to `name` in a statement, in order.
pub open spec fn var_refs_stmt(s: Stmt, name: Seq<char>) -> Seq<usize>
    decreases s,
{
    match s {
        Stmt::Decl(Decl::Local(l)) => var_refs_expr(l.value, name),
        Stmt::Decl(Decl::Function(f)) => if has_param(f.params@, name) {
            Seq::empty()
        } else {
            match *f.body {
                Stmt::Block(b) => var_refs_stmts(b.inner.inner@, name),
                _ => Seq::empty(),
            }
        },
        Stmt::Expr(e) => var_refs_expr(e, name),
        Stmt::Cond(c) => var_refs_expr(c.cond, name) + var_refs_stmt(*c.then_branch, name) + match c.or_else {
            Some(o) => var_refs_stmt(*o, name),
            None => Seq::empty(),
        },
        Stmt::While(w) => var_refs_expr(w.cond, name) + var_refs_stmt(*w.body, name),
        Stmt::ForEach(f) => var_refs_expr(f.iterable, name) + var_refs_stmt(*f.body, name),
        Stmt::Block(b) => var_refs_stmts(b.inner.inner@, name),
        Stmt::Return(r) => match r.value {
            Some(e) => var_refs_expr(e, name),
            None => Seq::empty(),
        },
        Stmt::Break(_) => Seq::empty(),
        Stmt::Continue(_) => Seq::empty(),
    }
}

/// The references to `name` in a list of statements, in order.
pub open spec fn var_refs_stmts(ss: Seq<Stmt>, name: Seq<char>) -> Seq<usize>
    decreases ss,
{
    if ss.len() == 0 {
        Seq::empty()
    } else {
        var_refs_stmts(ss.drop_last(), name) + var_refs_stmt(ss[ss.len() - 1], name)
    }
}

// ---------------------------------------------------------------- executable searches

/// Whether one of the parameters is named `name`.
pub fn has_param_named(params: &Vec<FunctionParam>, name: &str) -> (r: bool)
    ensures
        r == has_param(params@, name@),
{
    let mut i: usize = 0;
    while i < params.len()
        invariant
            i <= params.len(),
            forall|j: int| 0 <= j < i ==> (#[trigger] params@[j]).name@ != name@,
        decreases params.len() - i,
    {
        if str_eq(params[i].name.as_str(), name) {
            assert(params@[i as int].name@ == name@);
            return true;
        }
        i = i + 1;
    }
    false
}

/// The references to `name` in an expression, in order.
pub fn get_var_refs_in_expr(expr: &Expr, name: &str) -> (r: Vec<usize>)
    ensures
        r@ == var_refs_expr(*expr, name@),
    decreases expr,
{
    match expr {
        Expr::Binary(b) => {
            let mut r = get_var_refs_in_expr(&b.lhs, name);
            let mut r2 = get_var_refs_in_expr(&b.rhs, name);
            r.append(&mut r2);
            r
        },
        Expr::Unary(u) => get_var_refs_in_expr(&u.rhs, name),
        Expr::Ternary(t) => {
            let mut r = get_var_refs_in_expr(&t.cond, name);
            let mut r2 = get_var_refs_in_expr(&t.then_branch, name);
            let mut r3 = get_var_refs_in_expr(&t.or_else, name);
            r.append(&mut r2);
            r.append(&mut r3);
            r
        },
        Expr::Call(c) => {
            let mut r = get_var_refs_in_exprs(&c.args, name);
            let mut r2 = get_var_refs_in_expr(&c.callee, name);
            r.append(&mut r2);
            r
        },
        Expr::Access(a) => {
            let mut r = get_var_refs_in_expr(&a.index, name);
            let mut r2 = get_var_refs_in_expr(&a.subscripted, name);
            r.append(&mut r2);
            r
        },
        Expr::Assign(a) => {
            let mut r = get_var_refs_in_expr(&a.name, name);
            let mut r2 = get_var_refs_in_expr(&a.value, name);
            r.append(&mut r2);
            r
        },
        Expr::List(l) => get_var_refs_in_exprs(&l.elements, name),
        Expr::AssociativeArray(a) => get_var_refs_in_pairs(&a.elements, name),
        Expr::Grouping(g) => get_var_refs_in_expr(&g.expr, name),
        Expr::Literal(_) => Vec::new(),
        Expr::AnonymousFunction(f) => {
            if has_param_named(&f.params, name) {
                return Vec::new();
            }
            match &*f.body {
                Stmt::Block(b) => get_var_refs_in_stmts(&b.inner.inner, name),
                _ => Vec::new(),
            }
        },
        Expr::Variable(v) => {
            let mut r = Vec::new();
            if str_eq(v.name.as_str(), name) {
                r.push(v.uid);
                assert(r@ =~= seq![v.uid]);
            }
            r
        },
    }
}

/// The references to `name` in a list of expressions, in order.
pub fn get_var_refs_in_exprs(es: &Vec<Expr>, name: &str) -> (r: Vec<usize>)
    ensures
        r@ == var_refs_exprs(es@, name@),
    decreases es,
{
    let mut out: Vec<usize> = Vec::new();
    let mut i: usize = 0;
    assert(es@.take(0) =~= Seq::<Expr>::empty());
    while i < es.len()
        invariant
            i <= es.len(),
            out@ == var_refs_exprs(es@.take(i as int), name@),
        decreases es.len() - i,
    {
        assert(es@.take(i + 1).drop_last() =~= es@.take(i as int));
        assert(es@.take(i + 1)[i as int] == es@[i as int]);
        proof {
            assert(decreases_to!(es => es@[i as int]));
        }
        let mut v = get_var_refs_in_expr(&es[i], name);
        out.append(&mut v);
        i = i + 1;
    }
    assert(es@.take(es.len() as int) =~= es@);
    out
}

/// The references to `name` in the values of key-value pairs, in order.
pub fn get_var_refs_in_pairs(ps: &Vec<(Literal, Expr)>, name: &str) -> (r: Vec<usize>)
    ensures
        r@ == var_refs_pairs(ps@, name@),
    decreases ps,
{
    let mut out: Vec<usize> = Vec::new();
    let mut i: usize = 0;
    assert(ps@.take(0) =~= Seq::<(Literal, Expr)>::empty());
    while i < ps.len()
        invariant
            i <= ps.len(),
            out@ == var_refs_pairs(ps@.take(i as int), name@),
        decreases ps.len() - i,
    {
        assert(ps@.take(i + 1).drop_last() =~= ps@.take(i as int));
        assert(ps@.take(i + 1)[i as int] == ps@[i as int]);
        proof {
            assert(decreases_to!(ps => ps@[i as int].1));
        }
        let mut v = get_var_refs_in_expr(&ps[i].1, name);
        out.append(&mut v);
        i = i + 1;
    }
    assert(ps@.take(ps.len() as int) =~= ps@);
    out
}

/// The references to `name` in a statement, in order.
pub fn get_var_refs_in_stmt(stmt: &Stmt, name: &str) -> (r: Vec<usize>)
    ensures
        r@ == var_refs_stmt(*stmt, name@),
    decreases stmt,
{
    match stmt {
        Stmt::Decl(Decl::Local(l)) => get_var_refs_in_expr(&l.value, name),
        Stmt::Decl(Decl::Function(f)) => {
            if has_param_named(&f.params, name) {
                return Vec::new();
            }
            match &*f.body {
                Stmt::Block(b) => get_var_refs_in_stmts(&b.inner.inner, name),
                _ => Vec::new(),
            }
        },
        Stmt::Expr(e) => get_var_refs_in_expr(e, name),
        Stmt::Cond(c) => {
            let mut r = get_var_refs_in_expr(&c.cond, name);
            let mut r2 = get_var_refs_in_stmt(&c.then_branch, name);
            let mut r3 = match &c.or_else {
                Some(o) => get_var_refs_in_stmt(o, name),
                None => Vec::new(),
            };
            r.append(&mut r2);
            r.append(&mut r3);
            r
        },
        Stmt::While(w) => {
            let mut r = get_var_refs_in_expr(&w.cond, name);
            let mut r2 = get_var_refs_in_stmt(&w.body, name);
            r.append(&mut r2);
            r
        },
        Stmt::ForEach(f) => {
            let mut r = get_var_refs_in_expr(&f.iterable, name);
            let mut r2 = get_var_refs_in_stmt(&f.body, name);
            r.append(&mut r2);
            r
        },
        Stmt::Block(b) => get_var_refs_in_stmts(&b.inner.inner, name),
        Stmt::Return(r) => match &r.value {
            Some(e) => get_var_refs_in_expr(e, name),
            None => Vec::new(),
        },
        Stmt::Break(_) => Vec::new(),
        Stmt::Continue(_) => Vec::new(),
    }
}

/// The references to `name` in a list of statements, in order.
pub fn get_var_refs_in_stmts(ss: &Vec<Stmt>, name: &str) -> (r: Vec<usize>)
    ensures
        r@ == var_refs_stmts(ss@, name@),
    decreases ss,
{
    let mut out: Vec<usize> = Vec::new();
    let mut i: usize = 0;
    assert(ss@.take(0) =~= Seq::<Stmt>::empty());
    while i < ss.len()
        invariant
            i <= ss.len(),
            out@ == var_refs_stmts(ss@.take(i as int), name@),
        decreases ss.len() - i,
    {
        assert(ss@.take(i + 1).drop_last() =~= ss@.take(i as int));
        assert(ss@.take(i + 1)[i as int] == ss@[i as int]);
        proof {
            assert(decreases_to!(ss => ss@[i as int]));
        }
        let mut v = get_var_refs_in_stmt(&ss[i], name);
        out.append(&mut v);
        i = i + 1;
    }
    assert(ss@.take(ss.len() as int) =~= ss@);
    out
}


// ---------------------------------------------------------------- free references

/// The references of `refs`, each paired with the function `f` it occurs in.
pub open spec fn in_fn(refs: Seq<usize>, f: usize) -> Seq<(usize, usize)> {
    refs.map_values(|r: usize| (r, f))
}

/// Whether a statement declares `name`.
pub open spec fn declares(s: Stmt, name: Seq<char>) -> bool {
    s matches Stmt::Decl(d) && decl_name(d) == name
}

/// The references to `name` inside the body of function `f`, each paired with the innermost
/// function that holds it. A block is searched up to the first declaration of `name` in it.
pub open spec fn free_in_body(s: Stmt, name: Seq<char>, f: usize) -> Seq<(usize, usize)>
    decreases s,
{
    match s {
        Stmt::Expr(e) => in_fn(var_refs_expr(e, name), f),
        Stmt::Decl(d) => if decl_name(d) == name {
            Seq::empty()
        } else {
            match d {
                Decl::Function(fd) => free_in_body(*fd.body, name, fd.uid),
                Decl::Local(l) => in_fn(var_refs_expr(l.value, name), f),
            }
        },
        Stmt::Cond(c) => in_fn(var_refs_expr(c.cond, name), f) + free_in_body(*c.then_branch, name, f)
            + match c.or_else {
            Some(o) => free_in_body(*o, name, f),
            None => Seq::empty(),
        },
        Stmt::While(w) => in_fn(var_refs_expr(w.cond, name), f) + free_in_body(*w.body, name, f),
        Stmt::ForEach(fe) => in_fn(var_refs_expr(fe.iterable, name), f) + free_in_body(*fe.body, name, f),
        Stmt::Block(b) => free_in_block(b.inner.inner@, name, f),
        Stmt::Return(r) => match r.value {
            Some(e) => in_fn(var_refs_expr(e, name), f),
            None => Seq::empty(),
        },
        Stmt::Break(_) => Seq::empty(),
        Stmt::Continue(_) => Seq::empty(),
    }
}

/// `free_in_body` over the statements of a block, up to the first declaration of `name`.
pub open spec fn free_in_block(ss: Seq<Stmt>, name: Seq<char>, f: usize) -> Seq<(usize, usize)>
    decreases ss,
{
    if ss.len() == 0 {
        Seq::empty()
    } else if declares(ss[0], name) {
        Seq::empty()
    } else {
        free_in_body(ss[0], name, f) + free_in_block(ss.drop_first(), name, f)
    }
}

/// The references to `name` from inside functions in a statement that sees a declaration of
/// `name` before it, each paired with the innermost function that holds it.
pub open spec fn free_in_stmt(s: Stmt, name: Seq<char>) -> Seq<(usize, usize)>
    decreases s,
{
    match s {
        Stmt::Decl(d) => if decl_name(d) == name {
            Seq::empty()
        } else {
            match d {
                Decl::Function(fd) => if has_param(fd.params@, name) {
                    Seq::empty()
                } else {
                    free_in_body(*fd.body, name, fd.uid)
                },
                Decl::Local(l) => free_in_expr(l.value, name),
            }
        },
        Stmt::Cond(c) => free_in_stmt(*c.then_branch, name) + match c.or_else {
            Some(o) => free_in_stmt(*o, name),
            None => Seq::empty(),
        },
        Stmt::While(w) => free_in_stmt(*w.body, name),
        Stmt::ForEach(fe) => (if fe.item.name@ != name {
            free_in_stmt(*fe.body, name)
        } else {
            Seq::empty()
        }) + free_in_expr(fe.iterable, name),
        Stmt::Block(b) => free_in_stmts(b.inner.inner@, name),
        Stmt::Return(r) => match r.value {
            Some(e) => free_in_expr(e, name),
            None => Seq::empty(),
        },
        Stmt::Expr(e) => free_in_expr(e, name),
        Stmt::Break(_) => Seq::empty(),
        Stmt::Continue(_) => Seq::empty(),
    }
}

/// `free_in_stmt` over a list of statements, in order.
pub open spec fn free_in_stmts(ss: Seq<Stmt>, name: Seq<char>) -> Seq<(usize, usize)>
    decreases ss,
{
    if ss.len() == 0 {
        Seq::empty()
    } else {
        free_in_stmts(ss.drop_last(), name) + free_in_stmt(ss[ss.len() - 1], name)
    }
}

/// The references to `name` from inside the functions of an expression, each paired with the
/// innermost function that holds it.
pub open spec fn free_in_expr(e: Expr, name: Seq<char>) -> Seq<(usize, usize)>
    decreases e,
{
    match e {
        Expr::AnonymousFunction(af) => free_in_body(*af.body, name, af.uid),
        Expr::Binary(b) => free_in_expr(*b.lhs, name) + free_in_expr(*b.rhs, name),
        Expr::Unary(u) => free_in_expr(*u.rhs, name),
        Expr::Ternary(t) => free_in_expr(*t.cond, name) + free_in_expr(*t.then_branch, name)
            + free_in_expr(*t.or_else, name),
        Expr::Call(c) => free_in_exprs(c.args@, name) + free_in_expr(*c.callee, name),
        Expr::Access(a) => free_in_expr(*a.index, name) + free_in_expr(*a.subscripted, name),
        Expr::Assign(a) => free_in_expr(*a.name, name) + free_in_expr(*a.value, name),
        Expr::List(l) => free_in_exprs(l.elements@, name),
        Expr::AssociativeArray(a) => free_in_pairs(a.elements@, name),
        Expr::Grouping(g) => free_in_expr(*g.expr, name),
        Expr::Literal(_) => Seq::empty(),
        Expr::Variable(_) => Seq::empty(),
    }
}

/// `free_in_expr` over a list of expressions, in order.
pub open spec fn free_in_exprs(es: Seq<Expr>, name: Seq<char>) -> Seq<(usize, usize)>
    decreases es,
{
    if es.len() == 0 {
        Seq::empty()
    } else {
        free_in_exprs(es.drop_last(), name) + free_in_expr(es[es.len() - 1], name)
    }
}

/// `free_in_expr` over the values of key-value pairs, in order.
pub open spec fn free_in_pairs(ps: Seq<(Literal, Expr)>, name: Seq<char>) -> Seq<(usize, usize)>
    decreases ps,
{
    if ps.len() == 0 {
        Seq::empty()
    } else {
        free_in_pairs(ps.drop_last(), name) + free_in_expr(ps[ps.len() - 1].1, name)
    }
}

/// Whether `s` hides nothing named `name` from an enclosing scope: it declares no variable or
/// function of that name, no function in it has a parameter of that name, and every function
/// body in it is a block.
pub open spec fn hides_nothing(s: Stmt, name: Seq<char>) -> bool
    decreases s,
{
    match s {
        Stmt::Decl(d) => decl_name(d) != name && match d {
            Decl::Function(fd) => !has_param(fd.params@, name) && (*fd.body is Block) && hides_nothing(*fd.body, name),
            Decl::Local(_) => true,
        },
        Stmt::Cond(c) => hides_nothing(*c.then_branch, name) && match c.or_else {
            Some(o) => hides_nothing(*o, name),
            None => true,
        },
        Stmt::While(w) => hides_nothing(*w.body, name),
        Stmt::ForEach(fe) => hides_nothing(*fe.body, name),
        Stmt::Block(b) => hides_nothing_in(b.inner.inner@, name),
        _ => true,
    }
}

/// `hides_nothing` of every statement of `ss`.
pub open spec fn hides_nothing_in(ss: Seq<Stmt>, name: Seq<char>) -> bool
    decreases ss,
{
    forall|i: int| 0 <= i < ss.len() ==> hides_nothing(#[trigger] ss[i], name)
}

/// The references of pairs of a reference and a function.
pub open spec fn ref_ids(ps: Seq<(usize, usize)>) -> Seq<usize> {
    ps.map_values(|p: (usize, usize)| p.0)
}

/// The references of two runs of pairs, one after the other.
proof fn lemma_ref_ids_concat(a: Seq<(usize, usize)>, b: Seq<(usize, usize)>)
    ensures
        ref_ids(a + b) == ref_ids(a) + ref_ids(b),
{
    assert(ref_ids(a + b) =~= ref_ids(a) + ref_ids(b));
}

/// Pairing references with a function keeps the references.
proof fn lemma_ref_ids_in_fn(refs: Seq<usize>, f: usize)
    ensures
        ref_ids(in_fn(refs, f)) == refs,
{
    assert(ref_ids(in_fn(refs, f)) =~= refs);
}

/// The references in a list of statements are those of the first, then those of the rest.
proof fn lemma_var_refs_stmts_front(ss: Seq<Stmt>, name: Seq<char>)
    requires
        ss.len() > 0,
    ensures
        var_refs_stmts(ss, name) == var_refs_stmt(ss[0], name) + var_refs_stmts(ss.drop_first(), name),
    decreases ss.len(),
{
    if ss.len() == 1 {
        assert(ss.drop_last() =~= Seq::<Stmt>::empty());
        assert(ss.drop_first() =~= Seq::<Stmt>::empty());
        assert(var_refs_stmts(Seq::<Stmt>::empty(), name) == Seq::<usize>::empty());
        assert(var_refs_stmts(ss, name) == var_refs_stmts(ss.drop_last(), name) + var_refs_stmt(ss[0], name));
        assert(var_refs_stmts(ss, name) =~= var_refs_stmt(ss[0], name));
        assert(var_refs_stmt(ss[0], name) + var_refs_stmts(ss.drop_first(), name) =~= var_refs_stmt(ss[0], name));
    } else {
        lemma_var_refs_stmts_front(ss.drop_last(), name);
        assert(ss.drop_last().drop_first() =~= ss.drop_first().drop_last());
        assert(ss.drop_first()[ss.drop_first().len() - 1] == ss[ss.len() - 1]);
        assert(ss.drop_last()[0] == ss[0]);
        assert(var_refs_stmts(ss, name) =~= var_refs_stmt(ss[0], name) + var_refs_stmts(ss.drop_first(), name));
    }
}

/// Inside a function body that hides nothing named `name`, the free references to `name` are
/// all the references to `name` in the body, in order: those in every condition, loop
/// condition, iterable, value and returned expression, in nested blocks and in the bodies of
/// nested functions alike. None is left out.
pub proof fn free_refs_are_all_refs(s: Stmt, name: Seq<char>, f: usize)
    requires
        hides_nothing(s, name),
    ensures
        ref_ids(free_in_body(s, name, f)) == var_refs_stmt(s, name),
    decreases s,
{
    match s {
        Stmt::Expr(e) => {
            lemma_ref_ids_in_fn(var_refs_expr(e, name), f);
        },
        Stmt::Decl(d) => {
            match d {
                Decl::Function(fd) => {
                    let body = *fd.body;
                    if let Stmt::Block(b) = body {
                        free_refs_are_all_refs(body, name, fd.uid);
                    }
                },
                Decl::Local(l) => {
                    lemma_ref_ids_in_fn(var_refs_expr(l.value, name), f);
                },
            }
        },
        Stmt::Cond(c) => {
            lemma_ref_ids_in_fn(var_refs_expr(c.cond, name), f);
            free_refs_are_all_refs(*c.then_branch, name, f);
            let a = in_fn(var_refs_expr(c.cond, name), f);
            let b = free_in_body(*c.then_branch, name, f);
            lemma_ref_ids_concat(a, b);
            match c.or_else {
                Some(o) => {
                    free_refs_are_all_refs(*o, name, f);
                    lemma_ref_ids_concat(a + b, free_in_body(*o, name, f));
                },
                None => {
                    lemma_ref_ids_concat(a + b, Seq::empty());
                    assert(ref_ids(Seq::<(usize, usize)>::empty()) =~= Seq::<usize>::empty());
                    assert(a + b + Seq::<(usize, usize)>::empty() =~= a + b);
                    assert(var_refs_expr(c.cond, name) + var_refs_stmt(*c.then_branch, name) + Seq::<usize>::empty()
                        =~= var_refs_expr(c.cond, name) + var_refs_stmt(*c.then_branch, name));
                },
            }
        },
        Stmt::While(w) => {
            lemma_ref_ids_in_fn(var_refs_expr(w.cond, name), f);
            free_refs_are_all_refs(*w.body, name, f);
            lemma_ref_ids_concat(in_fn(var_refs_expr(w.cond, name), f), free_in_body(*w.body, name, f));
        },
        Stmt::ForEach(fe) => {
            lemma_ref_ids_in_fn(var_refs_expr(fe.iterable, name), f);
            free_refs_are_all_refs(*fe.body, name, f);
            lemma_ref_ids_concat(in_fn(var_refs_expr(fe.iterable, name), f), free_in_body(*fe.body, name, f));
        },
        Stmt::Block(b) => {
            free_refs_block_are_all_refs(b.inner.inner@, name, f);
        },
        Stmt::Return(r) => {
            if let Some(e) = r.value {
                lemma_ref_ids_in_fn(var_refs_expr(e, name), f);
            } else {
                assert(ref_ids(Seq::<(usize, usize)>::empty()) =~= Seq::<usize>::empty());
            }
        },
        _ => {
            assert(ref_ids(Seq::<(usize, usize)>::empty()) =~= Seq::<usize>::empty());
        },
    }
}

/// A function declared after a variable `name`, with no parameter of that name and a body that
/// hides nothing named `name`, captures every reference to `name` in its body: the free
/// references the analysis finds for the declaration are all of them, in order.
pub proof fn function_captures_every_outer_ref(fd: crate::ast::FunctionDecl, name: Seq<char>)
    requires
        fd.name@ != name,
        !has_param(fd.params@, name),
        hides_nothing(*fd.body, name),
    ensures
        ref_ids(free_in_stmt(Stmt::Decl(Decl::Function(fd)), name)) == var_refs_stmt(*fd.body, name),
{
    free_refs_are_all_refs(*fd.body, name, fd.uid);
}

/// `free_refs_are_all_refs` for the statements of a block.
pub proof fn free_refs_block_are_all_refs(ss: Seq<Stmt>, name: Seq<char>, f: usize)
    requires
        hides_nothing_in(ss, name),
    ensures
        ref_ids(free_in_block(ss, name, f)) == var_refs_stmts(ss, name),
    decreases ss,
{
    if ss.len() == 0 {
        assert(ref_ids(Seq::<(usize, usize)>::empty()) =~= Seq::<usize>::empty());
    } else {
        assert(hides_nothing(ss[0], name));
        assert(!declares(ss[0], name));
        free_refs_are_all_refs(ss[0], name, f);
        assert(hides_nothing_in(ss.drop_first(), name)) by {
            assert forall|i: int| 0 <= i < ss.drop_first().len() implies hides_nothing(#[trigger] ss.drop_first()[i], name) by {
                assert(ss.drop_first()[i] == ss[i + 1]);
            }
        }
        free_refs_block_are_all_refs(ss.drop_first(), name, f);
        lemma_ref_ids_concat(free_in_body(ss[0], name, f), free_in_block(ss.drop_first(), name, f));
        lemma_var_refs_stmts_front(ss, name);
    }
}

/// The references of `refs`, each paired with the function `f`.
fn pair_with_fn(refs: Vec<usize>, f: usize) -> (r: Vec<(usize, usize)>)
    ensures
        r@ == in_fn(refs@, f),
{
    let mut out: Vec<(usize, usize)> = Vec::new();
    let mut i: usize = 0;
    while i < refs.len()
        invariant
            i <= refs.len(),
            out@ =~= in_fn(refs@.take(i as int), f),
        decreases refs.len() - i,
    {
        out.push((refs[i], f));
        i = i + 1;
        assert(out@ =~= in_fn(refs@.take(i as int), f));
    }
    assert(refs@.take(refs.len() as int) =~= refs@);
    out
}

/// The references to `name` inside the body `stmt` of function `closure_fn`, each paired with
/// the innermost function that holds it.
pub fn get_free_vars_in_fn_body(stmt: &Stmt, name: &str, closure_fn: usize) -> (r: Vec<(usize, usize)>)
    ensures
        r@ == free_in_body(*stmt, name@, closure_fn),
        hides_nothing(*stmt, name@) ==> ref_ids(r@) == var_refs_stmt(*stmt, name@),
    decreases stmt,
{
    proof {
        if hides_nothing(*stmt, name@) {
            free_refs_are_all_refs(*stmt, name@, closure_fn);
        }
    }
    match stmt {
        Stmt::Expr(e) => pair_with_fn(get_var_refs_in_expr(e, name), closure_fn),
        Stmt::Decl(d) => {
            if str_eq(d.get_name(), name) {
                return Vec::new();
            }
            match d {
                Decl::Function(fd) => get_free_vars_in_fn_body(&fd.body, name, fd.uid),
                Decl::Local(l) => pair_with_fn(get_var_refs_in_expr(&l.value, name), closure_fn),
            }
        },
        Stmt::Cond(c) => {
            let mut r = pair_with_fn(get_var_refs_in_expr(&c.cond, name), closure_fn);
            let mut r2 = get_free_vars_in_fn_body(&c.then_branch, name, closure_fn);
            let mut r3 = match &c.or_else {
                Some(o) => get_free_vars_in_fn_body(o, name, closure_fn),
                None => Vec::new(),
            };
            r.append(&mut r2);
            r.append(&mut r3);
            r
        },
        Stmt::While(w) => {
            let mut r = pair_with_fn(get_var_refs_in_expr(&w.cond, name), closure_fn);
            let mut r2 = get_free_vars_in_fn_body(&w.body, name, closure_fn);
            r.append(&mut r2);
            r
        },
        Stmt::ForEach(fe) => {
            let mut r = pair_with_fn(get_var_refs_in_expr(&fe.iterable, name), closure_fn);
            let mut r2 = get_free_vars_in_fn_body(&fe.body, name, closure_fn);
            r.append(&mut r2);
            r
        },
        Stmt::Block(b) => get_free_vars_in_block(&b.inner.inner, name, closure_fn),
        Stmt::Return(r) => match &r.value {
            Some(e) => pair_with_fn(get_var_refs_in_expr(e, name), closure_fn),
            None => Vec::new(),
        },
        Stmt::Break(_) => Vec::new(),
        Stmt::Continue(_) => Vec::new(),
    }
}

/// `get_free_vars_in_fn_body` over the statements of a block, up to the first declaration of
/// `name`.
fn get_free_vars_in_block(ss: &Vec<Stmt>, name: &str, closure_fn: usize) -> (r: Vec<(usize, usize)>)
    ensures
        r@ == free_in_block(ss@, name@, closure_fn),
    decreases ss,
{
    let mut out: Vec<(usize, usize)> = Vec::new();
    let mut i: usize = 0;
    assert(ss@.skip(0) =~= ss@);
    while i < ss.len()
        invariant
            i <= ss.len(),
            free_in_block(ss@, name@, closure_fn) == out@ + free_in_block(ss@.skip(i as int), name@, closure_fn),
        decreases ss.len() - i,
    {
        let s = &ss[i];
        assert(ss@.skip(i as int)[0] == ss@[i as int]);
        assert(ss@.skip(i as int).drop_first() =~= ss@.skip(i + 1));
        if let Stmt::Decl(d) = s {
            if str_eq(d.get_name(), name) {
                assert(declares(ss@.skip(i as int)[0], name@));
                assert(out@ + Seq::<(usize, usize)>::empty() =~= out@);
                return out;
            }
        }
        proof {
            assert(decreases_to!(ss => ss@[i as int]));
        }
        let mut v = get_free_vars_in_fn_body(s, name, closure_fn);
        let ghost before = out@;
        out.append(&mut v);
        assert(before + (free_in_body(ss@[i as int], name@, closure_fn) + free_in_block(ss@.skip(i + 1), name@, closure_fn))
            =~= out@ + free_in_block(ss@.skip(i + 1), name@, closure_fn));
        i = i + 1;
    }
    assert(out@ + Seq::<(usize, usize)>::empty() =~= out@);
    out
}

/// The references to `name` from inside the functions of a statement that sees a declaration
/// of `name` before it, each paired with the innermost function that holds it.
pub fn get_free_vars_in_stmt(stmt: &Stmt, name: &str) -> (r: Vec<(usize, usize)>)
    ensures
        r@ == free_in_stmt(*stmt, name@),
    decreases stmt,
{
    match stmt {
        Stmt::Decl(d) => {
            if str_eq(d.get_name(), name) {
                return Vec::new();
            }
            match d {
                Decl::Function(fd) => {
                    if has_param_named(&fd.params, name) {
                        return Vec::new();
                    }
                    get_free_vars_in_fn_body(&fd.body, name, fd.uid)
                },
                Decl::Local(l) => get_free_vars_in_expr(&l.value, name),
            }
        },
        Stmt::Cond(c) => {
            let mut r = get_free_vars_in_stmt(&c.then_branch, name);
            let mut r2 = match &c.or_else {
                Some(o) => get_free_vars_in_stmt(o, name),
                None => Vec::new(),
            };
            r.append(&mut r2);
            r
        },
        Stmt::While(w) => get_free_vars_in_stmt(&w.body, name),
        Stmt::ForEach(fe) => {
            let mut r = if !str_eq(fe.item.name.as_str(), name) {
                get_free_vars_in_stmt(&fe.body, name)
            } else {
                Vec::new()
            };
            let mut r2 = get_free_vars_in_expr(&fe.iterable, name);
            r.append(&mut r2);
            r
        },
        Stmt::Block(b) => get_free_vars_in_stmts(&b.inner.inner, name),
        Stmt::Return(r) => match &r.value {
            Some(e) => get_free_vars_in_expr(e, name),
            None => Vec::new(),
        },
        Stmt::Expr(e) => get_free_vars_in_expr(e, name),
        Stmt::Break(_) => Vec::new(),
        Stmt::Continue(_) => Vec::new(),
    }
}

/// `get_free_vars_in_stmt` over a list of statements, in order.
pub fn get_free_vars_in_stmts(ss: &Vec<Stmt>, name: &str) -> (r: Vec<(usize, usize)>)
    ensures
        r@ == free_in_stmts(ss@, name@),
    decreases ss,
{
    let mut out: Vec<(usize, usize)> = Vec::new();
    let mut i: usize = 0;
    assert(ss@.take(0) =~= Seq::<Stmt>::empty());
    while i < ss.len()
        invariant
            i <= ss.len(),
            out@ == free_in_stmts(ss@.take(i as int), name@),
        decreases ss.len() - i,
    {
        assert(ss@.take(i + 1).drop_last() =~= ss@.take(i as int));
        assert(ss@.take(i + 1)[i as int] == ss@[i as int]);
        proof {
            assert(decreases_to!(ss => ss@[i as int]));
        }
        let mut v = get_free_vars_in_stmt(&ss[i], name);
        out.append(&mut v);
        i = i + 1;
    }
    assert(ss@.take(ss.len() as int) =~= ss@);
    out
}

/// The references to `name` from inside the functions of an expression, each paired with the
/// innermost function that holds it.
pub fn get_free_vars_in_expr(expr: &Expr, name: &str) -> (r: Vec<(usize, usize)>)
    ensures
        r@ == free_in_expr(*expr, name@),
    decreases expr,
{
    match expr {
        Expr::AnonymousFunction(af) => get_free_vars_in_fn_body(&af.body, name, af.uid),
        Expr::Binary(b) => {
            let mut r = get_free_vars_in_expr(&b.lhs, name);
            let mut r2 = get_free_vars_in_expr(&b.rhs, name);
            r.append(&mut r2);
            r
        },
        Expr::Unary(u) => get_free_vars_in_expr(&u.rhs, name),
        Expr::Ternary(t) => {
            let mut r = get_free_vars_in_expr(&t.cond, name);
            let mut r2 = get_free_vars_in_expr(&t.then_branch, name);
            let mut r3 = get_free_vars_in_expr(&t.or_else, name);
            r.append(&mut r2);
            r.append(&mut r3);
            r
        },
        Expr::Call(c) => {
            let mut r = get_free_vars_in_exprs(&c.args, name);
            let mut r2 = get_free_vars_in_expr(&c.callee, name);
            r.append(&mut r2);
            r
        },
        Expr::Access(a) => {
            let mut r = get_free_vars_in_expr(&a.index, name);
            let mut r2 = get_free_vars_in_expr(&a.subscripted, name);
            r.append(&mut r2);
            r
        },
        Expr::Assign(a) => {
            let mut r = get_free_vars_in_expr(&a.name, name);
            let mut r2 = get_free_vars_in_expr(&a.value, name);
            r.append(&mut r2);
            r
        },
        Expr::List(l) => get_free_vars_in_exprs(&l.elements, name),
        Expr::AssociativeArray(a) => get_free_vars_in_pairs(&a.elements, name),
        Expr::Grouping(g) => get_free_vars_in_expr(&g.expr, name),
        Expr::Literal(_) => Vec::new(),
        Expr::Variable(_) => Vec::new(),
    }
}

/// `get_free_vars_in_expr` over a list of expressions, in order.
pub fn get_free_vars_in_exprs(es: &Vec<Expr>, name: &str) -> (r: Vec<(usize, usize)>)
    ensures
        r@ == free_in_exprs(es@, name@),
    decreases es,
{
    let mut out: Vec<(usize, usize)> = Vec::new();
    let mut i: usize = 0;
    assert(es@.take(0) =~= Seq::<Expr>::empty());
    while i < es.len()
        invariant
            i <= es.len(),
            out@ == free_in_exprs(es@.take(i as int), name@),
        decreases es.len() - i,
    {
        assert(es@.take(i + 1).drop_last() =~= es@.take(i as int));
        assert(es@.take(i + 1)[i as int] == es@[i as int]);
        proof {
            assert(decreases_to!(es => es@[i as int]));
        }
        let mut v = get_free_vars_in_expr(&es[i], name);
        out.append(&mut v);
        i = i + 1;
    }
    assert(es@.take(es.len() as int) =~= es@);
    out
}

/// `get_free_vars_in_expr` over the values of key-value pairs, in order.
pub fn get_free_vars_in_pairs(ps: &Vec<(Literal, Expr)>, name: &str) -> (r: Vec<(usize, usize)>)
    ensures
        r@ == free_in_pairs(ps@, name@),
    decreases ps,
{
    let mut out: Vec<(usize, usize)> = Vec::new();
    let mut i: usize = 0;
    assert(ps@.take(0) =~= Seq::<(Literal, Expr)>::empty());
    while i < ps.len()
        invariant
            i <= ps.len(),
            out@ == free_in_pairs(ps@.take(i as int), name@),
        decreases ps.len() - i,
    {
        assert(ps@.take(i + 1).drop_last() =~= ps@.take(i as int));
        assert(ps@.take(i + 1)[i as int] == ps@[i as int]);
        proof {
            assert(decreases_to!(ps => ps@[i as int].1));
        }
        let mut v = get_free_vars_in_expr(&ps[i].1, name);
        out.append(&mut v);
        i = i + 1;
    }
    assert(ps@.take(ps.len() as int) =~= ps@);
    out
}

// ---------------------------------------------------------------- capture records

/// A capture record as plain values: (function, reference, declaration, name).
pub open spec fn cap_view(c: VarCapture) -> (usize, usize, usize, Seq<char>) {
    (c.inner_fn_id, c.free_variable_id, c.enclosed_var_id, c.var_name@)
}

/// A list of capture records as plain values.
pub open spec fn caps_view(cs: Seq<VarCapture>) -> Seq<(usize, usize, usize, Seq<char>)> {
    cs.map_values(|c: VarCapture| cap_view(c))
}

/// The records for the free references `refs` to the declaration `decl` named `name`.
pub open spec fn caps_from(refs: Seq<(usize, usize)>, decl: usize, name: Seq<char>) -> Seq<
    (usize, usize, usize, Seq<char>),
> {
    refs.map_values(|p: (usize, usize)| (p.1, p.0, decl, name))
}

/// Both lists, one after the other; none where either is none.
pub open spec fn opt_cat<A>(a: Option<Seq<A>>, b: Option<Seq<A>>) -> Option<Seq<A>> {
    match (a, b) {
        (Some(x), Some(y)) => Some(x + y),
        _ => None,
    }
}

/// The records for references to the parameters `params` from functions inside `body`.
pub open spec fn param_caps(params: Seq<FunctionParam>, body: Stmt) -> Seq<(usize, usize, usize, Seq<char>)>
    decreases params.len(),
{
    if params.len() == 0 {
        Seq::empty()
    } else {
        let p = params[params.len() - 1];
        param_caps(params.drop_last(), body) + caps_from(free_in_stmt(body, p.name@), p.uid, p.name@)
    }
}

/// The capture records of a list of statements, in order; none where the search meets a
/// function or loop body of a shape the parser never builds.
pub open spec fn captures_seq(ss: Seq<Stmt>) -> Option<Seq<(usize, usize, usize, Seq<char>)>>
    decreases ss,
{
    if ss.len() == 0 {
        Some(Seq::empty())
    } else {
        opt_cat(captures_stmt_in(ss[0], ss.drop_first()), captures_seq(ss.drop_first()))
    }
}

/// The capture records of statement `s`, followed in its block by `rest`.
pub open spec fn captures_stmt_in(s: Stmt, rest: Seq<Stmt>) -> Option<Seq<(usize, usize, usize, Seq<char>)>>
    decreases s,
{
    match s {
        Stmt::Decl(d) => opt_cat(
            Some(caps_from(free_in_stmts(rest, decl_name(d)), decl_uid(d), decl_name(d))),
            match d {
                Decl::Function(fd) => opt_cat(
                    match *fd.body {
                        Stmt::Block(b) => captures_seq(b.inner.inner@),
                        Stmt::Expr(e) => captures_expr(e),
                        _ => None,
                    },
                    Some(param_caps(fd.params@, *fd.body)),
                ),
                Decl::Local(l) => captures_expr(l.value),
            },
        ),
        Stmt::Cond(c) => opt_cat(
            opt_cat(
                match *c.then_branch {
                    Stmt::Block(b) => captures_seq(b.inner.inner@),
                    _ => Some(Seq::empty()),
                },
                match c.or_else {
                    Some(o) => match *o {
                        Stmt::Block(b) => captures_seq(b.inner.inner@),
                        _ => Some(Seq::empty()),
                    },
                    None => Some(Seq::empty()),
                },
            ),
            captures_expr(c.cond),
        ),
        Stmt::While(w) => opt_cat(
            match *w.body {
                Stmt::Block(b) => captures_seq(b.inner.inner@),
                _ => Some(Seq::empty()),
            },
            captures_expr(w.cond),
        ),
        Stmt::ForEach(fe) => match *fe.body {
            Stmt::Block(b) => opt_cat(
                opt_cat(
                    captures_seq(b.inner.inner@),
                    Some(caps_from(free_in_stmts(b.inner.inner@, fe.item.name@), fe.item.uid, fe.item.name@)),
                ),
                captures_expr(fe.iterable),
            ),
            _ => None,
        },
        Stmt::Block(b) => captures_seq(b.inner.inner@),
        Stmt::Expr(e) => captures_expr(e),
        Stmt::Return(r) => match r.value {
            Some(e) => captures_expr(e),
            None => Some(Seq::empty()),
        },
        Stmt::Break(_) => Some(Seq::empty()),
        Stmt::Continue(_) => Some(Seq::empty()),
    }
}

/// The capture records of an expression, in order.
pub open spec fn captures_expr(e: Expr) -> Option<Seq<(usize, usize, usize, Seq<char>)>>
    decreases e,
{
    match e {
        Expr::AnonymousFunction(af) => match *af.body {
            Stmt::Block(b) => opt_cat(captures_seq(b.inner.inner@), Some(param_caps(af.params@, *af.body))),
            Stmt::Expr(inner) => captures_expr(inner),
            _ => None,
        },
        Expr::Binary(b) => opt_cat(captures_expr(*b.lhs), captures_expr(*b.rhs)),
        Expr::Unary(u) => captures_expr(*u.rhs),
        Expr::Ternary(t) => opt_cat(
            opt_cat(captures_expr(*t.cond), captures_expr(*t.then_branch)),
            captures_expr(*t.or_else),
        ),
        Expr::Call(c) => opt_cat(captures_exprs(c.args@), captures_expr(*c.callee)),
        Expr::Access(a) => opt_cat(captures_expr(*a.index), captures_expr(*a.subscripted)),
        Expr::Assign(a) => opt_cat(captures_expr(*a.name), captures_expr(*a.value)),
        Expr::List(l) => captures_exprs(l.elements@),
        Expr::AssociativeArray(a) => captures_pairs(a.elements@),
        Expr::Grouping(g) => captures_expr(*g.expr),
        Expr::Literal(_) => Some(Seq::empty()),
        Expr::Variable(_) => Some(Seq::empty()),
    }
}

/// The capture records of a list of expressions, in order.
pub open spec fn captures_exprs(es: Seq<Expr>) -> Option<Seq<(usize, usize, usize, Seq<char>)>>
    decreases es,
{
    if es.len() == 0 {
        Some(Seq::empty())
    } else {
        opt_cat(captures_exprs(es.drop_last()), captures_expr(es[es.len() - 1]))
    }
}

/// The capture records of the values of key-value pairs, in order.
pub open spec fn captures_pairs(ps: Seq<(Literal, Expr)>) -> Option<Seq<(usize, usize, usize, Seq<char>)>>
    decreases ps,
{
    if ps.len() == 0 {
        Some(Seq::empty())
    } else {
        opt_cat(captures_pairs(ps.drop_last()), captures_expr(ps[ps.len() - 1].1))
    }
}

/// Appends `more` to `out`.
fn append_caps(out: &mut Vec<VarCapture>, more: Vec<VarCapture>)
    ensures
        caps_view(final(out)@) == caps_view(old(out)@) + caps_view(more@),
{
    let mut more = more;
    let ghost a = old(out)@;
    let ghost b = more@;
    out.append(&mut more);
    assert(caps_view(a + b) =~= caps_view(a) + caps_view(b));
}

/// The records for the free references `refs` to the declaration `decl` named `name`.
fn records_for(refs: Vec<(usize, usize)>, decl: usize, name: &str) -> (r: Vec<VarCapture>)
    ensures
        caps_view(r@) == caps_from(refs@, decl, name@),
{
    let mut out: Vec<VarCapture> = Vec::new();
    let mut i: usize = 0;
    while i < refs.len()
        invariant
            i <= refs.len(),
            caps_view(out@) =~= caps_from(refs@.take(i as int), decl, name@),
        decreases refs.len() - i,
    {
        let (var_ref_id, inner_fn_decl_id) = refs[i];
        let ghost before = out@;
        let c = VarCapture::new(inner_fn_decl_id, var_ref_id, decl, name.to_owned());
        assert(cap_view(c) == (refs@[i as int].1, refs@[i as int].0, decl, name@));
        out.push(c);
        assert(caps_view(out@) =~= caps_view(before).push(cap_view(c)));
        assert(refs@.take(i + 1) =~= refs@.take(i as int).push(refs@[i as int]));
        assert(caps_from(refs@.take(i + 1), decl, name@) =~= caps_from(refs@.take(i as int), decl, name@).push(
            cap_view(c)));
        i = i + 1;
    }
    assert(refs@.take(refs.len() as int) =~= refs@);
    out
}

/// The records for references to the parameters of a function declaration from functions
/// inside its body; none for a local declaration.
fn get_var_captures_from_fn_args(decl: &Decl) -> (r: Vec<VarCapture>)
    ensures
        caps_view(r@) == match *decl {
            Decl::Function(fd) => param_caps(fd.params@, *fd.body),
            Decl::Local(_) => Seq::empty(),
        },
{
    match decl {
        Decl::Function(fd) => {
            let params = &fd.params;
            let mut out: Vec<VarCapture> = Vec::new();
            let mut i: usize = 0;
            assert(params@.take(0) =~= Seq::<FunctionParam>::empty());
            while i < params.len()
                invariant
                    i <= params.len(),
                    caps_view(out@) == param_caps(params@.take(i as int), *fd.body),
                decreases params.len() - i,
            {
                assert(params@.take(i + 1).drop_last() =~= params@.take(i as int));
                assert(params@.take(i + 1)[i as int] == params@[i as int]);
                let p = &params[i];
                let refs = get_free_vars_in_stmt(&fd.body, p.name.as_str());
                let recs = records_for(refs, p.uid, p.name.as_str());
                append_caps(&mut out, recs);
                i = i + 1;
            }
            assert(params@.take(params.len() as int) =~= params@);
            out
        },
        Decl::Local(_) => {
            assert(caps_view(Seq::<VarCapture>::empty()) =~= Seq::empty());
            Vec::new()
        },
    }
}

/// The capture records of the statements of a program, in order.
pub(crate) fn get_var_captures_from_ast(ast: &Ast) -> (r: Vec<VarCapture>)
    requires
        captures_seq(ast.inner@) is Some,
    ensures
        caps_view(r@) == captures_seq(ast.inner@).unwrap(),
{
    get_var_captures_from_stmts(&ast.inner)
}

/// The capture records of a list of statements, in order.
fn get_var_captures_from_stmts(ss: &Vec<Stmt>) -> (r: Vec<VarCapture>)
    requires
        captures_seq(ss@) is Some,
    ensures
        caps_view(r@) == captures_seq(ss@).unwrap(),
    decreases ss,
{
    let mut out: Vec<VarCapture> = Vec::new();
    let mut i: usize = 0;
    assert(ss@.skip(0) =~= ss@);
    assert(caps_view(Seq::<VarCapture>::empty()) =~= Seq::empty());
    while i < ss.len()
        invariant
            i <= ss.len(),
            captures_seq(ss@.skip(i as int)) is Some,
            captures_seq(ss@).unwrap() == caps_view(out@) + captures_seq(ss@.skip(i as int)).unwrap(),
        decreases ss.len() - i,
    {
        assert(ss@.skip(i as int)[0] == ss@[i as int]);
        assert(ss@.skip(i as int).drop_first() =~= ss@.skip(i + 1));
        proof {
            assert(decreases_to!(ss => ss@[i as int]));
        }
        let more = get_var_captures_from_stmt(ss, i);
        let ghost before = caps_view(out@);
        append_caps(&mut out, more);
        assert(before + (captures_stmt_in(ss@[i as int], ss@.skip(i + 1)).unwrap()
            + captures_seq(ss@.skip(i + 1)).unwrap()) =~= caps_view(out@) + captures_seq(ss@.skip(i + 1)).unwrap());
        i = i + 1;
    }
    assert(caps_view(out@) + Seq::empty() =~= caps_view(out@));
    out
}

/// The capture records of `ss[i]`, with `ss[i + 1..]` the statements after it in its block.
fn get_var_captures_from_stmt(ss: &Vec<Stmt>, i: usize) -> (r: Vec<VarCapture>)
    requires
        i < ss.len(),
        captures_stmt_in(ss@[i as int], ss@.skip(i + 1)) is Some,
    ensures
        caps_view(r@) == captures_stmt_in(ss@[i as int], ss@.skip(i + 1)).unwrap(),
    decreases ss@[i as int],
{
    let ghost rest = ss@.skip(i + 1);
    match &ss[i] {
        Stmt::Decl(d) => {
            let name = d.get_name();
            let mut sib: Vec<(usize, usize)> = Vec::new();
            let mut j: usize = i + 1;
            assert(ss@.subrange(i + 1, i + 1) =~= Seq::<Stmt>::empty());
            while j < ss.len()
                invariant
                    i < j <= ss.len(),
                    sib@ == free_in_stmts(ss@.subrange(i + 1, j as int), name@),
                decreases ss.len() - j,
            {
                assert(ss@.subrange(i + 1, j + 1).drop_last() =~= ss@.subrange(i + 1, j as int));
                assert(ss@.subrange(i + 1, j + 1)[j - i - 1] == ss@[j as int]);
                let mut v = get_free_vars_in_stmt(&ss[j], name);
                sib.append(&mut v);
                j = j + 1;
            }
            assert(ss@.subrange(i + 1, ss.len() as int) =~= rest);
            let mut out = records_for(sib, d.get_uid(), name);
            match d {
                Decl::Function(fd) => {
                    let body_caps = match &*fd.body {
                        Stmt::Block(b) => get_var_captures_from_stmts(&b.inner.inner),
                        Stmt::Expr(e) => get_var_captures_from_expr(e),
                        _ => {
                            assert(false);
                            Vec::new()
                        },
                    };
                    append_caps(&mut out, body_caps);
                    let args = get_var_captures_from_fn_args(d);
                    append_caps(&mut out, args);
                },
                Decl::Local(l) => {
                    let value_caps = get_var_captures_from_expr(&l.value);
                    append_caps(&mut out, value_caps);
                },
            }
            out
        },
        Stmt::Cond(c) => {
            let mut out = match &*c.then_branch {
                Stmt::Block(b) => get_var_captures_from_stmts(&b.inner.inner),
                _ => {
                    assert(caps_view(Seq::<VarCapture>::empty()) =~= Seq::empty());
                    Vec::new()
                },
            };
            let else_caps = match &c.or_else {
                Some(o) => match &**o {
                    Stmt::Block(b) => get_var_captures_from_stmts(&b.inner.inner),
                    _ => {
                        assert(caps_view(Seq::<VarCapture>::empty()) =~= Seq::empty());
                        Vec::new()
                    },
                },
                None => {
                    assert(caps_view(Seq::<VarCapture>::empty()) =~= Seq::empty());
                    Vec::new()
                },
            };
            append_caps(&mut out, else_caps);
            let cond_caps = get_var_captures_from_expr(&c.cond);
            append_caps(&mut out, cond_caps);
            out
        },
        Stmt::While(w) => {
            let mut out = match &*w.body {
                Stmt::Block(b) => get_var_captures_from_stmts(&b.inner.inner),
                _ => {
                    assert(caps_view(Seq::<VarCapture>::empty()) =~= Seq::empty());
                    Vec::new()
                },
            };
            let cond_caps = get_var_captures_from_expr(&w.cond);
            append_caps(&mut out, cond_caps);
            out
        },
        Stmt::ForEach(fe) => {
            match &*fe.body {
                Stmt::Block(b) => {
                    let mut out = get_var_captures_from_stmts(&b.inner.inner);
                    let refs = get_free_vars_in_stmts(&b.inner.inner, fe.item.name.as_str());
                    let item_caps = records_for(refs, fe.item.uid, fe.item.name.as_str());
                    append_caps(&mut out, item_caps);
                    let iterable_caps = get_var_captures_from_expr(&fe.iterable);
                    append_caps(&mut out, iterable_caps);
                    out
                },
                _ => {
                    assert(false);
                    Vec::new()
                },
            }
        },
        Stmt::Block(b) => get_var_captures_from_stmts(&b.inner.inner),
        Stmt::Expr(e) => get_var_captures_from_expr(e),
        Stmt::Return(r) => match &r.value {
            Some(e) => get_var_captures_from_expr(e),
            None => {
                assert(caps_view(Seq::<VarCapture>::empty()) =~= Seq::empty());
                Vec::new()
            },
        },
        _ => {
            assert(caps_view(Seq::<VarCapture>::empty()) =~= Seq::empty());
            Vec::new()
        },
    }
}

/// The capture records of an expression, in order.
fn get_var_captures_from_expr(expr: &Expr) -> (r: Vec<VarCapture>)
    requires
        captures_expr(*expr) is Some,
    ensures
        caps_view(r@) == captures_expr(*expr).unwrap(),
    decreases expr,
{
    match expr {
        Expr::AnonymousFunction(af) => match &*af.body {
            Stmt::Block(b) => {
                let mut out = get_var_captures_from_stmts(&b.inner.inner);
                let params = &af.params;
                let mut i: usize = 0;
                let ghost base = caps_view(out@);
                assert(params@.take(0) =~= Seq::<FunctionParam>::empty());
                assert(base + Seq::empty() =~= base);
                while i < params.len()
                    invariant
                        i <= params.len(),
                        caps_view(out@) == base + param_caps(params@.take(i as int), *af.body),
                        *af.body == Stmt::Block(*b),
                    decreases params.len() - i,
                {
                    assert(params@.take(i + 1).drop_last() =~= params@.take(i as int));
                    assert(params@.take(i + 1)[i as int] == params@[i as int]);
                    let p = &params[i];
                    let refs = get_free_vars_in_stmts(&b.inner.inner, p.name.as_str());
                    let recs = records_for(refs, p.uid, p.name.as_str());
                    let ghost before = caps_view(out@);
                    append_caps(&mut out, recs);
                    assert(caps_view(out@) =~= base + param_caps(params@.take(i + 1), *af.body));
                    i = i + 1;
                }
                assert(params@.take(params.len() as int) =~= params@);
                out
            },
            Stmt::Expr(inner) => get_var_captures_from_expr(inner),
            _ => {
                assert(false);
                Vec::new()
            },
        },
        Expr::Binary(b) => {
            let mut out = get_var_captures_from_expr(&b.lhs);
            append_caps(&mut out, get_var_captures_from_expr(&b.rhs));
            out
        },
        Expr::Unary(u) => get_var_captures_from_expr(&u.rhs),
        Expr::Ternary(t) => {
            let mut out = get_var_captures_from_expr(&t.cond);
            append_caps(&mut out, get_var_captures_from_expr(&t.then_branch));
            append_caps(&mut out, get_var_captures_from_expr(&t.or_else));
            out
        },
        Expr::Call(c) => {
            let mut out = get_var_captures_from_exprs(&c.args);
            append_caps(&mut out, get_var_captures_from_expr(&c.callee));
            out
        },
        Expr::Access(a) => {
            let mut out = get_var_captures_from_expr(&a.index);
            append_caps(&mut out, get_var_captures_from_expr(&a.subscripted));
            out
        },
        Expr::Assign(a) => {
            let mut out = get_var_captures_from_expr(&a.name);
            append_caps(&mut out, get_var_captures_from_expr(&a.value));
            out
        },
        Expr::List(l) => get_var_captures_from_exprs(&l.elements),
        Expr::AssociativeArray(a) => get_var_captures_from_pairs(&a.elements),
        Expr::Grouping(g) => get_var_captures_from_expr(&g.expr),
        _ => {
            assert(caps_view(Seq::<VarCapture>::empty()) =~= Seq::empty());
            Vec::new()
        },
    }
}

/// The capture records of a list of expressions, in order.
fn get_var_captures_from_exprs(es: &Vec<Expr>) -> (r: Vec<VarCapture>)
    requires
        captures_exprs(es@) is Some,
    ensures
        caps_view(r@) == captures_exprs(es@).unwrap(),
    decreases es,
{
    let mut out: Vec<VarCapture> = Vec::new();
    let mut i: usize = 0;
    assert(es@.take(0) =~= Seq::<Expr>::empty());
    assert(caps_view(Seq::<VarCapture>::empty()) =~= Seq::empty());
    while i < es.len()
        invariant
            i <= es.len(),
            captures_exprs(es@) is Some,
            captures_exprs(es@.take(i as int)) is Some,
            caps_view(out@) == captures_exprs(es@.take(i as int)).unwrap(),
        decreases es.len() - i,
    {
        assert(es@.take(i + 1).drop_last() =~= es@.take(i as int));
        assert(es@.take(i + 1)[i as int] == es@[i as int]);
        proof {
            lemma_captures_exprs_prefix(es@, i as int + 1);
            assert(decreases_to!(es => es@[i as int]));
        }
        let more = get_var_captures_from_expr(&es[i]);
        append_caps(&mut out, more);
        i = i + 1;
    }
    assert(es@.take(es.len() as int) =~= es@);
    out
}

/// The capture records of the values of key-value pairs, in order.
fn get_var_captures_from_pairs(ps: &Vec<(Literal, Expr)>) -> (r: Vec<VarCapture>)
    requires
        captures_pairs(ps@) is Some,
    ensures
        caps_view(r@) == captures_pairs(ps@).unwrap(),
    decreases ps,
{
    let mut out: Vec<VarCapture> = Vec::new();
    let mut i: usize = 0;
    assert(ps@.take(0) =~= Seq::<(Literal, Expr)>::empty());
    assert(caps_view(Seq::<VarCapture>::empty()) =~= Seq::empty());
    while i < ps.len()
        invariant
            i <= ps.len(),
            captures_pairs(ps@) is Some,
            captures_pairs(ps@.take(i as int)) is Some,
            caps_view(out@) == captures_pairs(ps@.take(i as int)).unwrap(),
        decreases ps.len() - i,
    {
        assert(ps@.take(i + 1).drop_last() =~= ps@.take(i as int));
        assert(ps@.take(i + 1)[i as int] == ps@[i as int]);
        proof {
            lemma_captures_pairs_prefix(ps@, i as int + 1);
            assert(decreases_to!(ps => ps@[i as int].1));
        }
        let more = get_var_captures_from_expr(&ps[i].1);
        append_caps(&mut out, more);
        i = i + 1;
    }
    assert(ps@.take(ps.len() as int) =~= ps@);
    out
}

/// Where a list of expressions has capture records, so has each of its prefixes.
proof fn lemma_captures_exprs_prefix(es: Seq<Expr>, n: int)
    requires
        0 <= n <= es.len(),
        captures_exprs(es) is Some,
    ensures
        captures_exprs(es.take(n)) is Some,
    decreases es.len(),
{
    if n < es.len() {
        assert(es.drop_last().take(n) =~= es.take(n));
        lemma_captures_exprs_prefix(es.drop_last(), n);
    } else {
        assert(es.take(n) =~= es);
    }
}

/// Where a list of pairs has capture records, so has each of its prefixes.
proof fn lemma_captures_pairs_prefix(ps: Seq<(Literal, Expr)>, n: int)
    requires
        0 <= n <= ps.len(),
        captures_pairs(ps) is Some,
    ensures
        captures_pairs(ps.take(n)) is Some,
    decreases ps.len(),
{
    if n < ps.len() {
        assert(ps.drop_last().take(n) =~= ps.take(n));
        lemma_captures_pairs_prefix(ps.drop_last(), n);
    } else {
        assert(ps.take(n) =~= ps);
    }
}

} // verus!
