//! Marking, in the syntax tree, the variables that functions capture and the free variables of
//! each function.

use vstd::prelude::*;
use crate::ast::{Ast, Stmt, Expr, Decl, FunctionParam, Literal};
use crate::closures::{VarCapture, VarCaptureList, names_captured_by};
use crate::captures::{caps_view, captures_seq, get_var_captures_from_ast};
use crate::text::str_eq;
use crate::shape::{shaped_expr, shaped_exprs, shaped_pairs, shaped_stmt, shaped_stmts, binding_power, distinct_params,
    jumps_placed_expr, jumps_placed_exprs, jumps_placed_pairs, jumps_placed_stmt, jumps_placed_stmts, param_uids,
    uids_expr, uids_exprs, uids_pairs, uids_stmt, uids_stmts};

verus! {

/// Whether some record's enclosed declaration is `id`.
pub open spec fn enclosed_in(caps: Seq<(usize, usize, usize, Seq<char>)>, id: usize) -> bool {
    exists|i: int| 0 <= i < caps.len() && (#[trigger] caps[i]).2 == id
}

/// Whether some record's reference is `id`.
pub open spec fn referenced_in(caps: Seq<(usize, usize, usize, Seq<char>)>, id: usize) -> bool {
    exists|i: int| 0 <= i < caps.len() && (#[trigger] caps[i]).1 == id
}

/// The names of the records whose function is `f`, in order.
pub open spec fn names_of(caps: Seq<(usize, usize, usize, Seq<char>)>, f: usize) -> Seq<Seq<char>>
    decreases caps.len(),
{
    if caps.len() == 0 {
        Seq::empty()
    } else {
        let rest = names_of(caps.drop_last(), f);
        if caps.last().0 == f {
            rest.push(caps.last().3)
        } else {
            rest
        }
    }
}

/// `s` with each run of equal neighbours cut down to its first element.
pub open spec fn dedup_seq(s: Seq<Seq<char>>) -> Seq<Seq<char>>
    decreases s.len(),
{
    if s.len() <= 1 {
        s
    } else if s.last() == s[s.len() - 2] {
        dedup_seq(s.drop_last())
    } else {
        dedup_seq(s.drop_last()).push(s.last())
    }
}

/// The free variables recorded for function `f`.
pub open spec fn free_vars_of(caps: Seq<(usize, usize, usize, Seq<char>)>, f: usize) -> Seq<Seq<char>> {
    dedup_seq(names_of(caps, f))
}

/// The views of a list of strings.
pub open spec fn names_view(v: Seq<String>) -> Seq<Seq<char>> {
    v.map_values(|s: String| s@)
}

/// `n` is the parameter `p` with its mark set where a function captures it.
pub open spec fn annotated_param(p: FunctionParam, n: FunctionParam, caps: Seq<(usize, usize, usize, Seq<char>)>) -> bool {
    &&& n.name == p.name
    &&& n.uid == p.uid
    &&& n.span == p.span
    &&& n.captured == (p.captured || enclosed_in(caps, p.uid))
}

/// `ns` is `ps` with each parameter marked.
pub open spec fn annotated_params(ps: Seq<FunctionParam>, ns: Seq<FunctionParam>, caps: Seq<(usize, usize, usize, Seq<char>)>) -> bool {
    &&& ns.len() == ps.len()
    &&& forall|i: int| 0 <= i < ps.len() ==> annotated_param(#[trigger] ps[i], ns[i], caps)
}

/// `n` is the expression `e` with its references, parameters and free variables marked.
pub open spec fn annotated_expr(e: Expr, n: Expr, caps: Seq<(usize, usize, usize, Seq<char>)>) -> bool
    decreases e,
{
    match e {
        Expr::Variable(v) => n matches Expr::Variable(nv) && nv.name == v.name && nv.uid == v.uid
            && nv.span == v.span && nv.captured == (v.captured || referenced_in(caps, v.uid)),
        Expr::Binary(b) => n matches Expr::Binary(nb) && nb.op == b.op && nb.span == b.span
            && annotated_expr(*b.lhs, *nb.lhs, caps) && annotated_expr(*b.rhs, *nb.rhs, caps),
        Expr::Unary(u) => n matches Expr::Unary(nu) && nu.op == u.op && nu.span == u.span
            && annotated_expr(*u.rhs, *nu.rhs, caps),
        Expr::Ternary(t) => n matches Expr::Ternary(nt) && nt.span == t.span
            && annotated_expr(*t.cond, *nt.cond, caps) && annotated_expr(*t.then_branch, *nt.then_branch, caps)
            && annotated_expr(*t.or_else, *nt.or_else, caps),
        Expr::Call(c) => n matches Expr::Call(nc) && nc.span == c.span
            && annotated_expr(*c.callee, *nc.callee, caps) && nc.args@.len() == c.args@.len()
            && forall|i: int| 0 <= i < c.args@.len() ==> annotated_expr(#[trigger] c.args@[i], nc.args@[i], caps),
        Expr::Access(a) => n matches Expr::Access(na) && na.span == a.span
            && annotated_expr(*a.index, *na.index, caps) && annotated_expr(*a.subscripted, *na.subscripted, caps),
        Expr::Assign(a) => n matches Expr::Assign(na) && na.span == a.span
            && annotated_expr(*a.name, *na.name, caps) && annotated_expr(*a.value, *na.value, caps),
        Expr::List(l) => n matches Expr::List(nl) && nl.span == l.span && nl.elements@.len() == l.elements@.len()
            && forall|i: int| 0 <= i < l.elements@.len() ==> annotated_expr(#[trigger] l.elements@[i], nl.elements@[i], caps),
        Expr::AssociativeArray(a) => n matches Expr::AssociativeArray(na) && na.span == a.span
            && na.elements@.len() == a.elements@.len()
            && forall|i: int| 0 <= i < a.elements@.len() ==> (#[trigger] a.elements@[i]).0 == na.elements@[i].0
                && annotated_expr(a.elements@[i].1, na.elements@[i].1, caps),
        Expr::Grouping(g) => n matches Expr::Grouping(ng) && ng.span == g.span
            && annotated_expr(*g.expr, *ng.expr, caps),
        Expr::AnonymousFunction(f) => n matches Expr::AnonymousFunction(nf) && nf.uid == f.uid && nf.span == f.span
            && names_view(nf.free_vars@) == free_vars_of(caps, f.uid) && annotated_params(f.params@, nf.params@, caps)
            && annotated_stmt(*f.body, *nf.body, caps),
        Expr::Literal(_) => n == e,
    }
}

/// `n` is the statement `s` with its declarations, references, parameters and free variables
/// marked.
pub open spec fn annotated_stmt(s: Stmt, n: Stmt, caps: Seq<(usize, usize, usize, Seq<char>)>) -> bool
    decreases s,
{
    match s {
        Stmt::Expr(e) => n matches Stmt::Expr(ne) && annotated_expr(e, ne, caps),
        Stmt::Decl(Decl::Local(l)) => n matches Stmt::Decl(Decl::Local(nl)) && nl.name == l.name && nl.uid == l.uid
            && nl.span == l.span && nl.captured == (l.captured || enclosed_in(caps, l.uid))
            && annotated_expr(l.value, nl.value, caps),
        Stmt::Decl(Decl::Function(f)) => n matches Stmt::Decl(Decl::Function(nf)) && nf.name == f.name
            && nf.uid == f.uid && nf.span == f.span && nf.captured == (f.captured || enclosed_in(caps, f.uid))
            && names_view(nf.free_vars@) == free_vars_of(caps, f.uid) && annotated_params(f.params@, nf.params@, caps)
            && annotated_stmt(*f.body, *nf.body, caps),
        Stmt::Cond(c) => n matches Stmt::Cond(nc) && nc.span == c.span && annotated_expr(c.cond, nc.cond, caps)
            && annotated_stmt(*c.then_branch, *nc.then_branch, caps) && match c.or_else {
            Some(o) => nc.or_else matches Some(no) && annotated_stmt(*o, *no, caps),
            None => nc.or_else is None,
        },
        Stmt::While(w) => n matches Stmt::While(nw) && nw.span == w.span && annotated_expr(w.cond, nw.cond, caps)
            && annotated_stmt(*w.body, *nw.body, caps),
        Stmt::ForEach(fe) => n matches Stmt::ForEach(nfe) && nfe.span == fe.span && nfe.item.name == fe.item.name
            && nfe.item.uid == fe.item.uid && nfe.item.span == fe.item.span
            && nfe.item.captured == (fe.item.captured || enclosed_in(caps, fe.item.uid))
            && annotated_expr(fe.iterable, nfe.iterable, caps) && annotated_stmt(*fe.body, *nfe.body, caps),
        Stmt::Block(b) => n matches Stmt::Block(nb) && nb.span == b.span && nb.inner.span == b.inner.span
            && nb.inner.inner@.len() == b.inner.inner@.len()
            && forall|i: int| 0 <= i < b.inner.inner@.len() ==> annotated_stmt(#[trigger] b.inner.inner@[i], nb.inner.inner@[i], caps),
        Stmt::Return(r) => n matches Stmt::Return(nr) && nr.span == r.span && match r.value {
            Some(e) => nr.value matches Some(ne) && annotated_expr(e, ne, caps),
            None => nr.value is None,
        },
        Stmt::Break(_) => n == s,
        Stmt::Continue(_) => n == s,
    }
}

/// Marks a reference to a variable that a function captures, the parameters that functions
/// capture and the free variables of each function in `expr`.
fn annotate_expr_with_var_captures(expr: &mut Expr, closure_list: &VarCaptureList)
    ensures
        annotated_expr(*old(expr), *final(expr), caps_view(closure_list.0@)),
    decreases *old(expr),
{
    let ghost caps = caps_view(closure_list.0@);
    match expr {
        Expr::Variable(v) => {
            if closure_list.is_free_variable_ref(v.uid) {
                proof {
                    let i = choose|i: int| 0 <= i < closure_list.0.len() && (#[trigger] closure_list.0@[i]).free_variable_id == v.uid;
                    assert(caps[i].1 == v.uid);
                }
                v.captured = true;
            } else {
                assert(!referenced_in(caps, v.uid));
            }
        },
        Expr::Binary(b) => {
            annotate_expr_with_var_captures(&mut b.lhs, closure_list);
            annotate_expr_with_var_captures(&mut b.rhs, closure_list);
        },
        Expr::Unary(u) => annotate_expr_with_var_captures(&mut u.rhs, closure_list),
        Expr::Ternary(t) => {
            annotate_expr_with_var_captures(&mut t.cond, closure_list);
            annotate_expr_with_var_captures(&mut t.then_branch, closure_list);
            annotate_expr_with_var_captures(&mut t.or_else, closure_list);
        },
        Expr::Call(c) => {
            annotate_exprs_with_var_captures(&mut c.args, closure_list);
            annotate_expr_with_var_captures(&mut c.callee, closure_list);
        },
        Expr::Access(a) => {
            annotate_expr_with_var_captures(&mut a.index, closure_list);
            annotate_expr_with_var_captures(&mut a.subscripted, closure_list);
        },
        Expr::Assign(a) => {
            annotate_expr_with_var_captures(&mut a.name, closure_list);
            annotate_expr_with_var_captures(&mut a.value, closure_list);
        },
        Expr::List(l) => annotate_exprs_with_var_captures(&mut l.elements, closure_list),
        Expr::AssociativeArray(a) => annotate_pairs_with_var_captures(&mut a.elements, closure_list),
        Expr::Grouping(g) => annotate_expr_with_var_captures(&mut g.expr, closure_list),
        Expr::AnonymousFunction(f) => {
            f.free_vars = free_vars_in_fn(closure_list, f.uid);
            annotate_params_with_var_captures(&mut f.params, closure_list);
            annotate_stmt_with_var_captures(&mut f.body, closure_list);
        },
        Expr::Literal(_) => {},
    }
}

/// Marks each expression of `es`.
fn annotate_exprs_with_var_captures(es: &mut Vec<Expr>, closure_list: &VarCaptureList)
    ensures
        final(es)@.len() == old(es)@.len(),
        forall|i: int| 0 <= i < old(es)@.len() ==> annotated_expr(
            #[trigger] old(es)@[i],
            final(es)@[i],
            caps_view(closure_list.0@),
        ),
    decreases old(es)@,
{
    let ghost orig = es@;
    let mut i: usize = 0;
    while i < es.len()
        invariant
            i <= es.len(),
            es@.len() == orig.len(),
            orig == old(es)@,
            forall|j: int| 0 <= j < i ==> annotated_expr(#[trigger] orig[j], es@[j], caps_view(closure_list.0@)),
            forall|j: int| i <= j < es@.len() ==> #[trigger] es@[j] == orig[j],
        decreases es.len() - i,
    {
        proof {
            assert(decreases_to!(orig => orig[i as int]));
        }
        annotate_expr_with_var_captures(&mut es[i], closure_list);
        i = i + 1;
    }
}

/// Marks the value of each key-value pair of `ps`.
fn annotate_pairs_with_var_captures(ps: &mut Vec<(Literal, Expr)>, closure_list: &VarCaptureList)
    ensures
        final(ps)@.len() == old(ps)@.len(),
        forall|i: int| 0 <= i < old(ps)@.len() ==> (#[trigger] old(ps)@[i]).0 == final(ps)@[i].0
            && annotated_expr(old(ps)@[i].1, final(ps)@[i].1, caps_view(closure_list.0@)),
    decreases old(ps)@,
{
    let ghost orig = ps@;
    let mut i: usize = 0;
    while i < ps.len()
        invariant
            i <= ps.len(),
            ps@.len() == orig.len(),
            orig == old(ps)@,
            forall|j: int| 0 <= j < i ==> (#[trigger] orig[j]).0 == ps@[j].0
                && annotated_expr(orig[j].1, ps@[j].1, caps_view(closure_list.0@)),
            forall|j: int| i <= j < ps@.len() ==> #[trigger] ps@[j] == orig[j],
        decreases ps.len() - i,
    {
        proof {
            assert(decreases_to!(orig => orig[i as int].1));
        }
        annotate_expr_with_var_captures(&mut ps[i].1, closure_list);
        i = i + 1;
    }
}

/// Marks each parameter of `params` that a function captures.
fn annotate_params_with_var_captures(params: &mut Vec<FunctionParam>, closure_list: &VarCaptureList)
    ensures
        annotated_params(old(params)@, final(params)@, caps_view(closure_list.0@)),
{
    let ghost orig = params@;
    let ghost caps = caps_view(closure_list.0@);
    let mut i: usize = 0;
    while i < params.len()
        invariant
            i <= params.len(),
            params@.len() == orig.len(),
            caps == caps_view(closure_list.0@),
            forall|j: int| 0 <= j < i ==> annotated_param(#[trigger] orig[j], params@[j], caps),
            forall|j: int| i <= j < params@.len() ==> #[trigger] params@[j] == orig[j],
        decreases params.len() - i,
    {
        if closure_list.is_enclosed_var_decl(params[i].uid) {
            proof {
                let k = choose|k: int| 0 <= k < closure_list.0.len() && (#[trigger] closure_list.0@[k]).enclosed_var_id == params@[i as int].uid;
                assert(caps[k].2 == params@[i as int].uid);
            }
            params[i].captured = true;
        } else {
            assert(!enclosed_in(caps, params@[i as int].uid));
        }
        i = i + 1;
    }
}


/// The free variables recorded for function `f`: the names of its records, in order, with each
/// run of equal neighbours cut down to one.
fn free_vars_in_fn(closure_list: &VarCaptureList, f: usize) -> (r: Vec<String>)
    ensures
        names_view(r@) == free_vars_of(caps_view(closure_list.0@), f),
{
    let names = closure_list.get_free_vars_in_fn(f);
    proof {
        lemma_names_captured_by(closure_list.0@, f);
    }
    dedup_names(names)
}

/// `names_captured_by` is `names_of` on the views.
proof fn lemma_names_captured_by(cs: Seq<VarCapture>, f: usize)
    ensures
        names_captured_by(cs, f) == names_of(caps_view(cs), f),
    decreases cs.len(),
{
    if cs.len() > 0 {
        assert(caps_view(cs.drop_last()) =~= caps_view(cs).drop_last());
        lemma_names_captured_by(cs.drop_last(), f);
    }
}

/// `v` with each run of equal neighbours cut down to its first element.
fn dedup_names(v: Vec<String>) -> (r: Vec<String>)
    ensures
        names_view(r@) == dedup_seq(names_view(v@)),
{
    let mut out: Vec<String> = Vec::new();
    let mut i: usize = 0;
    assert(names_view(v@.take(0)) =~= Seq::<Seq<char>>::empty());
    assert(names_view(out@) =~= Seq::<Seq<char>>::empty());
    while i < v.len()
        invariant
            i <= v.len(),
            names_view(out@) == dedup_seq(names_view(v@.take(i as int))),
            i > 0 ==> out@.len() > 0 && out@.last()@ == v@[i - 1]@,
        decreases v.len() - i,
    {
        let ghost prev = names_view(v@.take(i as int));
        let ghost cur = names_view(v@.take(i + 1));
        assert(cur.drop_last() =~= prev);
        assert(cur.last() == v@[i as int]@);
        proof {
            lemma_dedup_last(prev);
        }
        if i > 0 && str_eq(out[out.len() - 1].as_str(), v[i].as_str()) {
            assert(cur[cur.len() - 2] == v@[i - 1]@);
        } else {
            let s = v[i].clone();
            let ghost before = out@;
            out.push(s);
            assert(names_view(out@) =~= names_view(before).push(v@[i as int]@));
        }
        i = i + 1;
    }
    assert(v@.take(v.len() as int) =~= v@);
    out
}

/// A deduplicated non-empty sequence is non-empty and ends where the sequence ends.
proof fn lemma_dedup_last(s: Seq<Seq<char>>)
    ensures
        s.len() > 0 ==> dedup_seq(s).len() > 0 && dedup_seq(s).last() == s.last(),
    decreases s.len(),
{
    if s.len() > 1 {
        lemma_dedup_last(s.drop_last());
    }
}

/// Marks the declarations that functions capture, the references to them, the parameters that
/// functions capture and the free variables of each function in `stmt`.
fn annotate_stmt_with_var_captures(stmt: &mut Stmt, closure_list: &VarCaptureList)
    ensures
        annotated_stmt(*old(stmt), *final(stmt), caps_view(closure_list.0@)),
    decreases *old(stmt),
{
    let ghost caps = caps_view(closure_list.0@);
    match stmt {
        Stmt::Expr(e) => annotate_expr_with_var_captures(e, closure_list),
        Stmt::Decl(Decl::Local(l)) => {
            mark_if_enclosed(&mut l.captured, l.uid, closure_list);
            annotate_expr_with_var_captures(&mut l.value, closure_list);
        },
        Stmt::Decl(Decl::Function(f)) => {
            mark_if_enclosed(&mut f.captured, f.uid, closure_list);
            f.free_vars = free_vars_in_fn(closure_list, f.uid);
            annotate_stmt_with_var_captures(&mut f.body, closure_list);
            annotate_params_with_var_captures(&mut f.params, closure_list);
        },
        Stmt::Cond(c) => {
            annotate_stmt_with_var_captures(&mut c.then_branch, closure_list);
            match &mut c.or_else {
                Some(o) => annotate_stmt_with_var_captures(o, closure_list),
                None => {},
            }
            annotate_expr_with_var_captures(&mut c.cond, closure_list);
        },
        Stmt::While(w) => {
            annotate_expr_with_var_captures(&mut w.cond, closure_list);
            annotate_stmt_with_var_captures(&mut w.body, closure_list);
        },
        Stmt::ForEach(fe) => {
            annotate_expr_with_var_captures(&mut fe.iterable, closure_list);
            annotate_stmt_with_var_captures(&mut fe.body, closure_list);
            mark_if_enclosed(&mut fe.item.captured, fe.item.uid, closure_list);
        },
        Stmt::Block(b) => annotate_stmts_with_var_captures(&mut b.inner.inner, closure_list),
        Stmt::Return(r) => match &mut r.value {
            Some(e) => annotate_expr_with_var_captures(e, closure_list),
            None => {},
        },
        Stmt::Continue(_) => {},
        Stmt::Break(_) => {},
    }
}

/// Sets `captured` where a function captures the declaration `uid`.
fn mark_if_enclosed(captured: &mut bool, uid: usize, closure_list: &VarCaptureList)
    ensures
        *final(captured) == (*old(captured) || enclosed_in(caps_view(closure_list.0@), uid)),
{
    let ghost caps = caps_view(closure_list.0@);
    if closure_list.is_enclosed_var_decl(uid) {
        proof {
            let k = choose|k: int| 0 <= k < closure_list.0.len() && (#[trigger] closure_list.0@[k]).enclosed_var_id == uid;
            assert(caps[k].2 == uid);
        }
        *captured = true;
    } else {
        assert(!enclosed_in(caps, uid));
    }
}

/// Marks each statement of `ss`.
fn annotate_stmts_with_var_captures(ss: &mut Vec<Stmt>, closure_list: &VarCaptureList)
    ensures
        final(ss)@.len() == old(ss)@.len(),
        forall|i: int| 0 <= i < old(ss)@.len() ==> annotated_stmt(
            #[trigger] old(ss)@[i],
            final(ss)@[i],
            caps_view(closure_list.0@),
        ),
    decreases old(ss)@,
{
    let ghost orig = ss@;
    let mut i: usize = 0;
    while i < ss.len()
        invariant
            i <= ss.len(),
            ss@.len() == orig.len(),
            orig == old(ss)@,
            forall|j: int| 0 <= j < i ==> annotated_stmt(#[trigger] orig[j], ss@[j], caps_view(closure_list.0@)),
            forall|j: int| i <= j < ss@.len() ==> #[trigger] ss@[j] == orig[j],
        decreases ss.len() - i,
    {
        proof {
            assert(decreases_to!(orig => orig[i as int]));
        }
        annotate_stmt_with_var_captures(&mut ss[i], closure_list);
        i = i + 1;
    }
}

/// Marks, in a program, the declarations that functions capture, the references to them, the
/// parameters that functions capture and the free variables of each function.
pub fn annotate_ast_with_var_captures(ast: &mut Ast)
    requires
        captures_seq(old(ast).inner@) is Some,
    ensures
        final(ast).span == old(ast).span,
        final(ast).inner@.len() == old(ast).inner@.len(),
        forall|i: int| 0 <= i < old(ast).inner@.len() ==> annotated_stmt(
            #[trigger] old(ast).inner@[i],
            final(ast).inner@[i],
            captures_seq(old(ast).inner@).unwrap(),
        ),
{
    let closure_list = get_var_captures_from_ast(ast);
    let closure_list = VarCaptureList::new(closure_list);
    annotate_stmts_with_var_captures(&mut ast.inner, &closure_list);
}

/// Marking parameters keeps their names, so no two of them share one.
proof fn lemma_annotated_params_distinct(ps: Seq<FunctionParam>, ns: Seq<FunctionParam>, caps: Seq<(usize, usize, usize, Seq<char>)>)
    requires
        annotated_params(ps, ns, caps),
        distinct_params(ps),
    ensures
        distinct_params(ns),
{
    assert forall|i: int, j: int| 0 <= i < j < ns.len() implies (#[trigger] ns[i]).name@ != (#[trigger] ns[j]).name@ by {
        assert(annotated_param(ps[i], ns[i], caps));
        assert(annotated_param(ps[j], ns[j], caps));
        assert(ps[i].name@ != ps[j].name@);
    }
}

/// Marking captures keeps an expression of the parser's shape, and how tightly it binds.
pub proof fn lemma_annotated_expr_shaped(e: Expr, n: Expr, caps: Seq<(usize, usize, usize, Seq<char>)>)
    requires
        annotated_expr(e, n, caps),
        shaped_expr(e),
    ensures
        shaped_expr(n),
        binding_power(n) == binding_power(e),
    decreases e,
{
    match e {
        Expr::AnonymousFunction(f) => {
            let nf = n->AnonymousFunction_0;
            assert(n == Expr::AnonymousFunction(nf));
            assert(annotated_stmt(*f.body, *nf.body, caps));
            lemma_annotated_params_distinct(f.params@, nf.params@, caps);
            lemma_annotated_body_shaped(*f.body, *nf.body, caps);
            assert(shaped_expr(n));
        },
        Expr::Binary(b) => {
            let nb = n->Binary_0;
            lemma_annotated_expr_shaped(*b.lhs, *nb.lhs, caps);
            lemma_annotated_expr_shaped(*b.rhs, *nb.rhs, caps);
            assert(shaped_expr(n));
        },
        Expr::Unary(u) => {
            let nu = n->Unary_0;
            lemma_annotated_expr_shaped(*u.rhs, *nu.rhs, caps);
            assert(shaped_expr(n));
        },
        Expr::Ternary(t) => {
            let nt = n->Ternary_0;
            lemma_annotated_expr_shaped(*t.cond, *nt.cond, caps);
            lemma_annotated_expr_shaped(*t.then_branch, *nt.then_branch, caps);
            lemma_annotated_expr_shaped(*t.or_else, *nt.or_else, caps);
            assert(shaped_expr(n));
        },
        Expr::Call(c) => {
            let nc = n->Call_0;
            lemma_annotated_expr_shaped(*c.callee, *nc.callee, caps);
            lemma_annotated_exprs_shaped(c.args@, nc.args@, caps);
            assert(shaped_expr(n));
        },
        Expr::Access(a) => {
            let na = n->Access_0;
            lemma_annotated_expr_shaped(*a.index, *na.index, caps);
            lemma_annotated_expr_shaped(*a.subscripted, *na.subscripted, caps);
            assert(shaped_expr(n));
        },
        Expr::Assign(a) => {
            let na = n->Assign_0;
            lemma_annotated_expr_shaped(*a.name, *na.name, caps);
            lemma_annotated_expr_shaped(*a.value, *na.value, caps);
            assert(shaped_expr(n));
        },
        Expr::List(l) => {
            let nl = n->List_0;
            lemma_annotated_exprs_shaped(l.elements@, nl.elements@, caps);
            assert(shaped_expr(n));
        },
        Expr::AssociativeArray(a) => {
            let na = n->AssociativeArray_0;
            lemma_annotated_pairs_shaped(a.elements@, na.elements@, caps);
            assert(shaped_expr(n));
        },
        Expr::Grouping(g) => {
            let ng = n->Grouping_0;
            lemma_annotated_expr_shaped(*g.expr, *ng.expr, caps);
            assert(shaped_expr(n));
        },
        Expr::Literal(_) => {},
        Expr::Variable(_) => {},
    }
}

/// Marking captures keeps a list of expressions of the parser's shape.
pub proof fn lemma_annotated_exprs_shaped(es: Seq<Expr>, ns: Seq<Expr>, caps: Seq<(usize, usize, usize, Seq<char>)>)
    requires
        ns.len() == es.len(),
        forall|i: int| 0 <= i < es.len() ==> annotated_expr(#[trigger] es[i], ns[i], caps),
        shaped_exprs(es),
    ensures
        shaped_exprs(ns),
    decreases es,
{
    assert forall|i: int| 0 <= i < ns.len() implies shaped_expr(#[trigger] ns[i]) by {
        assert(annotated_expr(es[i], ns[i], caps));
        assert(shaped_expr(es[i]));
        lemma_annotated_expr_shaped(es[i], ns[i], caps);
    }
}

/// Marking captures keeps the values of a list of pairs of the parser's shape.
pub proof fn lemma_annotated_pairs_shaped(
    ps: Seq<(Literal, Expr)>,
    ns: Seq<(Literal, Expr)>,
    caps: Seq<(usize, usize, usize, Seq<char>)>,
)
    requires
        ns.len() == ps.len(),
        forall|i: int| 0 <= i < ps.len() ==> (#[trigger] ps[i]).0 == ns[i].0 && annotated_expr(ps[i].1, ns[i].1, caps),
        shaped_pairs(ps),
    ensures
        shaped_pairs(ns),
    decreases ps,
{
    assert forall|i: int| 0 <= i < ns.len() implies shaped_expr((#[trigger] ns[i]).1) by {
        assert((ps[i]).0 == ns[i].0 && annotated_expr(ps[i].1, ns[i].1, caps));
        assert(shaped_expr(ps[i].1));
        lemma_annotated_expr_shaped(ps[i].1, ns[i].1, caps);
    }
}

/// Marking captures keeps a function body of the parser's shape: a block or an expression.
proof fn lemma_annotated_body_shaped(s: Stmt, n: Stmt, caps: Seq<(usize, usize, usize, Seq<char>)>)
    requires
        annotated_stmt(s, n, caps),
        match s {
            Stmt::Block(b) => shaped_stmts(b.inner.inner@),
            Stmt::Expr(x) => shaped_expr(x),
            _ => false,
        },
    ensures
        match n {
            Stmt::Block(b) => shaped_stmts(b.inner.inner@),
            Stmt::Expr(x) => shaped_expr(x),
            _ => false,
        },
    decreases s,
{
    match s {
        Stmt::Block(b) => {
            let nb = n->Block_0;
            lemma_annotated_stmts_shaped(b.inner.inner@, nb.inner.inner@, caps);
        },
        Stmt::Expr(x) => {
            let nx = n->Expr_0;
            lemma_annotated_expr_shaped(x, nx, caps);
        },
        _ => {},
    }
}

/// Marking captures keeps a statement of the parser's shape.
pub proof fn lemma_annotated_stmt_shaped(s: Stmt, n: Stmt, caps: Seq<(usize, usize, usize, Seq<char>)>)
    requires
        annotated_stmt(s, n, caps),
        shaped_stmt(s),
    ensures
        shaped_stmt(n),
    decreases s,
{
    match s {
        Stmt::Decl(Decl::Local(l)) => {
            let nl = n->Decl_0->Local_0;
            lemma_annotated_expr_shaped(l.value, nl.value, caps);
        },
        Stmt::Decl(Decl::Function(f)) => {
            let nf = n->Decl_0->Function_0;
            assert(n == Stmt::Decl(Decl::Function(nf)));
            assert(annotated_stmt(*f.body, *nf.body, caps));
            lemma_annotated_params_distinct(f.params@, nf.params@, caps);
            lemma_annotated_body_shaped(*f.body, *nf.body, caps);
        },
        Stmt::Cond(c) => {
            let nc = n->Cond_0;
            lemma_annotated_expr_shaped(c.cond, nc.cond, caps);
            lemma_annotated_stmt_shaped(*c.then_branch, *nc.then_branch, caps);
            match c.or_else {
                Some(o) => {
                    let no = nc.or_else->Some_0;
                    lemma_annotated_stmt_shaped(*o, *no, caps);
                },
                None => {},
            }
        },
        Stmt::While(w) => {
            let nw = n->While_0;
            lemma_annotated_expr_shaped(w.cond, nw.cond, caps);
            lemma_annotated_stmt_shaped(*w.body, *nw.body, caps);
        },
        Stmt::ForEach(fe) => {
            let nfe = n->ForEach_0;
            lemma_annotated_expr_shaped(fe.iterable, nfe.iterable, caps);
            assert(annotated_stmt(*fe.body, *nfe.body, caps));
            match *fe.body {
                Stmt::Block(b) => {
                    let nb = nfe.body->Block_0;
                    assert(*nfe.body == Stmt::Block(nb));
                    lemma_annotated_stmts_shaped(b.inner.inner@, nb.inner.inner@, caps);
                },
                _ => {},
            }
        },
        Stmt::Block(b) => {
            let nb = n->Block_0;
            lemma_annotated_stmts_shaped(b.inner.inner@, nb.inner.inner@, caps);
        },
        Stmt::Expr(e) => {
            let ne = n->Expr_0;
            lemma_annotated_expr_shaped(e, ne, caps);
        },
        Stmt::Return(r) => {
            match r.value {
                Some(e) => {
                    let ne = n->Return_0.value->Some_0;
                    lemma_annotated_expr_shaped(e, ne, caps);
                },
                None => {},
            }
        },
        Stmt::Break(_) => {},
        Stmt::Continue(_) => {},
    }
}

/// Marking captures keeps a list of statements of the parser's shape.
pub proof fn lemma_annotated_stmts_shaped(ss: Seq<Stmt>, ns: Seq<Stmt>, caps: Seq<(usize, usize, usize, Seq<char>)>)
    requires
        ns.len() == ss.len(),
        forall|i: int| 0 <= i < ss.len() ==> annotated_stmt(#[trigger] ss[i], ns[i], caps),
        shaped_stmts(ss),
    ensures
        shaped_stmts(ns),
    decreases ss,
{
    assert forall|i: int| 0 <= i < ns.len() implies shaped_stmt(#[trigger] ns[i]) by {
        assert(annotated_stmt(ss[i], ns[i], caps));
        assert(shaped_stmt(ss[i]));
        lemma_annotated_stmt_shaped(ss[i], ns[i], caps);
    }
}

/// Marking captures keeps where returns, breaks and continues stand in an expression.
pub proof fn lemma_annotated_expr_jumps(
    e: Expr,
    n: Expr,
    caps: Seq<(usize, usize, usize, Seq<char>)>,
    in_fn: bool,
    in_loop: bool,
)
    requires
        annotated_expr(e, n, caps),
        jumps_placed_expr(e, in_fn, in_loop),
    ensures
        jumps_placed_expr(n, in_fn, in_loop),
    decreases e,
{
    match e {
        Expr::AnonymousFunction(f) => {
            let nf = n->AnonymousFunction_0;
            assert(n == Expr::AnonymousFunction(nf));
            assert(annotated_stmt(*f.body, *nf.body, caps));
            match *f.body {
                Stmt::Block(b) => {
                    let nb = nf.body->Block_0;
                    assert(*nf.body == Stmt::Block(nb));
                    lemma_annotated_stmts_jumps(b.inner.inner@, nb.inner.inner@, caps, true, in_loop);
                },
                Stmt::Expr(x) => {
                    let nx = nf.body->Expr_0;
                    assert(*nf.body == Stmt::Expr(nx));
                    lemma_annotated_expr_jumps(x, nx, caps, true, in_loop);
                },
                _ => {
                    assert(annotated_stmt(*f.body, *nf.body, caps));
                },
            }
            assert(jumps_placed_expr(n, in_fn, in_loop));
        },
        Expr::Binary(b) => {
            let nb = n->Binary_0;
            lemma_annotated_expr_jumps(*b.lhs, *nb.lhs, caps, in_fn, in_loop);
            lemma_annotated_expr_jumps(*b.rhs, *nb.rhs, caps, in_fn, in_loop);
            assert(jumps_placed_expr(n, in_fn, in_loop));
        },
        Expr::Unary(u) => {
            let nu = n->Unary_0;
            lemma_annotated_expr_jumps(*u.rhs, *nu.rhs, caps, in_fn, in_loop);
            assert(jumps_placed_expr(n, in_fn, in_loop));
        },
        Expr::Ternary(t) => {
            let nt = n->Ternary_0;
            lemma_annotated_expr_jumps(*t.cond, *nt.cond, caps, in_fn, in_loop);
            lemma_annotated_expr_jumps(*t.then_branch, *nt.then_branch, caps, in_fn, in_loop);
            lemma_annotated_expr_jumps(*t.or_else, *nt.or_else, caps, in_fn, in_loop);
            assert(jumps_placed_expr(n, in_fn, in_loop));
        },
        Expr::Call(c) => {
            let nc = n->Call_0;
            lemma_annotated_expr_jumps(*c.callee, *nc.callee, caps, in_fn, in_loop);
            lemma_annotated_exprs_jumps(c.args@, nc.args@, caps, in_fn, in_loop);
            assert(jumps_placed_expr(n, in_fn, in_loop));
        },
        Expr::Access(a) => {
            let na = n->Access_0;
            lemma_annotated_expr_jumps(*a.index, *na.index, caps, in_fn, in_loop);
            lemma_annotated_expr_jumps(*a.subscripted, *na.subscripted, caps, in_fn, in_loop);
            assert(jumps_placed_expr(n, in_fn, in_loop));
        },
        Expr::Assign(a) => {
            let na = n->Assign_0;
            lemma_annotated_expr_jumps(*a.name, *na.name, caps, in_fn, in_loop);
            lemma_annotated_expr_jumps(*a.value, *na.value, caps, in_fn, in_loop);
            assert(jumps_placed_expr(n, in_fn, in_loop));
        },
        Expr::List(l) => {
            let nl = n->List_0;
            lemma_annotated_exprs_jumps(l.elements@, nl.elements@, caps, in_fn, in_loop);
            assert(jumps_placed_expr(n, in_fn, in_loop));
        },
        Expr::AssociativeArray(a) => {
            let na = n->AssociativeArray_0;
            lemma_annotated_pairs_jumps(a.elements@, na.elements@, caps, in_fn, in_loop);
            assert(jumps_placed_expr(n, in_fn, in_loop));
        },
        Expr::Grouping(g) => {
            let ng = n->Grouping_0;
            lemma_annotated_expr_jumps(*g.expr, *ng.expr, caps, in_fn, in_loop);
            assert(jumps_placed_expr(n, in_fn, in_loop));
        },
        Expr::Literal(_) => {},
        Expr::Variable(_) => {},
    }
}

/// Marking captures keeps where returns, breaks and continues stand in a list of expressions.
pub proof fn lemma_annotated_exprs_jumps(
    es: Seq<Expr>,
    ns: Seq<Expr>,
    caps: Seq<(usize, usize, usize, Seq<char>)>,
    in_fn: bool,
    in_loop: bool,
)
    requires
        ns.len() == es.len(),
        forall|i: int| 0 <= i < es.len() ==> annotated_expr(#[trigger] es[i], ns[i], caps),
        jumps_placed_exprs(es, in_fn, in_loop),
    ensures
        jumps_placed_exprs(ns, in_fn, in_loop),
    decreases es,
{
    assert forall|i: int| 0 <= i < ns.len() implies jumps_placed_expr(#[trigger] ns[i], in_fn, in_loop) by {
        assert(annotated_expr(es[i], ns[i], caps));
        assert(jumps_placed_expr(es[i], in_fn, in_loop));
        lemma_annotated_expr_jumps(es[i], ns[i], caps, in_fn, in_loop);
    }
}

/// Marking captures keeps where returns, breaks and continues stand in the values of pairs.
pub proof fn lemma_annotated_pairs_jumps(
    ps: Seq<(Literal, Expr)>,
    ns: Seq<(Literal, Expr)>,
    caps: Seq<(usize, usize, usize, Seq<char>)>,
    in_fn: bool,
    in_loop: bool,
)
    requires
        ns.len() == ps.len(),
        forall|i: int| 0 <= i < ps.len() ==> (#[trigger] ps[i]).0 == ns[i].0 && annotated_expr(ps[i].1, ns[i].1, caps),
        jumps_placed_pairs(ps, in_fn, in_loop),
    ensures
        jumps_placed_pairs(ns, in_fn, in_loop),
    decreases ps,
{
    assert forall|i: int| 0 <= i < ns.len() implies jumps_placed_expr((#[trigger] ns[i]).1, in_fn, in_loop) by {
        assert((ps[i]).0 == ns[i].0 && annotated_expr(ps[i].1, ns[i].1, caps));
        assert(jumps_placed_expr(ps[i].1, in_fn, in_loop));
        lemma_annotated_expr_jumps(ps[i].1, ns[i].1, caps, in_fn, in_loop);
    }
}

/// Marking captures keeps where returns, breaks and continues stand in a statement.
pub proof fn lemma_annotated_stmt_jumps(
    s: Stmt,
    n: Stmt,
    caps: Seq<(usize, usize, usize, Seq<char>)>,
    in_fn: bool,
    in_loop: bool,
)
    requires
        annotated_stmt(s, n, caps),
        jumps_placed_stmt(s, in_fn, in_loop),
    ensures
        jumps_placed_stmt(n, in_fn, in_loop),
    decreases s,
{
    match s {
        Stmt::Decl(Decl::Local(l)) => {
            let nl = n->Decl_0->Local_0;
            lemma_annotated_expr_jumps(l.value, nl.value, caps, in_fn, in_loop);
        },
        Stmt::Decl(Decl::Function(f)) => {
            let nf = n->Decl_0->Function_0;
            assert(n == Stmt::Decl(Decl::Function(nf)));
            lemma_annotated_stmt_jumps(*f.body, *nf.body, caps, true, in_loop);
        },
        Stmt::Cond(c) => {
            let nc = n->Cond_0;
            lemma_annotated_expr_jumps(c.cond, nc.cond, caps, in_fn, in_loop);
            lemma_annotated_stmt_jumps(*c.then_branch, *nc.then_branch, caps, in_fn, in_loop);
            match c.or_else {
                Some(o) => {
                    let no = nc.or_else->Some_0;
                    lemma_annotated_stmt_jumps(*o, *no, caps, in_fn, in_loop);
                },
                None => {},
            }
        },
        Stmt::While(w) => {
            let nw = n->While_0;
            lemma_annotated_expr_jumps(w.cond, nw.cond, caps, in_fn, in_loop);
            lemma_annotated_stmt_jumps(*w.body, *nw.body, caps, in_fn, true);
        },
        Stmt::ForEach(fe) => {
            let nfe = n->ForEach_0;
            lemma_annotated_expr_jumps(fe.iterable, nfe.iterable, caps, in_fn, in_loop);
            lemma_annotated_stmt_jumps(*fe.body, *nfe.body, caps, in_fn, true);
        },
        Stmt::Block(b) => {
            let nb = n->Block_0;
            lemma_annotated_stmts_jumps(b.inner.inner@, nb.inner.inner@, caps, in_fn, in_loop);
        },
        Stmt::Expr(e) => {
            let ne = n->Expr_0;
            lemma_annotated_expr_jumps(e, ne, caps, in_fn, in_loop);
        },
        Stmt::Return(r) => {
            match r.value {
                Some(e) => {
                    let ne = n->Return_0.value->Some_0;
                    lemma_annotated_expr_jumps(e, ne, caps, in_fn, in_loop);
                },
                None => {},
            }
        },
        Stmt::Break(_) => {},
        Stmt::Continue(_) => {},
    }
}

/// Marking captures keeps where returns, breaks and continues stand in a list of statements.
pub proof fn lemma_annotated_stmts_jumps(
    ss: Seq<Stmt>,
    ns: Seq<Stmt>,
    caps: Seq<(usize, usize, usize, Seq<char>)>,
    in_fn: bool,
    in_loop: bool,
)
    requires
        ns.len() == ss.len(),
        forall|i: int| 0 <= i < ss.len() ==> annotated_stmt(#[trigger] ss[i], ns[i], caps),
        jumps_placed_stmts(ss, in_fn, in_loop),
    ensures
        jumps_placed_stmts(ns, in_fn, in_loop),
    decreases ss,
{
    assert forall|i: int| 0 <= i < ns.len() implies jumps_placed_stmt(#[trigger] ns[i], in_fn, in_loop) by {
        assert(annotated_stmt(ss[i], ns[i], caps));
        assert(jumps_placed_stmt(ss[i], in_fn, in_loop));
        lemma_annotated_stmt_jumps(ss[i], ns[i], caps, in_fn, in_loop);
    }
}

/// Marking parameters keeps their identifiers.
proof fn lemma_annotated_param_uids(ps: Seq<FunctionParam>, ns: Seq<FunctionParam>, caps: Seq<(usize, usize, usize, Seq<char>)>)
    requires
        annotated_params(ps, ns, caps),
    ensures
        param_uids(ns) == param_uids(ps),
    decreases ps.len(),
{
    if ps.len() > 0 {
        assert(annotated_param(ps[ps.len() - 1], ns[ns.len() - 1], caps));
        assert forall|i: int| 0 <= i < ps.drop_last().len() implies annotated_param(#[trigger] ps.drop_last()[i], ns.drop_last()[i], caps) by {
            assert(annotated_param(ps[i], ns[i], caps));
        }
        lemma_annotated_param_uids(ps.drop_last(), ns.drop_last(), caps);
    }
}

/// Marking captures keeps the identifiers of an expression.
pub proof fn lemma_annotated_expr_uids(e: Expr, n: Expr, caps: Seq<(usize, usize, usize, Seq<char>)>)
    requires
        annotated_expr(e, n, caps),
    ensures
        uids_expr(n) == uids_expr(e),
    decreases e,
{
    match e {
        Expr::AnonymousFunction(f) => {
            let nf = n->AnonymousFunction_0;
            assert(n == Expr::AnonymousFunction(nf));
            lemma_annotated_param_uids(f.params@, nf.params@, caps);
            lemma_annotated_stmt_uids(*f.body, *nf.body, caps);
        },
        Expr::Binary(b) => {
            let nb = n->Binary_0;
            lemma_annotated_expr_uids(*b.lhs, *nb.lhs, caps);
            lemma_annotated_expr_uids(*b.rhs, *nb.rhs, caps);
        },
        Expr::Unary(u) => {
            let nu = n->Unary_0;
            lemma_annotated_expr_uids(*u.rhs, *nu.rhs, caps);
        },
        Expr::Ternary(t) => {
            let nt = n->Ternary_0;
            lemma_annotated_expr_uids(*t.cond, *nt.cond, caps);
            lemma_annotated_expr_uids(*t.then_branch, *nt.then_branch, caps);
            lemma_annotated_expr_uids(*t.or_else, *nt.or_else, caps);
        },
        Expr::Call(c) => {
            let nc = n->Call_0;
            lemma_annotated_expr_uids(*c.callee, *nc.callee, caps);
            lemma_annotated_exprs_uids(c.args@, nc.args@, caps);
        },
        Expr::Access(a) => {
            let na = n->Access_0;
            lemma_annotated_expr_uids(*a.index, *na.index, caps);
            lemma_annotated_expr_uids(*a.subscripted, *na.subscripted, caps);
        },
        Expr::Assign(a) => {
            let na = n->Assign_0;
            lemma_annotated_expr_uids(*a.name, *na.name, caps);
            lemma_annotated_expr_uids(*a.value, *na.value, caps);
        },
        Expr::List(l) => {
            let nl = n->List_0;
            lemma_annotated_exprs_uids(l.elements@, nl.elements@, caps);
        },
        Expr::AssociativeArray(a) => {
            let na = n->AssociativeArray_0;
            lemma_annotated_pairs_uids(a.elements@, na.elements@, caps);
        },
        Expr::Grouping(g) => {
            let ng = n->Grouping_0;
            lemma_annotated_expr_uids(*g.expr, *ng.expr, caps);
        },
        Expr::Literal(_) => {},
        Expr::Variable(_) => {},
    }
}

/// Marking captures keeps the identifiers of a list of expressions.
pub proof fn lemma_annotated_exprs_uids(es: Seq<Expr>, ns: Seq<Expr>, caps: Seq<(usize, usize, usize, Seq<char>)>)
    requires
        ns.len() == es.len(),
        forall|i: int| 0 <= i < es.len() ==> annotated_expr(#[trigger] es[i], ns[i], caps),
    ensures
        uids_exprs(ns) == uids_exprs(es),
    decreases es,
{
    if es.len() > 0 {
        assert(annotated_expr(es[es.len() - 1], ns[ns.len() - 1], caps));
        lemma_annotated_expr_uids(es[es.len() - 1], ns[ns.len() - 1], caps);
        assert forall|i: int| 0 <= i < es.drop_last().len() implies annotated_expr(#[trigger] es.drop_last()[i], ns.drop_last()[i], caps) by {
            assert(annotated_expr(es[i], ns[i], caps));
        }
        lemma_annotated_exprs_uids(es.drop_last(), ns.drop_last(), caps);
    }
}

/// Marking captures keeps the identifiers in the values of pairs.
pub proof fn lemma_annotated_pairs_uids(
    ps: Seq<(Literal, Expr)>,
    ns: Seq<(Literal, Expr)>,
    caps: Seq<(usize, usize, usize, Seq<char>)>,
)
    requires
        ns.len() == ps.len(),
        forall|i: int| 0 <= i < ps.len() ==> (#[trigger] ps[i]).0 == ns[i].0 && annotated_expr(ps[i].1, ns[i].1, caps),
    ensures
        uids_pairs(ns) == uids_pairs(ps),
    decreases ps,
{
    if ps.len() > 0 {
        assert(ps[ps.len() - 1].0 == ns[ns.len() - 1].0 && annotated_expr(ps[ps.len() - 1].1, ns[ns.len() - 1].1, caps));
        lemma_annotated_expr_uids(ps[ps.len() - 1].1, ns[ns.len() - 1].1, caps);
        assert forall|i: int| 0 <= i < ps.drop_last().len() implies (#[trigger] ps.drop_last()[i]).0 == ns.drop_last()[i].0
            && annotated_expr(ps.drop_last()[i].1, ns.drop_last()[i].1, caps) by {
            assert(ps[i].0 == ns[i].0 && annotated_expr(ps[i].1, ns[i].1, caps));
        }
        lemma_annotated_pairs_uids(ps.drop_last(), ns.drop_last(), caps);
    }
}

/// Marking captures keeps the identifiers of a statement.
pub proof fn lemma_annotated_stmt_uids(s: Stmt, n: Stmt, caps: Seq<(usize, usize, usize, Seq<char>)>)
    requires
        annotated_stmt(s, n, caps),
    ensures
        uids_stmt(n) == uids_stmt(s),
    decreases s,
{
    match s {
        Stmt::Decl(Decl::Local(l)) => {
            let nl = n->Decl_0->Local_0;
            lemma_annotated_expr_uids(l.value, nl.value, caps);
        },
        Stmt::Decl(Decl::Function(f)) => {
            let nf = n->Decl_0->Function_0;
            assert(n == Stmt::Decl(Decl::Function(nf)));
            lemma_annotated_param_uids(f.params@, nf.params@, caps);
            lemma_annotated_stmt_uids(*f.body, *nf.body, caps);
        },
        Stmt::Cond(c) => {
            let nc = n->Cond_0;
            lemma_annotated_expr_uids(c.cond, nc.cond, caps);
            lemma_annotated_stmt_uids(*c.then_branch, *nc.then_branch, caps);
            match c.or_else {
                Some(o) => {
                    let no = nc.or_else->Some_0;
                    lemma_annotated_stmt_uids(*o, *no, caps);
                },
                None => {},
            }
        },
        Stmt::While(w) => {
            let nw = n->While_0;
            lemma_annotated_expr_uids(w.cond, nw.cond, caps);
            lemma_annotated_stmt_uids(*w.body, *nw.body, caps);
        },
        Stmt::ForEach(fe) => {
            let nfe = n->ForEach_0;
            lemma_annotated_expr_uids(fe.iterable, nfe.iterable, caps);
            lemma_annotated_stmt_uids(*fe.body, *nfe.body, caps);
        },
        Stmt::Block(b) => {
            let nb = n->Block_0;
            lemma_annotated_stmts_uids(b.inner.inner@, nb.inner.inner@, caps);
        },
        Stmt::Expr(e) => {
            let ne = n->Expr_0;
            lemma_annotated_expr_uids(e, ne, caps);
        },
        Stmt::Return(r) => {
            match r.value {
                Some(e) => {
                    let ne = n->Return_0.value->Some_0;
                    lemma_annotated_expr_uids(e, ne, caps);
                },
                None => {},
            }
        },
        Stmt::Break(_) => {},
        Stmt::Continue(_) => {},
    }
}

/// Marking captures keeps the identifiers of a list of statements.
pub proof fn lemma_annotated_stmts_uids(ss: Seq<Stmt>, ns: Seq<Stmt>, caps: Seq<(usize, usize, usize, Seq<char>)>)
    requires
        ns.len() == ss.len(),
        forall|i: int| 0 <= i < ss.len() ==> annotated_stmt(#[trigger] ss[i], ns[i], caps),
    ensures
        uids_stmts(ns) == uids_stmts(ss),
    decreases ss,
{
    if ss.len() > 0 {
        assert(annotated_stmt(ss[ss.len() - 1], ns[ns.len() - 1], caps));
        lemma_annotated_stmt_uids(ss[ss.len() - 1], ns[ns.len() - 1], caps);
        assert forall|i: int| 0 <= i < ss.drop_last().len() implies annotated_stmt(#[trigger] ss.drop_last()[i], ns.drop_last()[i], caps) by {
            assert(annotated_stmt(ss[i], ns[i], caps));
        }
        lemma_annotated_stmts_uids(ss.drop_last(), ns.drop_last(), caps);
    }
}

} // verus!
