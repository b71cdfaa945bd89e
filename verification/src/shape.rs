//! The shape of the syntax trees that the parser builds: the bodies of functions and loops over
//! the items of a list are blocks (a function's may also be an expression), operators nest by
//! precedence, no function has two parameters of one name, returns stand inside functions and
//! breaks inside loops, and every declaration, reference and parameter has an identifier of its
//! own.

use vstd::prelude::*;
use crate::ast::{Stmt, Expr, Decl, Literal, BinaryOp, BinaryOperator, FunctionParam};
use crate::captures::{captures_seq, captures_stmt_in, captures_expr, captures_exprs, captures_pairs};

verus! {

/// How tightly a binary operator binds: the larger, the tighter.
pub open spec fn operator_power(op: BinaryOperator) -> int {
    match op {
        BinaryOperator::LogicalOr => 1,
        BinaryOperator::LogicalAnd => 2,
        BinaryOperator::Equality | BinaryOperator::Inequality | BinaryOperator::Has
            | BinaryOperator::Lacks => 3,
        BinaryOperator::Greater | BinaryOperator::GreaterOrEqual | BinaryOperator::Less
            | BinaryOperator::LessOrEqual => 4,
        BinaryOperator::Range => 5,
        BinaryOperator::Add | BinaryOperator::Subtract => 6,
        BinaryOperator::Multiply | BinaryOperator::Divide | BinaryOperator::Modulo => 7,
        BinaryOperator::Exponentiation => 8,
    }
}

/// How tightly an expression holds together: assignments loosest, then binary operators by
/// their power, then unary operators, then everything that is closed on both sides.
pub open spec fn binding_power(e: Expr) -> int {
    match e {
        Expr::Assign(_) | Expr::Ternary(_) => 0,
        Expr::Binary(b) => operator_power(b.op),
        Expr::Unary(_) => 9,
        _ => 10,
    }
}

/// The operands of `b` nest as precedence and associativity demand: every binary operator
/// but the range associates to the left, so its left operand may bind as loosely as itself and
/// its right operand binds tighter; a range does not chain, so both its operands bind tighter.
pub open spec fn operands_bind(b: BinaryOp) -> bool {
    let p = operator_power(b.op);
    &&& b.op == BinaryOperator::Range ==> binding_power(*b.lhs) > p
    &&& b.op != BinaryOperator::Range ==> binding_power(*b.lhs) >= p
    &&& binding_power(*b.rhs) > p
}

/// No two parameters have the same name.
pub open spec fn distinct_params(ps: Seq<FunctionParam>) -> bool {
    forall|i: int, j: int| 0 <= i < j < ps.len() ==> (#[trigger] ps[i]).name@ != (#[trigger] ps[j]).name@
}

/// Every function and loop over items in `e` has a body of the parser's shape, no function has
/// two parameters of one name, operators nest by precedence and associativity, and assignments
/// assign to variables or accesses.
pub open spec fn shaped_expr(e: Expr) -> bool
    decreases e,
{
    match e {
        Expr::AnonymousFunction(af) => distinct_params(af.params@) && match *af.body {
            Stmt::Block(b) => shaped_stmts(b.inner.inner@),
            Stmt::Expr(x) => shaped_expr(x),
            _ => false,
        },
        Expr::Binary(b) => operands_bind(b) && shaped_expr(*b.lhs) && shaped_expr(*b.rhs),
        Expr::Unary(u) => binding_power(*u.rhs) >= 9 && shaped_expr(*u.rhs),
        Expr::Ternary(t) => shaped_expr(*t.cond) && shaped_expr(*t.then_branch) && shaped_expr(*t.or_else),
        Expr::Call(c) => shaped_exprs(c.args@) && shaped_expr(*c.callee),
        Expr::Access(a) => shaped_expr(*a.index) && shaped_expr(*a.subscripted),
        Expr::Assign(a) => (*a.name is Variable || *a.name is Access) && shaped_expr(*a.name)
            && shaped_expr(*a.value),
        Expr::List(l) => shaped_exprs(l.elements@),
        Expr::AssociativeArray(a) => shaped_pairs(a.elements@),
        Expr::Grouping(g) => shaped_expr(*g.expr),
        Expr::Literal(_) => true,
        Expr::Variable(_) => true,
    }
}

/// Every expression of `es` is of the parser's shape.
pub open spec fn shaped_exprs(es: Seq<Expr>) -> bool
    decreases es,
{
    forall|i: int| 0 <= i < es.len() ==> shaped_expr(#[trigger] es[i])
}

/// Every value of `ps` is of the parser's shape.
pub open spec fn shaped_pairs(ps: Seq<(Literal, Expr)>) -> bool
    decreases ps,
{
    forall|i: int| 0 <= i < ps.len() ==> shaped_expr((#[trigger] ps[i]).1)
}

/// Every function and loop over items in `s` has a body of the parser's shape.
pub open spec fn shaped_stmt(s: Stmt) -> bool
    decreases s,
{
    match s {
        Stmt::Decl(Decl::Local(l)) => shaped_expr(l.value),
        Stmt::Decl(Decl::Function(f)) => distinct_params(f.params@) && match *f.body {
            Stmt::Block(b) => shaped_stmts(b.inner.inner@),
            Stmt::Expr(x) => shaped_expr(x),
            _ => false,
        },
        Stmt::Cond(c) => shaped_expr(c.cond) && shaped_stmt(*c.then_branch) && match c.or_else {
            Some(o) => shaped_stmt(*o),
            None => true,
        },
        Stmt::While(w) => shaped_expr(w.cond) && shaped_stmt(*w.body),
        Stmt::ForEach(fe) => shaped_expr(fe.iterable) && match *fe.body {
            Stmt::Block(b) => shaped_stmts(b.inner.inner@),
            _ => false,
        },
        Stmt::Block(b) => shaped_stmts(b.inner.inner@),
        Stmt::Expr(e) => shaped_expr(e),
        Stmt::Return(r) => match r.value {
            Some(e) => shaped_expr(e),
            None => true,
        },
        Stmt::Break(_) => true,
        Stmt::Continue(_) => true,
    }
}

/// Every statement of `ss` is of the parser's shape.
pub open spec fn shaped_stmts(ss: Seq<Stmt>) -> bool
    decreases ss,
{
    forall|i: int| 0 <= i < ss.len() ==> shaped_stmt(#[trigger] ss[i])
}

/// Where `retorna`, `para` and `continua` stand in `e`: a return only inside a function, a
/// break or a continue only inside a loop (`in_fn` and `in_loop` say whether `e` itself is).
pub open spec fn jumps_placed_expr(e: Expr, in_fn: bool, in_loop: bool) -> bool
    decreases e,
{
    match e {
        Expr::AnonymousFunction(af) => match *af.body {
            Stmt::Block(b) => jumps_placed_stmts(b.inner.inner@, true, in_loop),
            Stmt::Expr(x) => jumps_placed_expr(x, true, in_loop),
            _ => true,
        },
        Expr::Binary(b) => jumps_placed_expr(*b.lhs, in_fn, in_loop) && jumps_placed_expr(*b.rhs, in_fn, in_loop),
        Expr::Unary(u) => jumps_placed_expr(*u.rhs, in_fn, in_loop),
        Expr::Ternary(t) => jumps_placed_expr(*t.cond, in_fn, in_loop) && jumps_placed_expr(*t.then_branch, in_fn, in_loop)
            && jumps_placed_expr(*t.or_else, in_fn, in_loop),
        Expr::Call(c) => jumps_placed_exprs(c.args@, in_fn, in_loop) && jumps_placed_expr(*c.callee, in_fn, in_loop),
        Expr::Access(a) => jumps_placed_expr(*a.index, in_fn, in_loop) && jumps_placed_expr(*a.subscripted, in_fn, in_loop),
        Expr::Assign(a) => jumps_placed_expr(*a.name, in_fn, in_loop) && jumps_placed_expr(*a.value, in_fn, in_loop),
        Expr::List(l) => jumps_placed_exprs(l.elements@, in_fn, in_loop),
        Expr::AssociativeArray(a) => jumps_placed_pairs(a.elements@, in_fn, in_loop),
        Expr::Grouping(g) => jumps_placed_expr(*g.expr, in_fn, in_loop),
        Expr::Literal(_) => true,
        Expr::Variable(_) => true,
    }
}

/// `jumps_placed_expr` for every expression of `es`.
pub open spec fn jumps_placed_exprs(es: Seq<Expr>, in_fn: bool, in_loop: bool) -> bool
    decreases es,
{
    forall|i: int| 0 <= i < es.len() ==> jumps_placed_expr(#[trigger] es[i], in_fn, in_loop)
}

/// `jumps_placed_expr` for every value of `ps`.
pub open spec fn jumps_placed_pairs(ps: Seq<(Literal, Expr)>, in_fn: bool, in_loop: bool) -> bool
    decreases ps,
{
    forall|i: int| 0 <= i < ps.len() ==> jumps_placed_expr((#[trigger] ps[i]).1, in_fn, in_loop)
}

/// Where `retorna`, `para` and `continua` stand in `s`: a return only inside a function, a
/// break or a continue only inside a loop (`in_fn` and `in_loop` say whether `s` itself is).
/// A function inside a loop is inside the loop too.
pub open spec fn jumps_placed_stmt(s: Stmt, in_fn: bool, in_loop: bool) -> bool
    decreases s,
{
    match s {
        Stmt::Decl(Decl::Local(l)) => jumps_placed_expr(l.value, in_fn, in_loop),
        Stmt::Decl(Decl::Function(f)) => jumps_placed_stmt(*f.body, true, in_loop),
        Stmt::Cond(c) => jumps_placed_expr(c.cond, in_fn, in_loop) && jumps_placed_stmt(*c.then_branch, in_fn, in_loop)
            && match c.or_else {
            Some(o) => jumps_placed_stmt(*o, in_fn, in_loop),
            None => true,
        },
        Stmt::While(w) => jumps_placed_expr(w.cond, in_fn, in_loop) && jumps_placed_stmt(*w.body, in_fn, true),
        Stmt::ForEach(fe) => jumps_placed_expr(fe.iterable, in_fn, in_loop) && jumps_placed_stmt(*fe.body, in_fn, true),
        Stmt::Block(b) => jumps_placed_stmts(b.inner.inner@, in_fn, in_loop),
        Stmt::Expr(e) => jumps_placed_expr(e, in_fn, in_loop),
        Stmt::Return(r) => in_fn && match r.value {
            Some(e) => jumps_placed_expr(e, in_fn, in_loop),
            None => true,
        },
        Stmt::Break(_) => in_loop,
        Stmt::Continue(_) => in_loop,
    }
}

/// `jumps_placed_stmt` for every statement of `ss`.
pub open spec fn jumps_placed_stmts(ss: Seq<Stmt>, in_fn: bool, in_loop: bool) -> bool
    decreases ss,
{
    forall|i: int| 0 <= i < ss.len() ==> jumps_placed_stmt(#[trigger] ss[i], in_fn, in_loop)
}

/// The identifiers of the parameters, in order.
pub open spec fn param_uids(ps: Seq<FunctionParam>) -> Seq<usize>
    decreases ps.len(),
{
    if ps.len() == 0 {
        Seq::empty()
    } else {
        param_uids(ps.drop_last()).push(ps.last().uid)
    }
}

/// The identifiers that the parser hands out in `e`, in the order it hands them out: of
/// variable references, parameters, functions.
pub open spec fn uids_expr(e: Expr) -> Seq<usize>
    decreases e,
{
    match e {
        Expr::Variable(v) => seq![v.uid],
        Expr::AnonymousFunction(f) => param_uids(f.params@) + uids_stmt(*f.body) + seq![f.uid],
        Expr::Binary(b) => uids_expr(*b.lhs) + uids_expr(*b.rhs),
        Expr::Unary(u) => uids_expr(*u.rhs),
        Expr::Ternary(t) => uids_expr(*t.cond) + uids_expr(*t.then_branch) + uids_expr(*t.or_else),
        Expr::Call(c) => uids_expr(*c.callee) + uids_exprs(c.args@),
        Expr::Access(a) => uids_expr(*a.subscripted) + uids_expr(*a.index),
        Expr::Assign(a) => uids_expr(*a.name) + uids_expr(*a.value),
        Expr::List(l) => uids_exprs(l.elements@),
        Expr::AssociativeArray(a) => uids_pairs(a.elements@),
        Expr::Grouping(g) => uids_expr(*g.expr),
        Expr::Literal(_) => Seq::empty(),
    }
}

/// The identifiers in `es`, one expression after the other.
pub open spec fn uids_exprs(es: Seq<Expr>) -> Seq<usize>
    decreases es,
{
    if es.len() == 0 {
        Seq::empty()
    } else {
        uids_exprs(es.drop_last()) + uids_expr(es.last())
    }
}

/// The identifiers in the values of `ps`, one after the other.
pub open spec fn uids_pairs(ps: Seq<(Literal, Expr)>) -> Seq<usize>
    decreases ps,
{
    if ps.len() == 0 {
        Seq::empty()
    } else {
        uids_pairs(ps.drop_last()) + uids_expr(ps.last().1)
    }
}

/// The identifiers that the parser hands out in `s`, in the order it hands them out: of
/// declarations, references, parameters and loop items.
pub open spec fn uids_stmt(s: Stmt) -> Seq<usize>
    decreases s,
{
    match s {
        Stmt::Decl(Decl::Local(l)) => uids_expr(l.value) + seq![l.uid],
        Stmt::Decl(Decl::Function(f)) => param_uids(f.params@) + uids_stmt(*f.body) + seq![f.uid],
        Stmt::Cond(c) => uids_expr(c.cond) + uids_stmt(*c.then_branch) + match c.or_else {
            Some(o) => uids_stmt(*o),
            None => Seq::empty(),
        },
        Stmt::While(w) => uids_expr(w.cond) + uids_stmt(*w.body),
        Stmt::ForEach(fe) => uids_expr(fe.iterable) + uids_stmt(*fe.body) + seq![fe.item.uid],
        Stmt::Block(b) => uids_stmts(b.inner.inner@),
        Stmt::Expr(e) => uids_expr(e),
        Stmt::Return(r) => match r.value {
            Some(e) => uids_expr(e),
            None => Seq::empty(),
        },
        Stmt::Break(_) => Seq::empty(),
        Stmt::Continue(_) => Seq::empty(),
    }
}

/// The identifiers in `ss`, one statement after the other.
pub open spec fn uids_stmts(ss: Seq<Stmt>) -> Seq<usize>
    decreases ss,
{
    if ss.len() == 0 {
        Seq::empty()
    } else {
        uids_stmts(ss.drop_last()) + uids_stmt(ss.last())
    }
}

/// `u` holds no identifier twice, and each lies above `lo` and at most `hi`.
pub open spec fn fresh_uids(u: Seq<usize>, lo: int, hi: int) -> bool {
    &&& u.no_duplicates()
    &&& forall|i: int| 0 <= i < u.len() ==> lo < #[trigger] u[i] <= hi
}

/// Identifiers handed out one span after the other are all different.
pub proof fn lemma_fresh_concat(a: Seq<usize>, b: Seq<usize>, lo: int, mid: int, hi: int)
    requires
        fresh_uids(a, lo, mid),
        fresh_uids(b, mid, hi),
        lo <= mid <= hi,
    ensures
        fresh_uids(a + b, lo, hi),
{
    let c = a + b;
    assert forall|i: int| 0 <= i < c.len() implies lo < #[trigger] c[i] <= hi by {
        if i < a.len() {
            assert(c[i] == a[i]);
        } else {
            assert(c[i] == b[i - a.len()]);
        }
    }
    assert forall|i: int, j: int| 0 <= i < c.len() && 0 <= j < c.len() && i != j implies c[i] != c[j] by {
        if i < a.len() && j < a.len() {
            assert(c[i] == a[i] && c[j] == a[j]);
        } else if i >= a.len() && j >= a.len() {
            assert(c[i] == b[i - a.len()] && c[j] == b[j - a.len()]);
        } else if i < a.len() {
            assert(c[i] == a[i] && c[j] == b[j - a.len()]);
        } else {
            assert(c[j] == a[j] && c[i] == b[i - a.len()]);
        }
    }
}

/// A list of statements of the parser's shape has capture records.
pub proof fn lemma_shaped_seq(ss: Seq<Stmt>)
    requires
        shaped_stmts(ss),
    ensures
        captures_seq(ss) is Some,
    decreases ss,
{
    if ss.len() > 0 {
        assert(shaped_stmt(ss[0]));
        lemma_shaped_stmt(ss[0], ss.drop_first());
        assert forall|i: int| 0 <= i < ss.drop_first().len() implies shaped_stmt(#[trigger] ss.drop_first()[i]) by {
            assert(ss.drop_first()[i] == ss[i + 1]);
        }
        lemma_shaped_seq(ss.drop_first());
    }
}

/// A statement of the parser's shape has capture records.
pub proof fn lemma_shaped_stmt(s: Stmt, rest: Seq<Stmt>)
    requires
        shaped_stmt(s),
    ensures
        captures_stmt_in(s, rest) is Some,
    decreases s,
{
    match s {
        Stmt::Decl(Decl::Local(l)) => lemma_shaped_expr(l.value),
        Stmt::Decl(Decl::Function(f)) => match *f.body {
            Stmt::Block(b) => lemma_shaped_seq(b.inner.inner@),
            Stmt::Expr(x) => lemma_shaped_expr(x),
            _ => {},
        },
        Stmt::Cond(c) => {
            lemma_shaped_expr(c.cond);
            let t = *c.then_branch;
            assert(shaped_stmt(t));
            match t {
                Stmt::Block(b) => lemma_shaped_seq(b.inner.inner@),
                _ => {},
            }
            match c.or_else {
                Some(o) => {
                    let oo = *o;
                    assert(shaped_stmt(oo));
                    match oo {
                        Stmt::Block(b) => lemma_shaped_seq(b.inner.inner@),
                        _ => {},
                    }
                },
                None => {},
            }
        },
        Stmt::While(w) => {
            lemma_shaped_expr(w.cond);
            assert(shaped_stmt(*w.body));
            match *w.body {
                Stmt::Block(b) => lemma_shaped_seq(b.inner.inner@),
                _ => {},
            }
        },
        Stmt::ForEach(fe) => {
            lemma_shaped_expr(fe.iterable);
            match *fe.body {
                Stmt::Block(b) => lemma_shaped_seq(b.inner.inner@),
                _ => {},
            }
        },
        Stmt::Block(b) => lemma_shaped_seq(b.inner.inner@),
        Stmt::Expr(e) => lemma_shaped_expr(e),
        Stmt::Return(r) => match r.value {
            Some(e) => lemma_shaped_expr(e),
            None => {},
        },
        Stmt::Break(_) => {},
        Stmt::Continue(_) => {},
    }
}

/// An expression of the parser's shape has capture records.
pub proof fn lemma_shaped_expr(e: Expr)
    requires
        shaped_expr(e),
    ensures
        captures_expr(e) is Some,
    decreases e,
{
    match e {
        Expr::AnonymousFunction(af) => match *af.body {
            Stmt::Block(b) => lemma_shaped_seq(b.inner.inner@),
            Stmt::Expr(x) => lemma_shaped_expr(x),
            _ => {},
        },
        Expr::Binary(b) => {
            lemma_shaped_expr(*b.lhs);
            lemma_shaped_expr(*b.rhs);
        },
        Expr::Unary(u) => lemma_shaped_expr(*u.rhs),
        Expr::Ternary(t) => {
            lemma_shaped_expr(*t.cond);
            lemma_shaped_expr(*t.then_branch);
            lemma_shaped_expr(*t.or_else);
        },
        Expr::Call(c) => {
            lemma_shaped_exprs(c.args@);
            lemma_shaped_expr(*c.callee);
        },
        Expr::Access(a) => {
            lemma_shaped_expr(*a.index);
            lemma_shaped_expr(*a.subscripted);
        },
        Expr::Assign(a) => {
            lemma_shaped_expr(*a.name);
            lemma_shaped_expr(*a.value);
        },
        Expr::List(l) => lemma_shaped_exprs(l.elements@),
        Expr::AssociativeArray(a) => lemma_shaped_pairs(a.elements@),
        Expr::Grouping(g) => lemma_shaped_expr(*g.expr),
        Expr::Literal(_) => {},
        Expr::Variable(_) => {},
    }
}

/// A list of expressions of the parser's shape has capture records.
pub proof fn lemma_shaped_exprs(es: Seq<Expr>)
    requires
        shaped_exprs(es),
    ensures
        captures_exprs(es) is Some,
    decreases es,
{
    if es.len() > 0 {
        assert(shaped_expr(es[es.len() - 1]));
        lemma_shaped_expr(es[es.len() - 1]);
        assert forall|i: int| 0 <= i < es.drop_last().len() implies shaped_expr(#[trigger] es.drop_last()[i]) by {
            assert(es.drop_last()[i] == es[i]);
        }
        lemma_shaped_exprs(es.drop_last());
    }
}

/// A list of pairs whose values are of the parser's shape has capture records.
pub proof fn lemma_shaped_pairs(ps: Seq<(Literal, Expr)>)
    requires
        shaped_pairs(ps),
    ensures
        captures_pairs(ps) is Some,
    decreases ps,
{
    if ps.len() > 0 {
        assert(shaped_expr(ps[ps.len() - 1].1));
        lemma_shaped_expr(ps[ps.len() - 1].1);
        assert forall|i: int| 0 <= i < ps.drop_last().len() implies shaped_expr((#[trigger] ps.drop_last()[i]).1) by {
            assert(ps.drop_last()[i] == ps[i]);
        }
        lemma_shaped_pairs(ps.drop_last());
    }
}

} // verus!
