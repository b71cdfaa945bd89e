//! The syntax tree of programs.

use vstd::prelude::*;
use crate::span::SourceSpan;
use crate::token::{Token, TokenKind};

verus! {

/// A sequence of statements and the region it covers.
#[derive(Debug)]
pub struct Ast {
    pub inner: Vec<Stmt>,
    pub span: SourceSpan,
}

impl Ast {
    /// No statements.
    pub fn new(span: SourceSpan) -> (r: Ast)
        ensures
            r.inner@.len() == 0,
            r.span == span,
    {
        Ast { inner: Vec::new(), span }
    }

    /// The given statements.
    pub fn from(inner: Vec<Stmt>, span: SourceSpan) -> (r: Ast)
        ensures
            r.inner@ == inner@,
            r.span == span,
    {
        Ast { inner, span }
    }
}

/// Statements.
#[derive(Debug)]
pub enum Stmt {
    Expr(Expr),
    Decl(Decl),
    Cond(Cond),
    While(While),
    ForEach(ForEach),
    Block(Block),
    Return(Return),
    Break(Break),
    Continue(Continue),
}

/// The region of a statement.
pub open spec fn stmt_span(s: Stmt) -> SourceSpan {
    match s {
        Stmt::Expr(e) => expr_span(e),
        Stmt::Decl(Decl::Local(l)) => l.span,
        Stmt::Decl(Decl::Function(f)) => f.span,
        Stmt::Cond(c) => c.span,
        Stmt::While(w) => w.span,
        Stmt::ForEach(f) => f.span,
        Stmt::Block(b) => b.span,
        Stmt::Return(r) => r.span,
        Stmt::Break(b) => b.span,
        Stmt::Continue(c) => c.span,
    }
}

impl Stmt {
    /// The region of the statement.
    pub fn get_span(&self) -> (r: &SourceSpan)
        ensures
            *r == stmt_span(*self),
    {
        match self {
            Stmt::Expr(expr) => expr.get_span(),
            Stmt::Decl(decl) => match decl {
                Decl::Local(local) => &local.span,
                Decl::Function(function) => &function.span,
            },
            Stmt::Cond(cond) => &cond.span,
            Stmt::While(while_stmt) => &while_stmt.span,
            Stmt::ForEach(for_each) => &for_each.span,
            Stmt::Block(block) => &block.span,
            Stmt::Return(return_stmt) => &return_stmt.span,
            Stmt::Break(break_stmt) => &break_stmt.span,
            Stmt::Continue(continue_stmt) => &continue_stmt.span,
        }
    }
}

/// `retorna`, with an optional value.
#[derive(Debug)]
pub struct Return {
    pub value: Option<Expr>,
    pub span: SourceSpan,
}

impl Return {
    pub fn new(value: Option<Expr>, span: SourceSpan) -> (r: Return)
        ensures
            r.value == value,
            r.span == span,
    {
        Return { value, span }
    }
}

/// Leaving a loop.
#[derive(Debug, Clone)]
pub struct Break {
    pub span: SourceSpan,
}

impl Break {
    pub fn new(span: SourceSpan) -> (r: Break)
        ensures
            r.span == span,
    {
        Break { span }
    }
}

/// Going on with the next round of a loop.
#[derive(Debug, Clone)]
pub struct Continue {
    pub span: SourceSpan,
}

impl Continue {
    pub fn new(span: SourceSpan) -> (r: Continue)
        ensures
            r.span == span,
    {
        Continue { span }
    }
}

/// A block of statements.
#[derive(Debug)]
pub struct Block {
    pub inner: Ast,
    pub span: SourceSpan,
}

impl Block {
    pub fn new(inner: Ast, span: SourceSpan) -> (r: Block)
        ensures
            r.inner == inner,
            r.span == span,
    {
        Block { inner, span }
    }
}

/// Declarations.
#[derive(Debug)]
pub enum Decl {
    Local(LocalDecl),
    Function(FunctionDecl),
}

/// The name a declaration declares.
pub open spec fn decl_name(d: Decl) -> Seq<char> {
    match d {
        Decl::Local(l) => l.name@,
        Decl::Function(f) => f.name@,
    }
}

/// The identifier of a declaration.
pub open spec fn decl_uid(d: Decl) -> usize {
    match d {
        Decl::Local(l) => l.uid,
        Decl::Function(f) => f.uid,
    }
}

impl Decl {
    /// The declared name.
    pub fn get_name(&self) -> (r: &str)
        ensures
            r@ == decl_name(*self),
    {
        match self {
            Decl::Local(local) => local.name.as_str(),
            Decl::Function(function) => function.name.as_str(),
        }
    }

    /// The declaration's identifier.
    pub fn get_uid(&self) -> (r: usize)
        ensures
            r == decl_uid(*self),
    {
        match self {
            Decl::Local(local) => local.uid,
            Decl::Function(function) => function.uid,
        }
    }
}

/// `seja name = value`.
#[derive(Debug)]
pub struct LocalDecl {
    pub name: String,
    pub value: Expr,
    pub captured: bool,
    pub uid: usize,
    pub span: SourceSpan,
}

impl LocalDecl {
    /// A declaration that no function captures (yet).
    pub fn new(name: String, value: Expr, uid: usize, span: SourceSpan) -> (r: LocalDecl)
        ensures
            r.name == name,
            r.value == value,
            !r.captured,
            r.uid == uid,
            r.span == span,
    {
        LocalDecl { name, value, captured: false, uid, span }
    }
}

/// A parameter of a function.
#[derive(Debug, Clone)]
pub struct FunctionParam {
    pub name: String,
    pub uid: usize,
    pub captured: bool,
    pub span: SourceSpan,
}

impl FunctionParam {
    /// A parameter that no function captures (yet).
    pub fn new(name: String, uid: usize, span: SourceSpan) -> (r: FunctionParam)
        ensures
            r.name == name,
            r.uid == uid,
            !r.captured,
            r.span == span,
    {
        FunctionParam { name, uid, captured: false, span }
    }
}

/// `função name(params) body`.
#[derive(Debug)]
pub struct FunctionDecl {
    pub name: String,
    pub params: Vec<FunctionParam>,
    pub body: Box<Stmt>,
    pub free_vars: Vec<String>,
    pub captured: bool,
    pub uid: usize,
    pub span: SourceSpan,
}

impl FunctionDecl {
    /// A declaration with no free variables recorded (yet), not captured.
    pub fn new(name: String, params: Vec<FunctionParam>, body: Stmt, uid: usize, span: SourceSpan) -> (r:
        FunctionDecl)
        ensures
            r.name == name,
            r.params@ == params@,
            *r.body == body,
            r.free_vars@.len() == 0,
            !r.captured,
            r.uid == uid,
            r.span == span,
    {
        FunctionDecl {
            name,
            params,
            body: Box::new(body),
            free_vars: Vec::new(),
            captured: false,
            uid,
            span,
        }
    }
}

/// `se cond então then_branch senão or_else`.
#[derive(Debug)]
pub struct Cond {
    pub cond: Expr,
    pub then_branch: Box<Stmt>,
    pub or_else: Option<Box<Stmt>>,
    pub span: SourceSpan,
}

impl Cond {
    pub fn new(cond: Expr, then_branch: Stmt, or_else: Option<Stmt>, span: SourceSpan) -> (r: Cond)
        ensures
            r.cond == cond,
            *r.then_branch == then_branch,
            or_else is None ==> r.or_else is None,
            or_else matches Some(e) ==> r.or_else matches Some(b) && *b == e,
            r.span == span,
    {
        let or_else = match or_else {
            Some(e) => Some(Box::new(e)),
            None => None,
        };
        Cond { cond, then_branch: Box::new(then_branch), or_else, span }
    }
}

/// `enquanto cond faça body`.
#[derive(Debug)]
pub struct While {
    pub cond: Expr,
    pub body: Box<Stmt>,
    pub span: SourceSpan,
}

impl While {
    pub fn new(cond: Expr, body: Stmt, span: SourceSpan) -> (r: While)
        ensures
            r.cond == cond,
            *r.body == body,
            r.span == span,
    {
        While { cond, body: Box::new(body), span }
    }
}

/// The variable of a `para cada` loop.
#[derive(Debug, Clone)]
pub struct ForEachItem {
    pub name: String,
    pub uid: usize,
    pub captured: bool,
    pub span: SourceSpan,
}

impl ForEachItem {
    /// A loop variable that no function captures (yet).
    pub fn new(name: String, uid: usize, span: SourceSpan) -> (r: ForEachItem)
        ensures
            r.name == name,
            r.uid == uid,
            !r.captured,
            r.span == span,
    {
        ForEachItem { name, uid, captured: false, span }
    }
}

/// `para cada item em iterable faça body`.
#[derive(Debug)]
pub struct ForEach {
    pub item: ForEachItem,
    pub iterable: Expr,
    pub body: Box<Stmt>,
    pub span: SourceSpan,
}

impl ForEach {
    pub fn new(item: ForEachItem, iterable: Expr, body: Stmt, span: SourceSpan) -> (r: ForEach)
        ensures
            r.item == item,
            r.iterable == iterable,
            *r.body == body,
            r.span == span,
    {
        ForEach { item, iterable, body: Box::new(body), span }
    }
}

/// Expressions.
#[derive(Debug)]
pub enum Expr {
    Binary(BinaryOp),
    Unary(UnaryOp),
    Ternary(TernaryOp),
    Call(Call),
    Assign(Assign),
    Access(Access),
    List(List),
    Grouping(Grouping),
    Literal(Literal),
    Variable(Variable),
    AssociativeArray(AssociativeArray),
    AnonymousFunction(AnonymousFunction),
}

/// The region of an expression.
pub open spec fn expr_span(e: Expr) -> SourceSpan {
    match e {
        Expr::Binary(x) => x.span,
        Expr::Unary(x) => x.span,
        Expr::Ternary(x) => x.span,
        Expr::Call(x) => x.span,
        Expr::Assign(x) => x.span,
        Expr::Access(x) => x.span,
        Expr::List(x) => x.span,
        Expr::Grouping(x) => x.span,
        Expr::Literal(x) => x.span,
        Expr::Variable(x) => x.span,
        Expr::AssociativeArray(x) => x.span,
        Expr::AnonymousFunction(x) => x.span,
    }
}

impl Expr {
    /// The region of the expression.
    pub fn get_span(&self) -> (r: &SourceSpan)
        ensures
            *r == expr_span(*self),
    {
        match self {
            Expr::Binary(x) => &x.span,
            Expr::Unary(x) => &x.span,
            Expr::Ternary(x) => &x.span,
            Expr::Call(x) => &x.span,
            Expr::Assign(x) => &x.span,
            Expr::Access(x) => &x.span,
            Expr::List(x) => &x.span,
            Expr::Grouping(x) => &x.span,
            Expr::Literal(x) => &x.span,
            Expr::Variable(x) => &x.span,
            Expr::AssociativeArray(x) => &x.span,
            Expr::AnonymousFunction(x) => &x.span,
        }
    }
}

/// `lhs op rhs`.
#[derive(Debug)]
pub struct BinaryOp {
    pub lhs: Box<Expr>,
    pub op: BinaryOperator,
    pub rhs: Box<Expr>,
    pub span: SourceSpan,
}

impl BinaryOp {
    pub fn new(lhs: Expr, op: BinaryOperator, rhs: Expr, span: SourceSpan) -> (r: BinaryOp)
        ensures
            *r.lhs == lhs,
            r.op == op,
            *r.rhs == rhs,
            r.span == span,
    {
        BinaryOp { lhs: Box::new(lhs), op, rhs: Box::new(rhs), span }
    }
}

/// `op rhs`.
#[derive(Debug)]
pub struct UnaryOp {
    pub op: UnaryOperator,
    pub rhs: Box<Expr>,
    pub span: SourceSpan,
}

impl UnaryOp {
    pub fn new(op: UnaryOperator, rhs: Expr, span: SourceSpan) -> (r: UnaryOp)
        ensures
            r.op == op,
            *r.rhs == rhs,
            r.span == span,
    {
        UnaryOp { op, rhs: Box::new(rhs), span }
    }
}

/// `cond ? then_branch : or_else`.
#[derive(Debug)]
pub struct TernaryOp {
    pub cond: Box<Expr>,
    pub then_branch: Box<Expr>,
    pub or_else: Box<Expr>,
    pub span: SourceSpan,
}

impl TernaryOp {
    pub fn new(cond: Expr, then_branch: Expr, or_else: Expr, span: SourceSpan) -> (r: TernaryOp)
        ensures
            *r.cond == cond,
            *r.then_branch == then_branch,
            *r.or_else == or_else,
            r.span == span,
    {
        TernaryOp { cond: Box::new(cond), then_branch: Box::new(then_branch), or_else: Box::new(or_else), span }
    }
}

/// `callee(args)`.
#[derive(Debug)]
pub struct Call {
    pub callee: Box<Expr>,
    pub args: Vec<Expr>,
    pub span: SourceSpan,
}

impl Call {
    pub fn new(callee: Expr, args: Vec<Expr>, span: SourceSpan) -> (r: Call)
        ensures
            *r.callee == callee,
            r.args@ == args@,
            r.span == span,
    {
        Call { callee: Box::new(callee), args, span }
    }
}

/// `name = value`.
#[derive(Debug)]
pub struct Assign {
    pub name: Box<Expr>,
    pub value: Box<Expr>,
    pub span: SourceSpan,
}

impl Assign {
    pub fn new(name: Expr, value: Expr, span: SourceSpan) -> (r: Assign)
        ensures
            *r.name == name,
            *r.value == value,
            r.span == span,
    {
        Assign { name: Box::new(name), value: Box::new(value), span }
    }
}

/// `subscripted[index]`.
#[derive(Debug)]
pub struct Access {
    pub subscripted: Box<Expr>,
    pub index: Box<Expr>,
    pub span: SourceSpan,
}

impl Access {
    pub fn new(subscripted: Expr, index: Expr, span: SourceSpan) -> (r: Access)
        ensures
            *r.subscripted == subscripted,
            *r.index == index,
            r.span == span,
    {
        Access { subscripted: Box::new(subscripted), index: Box::new(index), span }
    }
}

/// `[elements]`.
#[derive(Debug)]
pub struct List {
    pub elements: Vec<Expr>,
    pub span: SourceSpan,
}

impl List {
    pub fn new(elements: Vec<Expr>, span: SourceSpan) -> (r: List)
        ensures
            r.elements@ == elements@,
            r.span == span,
    {
        List { elements, span }
    }
}

/// `{ key: value, ... }`.
#[derive(Debug)]
pub struct AssociativeArray {
    pub elements: Vec<(Literal, Expr)>,
    pub span: SourceSpan,
}

impl AssociativeArray {
    pub fn new(elements: Vec<(Literal, Expr)>, span: SourceSpan) -> (r: AssociativeArray)
        ensures
            r.elements@ == elements@,
            r.span == span,
    {
        AssociativeArray { elements, span }
    }
}

/// `(expr)`.
#[derive(Debug)]
pub struct Grouping {
    pub expr: Box<Expr>,
    pub span: SourceSpan,
}

impl Grouping {
    pub fn new(expr: Expr, span: SourceSpan) -> (r: Grouping)
        ensures
            *r.expr == expr,
            r.span == span,
    {
        Grouping { expr: Box::new(expr), span }
    }
}

/// A literal value.
#[derive(Debug, Clone)]
pub struct Literal {
    pub value: crate::token::Literal,
    pub span: SourceSpan,
}

impl Literal {
    pub fn new(value: crate::token::Literal, span: SourceSpan) -> (r: Literal)
        ensures
            r.value == value,
            r.span == span,
    {
        Literal { value, span }
    }
}

/// A reference to a variable.
#[derive(Debug, Clone)]
pub struct Variable {
    pub name: String,
    pub uid: usize,
    pub captured: bool,
    pub span: SourceSpan,
}

impl Variable {
    /// A reference that no function captures (yet).
    pub fn new(name: String, id: usize, span: SourceSpan) -> (r: Variable)
        ensures
            r.name == name,
            r.uid == id,
            !r.captured,
            r.span == span,
    {
        Variable { name, uid: id, captured: false, span }
    }
}

/// `função(params) body`, without a name.
#[derive(Debug)]
pub struct AnonymousFunction {
    pub params: Vec<FunctionParam>,
    pub body: Box<Stmt>,
    pub uid: usize,
    pub free_vars: Vec<String>,
    pub span: SourceSpan,
}

impl AnonymousFunction {
    /// A function with no free variables recorded (yet).
    pub fn new(params: Vec<FunctionParam>, body: Stmt, uid: usize, span: SourceSpan) -> (r:
        AnonymousFunction)
        ensures
            r.params@ == params@,
            *r.body == body,
            r.uid == uid,
            r.free_vars@.len() == 0,
            r.span == span,
    {
        AnonymousFunction { params, body: Box::new(body), uid, free_vars: Vec::new(), span }
    }
}

/// Binary operators.
#[derive(Debug, Clone, Copy, PartialEq, Eq, Structural)]
pub enum BinaryOperator {
    Add,
    Subtract,
    Multiply,
    Divide,
    Exponentiation,
    Modulo,
    Equality,
    Inequality,
    Greater,
    GreaterOrEqual,
    Less,
    LessOrEqual,
    LogicalAnd,
    LogicalOr,
    Range,
    Has,
    Lacks,
}

/// The binary operator a token kind stands for.
pub open spec fn binary_operator_of(kind: TokenKind) -> Option<BinaryOperator> {
    match kind {
        TokenKind::Plus => Some(BinaryOperator::Add),
        TokenKind::Minus => Some(BinaryOperator::Subtract),
        TokenKind::Star => Some(BinaryOperator::Multiply),
        TokenKind::Slash => Some(BinaryOperator::Divide),
        TokenKind::Percent => Some(BinaryOperator::Modulo),
        TokenKind::Caret => Some(BinaryOperator::Exponentiation),
        TokenKind::Equals => Some(BinaryOperator::Equality),
        TokenKind::Greater => Some(BinaryOperator::Greater),
        TokenKind::GreaterOrEqual => Some(BinaryOperator::GreaterOrEqual),
        TokenKind::Less => Some(BinaryOperator::Less),
        TokenKind::LessOrEqual => Some(BinaryOperator::LessOrEqual),
        TokenKind::Or => Some(BinaryOperator::LogicalOr),
        TokenKind::And => Some(BinaryOperator::LogicalAnd),
        TokenKind::Until => Some(BinaryOperator::Range),
        _ => None,
    }
}

impl BinaryOperator {
    /// The operator of an operator token.
    pub fn from_token(value: Token) -> (r: BinaryOperator)
        requires
            binary_operator_of(value.kind) is Some,
        ensures
            binary_operator_of(value.kind) == Some(r),
    {
        match value.kind {
            TokenKind::Plus => BinaryOperator::Add,
            TokenKind::Minus => BinaryOperator::Subtract,
            TokenKind::Star => BinaryOperator::Multiply,
            TokenKind::Slash => BinaryOperator::Divide,
            TokenKind::Percent => BinaryOperator::Modulo,
            TokenKind::Caret => BinaryOperator::Exponentiation,
            TokenKind::Equals => BinaryOperator::Equality,
            TokenKind::Greater => BinaryOperator::Greater,
            TokenKind::GreaterOrEqual => BinaryOperator::GreaterOrEqual,
            TokenKind::Less => BinaryOperator::Less,
            TokenKind::LessOrEqual => BinaryOperator::LessOrEqual,
            TokenKind::Or => BinaryOperator::LogicalOr,
            TokenKind::And => BinaryOperator::LogicalAnd,
            _ => BinaryOperator::Range,
        }
    }
}

/// Unary operators.
#[derive(Debug, Clone, Copy, PartialEq, Eq, Structural)]
pub enum UnaryOperator {
    Negative,
    LogicalNot,
}

/// The unary operator a token kind stands for.
pub open spec fn unary_operator_of(kind: TokenKind) -> Option<UnaryOperator> {
    match kind {
        TokenKind::Minus => Some(UnaryOperator::Negative),
        TokenKind::Not => Some(UnaryOperator::LogicalNot),
        _ => None,
    }
}

impl UnaryOperator {
    /// The operator of an operator token.
    pub fn from_token(value: Token) -> (r: UnaryOperator)
        requires
            unary_operator_of(value.kind) is Some,
        ensures
            unary_operator_of(value.kind) == Some(r),
    {
        match value.kind {
            TokenKind::Minus => UnaryOperator::Negative,
            _ => UnaryOperator::LogicalNot,
        }
    }
}

} // verus!
