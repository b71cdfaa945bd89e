use tenda::annotate::annotate_ast_with_var_captures;
use tenda::ast::{
    AnonymousFunction, Ast, Block, Decl, Expr, FunctionDecl, FunctionParam, Literal, LocalDecl, Return,
    Stmt, Variable,
};
use tenda::closures::{Closure, ClosureList, VarCapture, VarCaptureList};
use tenda::source::IdentifiedSource;
use tenda::span::SourceSpan;
use tenda::token;

fn sp() -> SourceSpan {
    SourceSpan::new(0, 0, IdentifiedSource::dummy())
}

fn nil() -> Expr {
    Expr::Literal(Literal::new(token::Literal::Nil, sp()))
}

fn var(name: &str, uid: usize) -> Expr {
    Expr::Variable(Variable::new(name.to_string(), uid, sp()))
}

fn block(stmts: Vec<Stmt>) -> Stmt {
    Stmt::Block(Block::new(Ast::from(stmts, sp()), sp()))
}

fn ret(e: Expr) -> Stmt {
    Stmt::Return(Return::new(Some(e), sp()))
}

#[test]
fn function_captures_outer_local() {
    // seja x = nada
    // função f() retorna x fim
    let decl_x = Stmt::Decl(Decl::Local(LocalDecl::new("x".to_string(), nil(), 1, sp())));
    let f = FunctionDecl::new("f".to_string(), vec![], block(vec![ret(var("x", 3))]), 2, sp());
    let mut ast = Ast::from(vec![decl_x, Stmt::Decl(Decl::Function(f))], sp());
    annotate_ast_with_var_captures(&mut ast);
    match &ast.inner[0] {
        Stmt::Decl(Decl::Local(l)) => assert!(l.captured),
        _ => panic!("expected a local declaration"),
    }
    match &ast.inner[1] {
        Stmt::Decl(Decl::Function(f)) => {
            assert!(!f.captured);
            assert_eq!(f.free_vars, vec!["x".to_string()]);
            match &*f.body {
                Stmt::Block(b) => match &b.inner.inner[0] {
                    Stmt::Return(Return { value: Some(Expr::Variable(v)), .. }) => assert!(v.captured),
                    _ => panic!("expected a return of a variable"),
                },
                _ => panic!("expected a block"),
            }
        }
        _ => panic!("expected a function declaration"),
    }
}

#[test]
fn parameter_shadows_outer_local() {
    // seja x = nada
    // função f(x) retorna x fim
    let decl_x = Stmt::Decl(Decl::Local(LocalDecl::new("x".to_string(), nil(), 1, sp())));
    let p = FunctionParam::new("x".to_string(), 4, sp());
    let f = FunctionDecl::new("f".to_string(), vec![p], block(vec![ret(var("x", 3))]), 2, sp());
    let mut ast = Ast::from(vec![decl_x, Stmt::Decl(Decl::Function(f))], sp());
    annotate_ast_with_var_captures(&mut ast);
    match &ast.inner[0] {
        Stmt::Decl(Decl::Local(l)) => assert!(!l.captured),
        _ => panic!("expected a local declaration"),
    }
    match &ast.inner[1] {
        Stmt::Decl(Decl::Function(f)) => {
            assert!(f.free_vars.is_empty());
            assert!(!f.params[0].captured);
        }
        _ => panic!("expected a function declaration"),
    }
}

#[test]
fn parameter_captured_by_inner_function() {
    // função f(a) retorna função() retorna a fim fim
    let p = FunctionParam::new("a".to_string(), 1, sp());
    let inner = AnonymousFunction::new(vec![], block(vec![ret(var("a", 3))]), 4, sp());
    let f = FunctionDecl::new(
        "f".to_string(),
        vec![p],
        block(vec![ret(Expr::AnonymousFunction(inner))]),
        2,
        sp(),
    );
    let mut ast = Ast::from(vec![Stmt::Decl(Decl::Function(f))], sp());
    annotate_ast_with_var_captures(&mut ast);
    match &ast.inner[0] {
        Stmt::Decl(Decl::Function(f)) => {
            assert!(f.params[0].captured);
            assert!(f.free_vars.is_empty());
            match &*f.body {
                Stmt::Block(b) => match &b.inner.inner[0] {
                    Stmt::Return(Return { value: Some(Expr::AnonymousFunction(af)), .. }) => {
                        assert_eq!(af.free_vars, vec!["a".to_string()]);
                    }
                    _ => panic!("expected a returned function"),
                },
                _ => panic!("expected a block"),
            }
        }
        _ => panic!("expected a function declaration"),
    }
}

#[test]
fn repeated_references_give_one_free_variable() {
    // seja x = nada
    // função f() x; x fim
    let decl_x = Stmt::Decl(Decl::Local(LocalDecl::new("x".to_string(), nil(), 1, sp())));
    let body = block(vec![Stmt::Expr(var("x", 3)), Stmt::Expr(var("x", 5))]);
    let f = FunctionDecl::new("f".to_string(), vec![], body, 2, sp());
    let mut ast = Ast::from(vec![decl_x, Stmt::Decl(Decl::Function(f))], sp());
    annotate_ast_with_var_captures(&mut ast);
    match &ast.inner[1] {
        Stmt::Decl(Decl::Function(f)) => assert_eq!(f.free_vars, vec!["x".to_string()]),
        _ => panic!("expected a function declaration"),
    }
}

#[test]
fn var_capture_list_queries() {
    let list = VarCaptureList::new(vec![
        VarCapture::new(2, 3, 1, "x".to_string()),
        VarCapture::new(2, 5, 4, "y".to_string()),
        VarCapture::new(7, 8, 1, "x".to_string()),
    ]);
    assert!(list.is_enclosed_var_decl(1));
    assert!(!list.is_enclosed_var_decl(2));
    assert!(list.is_free_variable_ref(5));
    assert!(!list.is_free_variable_ref(1));
    assert_eq!(list.get_free_vars_in_fn(2), vec!["x".to_string(), "y".to_string()]);
    assert!(list.get_free_vars_in_fn(9).is_empty());
}

#[test]
fn closure_list_queries() {
    let list = ClosureList::new(vec![
        Closure::new(2, 3, 1, "x".to_string()),
        Closure::new(6, 7, 4, "y".to_string()),
        Closure::new(2, 8, 4, "y".to_string()),
    ]);
    assert!(list.is_captured_var_decl(4));
    assert!(!list.is_captured_var_decl(3));
    assert!(list.is_captured_var_ref(8));
    assert!(!list.is_captured_var_ref(2));
    assert_eq!(list.get_closures(2).len(), 2);
    assert_eq!(list.get_closures_names(2), vec!["x".to_string(), "y".to_string()]);
    assert_eq!(list.get_closures_names(6), vec!["y".to_string()]);
}

#[test]
fn closures_belong_to_the_asked_function() {
    let list = ClosureList::new(vec![
        Closure::new(2, 3, 1, "x".to_string()),
        Closure::new(6, 7, 4, "y".to_string()),
        Closure::new(2, 8, 4, "y".to_string()),
    ]);
    let found = list.get_closures(2);
    assert_eq!(found.len(), 2);
    assert!(found.iter().all(|c| c.func_decl == 2));
    let names: Vec<String> = found.iter().map(|c| c.var_name.clone()).collect();
    assert_eq!(names, list.get_closures_names(2));
    assert!(list.get_closures(5).is_empty());
}
