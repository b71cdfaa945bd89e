use tenda::ast::{BinaryOperator, Decl, Expr, Stmt};
use tenda::parser::{is_parsable, Parser, ParserError};
use tenda::scanner::Scanner;
use tenda::source::IdentifiedSource;
use tenda::token::{Literal, NumberLiteral};

fn parse(src: &str) -> Result<tenda::ast::Ast, Vec<ParserError>> {
    let mut s = Scanner::new(src, IdentifiedSource::dummy());
    let tokens = s.scan().expect("scan ok");
    assert!(is_parsable(&tokens));
    let mut p = Parser::new(tokens, IdentifiedSource::dummy());
    p.parse()
}

#[test]
fn parses_a_declaration_with_precedence() {
    let ast = parse("seja x = 1 + 2 * 3").unwrap();
    assert_eq!(ast.inner.len(), 1);
    match &ast.inner[0] {
        Stmt::Decl(Decl::Local(l)) => {
            assert_eq!(l.name, "x");
            match &l.value {
                Expr::Binary(b) => {
                    assert_eq!(b.op, BinaryOperator::Add);
                    match &*b.rhs {
                        Expr::Binary(m) => assert_eq!(m.op, BinaryOperator::Multiply),
                        _ => panic!("expected a product"),
                    }
                    match &*b.lhs {
                        Expr::Literal(l) => {
                            assert_eq!(l.value, Literal::Number(NumberLiteral::Decimal("1".to_string())))
                        }
                        _ => panic!("expected a literal"),
                    }
                }
                _ => panic!("expected a sum"),
            }
        }
        _ => panic!("expected a declaration"),
    }
}

#[test]
fn marks_captured_variables() {
    let ast = parse("seja x = 1\nfunção f()\n  retorna x\nfim\n").unwrap();
    assert_eq!(ast.inner.len(), 2);
    match &ast.inner[0] {
        Stmt::Decl(Decl::Local(l)) => assert!(l.captured),
        _ => panic!("expected a declaration"),
    }
    match &ast.inner[1] {
        Stmt::Decl(Decl::Function(f)) => {
            assert_eq!(f.name, "f");
            assert_eq!(f.free_vars, vec!["x".to_string()]);
        }
        _ => panic!("expected a function"),
    }
}

#[test]
fn parses_control_flow() {
    let src = "seja l = [1, 2]\npara cada i em l faça\n  se i > 1 então\n    exiba(i)\n  senão\n    continua\n  fim\nfim\n";
    let ast = parse(src).unwrap();
    assert_eq!(ast.inner.len(), 2);
    match &ast.inner[1] {
        Stmt::ForEach(fe) => {
            assert_eq!(fe.item.name, "i");
            match &*fe.body {
                Stmt::Block(b) => match &b.inner.inner[0] {
                    Stmt::Cond(c) => assert!(c.or_else.is_some()),
                    _ => panic!("expected a condition"),
                },
                _ => panic!("expected a block"),
            }
        }
        _ => panic!("expected a loop over items"),
    }
}

#[test]
fn newlines_inside_expressions_are_skipped() {
    let ast = parse("seja x = (1 +\n 2)\n").unwrap();
    assert_eq!(ast.inner.len(), 1);
}

#[test]
fn anonymous_functions_and_accesses() {
    let ast = parse("seja f = função(a, b) retorna a.nome fim\nf(1, {1: 2})[0]\n").unwrap();
    assert_eq!(ast.inner.len(), 2);
    match &ast.inner[1] {
        Stmt::Expr(Expr::Access(a)) => assert!(matches!(&*a.subscripted, Expr::Call(_))),
        _ => panic!("expected an access"),
    }
}

#[test]
fn reports_illegal_return_and_break() {
    assert!(matches!(parse("retorna 1").unwrap_err()[0], ParserError::IllegalReturn { .. }));
    assert!(matches!(parse("para").unwrap_err()[0], ParserError::IllegalBreak { .. }));
    assert!(matches!(parse("continua").unwrap_err()[0], ParserError::IllegalContinue { .. }));
}

#[test]
fn reports_syntax_errors() {
    assert!(matches!(parse("seja = 1").unwrap_err()[0], ParserError::UnexpectedToken { .. }));
    assert!(matches!(parse("f(1").unwrap_err()[0], ParserError::UnexpectedEoi { .. }));
    assert!(matches!(parse("(1 2)").unwrap_err()[0], ParserError::MissingParentheses { .. }));
    assert!(matches!(parse("função f(a, a) fim").unwrap_err()[0], ParserError::DuplicateParameter { .. }));
    assert!(matches!(parse("1 = 2").unwrap_err()[0], ParserError::InvalidAssignmentTarget { .. }));
    assert!(matches!(parse("{1 2}").unwrap_err()[0], ParserError::MissingColon { .. }));
    assert!(matches!(parse("[1 2]").unwrap_err()[0], ParserError::MissingBrackets { .. }));
    assert!(matches!(parse("{1: 2").unwrap_err()[0], ParserError::UnexpectedEoi { .. }));
    assert!(matches!(parse("x[1").unwrap_err()[0], ParserError::UnexpectedEoi { .. }));
    assert!(matches!(parse("1 2").unwrap_err()[0], ParserError::UnexpectedToken { .. }));
}

#[test]
fn rejects_token_lists_without_end() {
    assert!(!is_parsable(&vec![]));
}

fn declared_value(ast: &tenda::ast::Ast) -> &Expr {
    match &ast.inner[0] {
        Stmt::Decl(Decl::Local(l)) => &l.value,
        _ => panic!("expected a declaration"),
    }
}

#[test]
fn subtraction_and_powers_associate_to_the_left() {
    let ast = parse("seja x = 5 - 2 - 1").unwrap();
    match declared_value(&ast) {
        Expr::Binary(outer) => {
            assert_eq!(outer.op, BinaryOperator::Subtract);
            assert!(matches!(&*outer.lhs, Expr::Binary(inner) if inner.op == BinaryOperator::Subtract));
            assert!(matches!(&*outer.rhs, Expr::Literal(_)));
        }
        _ => panic!("expected a difference"),
    }
    let ast = parse("seja x = 2 ^ 3 ^ 2").unwrap();
    match declared_value(&ast) {
        Expr::Binary(outer) => {
            assert_eq!(outer.op, BinaryOperator::Exponentiation);
            assert!(matches!(&*outer.lhs, Expr::Binary(inner) if inner.op == BinaryOperator::Exponentiation));
        }
        _ => panic!("expected a power"),
    }
}

#[test]
fn grouping_keeps_a_looser_operator_inside() {
    let ast = parse("seja x = (1 + 2) * 3").unwrap();
    match declared_value(&ast) {
        Expr::Binary(outer) => {
            assert_eq!(outer.op, BinaryOperator::Multiply);
            match &*outer.lhs {
                Expr::Grouping(g) => {
                    assert!(matches!(&*g.expr, Expr::Binary(inner) if inner.op == BinaryOperator::Add))
                }
                _ => panic!("expected a grouping"),
            }
        }
        _ => panic!("expected a product"),
    }
}

#[test]
fn logical_operators_bind_looser_than_comparisons() {
    let ast = parse("seja x = 1 < 2 e 3 > 2 ou falso").unwrap();
    match declared_value(&ast) {
        Expr::Binary(or) => {
            assert_eq!(or.op, BinaryOperator::LogicalOr);
            match &*or.lhs {
                Expr::Binary(and) => {
                    assert_eq!(and.op, BinaryOperator::LogicalAnd);
                    assert!(matches!(&*and.lhs, Expr::Binary(c) if c.op == BinaryOperator::Less));
                    assert!(matches!(&*and.rhs, Expr::Binary(c) if c.op == BinaryOperator::Greater));
                }
                _ => panic!("expected a conjunction"),
            }
        }
        _ => panic!("expected a disjunction"),
    }
}

#[test]
fn a_failure_is_one_error_and_the_end_of_input_is_reported_there() {
    let src = "seja x = (1 +";
    let mut s = Scanner::new(src, IdentifiedSource::dummy());
    let tokens = s.scan().expect("scan ok");
    let eof_span = tokens[tokens.len() - 1].span.clone();
    let mut p = Parser::new(tokens, IdentifiedSource::dummy());
    let errors = p.parse().unwrap_err();
    assert_eq!(errors.len(), 1);
    match &errors[0] {
        ParserError::UnexpectedEoi { span } => {
            assert_eq!((span.start, span.end), (eof_span.start, eof_span.end));
        }
        _ => panic!("expected the end of the input"),
    }
    assert_eq!(parse("seja = 1").unwrap_err().len(), 1);
}

#[test]
fn jumps_inside_loops_and_functions_are_accepted() {
    assert!(parse("enquanto verdadeiro faça\n  para\nfim\n").is_ok());
    assert!(parse("função f()\n  retorna 1\nfim\n").is_ok());
    assert!(parse("enquanto verdadeiro faça\n  função g()\n    continua\n  fim\nfim\n").is_ok());
    assert!(matches!(
        parse("função f()\n  para\nfim\n").unwrap_err()[0],
        ParserError::IllegalBreak { .. }
    ));
    assert!(matches!(
        parse("seja f = função()\n  retorna 1\nfim\nretorna 2").unwrap_err()[0],
        ParserError::IllegalReturn { .. }
    ));
}

#[test]
fn declarations_and_references_get_their_own_identifiers() {
    let ast = parse("seja x = 1\nseja y = x").unwrap();
    let (x_uid, y_uid, ref_uid) = match (&ast.inner[0], &ast.inner[1]) {
        (Stmt::Decl(Decl::Local(x)), Stmt::Decl(Decl::Local(y))) => match &y.value {
            Expr::Variable(v) => (x.uid, y.uid, v.uid),
            _ => panic!("expected a reference"),
        },
        _ => panic!("expected two declarations"),
    };
    assert!(x_uid != y_uid && x_uid != ref_uid && y_uid != ref_uid);
}

#[test]
fn lines_of_operands_are_expression_statements() {
    let ast = parse("1\nverdadeiro\n\nx\n\"texto\"").unwrap();
    assert_eq!(ast.inner.len(), 4);
    assert!(ast.inner.iter().all(|s| matches!(s, Stmt::Expr(_))));
    assert!(parse("").unwrap().inner.is_empty());
}

#[test]
fn unclosed_loop_reports_end_of_input() {
    match parse("enquanto x faça\n1\ny\n") {
        Err(errs) => {
            assert_eq!(errs.len(), 1);
            assert!(matches!(errs[0], ParserError::UnexpectedEoi { .. }));
        }
        Ok(_) => panic!("expected an error"),
    }
}

#[test]
fn simple_lines_become_statements_in_order() {
    let ast = parse("seja x = 1\nx\n\nseja nome = \"ana\"\nverdadeiro").unwrap();
    assert_eq!(ast.inner.len(), 4);
    match &ast.inner[0] {
        Stmt::Decl(Decl::Local(l)) => {
            assert_eq!(l.name, "x");
            assert!(matches!(&l.value, Expr::Literal(v) if v.value == Literal::Number(NumberLiteral::Decimal("1".to_string()))));
        }
        _ => panic!("expected a declaration"),
    }
    assert!(matches!(&ast.inner[1], Stmt::Expr(Expr::Variable(v)) if v.name == "x"));
    assert!(matches!(&ast.inner[2], Stmt::Decl(Decl::Local(l)) if l.name == "nome"));
    assert!(matches!(&ast.inner[3], Stmt::Expr(Expr::Literal(v)) if v.value == Literal::Boolean(true)));
}

#[test]
fn closed_loop_then_lines_parses() {
    let ast = parse("enquanto x faça\nseja y = 1\ny\nfim\nx").unwrap();
    assert_eq!(ast.inner.len(), 2);
    assert!(matches!(&ast.inner[0], Stmt::While(_)));
    assert!(matches!(&ast.inner[1], Stmt::Expr(Expr::Variable(v)) if v.name == "x"));
}

#[test]
fn two_token_operators_and_branches_in_order() {
    let ast = parse("seja a = x não tem y\nseja b = x não é y\nse a então\n1\nsenão\n2\nfim").unwrap();
    match &ast.inner[0] {
        Stmt::Decl(Decl::Local(l)) => assert!(matches!(&l.value, Expr::Binary(b) if b.op == BinaryOperator::Lacks)),
        _ => panic!("expected a declaration"),
    }
    match &ast.inner[1] {
        Stmt::Decl(Decl::Local(l)) => assert!(matches!(&l.value, Expr::Binary(b) if b.op == BinaryOperator::Inequality)),
        _ => panic!("expected a declaration"),
    }
    match &ast.inner[2] {
        Stmt::Cond(c) => {
            let then_text = format!("{:?}", c.then_branch);
            let else_text = format!("{:?}", c.or_else);
            assert!(then_text.contains("Decimal(\"1\")"));
            assert!(else_text.contains("Decimal(\"2\")"));
        }
        _ => panic!("expected a condition"),
    }
}

#[test]
fn nested_blocks_of_operands_parse() {
    let src = "função f()\nse x então\n1\nsenão\nseja y = 2\nfim\nfim\npara cada i em xs faça\nenquanto a faça\nb\nfim\nfim\nf";
    let ast = parse(src).unwrap();
    assert_eq!(ast.inner.len(), 3);
    assert!(matches!(&ast.inner[0], Stmt::Decl(Decl::Function(_))));
    assert!(matches!(&ast.inner[1], Stmt::ForEach(_)));
    assert!(matches!(&ast.inner[2], Stmt::Expr(Expr::Variable(v)) if v.name == "f"));
}

#[test]
fn nested_blocks_with_operators_parse() {
    let src = "se a + 1 > b então\nseja y = 1 + 2 * 3 não é 4\nsenão\nenquanto x até 3 tem y faça\nz ^ 2\nfim\nfim\n";
    let ast = parse(src).unwrap();
    assert_eq!(ast.inner.len(), 1);
    assert!(matches!(&ast.inner[0], Stmt::Cond(c) if c.or_else.is_some()));
}

#[test]
fn negation_and_parentheses_parse() {
    let ast = parse("seja z = -(a + b) * não c\nenquanto (x) faça\n-1\nfim").unwrap();
    assert_eq!(ast.inner.len(), 2);
    match &ast.inner[0] {
        Stmt::Decl(Decl::Local(l)) => assert!(matches!(&l.value, Expr::Binary(b) if b.op == BinaryOperator::Multiply)),
        _ => panic!("expected a declaration"),
    }
}
