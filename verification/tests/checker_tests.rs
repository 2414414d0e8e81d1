use pace_compiler::ast::{BinaryOp, Expr, ExprKind, Location, Span, Stmt, StmtKind};
use pace_compiler::checker::TypeChecker;
use pace_compiler::session::CompilerSession;
use pace_compiler::types::Type;

fn make_span() -> Span {
    Span::new(0, 0, 0, Location::new(1, 1), Location::new(1, 1))
}

fn int_lit(v: i64) -> Expr {
    Expr::new(ExprKind::Integer(v), make_span())
}

fn checker() -> TypeChecker {
    TypeChecker::new(CompilerSession::new())
}

#[test]
fn checker_test_valid_math() {
    let mut checker = checker();
    // let x = 10 + 5;
    let x = checker.session.interner.intern("x");
    let stmt = Stmt::new(StmtKind::Let {
        name: x,
        is_private: false,
        type_annotation: None,
        initializer: Some(Expr::new(ExprKind::Binary(Box::new(int_lit(10)), BinaryOp::Add, Box::new(int_lit(5))), make_span())),
    }, make_span());
    checker.check(&[stmt]);
    assert!(checker.errors.is_empty());
    let int_ty = checker.session.types.intern(Type::Int);
    assert_eq!(checker.env.resolve(x).unwrap(), int_ty);
}

#[test]
fn checker_test_type_mismatch() {
    let mut checker = checker();
    // let x = 10 + "hello";
    let x = checker.session.interner.intern("x");
    let hello = checker.session.interner.intern("hello");
    let stmt = Stmt::new(StmtKind::Let {
        name: x,
        is_private: false,
        type_annotation: None,
        initializer: Some(Expr::new(ExprKind::Binary(
            Box::new(int_lit(10)),
            BinaryOp::Add,
            Box::new(Expr::new(ExprKind::String(hello), make_span())),
        ), make_span())),
    }, make_span());
    checker.check(&[stmt]);
    assert_eq!(checker.errors.len(), 1);
    assert!(checker.errors[0].message.contains("Cannot apply operator to types 'Int' and 'String'"));
}

#[test]
fn checker_test_if_condition_type() {
    let mut checker = checker();
    // if 10 { }
    let stmt = Stmt::new(StmtKind::If {
        condition: int_lit(10),
        then_branch: Box::new(Stmt::new(StmtKind::Block(vec![]), make_span())),
        else_branch: None,
    }, make_span());
    checker.check(&[stmt]);
    assert_eq!(checker.errors.len(), 1);
    assert!(checker.errors[0].message.contains("Expected 'Boolean'"));
}

#[test]
fn checker_test_immutable_assignment() {
    let mut checker = checker();
    let x = checker.session.interner.intern("x");
    // let x = 10;
    let stmt1 = Stmt::new(StmtKind::Let {
        name: x,
        is_private: false,
        type_annotation: None,
        initializer: Some(int_lit(10)),
    }, make_span());
    // x = 20;
    let stmt2 = Stmt::new(StmtKind::Expression(
        Expr::new(ExprKind::Assign { name: x, value: Box::new(int_lit(20)) }, make_span()),
    ), make_span());
    checker.check(&[stmt1, stmt2]);
    assert_eq!(checker.errors.len(), 1);
    assert!(checker.errors[0].message.contains("Cannot mutate immutable variable 'x'"));
}

#[test]
fn tests_test_valid_math() {
    let mut checker = checker();
    // let x = 10 + 5;
    let x = checker.session.interner.intern("x");
    let stmt = Stmt::new(StmtKind::Let {
        name: x,
        is_private: false,
        type_annotation: None,
        initializer: Some(Expr::new(ExprKind::Binary(Box::new(int_lit(10)), BinaryOp::Add, Box::new(int_lit(5))), make_span())),
    }, make_span());
    checker.check(&[stmt]);
    assert!(checker.errors.is_empty());
    let int_ty = checker.session.types.intern(Type::Int);
    assert_eq!(checker.env.resolve(x).unwrap(), int_ty);
}

#[test]
fn tests_test_type_mismatch() {
    let mut checker = checker();
    // let x = 10 + "hello";
    let x = checker.session.interner.intern("x");
    let hello = checker.session.interner.intern("hello");
    let stmt = Stmt::new(StmtKind::Let {
        name: x,
        is_private: false,
        type_annotation: None,
        initializer: Some(Expr::new(ExprKind::Binary(
            Box::new(int_lit(10)),
            BinaryOp::Add,
            Box::new(Expr::new(ExprKind::String(hello), make_span())),
        ), make_span())),
    }, make_span());
    checker.check(&[stmt]);
    assert_eq!(checker.errors.len(), 1);
    assert!(checker.errors[0].message.contains("Cannot apply operator to types 'Int' and 'String'"));
}

#[test]
fn tests_test_if_condition_type() {
    let mut checker = checker();
    // if 10 { }
    let stmt = Stmt::new(StmtKind::If {
        condition: int_lit(10),
        then_branch: Box::new(Stmt::new(StmtKind::Block(vec![]), make_span())),
        else_branch: None,
    }, make_span());
    checker.check(&[stmt]);
    assert_eq!(checker.errors.len(), 1);
    assert!(checker.errors[0].message.contains("Expected 'Boolean'"));
}

#[test]
fn tests_test_immutable_assignment() {
    let mut checker = checker();
    let x = checker.session.interner.intern("x");
    // let x = 10;
    let stmt1 = Stmt::new(StmtKind::Let {
        name: x,
        is_private: false,
        type_annotation: None,
        initializer: Some(int_lit(10)),
    }, make_span());
    // x = 20;
    let stmt2 = Stmt::new(StmtKind::Expression(
        Expr::new(ExprKind::Assign { name: x, value: Box::new(int_lit(20)) }, make_span()),
    ), make_span());
    checker.check(&[stmt1, stmt2]);
    assert_eq!(checker.errors.len(), 1);
    assert!(checker.errors[0].message.contains("Cannot mutate immutable variable 'x'"));
}
