use pace_compiler::ast::{Expr, ExprKind, Location, Span, Stmt, StmtKind};
use pace_compiler::resolver::Resolver;
use pace_compiler::session::CompilerSession;

fn make_span() -> Span {
    Span::new(0, 0, 0, Location::new(1, 1), Location::new(1, 1))
}

fn let_stmt(session: &mut CompilerSession, name: &str, value: i64) -> Stmt {
    Stmt::new(StmtKind::Let {
        name: session.interner.intern(name),
        is_private: false,
        type_annotation: None,
        initializer: Some(Expr::new(ExprKind::Integer(value), make_span())),
    }, make_span())
}

fn usage(session: &mut CompilerSession, name: &str) -> Stmt {
    Stmt::new(StmtKind::Expression(Expr::new(ExprKind::Variable(session.interner.intern(name)), make_span())), make_span())
}

#[test]
fn test_valid_shadowing() {
    // let x = 1; { let x = 2; print(x); }
    let mut session = CompilerSession::new();
    let outer_let = let_stmt(&mut session, "x", 1);
    let inner_let = let_stmt(&mut session, "x", 2);
    let inner_usage = usage(&mut session, "x");
    let block = Stmt::new(StmtKind::Block(vec![inner_let, inner_usage]), make_span());
    let mut resolver = Resolver::new(session);
    resolver.resolve(&[outer_let, block]);
    assert!(resolver.errors.is_empty(), "Expected no errors, got: {:?}", resolver.errors);
}

#[test]
fn test_invalid_redeclaration() {
    // let x = 1; let x = 2;
    let mut session = CompilerSession::new();
    let let1 = let_stmt(&mut session, "x", 1);
    let let2 = let_stmt(&mut session, "x", 2);
    let mut resolver = Resolver::new(session);
    resolver.resolve(&[let1, let2]);
    assert_eq!(resolver.errors.len(), 1);
    assert!(resolver.errors[0].message.contains("already declared"));
}

#[test]
fn test_undefined_variable() {
    // print(y);
    let mut session = CompilerSession::new();
    let stmt = usage(&mut session, "y");
    let mut resolver = Resolver::new(session);
    resolver.resolve(&[stmt]);
    assert_eq!(resolver.errors.len(), 1);
    assert!(resolver.errors[0].message.contains("Cannot find variable 'y'"));
}

#[test]
fn redeclaration_message_names_the_variable() {
    let mut session = CompilerSession::new();
    let let1 = let_stmt(&mut session, "count", 1);
    let let2 = let_stmt(&mut session, "count", 2);
    let mut resolver = Resolver::new(session);
    resolver.resolve(&[let1, let2]);
    assert_eq!(resolver.errors.len(), 1);
    assert_eq!(resolver.errors[0].message, "Variable 'count' is already declared in this scope.");
}

#[test]
fn builtins_are_visible() {
    let mut session = CompilerSession::new();
    let stmts: Vec<Stmt> = ["print", "Result", "Ok", "Err", "Option", "Some", "None"]
        .iter()
        .map(|n| usage(&mut session, n))
        .collect();
    let mut resolver = Resolver::new(session);
    resolver.resolve(&stmts);
    assert!(resolver.errors.is_empty());
}

#[test]
fn self_outside_class_is_reported() {
    let session = CompilerSession::new();
    let stmt = Stmt::new(StmtKind::Expression(Expr::new(ExprKind::SelfRef, make_span())), make_span());
    let mut resolver = Resolver::new(session);
    resolver.resolve(&[stmt]);
    assert_eq!(resolver.errors.len(), 1);
    assert_eq!(resolver.errors[0].message, "Cannot use 'self' outside of a class method.");
}

#[test]
fn inner_declaration_does_not_leak() {
    // { let z = 1; } z;
    let mut session = CompilerSession::new();
    let inner = let_stmt(&mut session, "z", 1);
    let block = Stmt::new(StmtKind::Block(vec![inner]), make_span());
    let use_z = usage(&mut session, "z");
    let mut resolver = Resolver::new(session);
    resolver.resolve(&[block, use_z]);
    assert_eq!(resolver.errors.len(), 1);
    assert_eq!(resolver.errors[0].message, "Cannot find variable 'z' in this scope.");
}
