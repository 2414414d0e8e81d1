use pace_compiler::ast::{Expr, ExprKind, Location, Span, Stmt, StmtKind};
use pace_compiler::env::TypeEnvironment;
use pace_compiler::interner::Symbol;
use pace_compiler::resolver::Resolver;
use pace_compiler::session::CompilerSession;
use pace_compiler::types::TypeId;

fn span() -> Span {
    Span::new(0, 0, 0, Location::new(1, 1), Location::new(1, 1))
}

#[test]
fn inner_declarations_shadow_outer_ones_until_the_scope_ends() {
    let print = Symbol(0);
    let x = Symbol(1);
    let mut env = TypeEnvironment::new(print, TypeId(0));
    env.declare_var(x, TypeId(1), true);
    env.push_scope();
    env.declare(x, TypeId(2));
    assert_eq!(env.resolve(x), Some(TypeId(2)));
    assert!(!env.is_mutable(x));
    env.pop_scope();
    assert_eq!(env.resolve(x), Some(TypeId(1)));
    assert!(env.is_mutable(x));
    assert_eq!(env.resolve(print), Some(TypeId(0)));
}

#[test]
fn a_block_may_redeclare_an_outer_name_and_its_names_end_with_it() {
    // let x = 1; { let x = 2; let y = 3; } y;
    let mut session = CompilerSession::new();
    let x = session.interner.intern("x");
    let y = session.interner.intern("y");
    let let_x1 = Stmt::new(StmtKind::Let { name: x, type_annotation: None, initializer: Some(Expr::new(ExprKind::Integer(1), span())), is_private: false }, span());
    let let_x2 = Stmt::new(StmtKind::Let { name: x, type_annotation: None, initializer: Some(Expr::new(ExprKind::Integer(2), span())), is_private: false }, span());
    let let_y = Stmt::new(StmtKind::Let { name: y, type_annotation: None, initializer: Some(Expr::new(ExprKind::Integer(3), span())), is_private: false }, span());
    let block = Stmt::new(StmtKind::Block(vec![let_x2, let_y]), span());
    let use_y = Stmt::new(StmtKind::Expression(Expr::new(ExprKind::Variable(y), span())), span());
    let mut resolver = Resolver::new(session);
    resolver.resolve(&[let_x1, block, use_y]);
    assert_eq!(resolver.errors.len(), 1);
    assert_eq!(resolver.errors[0].message, "Cannot find variable 'y' in this scope.");
}
