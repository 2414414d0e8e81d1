use pace_compiler::ast::{ExprKind, Location, Span, StmtKind, TypeExpr};
use pace_compiler::interner::Symbol;
use pace_compiler::parser::Parser;
use pace_compiler::session::CompilerSession;
use pace_compiler::token::{Token, TokenKind};

fn span_at(i: usize) -> Span {
    Span::new(0, i, i + 1, Location::new(1, i + 1), Location::new(1, i + 2))
}

/// Builds a token stream; identifiers are interned in `session`.
fn tokens(session: &mut CompilerSession, kinds: Vec<Tok>) -> Vec<Token> {
    let mut out = Vec::new();
    for (i, k) in kinds.into_iter().enumerate() {
        let kind = match k {
            Tok::Id(name) => TokenKind::Identifier(session.interner.intern(name)),
            Tok::Int(v) => TokenKind::Integer(v),
            Tok::K(kind) => kind,
        };
        out.push(Token::new(kind, span_at(i)));
    }
    out.push(Token::new(TokenKind::Eof, span_at(out.len())));
    out
}

enum Tok {
    Id(&'static str),
    Int(i64),
    K(TokenKind),
}

use Tok::{Id, Int, K};

fn func_add_tokens(session: &mut CompilerSession) -> Vec<Token> {
    // func add(a: Int, b: Int) -> Int { return a + b; }
    tokens(session, vec![
        K(TokenKind::Func), Id("add"), K(TokenKind::LeftParen), Id("a"), K(TokenKind::Colon), Id("Int"),
        K(TokenKind::Comma), Id("b"), K(TokenKind::Colon), Id("Int"), K(TokenKind::RightParen),
        K(TokenKind::Arrow), Id("Int"), K(TokenKind::LeftBrace), K(TokenKind::Return), Id("a"),
        K(TokenKind::Plus), Id("b"), K(TokenKind::Semicolon), K(TokenKind::RightBrace),
    ])
}

fn check_func_declaration() {
    let mut session = CompilerSession::new();
    let toks = func_add_tokens(&mut session);
    let mut parser = Parser::new(toks, session);
    let (stmts, errors) = parser.parse();
    assert!(errors.is_empty(), "Parse errors: {:?}", errors);
    assert_eq!(stmts.len(), 1);
    match &stmts[0].kind {
        StmtKind::Func { name, params, return_type, .. } => {
            assert_eq!(parser.session.interner.lookup(*name), "add");
            assert_eq!(params.len(), 2);
            assert_eq!(parser.session.interner.lookup(params[0].0), "a");
            let int_sym = parser.session.interner.intern("Int");
            assert_eq!(return_type.as_ref().unwrap(), &TypeExpr::Named(int_sym));
        }
        _ => panic!("Expected Func statement"),
    }
}

fn visibility_tokens(session: &mut CompilerSession) -> Vec<Token> {
    // private func hidden() {} public class Visible {} var unadorned = 1;
    tokens(session, vec![
        K(TokenKind::Private), K(TokenKind::Func), Id("hidden"), K(TokenKind::LeftParen), K(TokenKind::RightParen),
        K(TokenKind::LeftBrace), K(TokenKind::RightBrace),
        K(TokenKind::Public), K(TokenKind::Class), Id("Visible"), K(TokenKind::LeftBrace), K(TokenKind::RightBrace),
        K(TokenKind::Var), Id("unadorned"), K(TokenKind::Equal), Int(1), K(TokenKind::Semicolon),
    ])
}

fn check_visibility_modifiers() {
    let mut session = CompilerSession::new();
    let toks = visibility_tokens(&mut session);
    let mut parser = Parser::new(toks, session);
    let (stmts, errors) = parser.parse();
    assert!(errors.is_empty(), "Parse errors: {:?}", errors);
    assert_eq!(stmts.len(), 3);
    match &stmts[0].kind {
        StmtKind::Func { is_private, .. } => assert!(*is_private),
        _ => panic!("Expected Func statement"),
    }
    match &stmts[1].kind {
        StmtKind::Class { is_private, .. } => assert!(!(*is_private)),
        _ => panic!("Expected Class statement"),
    }
    match &stmts[2].kind {
        StmtKind::Var { is_private, .. } => assert!(!(*is_private)),
        _ => panic!("Expected Var statement"),
    }
}

fn if_tokens(session: &mut CompilerSession) -> Vec<Token> {
    // if count > 0 { let x = 1; } else { let x = 0; }
    tokens(session, vec![
        K(TokenKind::If), Id("count"), K(TokenKind::Greater), Int(0), K(TokenKind::LeftBrace),
        K(TokenKind::Let), Id("x"), K(TokenKind::Equal), Int(1), K(TokenKind::Semicolon), K(TokenKind::RightBrace),
        K(TokenKind::Else), K(TokenKind::LeftBrace),
        K(TokenKind::Let), Id("x"), K(TokenKind::Equal), Int(0), K(TokenKind::Semicolon), K(TokenKind::RightBrace),
    ])
}

fn check_if_statement() {
    let mut session = CompilerSession::new();
    let toks = if_tokens(&mut session);
    let mut parser = Parser::new(toks, session);
    let (stmts, errors) = parser.parse();
    assert!(errors.is_empty(), "Parse errors: {:?}", errors);
    assert_eq!(stmts.len(), 1);
    match &stmts[0].kind {
        StmtKind::If { then_branch, else_branch, .. } => {
            assert!(matches!(then_branch.kind, StmtKind::Block(_)));
            assert!(else_branch.is_some());
        }
        _ => panic!("Expected If statement"),
    }
}

#[test]
fn parser_test_func_declaration() {
    check_func_declaration();
}

#[test]
fn tests_test_func_declaration() {
    check_func_declaration();
}

#[test]
fn parser_test_visibility_modifiers() {
    check_visibility_modifiers();
}

#[test]
fn tests_test_visibility_modifiers() {
    check_visibility_modifiers();
}

#[test]
fn parser_test_if_statement() {
    check_if_statement();
}

#[test]
fn tests_test_if_statement() {
    check_if_statement();
}

fn parse_kinds(kinds: Vec<Tok>) -> (Parser, Vec<pace_compiler::ast::Stmt>, usize) {
    let mut session = CompilerSession::new();
    let toks = tokens(&mut session, kinds);
    let mut parser = Parser::new(toks, session);
    let (stmts, errors) = parser.parse();
    (parser, stmts, errors.len())
}

#[test]
fn plain_enum_parses_to_its_variants() {
    // enum Color { Red, Green Blue, }
    let (mut parser, stmts, errors) = parse_kinds(vec![
        K(TokenKind::Enum), Id("Color"), K(TokenKind::LeftBrace), Id("Red"), K(TokenKind::Comma), Id("Green"),
        Id("Blue"), K(TokenKind::Comma), K(TokenKind::RightBrace),
    ]);
    assert_eq!(errors, 0);
    assert_eq!(stmts.len(), 1);
    match &stmts[0].kind {
        StmtKind::Enum { name, type_params, variants, is_private } => {
            assert_eq!(parser.session.interner.lookup(*name), "Color");
            assert!(type_params.is_empty());
            assert!(!*is_private);
            let names: Vec<Symbol> = vec![
                parser.session.interner.intern("Red"),
                parser.session.interner.intern("Green"),
                parser.session.interner.intern("Blue"),
            ];
            assert_eq!(variants.len(), 3);
            for (v, n) in variants.iter().zip(names.iter()) {
                assert_eq!(v.name, *n);
                assert!(v.fields.is_none());
            }
        }
        _ => panic!("Expected Enum statement"),
    }
}

#[test]
fn array_literal_with_trailing_comma_parses() {
    // [1, 2,]; [];
    let (_parser, stmts, errors) = parse_kinds(vec![
        K(TokenKind::LeftBracket), Int(1), K(TokenKind::Comma), Int(2), K(TokenKind::Comma), K(TokenKind::RightBracket),
        K(TokenKind::Semicolon), K(TokenKind::LeftBracket), K(TokenKind::RightBracket), K(TokenKind::Semicolon),
    ]);
    assert_eq!(errors, 0);
    assert_eq!(stmts.len(), 2);
    match &stmts[0].kind {
        StmtKind::Expression(e) => match &e.kind {
            ExprKind::Array(els) => {
                assert_eq!(els.len(), 2);
                assert!(matches!(els[0].kind, ExprKind::Integer(1)));
                assert!(matches!(els[1].kind, ExprKind::Integer(2)));
            }
            _ => panic!("Expected an array literal"),
        },
        _ => panic!("Expected an expression statement"),
    }
    match &stmts[1].kind {
        StmtKind::Expression(e) => assert!(matches!(&e.kind, ExprKind::Array(els) if els.is_empty())),
        _ => panic!("Expected an expression statement"),
    }
}

#[test]
fn call_chain_nests_left_to_right() {
    // a.b(c)[d]!;
    let (mut parser, stmts, errors) = parse_kinds(vec![
        Id("a"), K(TokenKind::Dot), Id("b"), K(TokenKind::LeftParen), Id("c"), K(TokenKind::RightParen),
        K(TokenKind::LeftBracket), Id("d"), K(TokenKind::RightBracket), K(TokenKind::Bang), K(TokenKind::Semicolon),
    ]);
    assert_eq!(errors, 0);
    assert_eq!(stmts.len(), 1);
    let a = parser.session.interner.intern("a");
    let b = parser.session.interner.intern("b");
    let c = parser.session.interner.intern("c");
    let d = parser.session.interner.intern("d");
    let e = match &stmts[0].kind {
        StmtKind::Expression(e) => e,
        _ => panic!("Expected an expression statement"),
    };
    let inner = match &e.kind {
        ExprKind::ForceUnwrap(inner) => inner,
        _ => panic!("Expected '!' outermost"),
    };
    let (object, index) = match &inner.kind {
        ExprKind::IndexGet { object, index } => (object, index),
        _ => panic!("Expected an index"),
    };
    assert!(matches!(index.kind, ExprKind::Variable(x) if x == d));
    match &object.kind {
        ExprKind::Call { callee, type_args, arguments } => {
            assert!(type_args.is_empty());
            assert_eq!(arguments.len(), 1);
            assert!(matches!(arguments[0].kind, ExprKind::Variable(x) if x == c));
            match &callee.kind {
                ExprKind::Get { object, name } => {
                    assert_eq!(*name, b);
                    assert!(matches!(object.kind, ExprKind::Variable(x) if x == a));
                }
                _ => panic!("Expected a member access"),
            }
        }
        _ => panic!("Expected a call"),
    }
}

#[test]
fn program_of_simple_items_parses_without_errors() {
    // x; public enum E { A } [y];
    let (_parser, stmts, errors) = parse_kinds(vec![
        Id("x"), K(TokenKind::Semicolon), K(TokenKind::Public), K(TokenKind::Enum), Id("E"), K(TokenKind::LeftBrace),
        Id("A"), K(TokenKind::RightBrace), K(TokenKind::LeftBracket), Id("y"), K(TokenKind::RightBracket),
        K(TokenKind::Semicolon),
    ]);
    assert_eq!(errors, 0);
    assert_eq!(stmts.len(), 3);
    assert!(matches!(stmts[0].kind, StmtKind::Expression(_)));
    assert!(matches!(stmts[1].kind, StmtKind::Enum { is_private: false, .. }));
    assert!(matches!(stmts[2].kind, StmtKind::Expression(_)));
}
