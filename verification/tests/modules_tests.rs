use pace_compiler::ast::{EnumVariant, Expr, ExprKind, Location, Span, Stmt, StmtKind};
use pace_compiler::modules::{collect_exports, trim_char, ImportEdge, Module, ModuleGraph};
use pace_compiler::resolver::Resolver;
use pace_compiler::session::CompilerSession;

fn make_span() -> Span {
    Span::new(0, 0, 0, Location::new(1, 1), Location::new(1, 1))
}

fn let_named(session: &mut CompilerSession, name: &str, is_private: bool) -> Stmt {
    Stmt::new(StmtKind::Let {
        name: session.interner.intern(name),
        is_private,
        type_annotation: None,
        initializer: Some(Expr::new(ExprKind::Integer(1), make_span())),
    }, make_span())
}

fn use_name(session: &mut CompilerSession, name: &str) -> Stmt {
    Stmt::new(StmtKind::Expression(Expr::new(ExprKind::Variable(session.interner.intern(name)), make_span())), make_span())
}

fn import(session: &mut CompilerSession, path: &str, alias: Option<&str>, show: &[&str], hide: &[&str]) -> Stmt {
    let path = session.interner.intern(path);
    let alias = alias.map(|a| session.interner.intern(a));
    let show = show.iter().map(|s| session.interner.intern(s)).collect();
    let hide = hide.iter().map(|s| session.interner.intern(s)).collect();
    Stmt::new(StmtKind::Import { path, alias, show, hide }, make_span())
}

fn library(session: &mut CompilerSession) -> Module {
    let public = let_named(session, "shared", false);
    let private = let_named(session, "secret", true);
    let other = let_named(session, "other", false);
    let color = session.interner.intern("Color");
    let red = session.interner.intern("Red");
    let enum_stmt = Stmt::new(StmtKind::Enum {
        name: color,
        type_params: vec![],
        variants: vec![EnumVariant { name: red, fields: None }],
        is_private: false,
    }, make_span());
    Module { id: 1, ast: vec![public, private, other, enum_stmt] }
}

fn edge(from: u32, path: &str, to: u32) -> ImportEdge {
    ImportEdge { from, path: path.to_string(), to }
}

fn messages(resolver: &Resolver) -> Vec<String> {
    resolver.errors.iter().map(|d| d.message.clone()).collect()
}

#[test]
fn imported_names_are_visible() {
    let mut session = CompilerSession::new();
    let lib = library(&mut session);
    let imp = import(&mut session, "\"lib\"", None, &[], &[]);
    let u1 = use_name(&mut session, "shared");
    let u2 = use_name(&mut session, "Color");
    let u3 = use_name(&mut session, "Red");
    let main = Module { id: 2, ast: vec![imp, u1, u2, u3] };
    let graph = ModuleGraph { modules: vec![lib, main], imports: vec![edge(2, "lib", 1)] };
    let mut resolver = Resolver::new(session);
    resolver.resolve_graph(&graph);
    assert!(resolver.errors.is_empty(), "{:?}", messages(&resolver));
}

#[test]
fn private_names_are_not_exported() {
    let mut session = CompilerSession::new();
    let lib = library(&mut session);
    let imp = import(&mut session, "'lib'", None, &[], &[]);
    let u = use_name(&mut session, "secret");
    let main = Module { id: 2, ast: vec![imp, u] };
    let graph = ModuleGraph { modules: vec![lib, main], imports: vec![edge(2, "lib", 1)] };
    let mut resolver = Resolver::new(session);
    resolver.resolve_graph(&graph);
    assert_eq!(messages(&resolver), vec!["Cannot find variable 'secret' in this scope.".to_string()]);
}

#[test]
fn show_and_hide_filter_the_import() {
    let mut session = CompilerSession::new();
    let lib = library(&mut session);
    let imp = import(&mut session, "\"lib\"", None, &["shared", "other"], &["other"]);
    let u1 = use_name(&mut session, "shared");
    let u2 = use_name(&mut session, "other");
    let u3 = use_name(&mut session, "Color");
    let main = Module { id: 2, ast: vec![imp, u1, u2, u3] };
    let graph = ModuleGraph { modules: vec![lib, main], imports: vec![edge(2, "lib", 1)] };
    let mut resolver = Resolver::new(session);
    resolver.resolve_graph(&graph);
    assert_eq!(messages(&resolver), vec![
        "Cannot find variable 'other' in this scope.".to_string(),
        "Cannot find variable 'Color' in this scope.".to_string(),
    ]);
}

#[test]
fn alias_import_declares_only_the_alias() {
    let mut session = CompilerSession::new();
    let lib = library(&mut session);
    let imp = import(&mut session, "\"lib\"", Some("l"), &[], &[]);
    let u1 = use_name(&mut session, "l");
    let u2 = use_name(&mut session, "shared");
    let main = Module { id: 2, ast: vec![imp, u1, u2] };
    let graph = ModuleGraph { modules: vec![lib, main], imports: vec![edge(2, "lib", 1)] };
    let mut resolver = Resolver::new(session);
    resolver.resolve_graph(&graph);
    assert_eq!(messages(&resolver), vec!["Cannot find variable 'shared' in this scope.".to_string()]);
}

#[test]
fn unresolved_import_is_reported() {
    let mut session = CompilerSession::new();
    let imp = import(&mut session, "\"missing\"", None, &[], &[]);
    let main = Module { id: 2, ast: vec![imp] };
    let graph = ModuleGraph { modules: vec![main], imports: vec![] };
    let mut resolver = Resolver::new(session);
    resolver.resolve_graph(&graph);
    assert_eq!(messages(&resolver), vec!["Cannot resolve import '\"missing\"'".to_string()]);
}

#[test]
fn module_scope_is_closed_after_the_module() {
    let mut session = CompilerSession::new();
    let first = let_named(&mut session, "local", false);
    let later = use_name(&mut session, "local");
    let graph = ModuleGraph {
        modules: vec![Module { id: 1, ast: vec![first] }, Module { id: 2, ast: vec![later] }],
        imports: vec![],
    };
    let mut resolver = Resolver::new(session);
    resolver.resolve_graph(&graph);
    assert_eq!(messages(&resolver), vec!["Cannot find variable 'local' in this scope.".to_string()]);
}

#[test]
fn exports_keep_variants_and_skip_private() {
    let mut session = CompilerSession::new();
    let lib = library(&mut session);
    let exports = collect_exports(&lib.ast);
    let names: Vec<String> = exports.iter().map(|e| session.interner.lookup(e.0).to_string()).collect();
    assert_eq!(names, vec!["shared", "other", "Color"]);
    assert_eq!(exports[2].1.len(), 1);
    assert_eq!(session.interner.lookup(exports[2].1[0]), "Red");
}

#[test]
fn trim_char_strips_both_ends() {
    assert_eq!(trim_char("\"\"lib\"", '"'), "lib");
    assert_eq!(trim_char("plain", '"'), "plain");
    assert_eq!(trim_char("''", '\''), "");
}
