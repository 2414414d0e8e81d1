use pace_compiler::interner::{Interner, Symbol};
use pace_compiler::scope::{Scope, ScopeStack};
use pace_compiler::session::{decimal_string, CompilerSession};
use pace_compiler::types::{Type, TypeArena, TypeId};

#[test]
fn intern_then_lookup_gives_the_string_back() {
    let mut interner = Interner::new();
    let a = interner.intern("alpha");
    let b = interner.intern("beta");
    assert_eq!(interner.lookup(a), "alpha");
    assert_eq!(interner.lookup(b), "beta");
    assert_eq!(a, Symbol(0));
    assert_eq!(b, Symbol(1));
}

#[test]
fn interning_twice_gives_the_same_symbol() {
    let mut interner = Interner::new();
    let a = interner.intern("x");
    let b = interner.intern("y");
    let c = interner.intern("x");
    assert_eq!(a, c);
    assert_ne!(a, b);
}

#[test]
fn arena_interns_structurally() {
    let mut arena = TypeArena::new();
    let int = arena.intern(Type::Int);
    let opt1 = arena.intern(Type::Optional(int));
    let opt2 = arena.intern(Type::Optional(int));
    let int2 = arena.intern(Type::Int);
    assert_eq!(int, int2);
    assert_eq!(opt1, opt2);
    assert_eq!(int, TypeId(0));
    assert_eq!(opt1, TypeId(1));
    assert!(matches!(arena.get(opt1), Type::Optional(TypeId(0))));
}

#[test]
fn format_of_compound_types() {
    let mut session = CompilerSession::new();
    let t = session.interner.intern("T");
    let list = session.interner.intern("List");
    let int = session.types.intern(Type::Int);
    let string = session.types.intern(Type::String);
    let opt = session.types.intern(Type::Optional(int));
    let arr = session.types.intern(Type::Array(string));
    let generic = session.types.intern(Type::GenericInstance(list, vec![int, string]));
    let func = session.types.intern(Type::Function(vec![t], vec![opt, arr], generic));
    let class = session.types.intern(Type::Class(list, vec![t]));
    let ptr = session.types.intern(Type::Pointer(int));
    let over = session.types.intern(Type::OverloadedFunction(vec![(t, func), (list, func)]));
    assert_eq!(session.format_type(int), "Int");
    assert_eq!(session.format_type(opt), "Int?");
    assert_eq!(session.format_type(arr), "[String]");
    assert_eq!(session.format_type(generic), "List<Int, String>");
    assert_eq!(session.format_type(func), "Func<T>(Int?, [String]) -> List<Int, String>");
    assert_eq!(session.format_type(class), "Class(List)<T>");
    assert_eq!(session.format_type(ptr), "Pointer<Int>");
    assert_eq!(session.format_type(over), "<OverloadedFunction(2 variants)>");
}

#[test]
fn format_of_simple_types() {
    let mut session = CompilerSession::new();
    let e = session.types.intern(Type::Error);
    let b = session.types.intern(Type::BuiltinFunc);
    let n = session.types.intern(Type::Null);
    let f = session.types.intern(Type::Function(vec![], vec![], n));
    assert_eq!(session.format_type(e), "<ErrorType>");
    assert_eq!(session.format_type(b), "<BuiltinFunc>");
    assert_eq!(session.format_type(f), "Func() -> Null");
}

#[test]
fn decimal_numerals() {
    assert_eq!(decimal_string(0), "0");
    assert_eq!(decimal_string(7), "7");
    assert_eq!(decimal_string(1203), "1203");
}

#[test]
fn scope_declare_reports_redeclaration() {
    let mut scope = Scope::new();
    assert!(scope.declare(Symbol(3)));
    assert!(scope.is_declared_locally(Symbol(3)));
    assert!(!scope.declare(Symbol(3)));
    assert!(!scope.is_declared_locally(Symbol(4)));
}

#[test]
fn scope_stack_shadowing_and_popping() {
    let mut stack = ScopeStack::new();
    assert!(stack.declare(Symbol(1)));
    stack.push_scope();
    assert!(stack.declare(Symbol(1)));
    assert!(stack.declare(Symbol(2)));
    assert!(stack.resolve(Symbol(2)));
    stack.pop_scope();
    assert!(stack.resolve(Symbol(1)));
    assert!(!stack.resolve(Symbol(2)));
}
