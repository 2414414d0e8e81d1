use pace_compiler::ast::{EnumVariant, Expr, ExprKind, Location, Span, Stmt, StmtKind, TypeExpr};
use pace_compiler::checker::TypeChecker;
use pace_compiler::checker_types::Type as Described;
use pace_compiler::diagnostics::DiagnosticCode;
use pace_compiler::interner::Symbol;
use pace_compiler::mangle::replace_str;
use pace_compiler::session::CompilerSession;
use pace_compiler::types::Type;

fn span() -> Span {
    Span::new(0, 0, 0, Location::new(1, 1), Location::new(1, 1))
}

fn e(kind: ExprKind) -> Expr {
    Expr::new(kind, span())
}

fn s(kind: StmtKind) -> Stmt {
    Stmt::new(kind, span())
}

fn sym(c: &mut TypeChecker, text: &str) -> Symbol {
    c.session.interner.intern(text)
}

fn named(c: &mut TypeChecker, text: &str) -> TypeExpr {
    TypeExpr::Named(sym(c, text))
}

fn var(c: &mut TypeChecker, text: &str) -> Expr {
    e(ExprKind::Variable(sym(c, text)))
}

fn let_stmt(name: Symbol, init: Expr) -> Stmt {
    s(StmtKind::Let { name, type_annotation: None, initializer: Some(init), is_private: false })
}

fn func(name: Symbol, type_params: Vec<Symbol>, params: Vec<(Symbol, TypeExpr)>, ret: Option<TypeExpr>, body: Vec<Stmt>) -> Stmt {
    s(StmtKind::Func {
        name,
        type_params,
        params,
        return_type: ret,
        body: Box::new(s(StmtKind::Block(body))),
        is_private: false,
    })
}

fn call(callee: Expr, args: Vec<Expr>) -> Expr {
    e(ExprKind::Call { callee: Box::new(callee), type_args: vec![], arguments: args })
}

fn type_of(c: &mut TypeChecker, name: &str) -> Type {
    let s = sym(c, name);
    let id = c.env.resolve(s).unwrap();
    c.session.types.get(id).duplicate()
}

#[test]
fn unknown_variable_is_reported() {
    let mut c = TypeChecker::new(CompilerSession::new());
    let x = sym(&mut c, "x");
    let y = var(&mut c, "y");
    c.check(&[let_stmt(x, y)]);
    assert_eq!(c.errors.len(), 1);
    assert_eq!(c.errors[0].message, "Variable 'y' not found.");
    assert_eq!(c.errors[0].code, DiagnosticCode::UnknownIdentifier);
}

#[test]
fn overloads_get_mangled_names_and_are_resolved_by_argument_types() {
    let mut c = TypeChecker::new(CompilerSession::new());
    let f = sym(&mut c, "f");
    let a = sym(&mut c, "a");
    let int_t = named(&mut c, "Int");
    let string_t = named(&mut c, "String");
    let text = sym(&mut c, "hi");
    let f1 = func(f, vec![], vec![(a, int_t)], None, vec![]);
    let f2 = func(f, vec![], vec![(a, string_t)], None, vec![]);
    let ok_call = s(StmtKind::Expression(call(e(ExprKind::Variable(f)), vec![e(ExprKind::String(text))])));
    let bad_call = s(StmtKind::Expression(call(e(ExprKind::Variable(f)), vec![e(ExprKind::Boolean(true))])));
    c.check(&[f1, f2, ok_call, bad_call]);
    assert_eq!(c.errors.len(), 1);
    assert_eq!(c.errors[0].message, "No matching overload found for arguments.");
    match type_of(&mut c, "f") {
        Type::OverloadedFunction(variants) => assert_eq!(variants.len(), 2),
        other => panic!("expected an overload set, got {:?}", other),
    }
    match type_of(&mut c, "_PO_f_String") {
        Type::Function(_, params, _) => assert_eq!(params.len(), 1),
        other => panic!("expected a function, got {:?}", other),
    }
}

#[test]
fn generic_function_result_is_instantiated() {
    let mut c = TypeChecker::new(CompilerSession::new());
    let id = sym(&mut c, "id");
    let t = sym(&mut c, "T");
    let x = sym(&mut c, "x");
    let y = sym(&mut c, "y");
    let body = vec![s(StmtKind::Return { value: Some(e(ExprKind::Variable(x))) })];
    let decl = func(id, vec![t], vec![(x, TypeExpr::Named(t))], Some(TypeExpr::Named(t)), body);
    let use_it = let_stmt(y, call(e(ExprKind::Variable(id)), vec![e(ExprKind::Integer(5))]));
    c.check(&[decl, use_it]);
    assert!(c.errors.is_empty(), "{:?}", c.errors);
    assert_eq!(type_of(&mut c, "y"), Type::Int);
}

#[test]
fn return_type_mismatch_is_reported() {
    let mut c = TypeChecker::new(CompilerSession::new());
    let f = sym(&mut c, "f");
    let text = sym(&mut c, "no");
    let int_t = named(&mut c, "Int");
    let body = vec![s(StmtKind::Return { value: Some(e(ExprKind::String(text))) })];
    c.check(&[func(f, vec![], vec![], Some(int_t), body)]);
    assert_eq!(c.errors.len(), 1);
    assert_eq!(c.errors[0].message, "Expected return type 'Int', found 'String'.");
}

#[test]
fn bare_return_in_function_with_result_is_reported() {
    let mut c = TypeChecker::new(CompilerSession::new());
    let f = sym(&mut c, "f");
    let int_t = named(&mut c, "Int");
    c.check(&[func(f, vec![], vec![], Some(int_t), vec![s(StmtKind::Return { value: None })])]);
    assert_eq!(c.errors.len(), 1);
    assert_eq!(c.errors[0].message, "Expected return type 'Int', found 'Void'.");
}

#[test]
fn return_outside_function_is_reported() {
    let mut c = TypeChecker::new(CompilerSession::new());
    c.check(&[s(StmtKind::Return { value: Some(e(ExprKind::Integer(1))) })]);
    assert_eq!(c.errors.len(), 1);
    assert_eq!(c.errors[0].message, "Cannot return from outside a function.");
}

#[test]
fn array_elements_must_agree() {
    let mut c = TypeChecker::new(CompilerSession::new());
    let a = sym(&mut c, "a");
    let text = sym(&mut c, "two");
    let arr = e(ExprKind::Array(vec![e(ExprKind::Integer(1)), e(ExprKind::String(text))]));
    c.check(&[let_stmt(a, arr)]);
    assert_eq!(c.errors.len(), 1);
    assert_eq!(c.errors[0].message, "Array elements have inconsistent types: expected 'Int', found 'String'.");
    match type_of(&mut c, "a") {
        Type::Array(_) => {},
        other => panic!("expected an array type, got {:?}", other),
    }
}

#[test]
fn empty_array_literal_is_reported() {
    let mut c = TypeChecker::new(CompilerSession::new());
    let a = sym(&mut c, "a");
    c.check(&[let_stmt(a, e(ExprKind::Array(vec![])))]);
    assert_eq!(c.errors.len(), 1);
    assert_eq!(c.errors[0].message, "Cannot infer type of empty array literal.");
}

#[test]
fn loops_need_iterables() {
    let mut c = TypeChecker::new(CompilerSession::new());
    let i = sym(&mut c, "i");
    let for_stmt = s(StmtKind::For { item_name: i, iterator: e(ExprKind::Integer(3)), body: Box::new(s(StmtKind::Block(vec![]))) });
    let while_stmt = s(StmtKind::While { condition: e(ExprKind::Integer(1)), body: Box::new(s(StmtKind::Block(vec![]))) });
    c.check(&[for_stmt, while_stmt]);
    assert_eq!(c.errors.len(), 2);
    assert_eq!(c.errors[0].message, "Cannot iterate over non-iterable type 'Int'.");
    assert_eq!(c.errors[1].message, "Expected 'Boolean' for while condition, found 'Int'.");
}

#[test]
fn range_loop_variable_is_int_and_scoped() {
    let mut c = TypeChecker::new(CompilerSession::new());
    let i = sym(&mut c, "i");
    let range = e(ExprKind::Range { start: Box::new(e(ExprKind::Integer(0))), end: Box::new(e(ExprKind::Integer(3))) });
    let body = s(StmtKind::Block(vec![s(StmtKind::Expression(e(ExprKind::Binary(
        Box::new(e(ExprKind::Variable(i))), pace_compiler::ast::BinaryOp::Add, Box::new(e(ExprKind::Integer(1))))))) ]));
    c.check(&[s(StmtKind::For { item_name: i, iterator: range, body: Box::new(body) })]);
    assert!(c.errors.is_empty(), "{:?}", c.errors);
    assert!(c.env.resolve(i).is_none());
}

#[test]
fn constructor_must_initialize_properties() {
    let mut c = TypeChecker::new(CompilerSession::new());
    let user = sym(&mut c, "User");
    let name = sym(&mut c, "name");
    let age = sym(&mut c, "age");
    let init = sym(&mut c, "init");
    let string_t = named(&mut c, "String");
    let int_t = named(&mut c, "Int");
    let text = sym(&mut c, "Ann");
    let field_name = s(StmtKind::Var { name, type_annotation: Some(string_t), initializer: None, is_weak: false, is_private: false });
    let field_age = s(StmtKind::Var { name: age, type_annotation: Some(int_t), initializer: None, is_weak: false, is_private: false });
    let assign_name = s(StmtKind::Expression(e(ExprKind::SetProperty {
        object: Box::new(e(ExprKind::SelfRef)),
        name,
        value: Box::new(e(ExprKind::String(text))),
    })));
    let init_method = func(init, vec![], vec![], None, vec![assign_name]);
    let class = s(StmtKind::Class {
        name: user,
        type_params: vec![],
        implements: vec![],
        methods: vec![init_method],
        fields: vec![field_name, field_age],
        is_private: false,
    });
    c.check(&[class]);
    assert_eq!(c.errors.len(), 1);
    assert_eq!(c.errors[0].message, "Property 'age' is not initialized by the constructor.");
    assert_eq!(c.errors[0].code, DiagnosticCode::UninitializedVariable);
}

#[test]
fn classes_must_provide_interface_methods() {
    let mut c = TypeChecker::new(CompilerSession::new());
    let shape = sym(&mut c, "Shape");
    let area = sym(&mut c, "area");
    let square = sym(&mut c, "Square");
    let missing = sym(&mut c, "Missing");
    let int_t = named(&mut c, "Int");
    let iface = s(StmtKind::Interface { name: shape, methods: vec![func(area, vec![], vec![], Some(int_t), vec![])], is_private: false });
    let class = s(StmtKind::Class {
        name: square,
        type_params: vec![],
        implements: vec![shape, missing],
        methods: vec![],
        fields: vec![],
        is_private: false,
    });
    c.check(&[iface, class]);
    assert_eq!(c.errors.len(), 2);
    assert_eq!(c.errors[0].message, "Class 'Square' does not implement required method 'area' of interface 'Shape'.");
    assert_eq!(c.errors[1].message, "Interface 'Missing' not found.");
}

#[test]
fn enum_variants_are_constructors_or_values() {
    let mut c = TypeChecker::new(CompilerSession::new());
    let color = sym(&mut c, "Color");
    let red = sym(&mut c, "Red");
    let rgb = sym(&mut c, "Rgb");
    let a = sym(&mut c, "a");
    let b = sym(&mut c, "b");
    let int_t = named(&mut c, "Int");
    let fields = vec![pace_compiler::ast::EnumField { name: None, ty: int_t }];
    let decl = s(StmtKind::Enum {
        name: color,
        type_params: vec![],
        variants: vec![EnumVariant { name: red, fields: None }, EnumVariant { name: rgb, fields: Some(fields) }],
        is_private: false,
    });
    let get_red = e(ExprKind::Get { object: Box::new(e(ExprKind::Variable(color))), name: red });
    let make_rgb = call(e(ExprKind::Variable(rgb)), vec![e(ExprKind::Integer(7))]);
    c.check(&[decl, let_stmt(a, get_red), let_stmt(b, make_rgb)]);
    assert!(c.errors.is_empty(), "{:?}", c.errors);
    assert_eq!(type_of(&mut c, "a"), Type::Instance(color));
    assert_eq!(type_of(&mut c, "b"), Type::Instance(color));
}

#[test]
fn weak_variables_must_be_optional_instances() {
    let mut c = TypeChecker::new(CompilerSession::new());
    let w = sym(&mut c, "w");
    c.check(&[s(StmtKind::Var { name: w, type_annotation: None, initializer: Some(e(ExprKind::Integer(1))), is_weak: true, is_private: false })]);
    assert_eq!(c.errors.len(), 1);
    assert_eq!(c.errors[0].message, "Weak variables must be of optional instance type (e.g. 'weak var x: User?').");
}

#[test]
fn unknown_type_annotation_is_reported() {
    let mut c = TypeChecker::new(CompilerSession::new());
    let v = sym(&mut c, "v");
    let t = named(&mut c, "Nope");
    c.check(&[s(StmtKind::Var { name: v, type_annotation: Some(t), initializer: None, is_weak: false, is_private: false })]);
    assert_eq!(c.errors.len(), 1);
    assert_eq!(c.errors[0].message, "Unknown type 'Nope'.");
    assert_eq!(c.errors[0].code, DiagnosticCode::UnknownType);
}

#[test]
fn null_coalescing_needs_an_optional() {
    let mut c = TypeChecker::new(CompilerSession::new());
    let v = sym(&mut c, "v");
    let expr = e(ExprKind::NullCoalesce { left: Box::new(e(ExprKind::Integer(1))), right: Box::new(e(ExprKind::Integer(2))) });
    c.check(&[let_stmt(v, expr)]);
    assert_eq!(c.errors.len(), 1);
    assert_eq!(c.errors[0].message, "Left operand of '??' must be an optional type, found 'Int'.");
}

#[test]
fn force_unwrap_of_null_is_reported() {
    let mut c = TypeChecker::new(CompilerSession::new());
    let v = sym(&mut c, "v");
    c.check(&[let_stmt(v, e(ExprKind::ForceUnwrap(Box::new(e(ExprKind::Null)))))]);
    assert_eq!(c.errors.len(), 1);
    assert_eq!(c.errors[0].message, "Cannot force unwrap a null literal.");
}

#[test]
fn call_arity_is_checked() {
    let mut c = TypeChecker::new(CompilerSession::new());
    let f = sym(&mut c, "f");
    let a = sym(&mut c, "a");
    let int_t = named(&mut c, "Int");
    let decl = func(f, vec![], vec![(a, int_t)], None, vec![]);
    let bad = s(StmtKind::Expression(call(e(ExprKind::Variable(f)), vec![])));
    let text = sym(&mut c, "x");
    let wrong = s(StmtKind::Expression(call(e(ExprKind::Variable(f)), vec![e(ExprKind::String(text))])));
    c.check(&[decl, bad, wrong]);
    assert_eq!(c.errors.len(), 2);
    assert_eq!(c.errors[0].message, "Expected 1 arguments, found 0.");
    assert_eq!(c.errors[1].message, "Argument 1 expected type 'Int', found 'String'.");
}

#[test]
fn print_is_a_builtin_returning_void() {
    let mut c = TypeChecker::new(CompilerSession::new());
    let v = sym(&mut c, "v");
    let p = var(&mut c, "print");
    c.check(&[let_stmt(v, call(p, vec![e(ExprKind::Integer(1))]))]);
    assert!(c.errors.is_empty());
    assert_eq!(type_of(&mut c, "v"), Type::Void);
}

#[test]
fn substituting_nothing_is_the_identity() {
    let mut c = TypeChecker::new(CompilerSession::new());
    let int_id = c.session.types.intern(Type::Int);
    let opt = c.session.types.intern(Type::Optional(int_id));
    let r = c.substitute_generics(opt, &vec![]);
    assert_eq!(r, opt);
}

#[test]
fn substitution_replaces_type_parameters() {
    let mut c = TypeChecker::new(CompilerSession::new());
    let t = sym(&mut c, "T");
    let g = c.session.types.intern(Type::Generic(t));
    let arr = c.session.types.intern(Type::Array(g));
    let int_id = c.session.types.intern(Type::Int);
    let r = c.substitute_generics(arr, &vec![(t, int_id)]);
    assert_eq!(c.session.types.get(r).duplicate(), Type::Array(int_id));
    assert_eq!(c.session.format_type(r), "[Int]");
}

#[test]
fn assignability_is_reflexive_and_accepts_errors() {
    let c = TypeChecker::new(CompilerSession::new());
    let int_id = c.common.int;
    let string_id = c.common.string;
    assert!(c.is_assignable(int_id, int_id));
    assert!(c.is_assignable(c.common.error, string_id));
    assert!(c.is_assignable(string_id, c.common.error));
    assert!(c.is_assignable(string_id, c.common.any));
    assert!(!c.is_assignable(int_id, string_id));
}

#[test]
fn described_types_display_like_the_compiler_prints_them() {
    let f = Described::Function(vec![Described::Int, Described::String], Box::new(Described::Boolean));
    assert_eq!(f.to_string(), "Func(Int, String) -> Boolean");
    let class = Described::Class("Box".to_string(), vec!["T".to_string(), "U".to_string()]);
    assert_eq!(class.to_string(), "Class(Box)<T, U>");
    assert_eq!(Described::Class("Plain".to_string(), vec![]).to_string(), "Class(Plain)");
    let gi = Described::GenericInstance("Box".to_string(), vec![Described::Int]);
    assert_eq!(gi.to_string(), "Box<Int>");
    assert_eq!(Described::Optional(Box::new(Described::Interface("Shape".to_string()))).to_string(), "Interface(Shape)?");
    assert_eq!(Described::Error.to_string(), "<ErrorType>");
    assert_eq!(Described::BuiltinFunc.to_string(), "<BuiltinFunc>");
}

#[test]
fn replacing_text_scans_from_the_left() {
    assert_eq!(replace_str("Box<Int>", "<", "_"), "Box_Int>");
    assert_eq!(replace_str("a[][]b", "[]", "Arr"), "aArrArrb");
    assert_eq!(replace_str("aaa", "aa", "b"), "ba");
    assert_eq!(replace_str("none", "x", "y"), "none");
}

#[test]
fn expression_checked_right_after_construction_reports_operator_mismatch() {
    let mut c = TypeChecker::new(CompilerSession::new());
    let hello = sym(&mut c, "hello");
    c.bind_names();
    let n = c.errors.len();
    let expr = e(ExprKind::Binary(
        Box::new(e(ExprKind::Integer(10))),
        pace_compiler::ast::BinaryOp::Add,
        Box::new(e(ExprKind::String(hello))),
    ));
    let r = c.check_expr_with_expected(&expr, None);
    let error_ty = c.session.types.intern(Type::Error);
    assert_eq!(r, error_ty);
    assert_eq!(c.errors.len(), n + 1);
    assert!(c.errors[n].message.contains("Cannot apply operator to types 'Int' and 'String'"));
}

#[test]
fn hoisting_declares_functions_before_their_bodies_are_checked() {
    let mut c = TypeChecker::new(CompilerSession::new());
    let later = sym(&mut c, "later");
    let int_t = named(&mut c, "Int");
    let decl = func(later, vec![], vec![], Some(int_t), vec![]);
    c.bind_names();
    c.collect_declarations(&[decl]);
    assert!(c.errors.is_empty());
    match type_of(&mut c, "later") {
        Type::Function(tps, ps, _) => {
            assert!(tps.is_empty());
            assert!(ps.is_empty());
        },
        _ => panic!("expected a function type"),
    }
}
