use vstd::prelude::*;
use crate::checker::{CommonTypes, assignable, common_types_ok};
use crate::env::{Binding, lookup, last_binding, with_declaration};
use crate::interner::{Symbol, no_duplicates};
use crate::scope::visible;
use crate::tables::assoc;
use crate::runtime::{insert_value, released, retained, position_of, remove_entry, set_entry, unique_keys, value_of};
use crate::ast::{Expr, ExprKind, MatchArm, Pattern, Span, Stmt, StmtKind, TypeExpr};
use crate::diagnostics::DiagnosticCode;
use crate::resolver::{ResolveCtx, ResolveState, close_scope, declare_bindings_spec, declare_checked, declared, open_scope,
    resolve_arms_spec, resolve_expr_spec, resolve_exprs_spec, resolve_params_spec, resolve_stmt_spec, resolve_stmts_spec, with_error};
use crate::types::{TypeId, TypeV, no_duplicate_types};
use crate::checker::TypeChecker;
use crate::check_call::argument_errors;
use crate::check_expr::binary_outcome;
use crate::ast::BinaryOp;
use crate::modules::exports_of;
use crate::tables::inserted;

verus! {

/// Interning is idempotent: in an interner (which never holds a string
/// twice), two symbols that stand for the same string are the same symbol,
/// so interning a string again gives back the symbol it got the first time.
pub proof fn law_symbol_unique(names: Seq<Seq<char>>, a: Symbol, b: Symbol)
    requires
        no_duplicates(names),
        (a.0 as int) < names.len(),
        (b.0 as int) < names.len(),
        names[a.0 as int] == names[b.0 as int],
    ensures
        a == b,
{
}

/// Type interning is idempotent: in the type arena two ids that stand for
/// the same type are the same id, so equal types are compared by id.
pub proof fn law_type_id_unique(types: Seq<TypeV>, a: TypeId, b: TypeId)
    requires
        no_duplicate_types(types),
        (a.0 as int) < types.len(),
        (b.0 as int) < types.len(),
        types[a.0 as int] == types[b.0 as int],
    ensures
        a == b,
{
}

/// A name declared in the innermost scope is visible.
pub proof fn law_declared_visible(scopes: Seq<Set<Symbol>>, name: Symbol)
    requires
        scopes.len() >= 1,
    ensures
        visible(scopes.update(scopes.len() - 1, scopes.last().insert(name)), name),
{
    let s = scopes.update(scopes.len() - 1, scopes.last().insert(name));
    assert(s[scopes.len() - 1].contains(name));
}

/// Leaving a scope forgets what was declared in it: entering a scope,
/// declaring names in it and leaving it gives back the scopes as they were.
pub proof fn law_scope_exit_restores(scopes: Seq<Set<Symbol>>, declared: Set<Symbol>)
    ensures
        scopes.push(declared).drop_last() == scopes,
{
    assert(scopes.push(declared).drop_last() =~= scopes);
}

/// The latest declaration of a name is what the name denotes.
pub proof fn law_env_declare_lookup(env: Seq<Seq<(Symbol, Binding)>>, name: Symbol, b: Binding)
    requires
        env.len() >= 1,
    ensures
        lookup(with_declaration(env, name, b), name) == Some(b),
{
    let e = with_declaration(env, name, b);
    assert(e.last() == env.last().push((name, b)));
    assert(last_binding(e.last(), name) == Some(b));
}

/// Declaring a name leaves what every other name denotes unchanged.
pub proof fn law_env_declare_other(env: Seq<Seq<(Symbol, Binding)>>, name: Symbol, other: Symbol, b: Binding)
    requires
        env.len() >= 1,
        other != name,
    ensures
        lookup(with_declaration(env, name, b), other) == lookup(env, other),
{
    let e = with_declaration(env, name, b);
    assert(e.last().drop_last() =~= env.last());
    assert(e.drop_last() =~= env.drop_last());
}

/// A declaration in an inner scope shadows the outer ones; when the inner
/// scope is left, the name denotes what it did before.
pub proof fn law_env_shadowing(env: Seq<Seq<(Symbol, Binding)>>, name: Symbol, b: Binding)
    ensures
        lookup(with_declaration(env.push(Seq::empty()), name, b), name) == Some(b),
        with_declaration(env.push(Seq::empty()), name, b).drop_last() == env,
{
    law_env_declare_lookup(env.push(Seq::empty()), name, b);
    assert(with_declaration(env.push(Seq::empty()), name, b).drop_last() =~= env);
}

/// Every type is assignable to itself.
pub proof fn law_assignable_reflexive(types: Seq<TypeV>, implements: Seq<(Symbol, Vec<Symbol>)>, c: CommonTypes, t: TypeId)
    requires
        (t.0 as int) < types.len(),
    ensures
        assignable(types, implements, c, t, t),
{
}

/// The error type is assignable to and from every type, so that one error
/// is not reported again by the checks that follow it.
pub proof fn law_error_assignable(types: Seq<TypeV>, implements: Seq<(Symbol, Vec<Symbol>)>, c: CommonTypes, t: TypeId)
    requires
        (t.0 as int) < types.len(),
        common_types_ok(types, c),
    ensures
        assignable(types, implements, c, c.error, t),
        assignable(types, implements, c, t, c.error),
{
}

/// Every type is assignable to `Any`.
pub proof fn law_any_accepts_all(types: Seq<TypeV>, implements: Seq<(Symbol, Vec<Symbol>)>, c: CommonTypes, t: TypeId)
    requires
        (t.0 as int) < types.len(),
        common_types_ok(types, c),
    ensures
        assignable(types, implements, c, t, c.any),
{
}

/// `null` and the values of a type are assignable to the optional of that
/// type.
pub proof fn law_optional_accepts(types: Seq<TypeV>, implements: Seq<(Symbol, Vec<Symbol>)>, c: CommonTypes, inner: TypeId, opt: TypeId)
    requires
        (opt.0 as int) < types.len(),
        types[opt.0 as int] == TypeV::Optional(inner),
        inner.0 < opt.0,
        common_types_ok(types, c),
    ensures
        assignable(types, implements, c, c.null, opt),
        assignable(types, implements, c, inner, opt),
{
    assert(assignable(types, implements, c, inner, inner));
}

/// An instance of a class is assignable to each interface that the class
/// is declared to implement.
pub proof fn law_instance_to_interface(
    types: Seq<TypeV>,
    implements: Seq<(Symbol, Vec<Symbol>)>,
    c: CommonTypes,
    s: TypeId,
    t: TypeId,
    class_name: Symbol,
    interface_name: Symbol,
)
    requires
        (s.0 as int) < types.len(),
        (t.0 as int) < types.len(),
        types[s.0 as int] == TypeV::Instance(class_name),
        types[t.0 as int] == TypeV::Interface(interface_name),
        assoc(implements, class_name) matches Some(v) && v@.contains(interface_name),
    ensures
        assignable(types, implements, c, s, t),
{
}

/// `b` has the scopes of `a` but for the innermost one, and the errors of
/// `a` followed by more.
pub open spec fn frame(a: ResolveState, b: ResolveState) -> bool {
    &&& b.scopes.len() == a.scopes.len()
    &&& b.scopes.drop_last() == a.scopes.drop_last()
    &&& b.errors.len() >= a.errors.len()
    &&& b.errors.subrange(0, a.errors.len() as int) == a.errors
}

proof fn lemma_frame_refl(a: ResolveState)
    ensures
        frame(a, a),
{
    assert(a.errors.subrange(0, a.errors.len() as int) =~= a.errors);
}

proof fn lemma_frame_trans(a: ResolveState, b: ResolveState, c: ResolveState)
    requires
        frame(a, b),
        frame(b, c),
    ensures
        frame(a, c),
{
    assert(c.errors.subrange(0, a.errors.len() as int) =~= b.errors.subrange(0, a.errors.len() as int));
}

proof fn lemma_frame_declared(a: ResolveState, name: Symbol)
    requires
        a.scopes.len() >= 1,
    ensures
        frame(a, declared(a, name)),
{
    assert(declared(a, name).scopes.drop_last() =~= a.scopes.drop_last());
    lemma_frame_refl(a);
}

proof fn lemma_frame_error(a: ResolveState, code: DiagnosticCode, message: Seq<char>, span: Span)
    ensures
        frame(a, with_error(a, code, message, span)),
{
    assert(with_error(a, code, message, span).errors.subrange(0, a.errors.len() as int) =~= a.errors);
}

proof fn lemma_frame_declare_checked(ctx: ResolveCtx, a: ResolveState, name: Symbol, what: Seq<char>, suffix: Seq<char>, span: Span)
    requires
        a.scopes.len() >= 1,
    ensures
        frame(a, declare_checked(ctx, a, name, what, suffix, span)),
{
    lemma_frame_declared(a, name);
    if a.scopes.last().contains(name) {
        lemma_frame_error(declared(a, name), DiagnosticCode::DuplicateDeclaration,
            crate::resolver::quoted(ctx, what, name, suffix), span);
        lemma_frame_trans(a, declared(a, name), declare_checked(ctx, a, name, what, suffix, span));
    }
}

/// What is resolved inside a scope that was opened on `a` and then closed
/// leaves `a`'s scopes as they were.
proof fn lemma_frame_scoped(a: ResolveState, inner: ResolveState)
    requires
        frame(open_scope(a), inner),
    ensures
        close_scope(inner).scopes == a.scopes,
        frame(a, close_scope(inner)),
{
    assert(open_scope(a).scopes.drop_last() =~= a.scopes);
    assert(close_scope(inner).scopes =~= a.scopes);
    lemma_frame_refl(a);
}

proof fn lemma_frame_stmts(ctx: ResolveCtx, st: ResolveState, stmts: Seq<Stmt>)
    requires
        st.scopes.len() >= 1,
    ensures
        frame(st, resolve_stmts_spec(ctx, st, stmts)),
    decreases stmts,
{
    if stmts.len() == 0 {
        lemma_frame_refl(st);
    } else {
        lemma_frame_stmts(ctx, st, stmts.drop_last());
        let mid = resolve_stmts_spec(ctx, st, stmts.drop_last());
        lemma_frame_stmt(ctx, mid, stmts.last());
        lemma_frame_trans(st, mid, resolve_stmt_spec(ctx, mid, stmts.last()));
    }
}

proof fn lemma_frame_params(ctx: ResolveCtx, st: ResolveState, params: Seq<(Symbol, TypeExpr)>, span: Span)
    requires
        st.scopes.len() >= 1,
    ensures
        frame(st, resolve_params_spec(ctx, st, params, span)),
    decreases params.len(),
{
    if params.len() == 0 {
        lemma_frame_refl(st);
    } else {
        lemma_frame_params(ctx, st, params.drop_last(), span);
        let mid = resolve_params_spec(ctx, st, params.drop_last(), span);
        lemma_frame_declare_checked(ctx, mid, params.last().0, "Parameter '"@, "' is declared multiple times."@, span);
        lemma_frame_trans(st, mid, resolve_params_spec(ctx, st, params, span));
    }
}

proof fn lemma_frame_stmt(ctx: ResolveCtx, st: ResolveState, stmt: Stmt)
    requires
        st.scopes.len() >= 1,
    ensures
        frame(st, resolve_stmt_spec(ctx, st, stmt)),
        stmt.kind is Block ==> resolve_stmt_spec(ctx, st, stmt).scopes == st.scopes,
    decreases stmt,
{
    let r = resolve_stmt_spec(ctx, st, stmt);
    match stmt.kind {
        StmtKind::Block(stmts) => {
            lemma_frame_stmts(ctx, open_scope(st), stmts@);
            lemma_frame_scoped(st, resolve_stmts_spec(ctx, open_scope(st), stmts@));
        },
        StmtKind::Let { name, initializer, .. } => {
            let st1 = match initializer { Some(init) => resolve_expr_spec(ctx, st, init), None => st };
            match initializer {
                Some(init) => lemma_frame_expr(ctx, st, init),
                None => lemma_frame_refl(st),
            }
            lemma_frame_declare_checked(ctx, st1, name, "Variable '"@, crate::resolver::already_declared(), stmt.span);
            lemma_frame_trans(st, st1, r);
        },
        StmtKind::Var { name, initializer, .. } => {
            let st1 = match initializer { Some(init) => resolve_expr_spec(ctx, st, init), None => st };
            match initializer {
                Some(init) => lemma_frame_expr(ctx, st, init),
                None => lemma_frame_refl(st),
            }
            lemma_frame_declare_checked(ctx, st1, name, "Variable '"@, crate::resolver::already_declared(), stmt.span);
            lemma_frame_trans(st, st1, r);
        },
        StmtKind::Class { name, methods, fields, .. } => {
            let st1 = declare_checked(ctx, st, name, "Class '"@, crate::resolver::already_declared(), stmt.span);
            lemma_frame_declare_checked(ctx, st, name, "Class '"@, crate::resolver::already_declared(), stmt.span);
            let st2 = declared(open_scope(st1), ctx.self_sym);
            lemma_frame_declared(open_scope(st1), ctx.self_sym);
            lemma_frame_stmts(ctx, st2, fields@);
            let st3 = resolve_stmts_spec(ctx, st2, fields@);
            lemma_frame_stmts(ctx, st3, methods@);
            lemma_frame_trans(open_scope(st1), st2, st3);
            lemma_frame_trans(open_scope(st1), st3, resolve_stmts_spec(ctx, st3, methods@));
            lemma_frame_scoped(st1, resolve_stmts_spec(ctx, st3, methods@));
            lemma_frame_trans(st, st1, r);
        },
        StmtKind::Interface { name, .. } =>
            lemma_frame_declare_checked(ctx, st, name, "Interface '"@, crate::resolver::already_declared(), stmt.span),
        StmtKind::Enum { name, .. } =>
            lemma_frame_declare_checked(ctx, st, name, "Enum '"@, crate::resolver::already_declared(), stmt.span),
        StmtKind::ForeignFunc { name, .. } =>
            lemma_frame_declare_checked(ctx, st, name, "Foreign function '"@, crate::resolver::already_declared(), stmt.span),
        StmtKind::Func { name, params, body, .. } => {
            let st0 = declared(st, name);
            lemma_frame_declared(st, name);
            let st1 = open_scope(st0);
            lemma_frame_params(ctx, st1, params@, stmt.span);
            let st2 = resolve_params_spec(ctx, st1, params@, stmt.span);
            lemma_frame_stmt(ctx, st2, *body);
            lemma_frame_trans(st1, st2, resolve_stmt_spec(ctx, st2, *body));
            lemma_frame_scoped(st0, resolve_stmt_spec(ctx, st2, *body));
            lemma_frame_trans(st, st0, r);
        },
        StmtKind::If { condition, then_branch, else_branch } => {
            lemma_frame_expr(ctx, st, condition);
            let s0 = resolve_expr_spec(ctx, st, condition);
            lemma_frame_stmt(ctx, s0, *then_branch);
            let s1 = resolve_stmt_spec(ctx, s0, *then_branch);
            lemma_frame_trans(st, s0, s1);
            match else_branch {
                Some(e) => {
                    lemma_frame_stmt(ctx, s1, *e);
                    lemma_frame_trans(st, s1, r);
                },
                None => {},
            }
        },
        StmtKind::While { condition, body } => {
            lemma_frame_expr(ctx, st, condition);
            let s0 = resolve_expr_spec(ctx, st, condition);
            lemma_frame_stmt(ctx, s0, *body);
            lemma_frame_trans(st, s0, r);
        },
        StmtKind::For { item_name, iterator, body } => {
            lemma_frame_expr(ctx, st, iterator);
            let s0 = resolve_expr_spec(ctx, st, iterator);
            let s1 = declared(open_scope(s0), item_name);
            lemma_frame_declared(open_scope(s0), item_name);
            lemma_frame_stmt(ctx, s1, *body);
            lemma_frame_trans(open_scope(s0), s1, resolve_stmt_spec(ctx, s1, *body));
            lemma_frame_scoped(s0, resolve_stmt_spec(ctx, s1, *body));
            lemma_frame_trans(st, s0, r);
        },
        StmtKind::Import { .. } => lemma_frame_refl(st),
        StmtKind::Export { .. } => lemma_frame_refl(st),
        StmtKind::Expression(e) => lemma_frame_expr(ctx, st, e),
        StmtKind::Return { value } => match value {
            Some(v) => lemma_frame_expr(ctx, st, v),
            None => lemma_frame_refl(st),
        },
    }
}

proof fn lemma_frame_exprs(ctx: ResolveCtx, st: ResolveState, exprs: Seq<Expr>)
    requires
        st.scopes.len() >= 1,
    ensures
        frame(st, resolve_exprs_spec(ctx, st, exprs)),
    decreases exprs,
{
    if exprs.len() == 0 {
        lemma_frame_refl(st);
    } else {
        lemma_frame_exprs(ctx, st, exprs.drop_last());
        let mid = resolve_exprs_spec(ctx, st, exprs.drop_last());
        lemma_frame_expr(ctx, mid, exprs.last());
        lemma_frame_trans(st, mid, resolve_expr_spec(ctx, mid, exprs.last()));
    }
}

proof fn lemma_frame_bindings(ctx: ResolveCtx, st: ResolveState, binds: Seq<Symbol>)
    requires
        st.scopes.len() >= 1,
    ensures
        frame(st, declare_bindings_spec(ctx, st, binds)),
    decreases binds.len(),
{
    if binds.len() == 0 {
        lemma_frame_refl(st);
    } else {
        lemma_frame_bindings(ctx, st, binds.drop_last());
        let mid = declare_bindings_spec(ctx, st, binds.drop_last());
        if binds.last() != ctx.wildcard {
            lemma_frame_declared(mid, binds.last());
            lemma_frame_trans(st, mid, declared(mid, binds.last()));
        }
    }
}

proof fn lemma_frame_arms(ctx: ResolveCtx, st: ResolveState, arms: Seq<MatchArm>, span: Span)
    requires
        st.scopes.len() >= 1,
    ensures
        frame(st, resolve_arms_spec(ctx, st, arms, span)),
    decreases arms,
{
    if arms.len() == 0 {
        lemma_frame_refl(st);
    } else {
        lemma_frame_arms(ctx, st, arms.drop_last(), span);
        let st0 = resolve_arms_spec(ctx, st, arms.drop_last(), span);
        let arm = arms.last();
        let st1 = open_scope(st0);
        lemma_frame_refl(st1);
        let st2 = match arm.pattern {
            Pattern::Wildcard => st1,
            Pattern::Variant { path, bindings } => {
                let st1a = if path@.len() > 0 && !visible(st1.scopes, path@[0]) {
                    with_error(st1, DiagnosticCode::UnknownIdentifier,
                        crate::resolver::quoted(ctx, "Cannot find '"@, path@[0], "' in this scope."@), span)
                } else {
                    st1
                };
                match bindings {
                    Some(binds) => declare_bindings_spec(ctx, st1a, binds@),
                    None => st1a,
                }
            },
        };
        match arm.pattern {
            Pattern::Wildcard => {},
            Pattern::Variant { path, bindings } => {
                let st1a = if path@.len() > 0 && !visible(st1.scopes, path@[0]) {
                    lemma_frame_error(st1, DiagnosticCode::UnknownIdentifier,
                        crate::resolver::quoted(ctx, "Cannot find '"@, path@[0], "' in this scope."@), span);
                    with_error(st1, DiagnosticCode::UnknownIdentifier,
                        crate::resolver::quoted(ctx, "Cannot find '"@, path@[0], "' in this scope."@), span)
                } else {
                    st1
                };
                match bindings {
                    Some(binds) => {
                        lemma_frame_bindings(ctx, st1a, binds@);
                        lemma_frame_trans(st1, st1a, st2);
                    },
                    None => {},
                }
            },
        }
        lemma_frame_expr(ctx, st2, *arm.body);
        lemma_frame_trans(st1, st2, resolve_expr_spec(ctx, st2, *arm.body));
        lemma_frame_scoped(st0, resolve_expr_spec(ctx, st2, *arm.body));
        lemma_frame_trans(st, st0, resolve_arms_spec(ctx, st, arms, span));
    }
}

proof fn lemma_frame_expr(ctx: ResolveCtx, st: ResolveState, expr: Expr)
    requires
        st.scopes.len() >= 1,
    ensures
        frame(st, resolve_expr_spec(ctx, st, expr)),
    decreases expr,
{
    let r = resolve_expr_spec(ctx, st, expr);
    match expr.kind {
        ExprKind::Variable(name) => {
            lemma_frame_refl(st);
            lemma_frame_error(st, DiagnosticCode::UnknownIdentifier,
                crate::resolver::quoted(ctx, "Cannot find variable '"@, name, "' in this scope."@), expr.span);
        },
        ExprKind::Range { start, end } => {
            lemma_frame_expr(ctx, st, *start);
            let s0 = resolve_expr_spec(ctx, st, *start);
            lemma_frame_expr(ctx, s0, *end);
            lemma_frame_trans(st, s0, r);
        },
        ExprKind::Binary(left, _, right) => {
            lemma_frame_expr(ctx, st, *left);
            let s0 = resolve_expr_spec(ctx, st, *left);
            lemma_frame_expr(ctx, s0, *right);
            lemma_frame_trans(st, s0, r);
        },
        ExprKind::Unary(_, right) => lemma_frame_expr(ctx, st, *right),
        ExprKind::Grouping(inner) => lemma_frame_expr(ctx, st, *inner),
        ExprKind::Call { callee, arguments, .. } => {
            lemma_frame_expr(ctx, st, *callee);
            let s0 = resolve_expr_spec(ctx, st, *callee);
            lemma_frame_exprs(ctx, s0, arguments@);
            lemma_frame_trans(st, s0, r);
        },
        ExprKind::Get { object, .. } => lemma_frame_expr(ctx, st, *object),
        ExprKind::SetProperty { object, value, .. } => {
            lemma_frame_expr(ctx, st, *object);
            let s0 = resolve_expr_spec(ctx, st, *object);
            lemma_frame_expr(ctx, s0, *value);
            lemma_frame_trans(st, s0, r);
        },
        ExprKind::Assign { name, value } => {
            let st1 = if crate::scope::visible(st.scopes, name) {
                lemma_frame_refl(st);
                st
            } else {
                lemma_frame_error(st, DiagnosticCode::UnknownIdentifier,
                    crate::resolver::quoted(ctx, "Cannot assign to undefined variable '"@, name, "'."@), expr.span);
                with_error(st, DiagnosticCode::UnknownIdentifier,
                    crate::resolver::quoted(ctx, "Cannot assign to undefined variable '"@, name, "'."@), expr.span)
            };
            lemma_frame_expr(ctx, st1, *value);
            lemma_frame_trans(st, st1, r);
        },
        ExprKind::Array(elements) => lemma_frame_exprs(ctx, st, elements@),
        ExprKind::ArrayRepeat { value, count } => {
            lemma_frame_expr(ctx, st, *value);
            let s0 = resolve_expr_spec(ctx, st, *value);
            lemma_frame_expr(ctx, s0, *count);
            lemma_frame_trans(st, s0, r);
        },
        ExprKind::ListComprehension { expr: mapped, item_name, iterator } => {
            lemma_frame_expr(ctx, st, *iterator);
            let s0 = resolve_expr_spec(ctx, st, *iterator);
            let s1 = declared(open_scope(s0), item_name);
            lemma_frame_declared(open_scope(s0), item_name);
            lemma_frame_expr(ctx, s1, *mapped);
            lemma_frame_trans(open_scope(s0), s1, resolve_expr_spec(ctx, s1, *mapped));
            lemma_frame_scoped(s0, resolve_expr_spec(ctx, s1, *mapped));
            lemma_frame_trans(st, s0, r);
        },
        ExprKind::InterpolatedString(pieces) => lemma_frame_exprs(ctx, st, pieces@),
        ExprKind::IndexGet { object, index } => {
            lemma_frame_expr(ctx, st, *object);
            let s0 = resolve_expr_spec(ctx, st, *object);
            lemma_frame_expr(ctx, s0, *index);
            lemma_frame_trans(st, s0, r);
        },
        ExprKind::IndexSet { object, index, value } => {
            lemma_frame_expr(ctx, st, *object);
            let s0 = resolve_expr_spec(ctx, st, *object);
            lemma_frame_expr(ctx, s0, *index);
            let s1 = resolve_expr_spec(ctx, s0, *index);
            lemma_frame_trans(st, s0, s1);
            lemma_frame_expr(ctx, s1, *value);
            lemma_frame_trans(st, s1, r);
        },
        ExprKind::SelfRef => {
            lemma_frame_refl(st);
            lemma_frame_error(st, DiagnosticCode::UnknownIdentifier, "Cannot use 'self' outside of a class method."@, expr.span);
        },
        ExprKind::ForceUnwrap(inner) => lemma_frame_expr(ctx, st, *inner),
        ExprKind::OptionalGet { object, .. } => lemma_frame_expr(ctx, st, *object),
        ExprKind::NullCoalesce { left, right } => {
            lemma_frame_expr(ctx, st, *left);
            let s0 = resolve_expr_spec(ctx, st, *left);
            lemma_frame_expr(ctx, s0, *right);
            lemma_frame_trans(st, s0, r);
        },
        ExprKind::NullCoalesceAssign { left, right } => {
            lemma_frame_expr(ctx, st, *left);
            let s0 = resolve_expr_spec(ctx, st, *left);
            lemma_frame_expr(ctx, s0, *right);
            lemma_frame_trans(st, s0, r);
        },
        ExprKind::Match { value, arms } => {
            lemma_frame_expr(ctx, st, *value);
            let s0 = resolve_expr_spec(ctx, st, *value);
            lemma_frame_arms(ctx, s0, arms@, expr.span);
            lemma_frame_trans(st, s0, r);
        },
        _ => lemma_frame_refl(st),
    }
}

/// Block scoping: resolving a block leaves the scopes exactly as they were
/// (what the block declares is not visible after it), and keeps every error
/// found before it, adding the block's own.
pub proof fn law_block_scoping(ctx: ResolveCtx, st: ResolveState, block: Stmt)
    requires
        st.scopes.len() >= 1,
        block.kind is Block,
    ensures
        resolve_stmt_spec(ctx, st, block).scopes == st.scopes,
        resolve_stmt_spec(ctx, st, block).errors.len() >= st.errors.len(),
        resolve_stmt_spec(ctx, st, block).errors.subrange(0, st.errors.len() as int) == st.errors,
{
    lemma_frame_stmt(ctx, st, block);
}

/// Resolving statements never removes a scope or an error: the outer
/// scopes stay as they were and errors only accumulate.
pub proof fn law_resolution_keeps_outer_scopes(ctx: ResolveCtx, st: ResolveState, stmts: Seq<Stmt>)
    requires
        st.scopes.len() >= 1,
    ensures
        frame(st, resolve_stmts_spec(ctx, st, stmts)),
{
    lemma_frame_stmts(ctx, st, stmts);
}

/// Shadowing is allowed: declaring a name in a freshly opened scope is
/// never a redeclaration, whatever the enclosing scopes hold.
pub proof fn law_shadowing_allowed(ctx: ResolveCtx, st: ResolveState, name: Symbol, what: Seq<char>, suffix: Seq<char>, span: Span)
    ensures
        declare_checked(ctx, open_scope(st), name, what, suffix, span) == declared(open_scope(st), name),
{
}

/// Declaring a name twice in one scope is reported once, as a duplicate
/// declaration.
pub proof fn law_redeclaration_reported(ctx: ResolveCtx, st: ResolveState, name: Symbol, what: Seq<char>, suffix: Seq<char>, span: Span)
    requires
        st.scopes.len() >= 1,
    ensures
        declare_checked(ctx, declared(st, name), name, what, suffix, span).errors
            == st.errors.push(crate::diagnostics::DiagnosticV { code: DiagnosticCode::DuplicateDeclaration,
                message: crate::resolver::quoted(ctx, what, name, suffix), span }),
{
    let d = declared(st, name);
    assert(d.scopes.last() == st.scopes.last().insert(name));
    assert(d.scopes.last().contains(name));
}

/// In a map without repeated keys, the entry found for a key is the only
/// one with that key.
proof fn lemma_position_unique(m: Seq<(u64, u64)>, key: u64, j: int)
    requires
        unique_keys(m),
        0 <= j < m.len(),
        m[j].0 == key,
    ensures
        position_of(m, key) == Some(j),
{
    let i = choose|i: int| 0 <= i < m.len() && m[i].0 == key;
    if i < j {
        assert(m[i].0 != m[j].0);
    } else if j < i {
        assert(m[j].0 != m[i].0);
    }
}

/// Reading a key of the runtime map gives back the value last set for it,
/// and setting keeps the keys unique.
pub proof fn law_map_get_after_set(m: Seq<(u64, u64)>, key: u64, val: u64)
    requires
        unique_keys(m),
    ensures
        value_of(set_entry(m, key, val), key) == val,
        unique_keys(set_entry(m, key, val)),
{
    let m2 = set_entry(m, key, val);
    match position_of(m, key) {
        Some(i) => {
            assert(m[i].0 == key);
            assert forall|a: int, b: int| 0 <= a < b < m2.len() implies m2[a].0 != m2[b].0 by {
                assert(m2[a].0 == m[a].0 && m2[b].0 == m[b].0);
            }
            lemma_position_unique(m2, key, i);
        },
        None => {
            assert forall|a: int, b: int| 0 <= a < b < m2.len() implies m2[a].0 != m2[b].0 by {
                if b == m.len() {
                    assert(m2[a] == m[a]);
                    assert(!(m[a].0 == key));
                } else {
                    assert(m2[a] == m[a] && m2[b] == m[b]);
                }
            }
            lemma_position_unique(m2, key, m.len() as int);
        },
    }
}

/// Setting one key of the runtime map leaves the value of every other key
/// unchanged.
pub proof fn law_map_set_keeps_others(m: Seq<(u64, u64)>, key: u64, other: u64, val: u64)
    requires
        unique_keys(m),
        other != key,
    ensures
        value_of(set_entry(m, key, val), other) == value_of(m, other),
{
    let m2 = set_entry(m, key, val);
    law_map_get_after_set(m, key, val);
    match position_of(m, other) {
        Some(j) => {
            assert(m[j].0 == other);
            match position_of(m, key) {
                Some(i) => {
                    assert(m[i].0 == key);
                    assert(m2[j] == m[j]);
                },
                None => {
                    assert(m2[j] == m[j]);
                },
            }
            lemma_position_unique(m2, other, j);
        },
        None => {
            assert forall|i: int| 0 <= i < m2.len() implies m2[i].0 != other by {
                if i < m.len() {
                    if m2[i] != m[i] {
                        assert(m2[i].0 == key);
                    }
                }
            }
        },
    }
}

/// After a key is removed from the runtime map, reading it gives the null
/// address.
pub proof fn law_map_get_after_remove(m: Seq<(u64, u64)>, key: u64)
    requires
        unique_keys(m),
    ensures
        value_of(remove_entry(m, key), key) == 0,
{
    let m2 = remove_entry(m, key);
    match position_of(m, key) {
        Some(i) => {
            assert(m[i].0 == key);
            assert forall|j: int| 0 <= j < m2.len() implies m2[j].0 != key by {
                let oj = if j < i { j } else { j + 1 };
                assert(m2[j] == m[oj]);
                if oj < i {
                    assert(m[oj].0 != m[i].0);
                } else {
                    assert(m[i].0 != m[oj].0);
                }
            }
        },
        None => {},
    }
}

/// Inserting a value into the runtime set twice is the same as inserting
/// it once, and afterwards the set contains it.
pub proof fn law_set_insert_idempotent(s: Seq<u64>, val: u64)
    ensures
        insert_value(s, val).contains(val),
        insert_value(insert_value(s, val), val) == insert_value(s, val),
{
    if !s.contains(val) {
        assert(s.push(val)[s.len() as int] == val);
    }
}

/// Taking a reference and giving it up again restores the count, and that
/// release is not the last one while someone else holds a reference.
pub proof fn law_retain_release(count: usize)
    requires
        count < usize::MAX,
    ensures
        released(retained(count)) == count,
        count >= 1 ==> retained(count) != 1,
{
}


/// A comparison (`<`, `<=`, `>`, `>=`) of operands that are not the error
/// type has type `Boolean`, whatever the operand types, whether or not the
/// comparison is reported.
pub proof fn law_comparison_is_boolean(tc: TypeChecker, op: BinaryOp, l: TypeId, r: TypeId)
    requires
        op == BinaryOp::Less || op == BinaryOp::LessEqual || op == BinaryOp::Greater || op == BinaryOp::GreaterEqual,
        l != tc.common.error,
        r != tc.common.error,
    ensures
        binary_outcome(tc, op, l, r).0 == tc.common.boolean,
{
}

/// An equality test (`==`, `!=`) between operands that are not the error
/// type, one of which is assignable to the other, has type `Boolean` and is
/// not reported.
pub proof fn law_equality_is_boolean(tc: TypeChecker, op: BinaryOp, l: TypeId, r: TypeId)
    requires
        op == BinaryOp::Equal || op == BinaryOp::NotEqual,
        l != tc.common.error,
        r != tc.common.error,
        assignable(tc.session.types@, tc.class_implements@, tc.common, l, r)
            || assignable(tc.session.types@, tc.class_implements@, tc.common, r, l),
    ensures
        binary_outcome(tc, op, l, r) == (tc.common.boolean, None::<Seq<char>>),
{
}

/// Arithmetic on two `Int` operands has type `Int` and is not reported.
pub proof fn law_int_arithmetic_is_int(tc: TypeChecker, op: BinaryOp)
    requires
        op == BinaryOp::Add || op == BinaryOp::Subtract || op == BinaryOp::Multiply || op == BinaryOp::Divide,
        tc.common.int != tc.common.error,
        (tc.common.int.0 as int) < tc.session.types@.len(),
    ensures
        binary_outcome(tc, op, tc.common.int, tc.common.int) == (tc.common.int, None::<Seq<char>>),
{
    law_assignable_reflexive(tc.session.types@, tc.class_implements@, tc.common, tc.common.int);
}

/// The arguments of a call whose count matches are checked against the
/// parameters: no argument is reported exactly when every argument's type
/// is assignable to its parameter's type (a parameter of type `Any`, or an
/// argument of the error type, is never reported).
pub proof fn law_arguments_checked_against_parameters(tc: TypeChecker, ps: Seq<TypeId>, args: Seq<TypeId>, span: Span, n: nat)
    requires
        n <= ps.len(),
        n <= args.len(),
    ensures
        argument_errors(tc, ps, args, span, n).len() == 0 <==> (forall|k: int| 0 <= k < n ==>
            (assignable(tc.session.types@, tc.class_implements@, tc.common, #[trigger] args[k], ps[k])
                || ps[k] == tc.common.any || args[k] == tc.common.error)),
    decreases n,
{
    if n > 0 {
        let m = (n - 1) as nat;
        law_arguments_checked_against_parameters(tc, ps, args, span, m);
        let k = m as int;
        if !(assignable(tc.session.types@, tc.class_implements@, tc.common, args[k], ps[k])
            || ps[k] == tc.common.any || args[k] == tc.common.error) {
            assert(argument_errors(tc, ps, args, span, n).len() > 0);
        }
    }
}

/// An argument that is an instance of a class is accepted for a parameter
/// whose type is an interface that the class implements.
pub proof fn law_instance_argument_accepted(
    tc: TypeChecker,
    ps: Seq<TypeId>,
    args: Seq<TypeId>,
    span: Span,
    class_name: Symbol,
    interface_name: Symbol,
)
    requires
        ps.len() == 1,
        args.len() == 1,
        (args[0].0 as int) < tc.session.types@.len(),
        (ps[0].0 as int) < tc.session.types@.len(),
        tc.session.types@[args[0].0 as int] == TypeV::Instance(class_name),
        tc.session.types@[ps[0].0 as int] == TypeV::Interface(interface_name),
        assoc(tc.class_implements@, class_name) matches Some(v) && v@.contains(interface_name),
    ensures
        argument_errors(tc, ps, args, span, 1).len() == 0,
{
    law_instance_to_interface(tc.session.types@, tc.class_implements@, tc.common, args[0], ps[0], class_name, interface_name);
    law_arguments_checked_against_parameters(tc, ps, args, span, 1);
}

/// The loop variable of a `for` is visible in its body: resolving
/// `for x in e { x; }` reports nothing beyond what resolving `e` reports,
/// and leaves the scopes as resolving `e` left them.
pub proof fn law_for_variable_visible_in_body(
    ctx: ResolveCtx,
    st: ResolveState,
    item_name: Symbol,
    iterator: Expr,
    use_span: Span,
    body_span: Span,
    span: Span,
)
    ensures
        ({
            let body = Stmt { kind: StmtKind::Expression(Expr { kind: ExprKind::Variable(item_name), span: use_span }), span: body_span };
            let r = resolve_stmt_spec(ctx, st, Stmt { kind: StmtKind::For { item_name, iterator, body: Box::new(body) }, span });
            let e = resolve_expr_spec(ctx, st, iterator);
            r.errors == e.errors && r.scopes == e.scopes
        }),
{
    let e = resolve_expr_spec(ctx, st, iterator);
    let s1 = declared(open_scope(e), item_name);
    let use_expr = Expr { kind: ExprKind::Variable(item_name), span: use_span };
    let body = Stmt { kind: StmtKind::Expression(use_expr), span: body_span };
    assert(s1.scopes[s1.scopes.len() - 1].contains(item_name));
    assert(visible(s1.scopes, item_name));
    assert(resolve_expr_spec(ctx, s1, use_expr) == s1);
    assert(resolve_stmt_spec(ctx, s1, body) == s1);
    assert(close_scope(s1).scopes =~= e.scopes);
    assert(resolve_stmt_spec(ctx, st, Stmt { kind: StmtKind::For { item_name, iterator, body: Box::new(body) }, span })
        == close_scope(resolve_stmt_spec(ctx, s1, body)));
}

/// Whether `table` has an entry for `key`.
pub open spec fn has_key<V>(table: Seq<(Symbol, V)>, key: Symbol) -> bool {
    exists|i: int| 0 <= i < table.len() && (#[trigger] table[i]).0 == key
}

proof fn lemma_inserted_keys<V>(table: Seq<(Symbol, V)>, key: Symbol, value: V, other: Symbol)
    ensures
        has_key(inserted(table, key, value), key),
        has_key(table, other) ==> has_key(inserted(table, key, value), other),
{
    let t = inserted(table, key, value);
    match crate::tables::key_position(table, key) {
        Some(i) => {
            assert(0 <= i < table.len() && table[i].0 == key);
            assert(t[i].0 == key);
            if has_key(table, other) {
                let j = choose|j: int| 0 <= j < table.len() && (#[trigger] table[j]).0 == other;
                if j == i {
                    assert(t[i].0 == other);
                } else {
                    assert(t[j] == table[j]);
                }
            }
        },
        None => {
            assert(t[table.len() as int].0 == key);
            if has_key(table, other) {
                let j = choose|j: int| 0 <= j < table.len() && (#[trigger] table[j]).0 == other;
                assert(t[j] == table[j]);
            }
        },
    }
}

/// Every declaration at the top level of a module that is not `private`
/// (a `let`, `var`, class, interface, enum, foreign function or function)
/// is exported under its name.
pub proof fn law_public_declarations_exported(stmts: Seq<Stmt>, i: int)
    requires
        0 <= i < stmts.len(),
    ensures
        stmts[i].kind matches StmtKind::Func { name, is_private, .. } ==> (!is_private ==> has_key(exports_of(stmts), name)),
        stmts[i].kind matches StmtKind::Let { name, is_private, .. } ==> (!is_private ==> has_key(exports_of(stmts), name)),
        stmts[i].kind matches StmtKind::Var { name, is_private, .. } ==> (!is_private ==> has_key(exports_of(stmts), name)),
        stmts[i].kind matches StmtKind::Class { name, is_private, .. } ==> (!is_private ==> has_key(exports_of(stmts), name)),
        stmts[i].kind matches StmtKind::Interface { name, is_private, .. } ==> (!is_private ==> has_key(exports_of(stmts), name)),
        stmts[i].kind matches StmtKind::Enum { name, is_private, .. } ==> (!is_private ==> has_key(exports_of(stmts), name)),
        stmts[i].kind matches StmtKind::ForeignFunc { name, is_private, .. } ==> (!is_private ==> has_key(exports_of(stmts), name)),
    decreases stmts.len(),
{
    let last = stmts.len() - 1;
    let t = exports_of(stmts.drop_last());
    let n = public_name(stmts[i].kind);
    if i < last {
        law_public_declarations_exported(stmts.drop_last(), i);
        assert(stmts.drop_last()[i] == stmts[i]);
        if n is Some {
            let k = n->Some_0;
            assert(has_key(t, k));
            match public_entry(stmts.last().kind) {
                Some((key, v)) => lemma_inserted_keys(t, key, v, k),
                None => {},
            }
        }
    } else {
        match public_entry(stmts.last().kind) {
            Some((key, v)) => lemma_inserted_keys(t, key, v, key),
            None => {},
        }
    }
}

/// The name of a declaration that is not `private`.
spec fn public_name(k: StmtKind) -> Option<Symbol> {
    match public_entry(k) {
        Some((n, v)) => Some(n),
        None => None,
    }
}

/// The export entry that exporting adds for a statement, if any.
spec fn public_entry(k: StmtKind) -> Option<(Symbol, Seq<Symbol>)> {
    match k {
        StmtKind::Let { name, is_private, .. } => if !is_private { Some((name, Seq::empty())) } else { None },
        StmtKind::Var { name, is_private, .. } => if !is_private { Some((name, Seq::empty())) } else { None },
        StmtKind::Class { name, is_private, .. } => if !is_private { Some((name, Seq::empty())) } else { None },
        StmtKind::Interface { name, is_private, .. } => if !is_private { Some((name, Seq::empty())) } else { None },
        StmtKind::ForeignFunc { name, is_private, .. } => if !is_private { Some((name, Seq::empty())) } else { None },
        StmtKind::Func { name, is_private, .. } => if !is_private { Some((name, Seq::empty())) } else { None },
        StmtKind::Enum { name, is_private, variants, .. } => if !is_private {
            Some((name, variants@.map_values(|v: crate::ast::EnumVariant| v.name)))
        } else {
            None
        },
        _ => None,
    }
}
} // verus!
