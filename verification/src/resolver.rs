use vstd::prelude::*;
use crate::ast::{Expr, ExprKind, MatchArm, Pattern, Span, Stmt, StmtKind, TypeExpr};
use crate::diagnostics::{Diagnostic, DiagnosticCode, DiagnosticV, diagnostics_view};
use crate::interner::Symbol;
use crate::scope::{ScopeStack, visible};
use crate::session::{CompilerSession, symbol_text};

verus! {

/// What name resolution reads besides the program: the interned names and
/// the symbols of `self` and of the wildcard `_`.
pub struct ResolveCtx {
    pub names: Seq<Seq<char>>,
    pub self_sym: Symbol,
    pub wildcard: Symbol,
}

/// The state of name resolution: the open scopes and the errors so far.
pub struct ResolveState {
    pub scopes: Seq<Set<Symbol>>,
    pub errors: Seq<DiagnosticV>,
}

pub open spec fn open_scope(st: ResolveState) -> ResolveState {
    ResolveState { scopes: st.scopes.push(Set::empty()), errors: st.errors }
}

pub open spec fn close_scope(st: ResolveState) -> ResolveState {
    ResolveState { scopes: st.scopes.drop_last(), errors: st.errors }
}

/// `name` added to the innermost scope.
pub open spec fn declared(st: ResolveState, name: Symbol) -> ResolveState {
    ResolveState {
        scopes: st.scopes.update(st.scopes.len() - 1, st.scopes.last().insert(name)),
        errors: st.errors,
    }
}

pub open spec fn with_error(st: ResolveState, code: DiagnosticCode, message: Seq<char>, span: Span) -> ResolveState {
    ResolveState {
        scopes: st.scopes,
        errors: st.errors.push(DiagnosticV { code, message, span }),
    }
}

/// The message `prefix` + the name + `suffix`.
pub open spec fn quoted(ctx: ResolveCtx, prefix: Seq<char>, name: Symbol, suffix: Seq<char>) -> Seq<char> {
    prefix + symbol_text(ctx.names, name) + suffix
}

/// Declares `name`; a second declaration in the same scope is reported.
pub open spec fn declare_checked(
    ctx: ResolveCtx,
    st: ResolveState,
    name: Symbol,
    what: Seq<char>,
    suffix: Seq<char>,
    span: Span,
) -> ResolveState {
    if st.scopes.last().contains(name) {
        with_error(declared(st, name), DiagnosticCode::DuplicateDeclaration, quoted(ctx, what, name, suffix), span)
    } else {
        declared(st, name)
    }
}

pub open spec fn already_declared() -> Seq<char> {
    "' is already declared in this scope."@
}

/// Name resolution of a list of statements, in order.
pub open spec fn resolve_stmts_spec(ctx: ResolveCtx, st: ResolveState, stmts: Seq<Stmt>) -> ResolveState
    decreases stmts,
{
    if stmts.len() == 0 {
        st
    } else {
        resolve_stmt_spec(ctx, resolve_stmts_spec(ctx, st, stmts.drop_last()), stmts.last())
    }
}

/// Declaration of function parameters.
pub open spec fn resolve_params_spec(ctx: ResolveCtx, st: ResolveState, params: Seq<(Symbol, TypeExpr)>, span: Span) -> ResolveState
    decreases params.len(),
{
    if params.len() == 0 {
        st
    } else {
        declare_checked(ctx, resolve_params_spec(ctx, st, params.drop_last(), span), params.last().0,
            "Parameter '"@, "' is declared multiple times."@, span)
    }
}

/// Name resolution of one statement.
pub open spec fn resolve_stmt_spec(ctx: ResolveCtx, st: ResolveState, stmt: Stmt) -> ResolveState
    decreases stmt,
{
    match stmt.kind {
        StmtKind::Block(stmts) => close_scope(resolve_stmts_spec(ctx, open_scope(st), stmts@)),
        StmtKind::Let { name, initializer, .. } => {
            let st1 = match initializer { Some(init) => resolve_expr_spec(ctx, st, init), None => st };
            declare_checked(ctx, st1, name, "Variable '"@, already_declared(), stmt.span)
        },
        StmtKind::Var { name, initializer, .. } => {
            let st1 = match initializer { Some(init) => resolve_expr_spec(ctx, st, init), None => st };
            declare_checked(ctx, st1, name, "Variable '"@, already_declared(), stmt.span)
        },
        StmtKind::Class { name, methods, fields, .. } => {
            let st1 = declare_checked(ctx, st, name, "Class '"@, already_declared(), stmt.span);
            let st2 = declared(open_scope(st1), ctx.self_sym);
            let st3 = resolve_stmts_spec(ctx, st2, fields@);
            close_scope(resolve_stmts_spec(ctx, st3, methods@))
        },
        StmtKind::Interface { name, .. } => declare_checked(ctx, st, name, "Interface '"@, already_declared(), stmt.span),
        StmtKind::Enum { name, .. } => declare_checked(ctx, st, name, "Enum '"@, already_declared(), stmt.span),
        StmtKind::ForeignFunc { name, .. } => declare_checked(ctx, st, name, "Foreign function '"@, already_declared(), stmt.span),
        StmtKind::Func { name, params, body, .. } => {
            let st1 = open_scope(declared(st, name));
            let st2 = resolve_params_spec(ctx, st1, params@, stmt.span);
            close_scope(resolve_stmt_spec(ctx, st2, *body))
        },
        StmtKind::If { condition, then_branch, else_branch } => {
            let st1 = resolve_stmt_spec(ctx, resolve_expr_spec(ctx, st, condition), *then_branch);
            match else_branch {
                Some(e) => resolve_stmt_spec(ctx, st1, *e),
                None => st1,
            }
        },
        StmtKind::While { condition, body } => resolve_stmt_spec(ctx, resolve_expr_spec(ctx, st, condition), *body),
        StmtKind::For { item_name, iterator, body } => {
            let st1 = declared(open_scope(resolve_expr_spec(ctx, st, iterator)), item_name);
            close_scope(resolve_stmt_spec(ctx, st1, *body))
        },
        StmtKind::Import { .. } => st,
        StmtKind::Export { .. } => st,
        StmtKind::Expression(e) => resolve_expr_spec(ctx, st, e),
        StmtKind::Return { value } => match value {
            Some(v) => resolve_expr_spec(ctx, st, v),
            None => st,
        },
    }
}

/// Name resolution of a list of expressions, in order.
pub open spec fn resolve_exprs_spec(ctx: ResolveCtx, st: ResolveState, exprs: Seq<Expr>) -> ResolveState
    decreases exprs,
{
    if exprs.len() == 0 {
        st
    } else {
        resolve_expr_spec(ctx, resolve_exprs_spec(ctx, st, exprs.drop_last()), exprs.last())
    }
}

/// Pattern bindings other than `_` are declared.
pub open spec fn declare_bindings_spec(ctx: ResolveCtx, st: ResolveState, binds: Seq<Symbol>) -> ResolveState
    decreases binds.len(),
{
    if binds.len() == 0 {
        st
    } else {
        let st1 = declare_bindings_spec(ctx, st, binds.drop_last());
        if binds.last() != ctx.wildcard { declared(st1, binds.last()) } else { st1 }
    }
}

/// Each match arm is resolved in a scope of its own.
pub open spec fn resolve_arms_spec(ctx: ResolveCtx, st: ResolveState, arms: Seq<MatchArm>, span: Span) -> ResolveState
    decreases arms,
{
    if arms.len() == 0 {
        st
    } else {
        let st0 = resolve_arms_spec(ctx, st, arms.drop_last(), span);
        let arm = arms.last();
        let st1 = open_scope(st0);
        let st2 = match arm.pattern {
            Pattern::Wildcard => st1,
            Pattern::Variant { path, bindings } => {
                let st1a = if path@.len() > 0 && !visible(st1.scopes, path@[0]) {
                    with_error(st1, DiagnosticCode::UnknownIdentifier, quoted(ctx, "Cannot find '"@, path@[0], "' in this scope."@), span)
                } else {
                    st1
                };
                match bindings {
                    Some(binds) => declare_bindings_spec(ctx, st1a, binds@),
                    None => st1a,
                }
            },
        };
        close_scope(resolve_expr_spec(ctx, st2, *arm.body))
    }
}

/// Name resolution of one expression.
pub open spec fn resolve_expr_spec(ctx: ResolveCtx, st: ResolveState, expr: Expr) -> ResolveState
    decreases expr,
{
    match expr.kind {
        ExprKind::Variable(name) => if visible(st.scopes, name) {
            st
        } else {
            with_error(st, DiagnosticCode::UnknownIdentifier, quoted(ctx, "Cannot find variable '"@, name, "' in this scope."@), expr.span)
        },
        ExprKind::Range { start, end } => resolve_expr_spec(ctx, resolve_expr_spec(ctx, st, *start), *end),
        ExprKind::Binary(left, _, right) => resolve_expr_spec(ctx, resolve_expr_spec(ctx, st, *left), *right),
        ExprKind::Unary(_, right) => resolve_expr_spec(ctx, st, *right),
        ExprKind::Grouping(inner) => resolve_expr_spec(ctx, st, *inner),
        ExprKind::Call { callee, arguments, .. } => resolve_exprs_spec(ctx, resolve_expr_spec(ctx, st, *callee), arguments@),
        ExprKind::Get { object, .. } => resolve_expr_spec(ctx, st, *object),
        ExprKind::SetProperty { object, value, .. } => resolve_expr_spec(ctx, resolve_expr_spec(ctx, st, *object), *value),
        ExprKind::Assign { name, value } => {
            let st1 = if visible(st.scopes, name) {
                st
            } else {
                with_error(st, DiagnosticCode::UnknownIdentifier, quoted(ctx, "Cannot assign to undefined variable '"@, name, "'."@), expr.span)
            };
            resolve_expr_spec(ctx, st1, *value)
        },
        ExprKind::Array(elements) => resolve_exprs_spec(ctx, st, elements@),
        ExprKind::ArrayRepeat { value, count } => resolve_expr_spec(ctx, resolve_expr_spec(ctx, st, *value), *count),
        ExprKind::ListComprehension { expr: mapped, item_name, iterator } => {
            let st1 = declared(open_scope(resolve_expr_spec(ctx, st, *iterator)), item_name);
            close_scope(resolve_expr_spec(ctx, st1, *mapped))
        },
        ExprKind::InterpolatedString(pieces) => resolve_exprs_spec(ctx, st, pieces@),
        ExprKind::IndexGet { object, index } => resolve_expr_spec(ctx, resolve_expr_spec(ctx, st, *object), *index),
        ExprKind::IndexSet { object, index, value } => resolve_expr_spec(ctx,
            resolve_expr_spec(ctx, resolve_expr_spec(ctx, st, *object), *index), *value),
        ExprKind::SelfRef => if visible(st.scopes, ctx.self_sym) {
            st
        } else {
            with_error(st, DiagnosticCode::UnknownIdentifier, "Cannot use 'self' outside of a class method."@, expr.span)
        },
        ExprKind::Integer(_) => st,
        ExprKind::Float(_) => st,
        ExprKind::String(_) => st,
        ExprKind::Boolean(_) => st,
        ExprKind::Null => st,
        ExprKind::ForceUnwrap(inner) => resolve_expr_spec(ctx, st, *inner),
        ExprKind::OptionalGet { object, .. } => resolve_expr_spec(ctx, st, *object),
        ExprKind::NullCoalesce { left, right } => resolve_expr_spec(ctx, resolve_expr_spec(ctx, st, *left), *right),
        ExprKind::NullCoalesceAssign { left, right } => resolve_expr_spec(ctx, resolve_expr_spec(ctx, st, *left), *right),
        ExprKind::Match { value, arms } => resolve_arms_spec(ctx, resolve_expr_spec(ctx, st, *value), arms@, expr.span),
    }
}


/// Every name that resolution may print is interned (`n` strings are).
pub open spec fn stmts_names_interned(n: nat, stmts: Seq<Stmt>) -> bool
    decreases stmts,
{
    stmts.len() == 0 || (stmts_names_interned(n, stmts.drop_last()) && stmt_names_interned(n, stmts.last()))
}

pub open spec fn params_interned(n: nat, params: Seq<(Symbol, TypeExpr)>) -> bool {
    forall|k: int| 0 <= k < params.len() ==> ((#[trigger] params[k]).0.0 as nat) < n
}

pub open spec fn stmt_names_interned(n: nat, stmt: Stmt) -> bool
    decreases stmt,
{
    match stmt.kind {
        StmtKind::Block(stmts) => stmts_names_interned(n, stmts@),
        StmtKind::Let { name, initializer, .. } => (name.0 as nat) < n
            && (initializer matches Some(init) ==> expr_names_interned(n, init)),
        StmtKind::Var { name, initializer, .. } => (name.0 as nat) < n
            && (initializer matches Some(init) ==> expr_names_interned(n, init)),
        StmtKind::Class { name, methods, fields, .. } => (name.0 as nat) < n
            && stmts_names_interned(n, fields@) && stmts_names_interned(n, methods@),
        StmtKind::Interface { name, .. } => (name.0 as nat) < n,
        StmtKind::Enum { name, .. } => (name.0 as nat) < n,
        StmtKind::ForeignFunc { name, .. } => (name.0 as nat) < n,
        StmtKind::Func { params, body, .. } => params_interned(n, params@) && stmt_names_interned(n, *body),
        StmtKind::If { condition, then_branch, else_branch } => expr_names_interned(n, condition)
            && stmt_names_interned(n, *then_branch)
            && (else_branch matches Some(e) ==> stmt_names_interned(n, *e)),
        StmtKind::While { condition, body } => expr_names_interned(n, condition) && stmt_names_interned(n, *body),
        StmtKind::For { iterator, body, .. } => expr_names_interned(n, iterator) && stmt_names_interned(n, *body),
        StmtKind::Import { .. } => true,
        StmtKind::Export { .. } => true,
        StmtKind::Expression(e) => expr_names_interned(n, e),
        StmtKind::Return { value } => value matches Some(v) ==> expr_names_interned(n, v),
    }
}

pub open spec fn exprs_names_interned(n: nat, exprs: Seq<Expr>) -> bool
    decreases exprs,
{
    exprs.len() == 0 || (exprs_names_interned(n, exprs.drop_last()) && expr_names_interned(n, exprs.last()))
}

pub open spec fn arms_names_interned(n: nat, arms: Seq<MatchArm>) -> bool
    decreases arms,
{
    arms.len() == 0 || (arms_names_interned(n, arms.drop_last())
        && (arms.last().pattern matches Pattern::Variant { path, .. } ==> (path@.len() > 0 ==> (path@[0].0 as nat) < n))
        && expr_names_interned(n, *arms.last().body))
}

pub open spec fn expr_names_interned(n: nat, expr: Expr) -> bool
    decreases expr,
{
    match expr.kind {
        ExprKind::Variable(name) => (name.0 as nat) < n,
        ExprKind::Range { start, end } => expr_names_interned(n, *start) && expr_names_interned(n, *end),
        ExprKind::Binary(left, _, right) => expr_names_interned(n, *left) && expr_names_interned(n, *right),
        ExprKind::Unary(_, right) => expr_names_interned(n, *right),
        ExprKind::Grouping(inner) => expr_names_interned(n, *inner),
        ExprKind::Call { callee, arguments, .. } => expr_names_interned(n, *callee) && exprs_names_interned(n, arguments@),
        ExprKind::Get { object, .. } => expr_names_interned(n, *object),
        ExprKind::SetProperty { object, value, .. } => expr_names_interned(n, *object) && expr_names_interned(n, *value),
        ExprKind::Assign { name, value } => (name.0 as nat) < n && expr_names_interned(n, *value),
        ExprKind::Array(elements) => exprs_names_interned(n, elements@),
        ExprKind::ArrayRepeat { value, count } => expr_names_interned(n, *value) && expr_names_interned(n, *count),
        ExprKind::ListComprehension { expr: mapped, iterator, .. } => expr_names_interned(n, *mapped) && expr_names_interned(n, *iterator),
        ExprKind::InterpolatedString(pieces) => exprs_names_interned(n, pieces@),
        ExprKind::IndexGet { object, index } => expr_names_interned(n, *object) && expr_names_interned(n, *index),
        ExprKind::IndexSet { object, index, value } => expr_names_interned(n, *object)
            && expr_names_interned(n, *index) && expr_names_interned(n, *value),
        ExprKind::ForceUnwrap(inner) => expr_names_interned(n, *inner),
        ExprKind::OptionalGet { object, .. } => expr_names_interned(n, *object),
        ExprKind::NullCoalesce { left, right } => expr_names_interned(n, *left) && expr_names_interned(n, *right),
        ExprKind::NullCoalesceAssign { left, right } => expr_names_interned(n, *left) && expr_names_interned(n, *right),
        ExprKind::Match { value, arms } => expr_names_interned(n, *value) && arms_names_interned(n, arms@),
        _ => true,
    }
}

proof fn lemma_stmts_interned(n: nat, stmts: Seq<Stmt>)
    requires
        stmts_names_interned(n, stmts),
    ensures
        forall|k: int| 0 <= k < stmts.len() ==> stmt_names_interned(n, #[trigger] stmts[k]),
    decreases stmts.len(),
{
    if stmts.len() > 0 {
        lemma_stmts_interned(n, stmts.drop_last());
        assert forall|k: int| 0 <= k < stmts.len() implies stmt_names_interned(n, #[trigger] stmts[k]) by {
            if k < stmts.len() - 1 {
                assert(stmts[k] == stmts.drop_last()[k]);
            }
        }
    }
}

proof fn lemma_exprs_interned(n: nat, exprs: Seq<Expr>)
    requires
        exprs_names_interned(n, exprs),
    ensures
        forall|k: int| 0 <= k < exprs.len() ==> expr_names_interned(n, #[trigger] exprs[k]),
    decreases exprs.len(),
{
    if exprs.len() > 0 {
        lemma_exprs_interned(n, exprs.drop_last());
        assert forall|k: int| 0 <= k < exprs.len() implies expr_names_interned(n, #[trigger] exprs[k]) by {
            if k < exprs.len() - 1 {
                assert(exprs[k] == exprs.drop_last()[k]);
            }
        }
    }
}

proof fn lemma_arms_interned(n: nat, arms: Seq<MatchArm>)
    requires
        arms_names_interned(n, arms),
    ensures
        forall|k: int| 0 <= k < arms.len() ==> {
            &&& ((#[trigger] arms[k]).pattern matches Pattern::Variant { path, .. } ==> (path@.len() > 0 ==> (path@[0].0 as nat) < n))
            &&& expr_names_interned(n, *arms[k].body)
        },
    decreases arms.len(),
{
    if arms.len() > 0 {
        lemma_arms_interned(n, arms.drop_last());
        assert forall|k: int| 0 <= k < arms.len() implies {
            &&& ((#[trigger] arms[k]).pattern matches Pattern::Variant { path, .. } ==> (path@.len() > 0 ==> (path@[0].0 as nat) < n))
            &&& expr_names_interned(n, *arms[k].body)
        } by {
            if k < arms.len() - 1 {
                assert(arms[k] == arms.drop_last()[k]);
            }
        }
    }
}

/// `t` is the name of a binding that every program sees.
pub open spec fn is_builtin_name(t: Seq<char>) -> bool {
    t == "print"@ || t == "Result"@ || t == "Ok"@ || t == "Err"@ || t == "Option"@ || t == "Some"@ || t == "None"@
}

/// Checks that every name used in a program is declared where it is used,
/// and that no name is declared twice in one scope.
pub struct Resolver {
    pub session: CompilerSession,
    pub scopes: ScopeStack,
    pub errors: Vec<Diagnostic>,
    pub self_sym: Symbol,
    pub wildcard_sym: Symbol,
}

impl Resolver {
    /// The names and symbols that resolution reads.
    pub open spec fn ctx(&self) -> ResolveCtx {
        ResolveCtx { names: self.session.interner@, self_sym: self.self_sym, wildcard: self.wildcard_sym }
    }

    /// The open scopes and the errors reported so far.
    pub open spec fn state(&self) -> ResolveState {
        ResolveState { scopes: self.scopes@, errors: diagnostics_view(self.errors@) }
    }

    /// A resolver whose global scope holds the built-in names.
    #[verifier::rlimit(80)]
    #[verifier::spinoff_prover]
    pub fn new(session: CompilerSession) -> (res: Self)
        requires
            session.interner@.len() + 9 < u32::MAX,
        ensures
            res.session.types@ == session.types@,
            res.ctx().names.len() >= session.interner@.len(),
            res.ctx().names.len() <= session.interner@.len() + 9,
            res.ctx().names.subrange(0, session.interner@.len() as int) == session.interner@,
            crate::interner::no_duplicates(res.ctx().names),
            (res.ctx().self_sym.0 as int) < res.ctx().names.len(),
            res.ctx().names[res.ctx().self_sym.0 as int] == "self"@,
            (res.ctx().wildcard.0 as int) < res.ctx().names.len(),
            res.ctx().names[res.ctx().wildcard.0 as int] == "_"@,
            res.state().errors == Seq::<DiagnosticV>::empty(),
            res.state().scopes.len() == 1,
            forall|s: Symbol| #![trigger res.state().scopes[0].contains(s)]
                res.state().scopes[0].contains(s) <==> ((s.0 as int) < res.ctx().names.len()
                    && is_builtin_name(res.ctx().names[s.0 as int])),
    {
        let mut session = session;
        let ghost n0 = session.interner@;
        let mut scopes = ScopeStack::new();
        let s1 = session.interner.intern("print");
        let s2 = session.interner.intern("Result");
        let s3 = session.interner.intern("Ok");
        let s4 = session.interner.intern("Err");
        let s5 = session.interner.intern("Option");
        let s6 = session.interner.intern("Some");
        let s7 = session.interner.intern("None");
        let self_sym = session.interner.intern("self");
        let wildcard_sym = session.interner.intern("_");
        let ghost names = session.interner@;
        assert(names.len() <= n0.len() + 9);
        scopes.declare(s1);
        scopes.declare(s2);
        scopes.declare(s3);
        scopes.declare(s4);
        scopes.declare(s5);
        scopes.declare(s6);
        scopes.declare(s7);
        proof {
            reveal_strlit("print");
            reveal_strlit("Result");
            reveal_strlit("Ok");
            reveal_strlit("Err");
            reveal_strlit("Option");
            reveal_strlit("Some");
            reveal_strlit("None");
            reveal_strlit("self");
            reveal_strlit("_");
            assert(names.subrange(0, n0.len() as int) =~= n0);
            assert(names[s1.0 as int] == "print"@);
            assert(names[s2.0 as int] == "Result"@);
            assert(names[s3.0 as int] == "Ok"@);
            assert(names[s4.0 as int] == "Err"@);
            assert(names[s5.0 as int] == "Option"@);
            assert(names[s6.0 as int] == "Some"@);
            assert(names[s7.0 as int] == "None"@);
            assert(scopes@[0] =~= set![s1, s2, s3, s4, s5, s6, s7]);
            assert forall|s: Symbol| scopes@[0].contains(s) <==> ((s.0 as int) < names.len()
                && is_builtin_name(names[s.0 as int])) by {
                if (s.0 as int) < names.len() && is_builtin_name(names[s.0 as int]) {
                    let t = names[s.0 as int];
                    if t == "print"@ { assert(s == s1); }
                    else if t == "Result"@ { assert(s == s2); }
                    else if t == "Ok"@ { assert(s == s3); }
                    else if t == "Err"@ { assert(s == s4); }
                    else if t == "Option"@ { assert(s == s5); }
                    else if t == "Some"@ { assert(s == s6); }
                    else { assert(s == s7); }
                }
            }
        }
        let res = Resolver { session, scopes, errors: Vec::new(), self_sym, wildcard_sym };
        assert(res.state().errors =~= Seq::<DiagnosticV>::empty());
        res
    }

    pub(crate) fn error(&mut self, span: Span, code: DiagnosticCode, message: String)
        ensures
            final(self).session == old(self).session,
            final(self).self_sym == old(self).self_sym,
            final(self).wildcard_sym == old(self).wildcard_sym,
            final(self).state() == with_error(old(self).state(), code, message@, span),
    {
        self.errors.push(Diagnostic::error(code, message, span));
        assert(self.state().errors =~= old(self).state().errors.push(DiagnosticV { code, message: message@, span }));
    }

    /// The message `what` + the name + `suffix`.
    fn quote(&self, what: &str, name: Symbol, suffix: &str) -> (m: String)
        requires
            (name.0 as int) < self.ctx().names.len(),
        ensures
            m@ == quoted(self.ctx(), what@, name, suffix@),
    {
        let mut m = String::from_str(what);
        m.append(self.session.interner.lookup(name));
        m.append(suffix);
        m
    }

    fn declare_checked(&mut self, name: Symbol, what: &str, suffix: &str, span: Span)
        requires
            old(self).state().scopes.len() >= 1,
            (name.0 as int) < old(self).ctx().names.len(),
        ensures
            final(self).session == old(self).session,
            final(self).self_sym == old(self).self_sym,
            final(self).wildcard_sym == old(self).wildcard_sym,
            final(self).state() == declare_checked(old(self).ctx(), old(self).state(), name, what@, suffix@, span),
    {
        if !self.scopes.declare(name) {
            let m = self.quote(what, name, suffix);
            self.error(span, DiagnosticCode::DuplicateDeclaration, m);
        }
    }

    pub(crate) fn declare(&mut self, name: Symbol)
        requires
            old(self).state().scopes.len() >= 1,
        ensures
            final(self).session == old(self).session,
            final(self).self_sym == old(self).self_sym,
            final(self).wildcard_sym == old(self).wildcard_sym,
            final(self).state() == declared(old(self).state(), name),
    {
        let _ = self.scopes.declare(name);
    }

    pub(crate) fn push_scope(&mut self)
        ensures
            final(self).session == old(self).session,
            final(self).self_sym == old(self).self_sym,
            final(self).wildcard_sym == old(self).wildcard_sym,
            final(self).state() == open_scope(old(self).state()),
    {
        self.scopes.push_scope();
    }

    pub(crate) fn pop_scope(&mut self)
        requires
            old(self).state().scopes.len() > 1,
        ensures
            final(self).session == old(self).session,
            final(self).self_sym == old(self).self_sym,
            final(self).wildcard_sym == old(self).wildcard_sym,
            final(self).state() == close_scope(old(self).state()),
    {
        self.scopes.pop_scope();
    }

    /// Resolves the names of a list of statements, in order.
    pub fn resolve(&mut self, statements: &[Stmt])
        requires
            old(self).state().scopes.len() >= 1,
            stmts_names_interned(old(self).ctx().names.len(), statements@),
        ensures
            final(self).session == old(self).session,
            final(self).state() == resolve_stmts_spec(old(self).ctx(), old(self).state(), statements@),
            final(self).ctx() == old(self).ctx(),
            final(self).state().scopes.len() == old(self).state().scopes.len(),
        decreases statements@,
    {
        let mut i: usize = 0;
        while i < statements.len()
            invariant
                i <= statements@.len(),
                self.session == old(self).session,
                self.self_sym == old(self).self_sym,
                self.wildcard_sym == old(self).wildcard_sym,
                stmts_names_interned(self.ctx().names.len(), statements@),
                self.state() == resolve_stmts_spec(self.ctx(), old(self).state(), statements@.take(i as int)),
                old(self).state().scopes.len() >= 1,
                self.state().scopes.len() == old(self).state().scopes.len(),
            decreases statements@.len() - i,
        {
            proof {
                lemma_stmts_interned(self.ctx().names.len(), statements@);
                let t = statements@.take(i as int + 1);
                assert(t.drop_last() =~= statements@.take(i as int));
            }
            self.resolve_stmt(&statements[i]);
            i = i + 1;
        }
        assert(statements@.take(statements@.len() as int) =~= statements@);
    }

    fn resolve_stmt(&mut self, stmt: &Stmt)
        requires
            old(self).state().scopes.len() >= 1,
            stmt_names_interned(old(self).ctx().names.len(), *stmt),
        ensures
            final(self).session == old(self).session,
            final(self).self_sym == old(self).self_sym,
            final(self).wildcard_sym == old(self).wildcard_sym,
            final(self).state() == resolve_stmt_spec(old(self).ctx(), old(self).state(), *stmt),
            final(self).state().scopes.len() == old(self).state().scopes.len(),
        decreases stmt,
    {
        match &stmt.kind {
            StmtKind::Block(stmts) => {
                self.push_scope();
                self.resolve(stmts.as_slice());
                self.pop_scope();
            },
            StmtKind::Let { name, initializer, .. } => {
                if let Some(init) = initializer {
                    self.resolve_expr(init);
                }
                self.declare_checked(*name, "Variable '", "' is already declared in this scope.", stmt.span);
            },
            StmtKind::Var { name, initializer, .. } => {
                if let Some(init) = initializer {
                    self.resolve_expr(init);
                }
                self.declare_checked(*name, "Variable '", "' is already declared in this scope.", stmt.span);
            },
            StmtKind::Class { name, methods, fields, .. } => {
                self.declare_checked(*name, "Class '", "' is already declared in this scope.", stmt.span);
                self.push_scope();
                let self_sym = self.self_sym;
                self.declare(self_sym);
                self.resolve(fields.as_slice());
                self.resolve(methods.as_slice());
                self.pop_scope();
            },
            StmtKind::Interface { name, .. } => {
                self.declare_checked(*name, "Interface '", "' is already declared in this scope.", stmt.span);
            },
            StmtKind::Enum { name, .. } => {
                self.declare_checked(*name, "Enum '", "' is already declared in this scope.", stmt.span);
            },
            StmtKind::ForeignFunc { name, .. } => {
                self.declare_checked(*name, "Foreign function '", "' is already declared in this scope.", stmt.span);
            },
            StmtKind::Func { name, params, body, .. } => {
                self.declare(*name);
                self.push_scope();
                let mut i: usize = 0;
                while i < params.len()
                    invariant
                        i <= params@.len(),
                        self.session == old(self).session,
                        self.self_sym == old(self).self_sym,
                        self.wildcard_sym == old(self).wildcard_sym,
                        params_interned(self.ctx().names.len(), params@),
                        self.state().scopes.len() == old(self).state().scopes.len() + 1,
                        self.state() == resolve_params_spec(self.ctx(),
                            open_scope(declared(old(self).state(), *name)), params@.take(i as int), stmt.span),
                    decreases params@.len() - i,
                {
                    proof {
                        let t = params@.take(i as int + 1);
                        assert(t.drop_last() =~= params@.take(i as int));
                    }
                    let (param_name, _) = &params[i];
                    self.declare_checked(*param_name, "Parameter '", "' is declared multiple times.", stmt.span);
                    i = i + 1;
                }
                assert(params@.take(params@.len() as int) =~= params@);
                self.resolve_stmt(body);
                self.pop_scope();
            },
            StmtKind::If { condition, then_branch, else_branch } => {
                self.resolve_expr(condition);
                self.resolve_stmt(then_branch);
                if let Some(e_branch) = else_branch {
                    self.resolve_stmt(e_branch);
                }
            },
            StmtKind::While { condition, body } => {
                self.resolve_expr(condition);
                self.resolve_stmt(body);
            },
            StmtKind::For { item_name, iterator, body } => {
                self.resolve_expr(iterator);
                self.push_scope();
                self.declare(*item_name);
                self.resolve_stmt(body);
                self.pop_scope();
            },
            StmtKind::Import { .. } => {},
            StmtKind::Export { .. } => {},
            StmtKind::Expression(expr) => {
                self.resolve_expr(expr);
            },
            StmtKind::Return { value } => {
                if let Some(val) = value {
                    self.resolve_expr(val);
                }
            },
        }
    }

    fn resolve_exprs(&mut self, exprs: &Vec<Expr>)
        requires
            old(self).state().scopes.len() >= 1,
            exprs_names_interned(old(self).ctx().names.len(), exprs@),
        ensures
            final(self).session == old(self).session,
            final(self).self_sym == old(self).self_sym,
            final(self).wildcard_sym == old(self).wildcard_sym,
            final(self).state() == resolve_exprs_spec(old(self).ctx(), old(self).state(), exprs@),
            final(self).state().scopes.len() == old(self).state().scopes.len(),
        decreases exprs,
    {
        let mut i: usize = 0;
        while i < exprs.len()
            invariant
                i <= exprs@.len(),
                self.session == old(self).session,
                self.self_sym == old(self).self_sym,
                self.wildcard_sym == old(self).wildcard_sym,
                exprs_names_interned(self.ctx().names.len(), exprs@),
                self.state() == resolve_exprs_spec(self.ctx(), old(self).state(), exprs@.take(i as int)),
                old(self).state().scopes.len() >= 1,
                self.state().scopes.len() == old(self).state().scopes.len(),
            decreases exprs@.len() - i,
        {
            proof {
                lemma_exprs_interned(self.ctx().names.len(), exprs@);
                let t = exprs@.take(i as int + 1);
                assert(t.drop_last() =~= exprs@.take(i as int));
            }
            self.resolve_expr(&exprs[i]);
            i = i + 1;
        }
        assert(exprs@.take(exprs@.len() as int) =~= exprs@);
    }

    fn resolve_arms(&mut self, arms: &Vec<MatchArm>, span: Span)
        requires
            old(self).state().scopes.len() >= 1,
            arms_names_interned(old(self).ctx().names.len(), arms@),
        ensures
            final(self).session == old(self).session,
            final(self).self_sym == old(self).self_sym,
            final(self).wildcard_sym == old(self).wildcard_sym,
            final(self).state() == resolve_arms_spec(old(self).ctx(), old(self).state(), arms@, span),
            final(self).state().scopes.len() == old(self).state().scopes.len(),
        decreases arms,
    {
        let mut i: usize = 0;
        while i < arms.len()
            invariant
                i <= arms@.len(),
                self.session == old(self).session,
                self.self_sym == old(self).self_sym,
                self.wildcard_sym == old(self).wildcard_sym,
                arms_names_interned(self.ctx().names.len(), arms@),
                self.state() == resolve_arms_spec(self.ctx(), old(self).state(), arms@.take(i as int), span),
                old(self).state().scopes.len() >= 1,
                self.state().scopes.len() == old(self).state().scopes.len(),
            decreases arms@.len() - i,
        {
            proof {
                lemma_arms_interned(self.ctx().names.len(), arms@);
                let t = arms@.take(i as int + 1);
                assert(t.drop_last() =~= arms@.take(i as int));
            }
            let arm = &arms[i];
            self.push_scope();
            match &arm.pattern {
                Pattern::Wildcard => {},
                Pattern::Variant { path, bindings } => {
                    if path.len() > 0 && !self.scopes.resolve(path[0]) {
                        let m = self.quote("Cannot find '", path[0], "' in this scope.");
                        self.error(span, DiagnosticCode::UnknownIdentifier, m);
                    }
                    if let Some(binds) = bindings {
                        let ghost st1a = self.state();
                        let mut j: usize = 0;
                        while j < binds.len()
                            invariant
                                j <= binds@.len(),
                                self.session == old(self).session,
                                self.self_sym == old(self).self_sym,
                                self.wildcard_sym == old(self).wildcard_sym,
                                self.state().scopes.len() == old(self).state().scopes.len() + 1,
                                self.state() == declare_bindings_spec(self.ctx(), st1a, binds@.take(j as int)),
                            decreases binds@.len() - j,
                        {
                            proof {
                                let t = binds@.take(j as int + 1);
                                assert(t.drop_last() =~= binds@.take(j as int));
                            }
                            let bind = binds[j];
                            if bind != self.wildcard_sym {
                                self.declare(bind);
                            }
                            j = j + 1;
                        }
                        assert(binds@.take(binds@.len() as int) =~= binds@);
                    }
                },
            }
            self.resolve_expr(&arm.body);
            self.pop_scope();
            i = i + 1;
        }
        assert(arms@.take(arms@.len() as int) =~= arms@);
    }

    fn resolve_expr(&mut self, expr: &Expr)
        requires
            old(self).state().scopes.len() >= 1,
            expr_names_interned(old(self).ctx().names.len(), *expr),
        ensures
            final(self).session == old(self).session,
            final(self).self_sym == old(self).self_sym,
            final(self).wildcard_sym == old(self).wildcard_sym,
            final(self).state() == resolve_expr_spec(old(self).ctx(), old(self).state(), *expr),
            final(self).state().scopes.len() == old(self).state().scopes.len(),
        decreases expr,
    {
        match &expr.kind {
            ExprKind::Variable(name) => {
                if !self.scopes.resolve(*name) {
                    let m = self.quote("Cannot find variable '", *name, "' in this scope.");
                    self.error(expr.span, DiagnosticCode::UnknownIdentifier, m);
                }
            },
            ExprKind::Range { start, end } => {
                self.resolve_expr(start);
                self.resolve_expr(end);
            },
            ExprKind::Binary(left, _, right) => {
                self.resolve_expr(left);
                self.resolve_expr(right);
            },
            ExprKind::Unary(_, right) => {
                self.resolve_expr(right);
            },
            ExprKind::Grouping(inner) => {
                self.resolve_expr(inner);
            },
            ExprKind::Call { callee, arguments, .. } => {
                self.resolve_expr(callee);
                self.resolve_exprs(arguments);
            },
            ExprKind::Get { object, .. } => {
                self.resolve_expr(object);
            },
            ExprKind::SetProperty { object, value, .. } => {
                self.resolve_expr(object);
                self.resolve_expr(value);
            },
            ExprKind::Assign { name, value } => {
                if !self.scopes.resolve(*name) {
                    let m = self.quote("Cannot assign to undefined variable '", *name, "'.");
                    self.error(expr.span, DiagnosticCode::UnknownIdentifier, m);
                }
                self.resolve_expr(value);
            },
            ExprKind::Array(elements) => {
                self.resolve_exprs(elements);
            },
            ExprKind::ArrayRepeat { value, count } => {
                self.resolve_expr(value);
                self.resolve_expr(count);
            },
            ExprKind::ListComprehension { expr: mapped_expr, item_name, iterator } => {
                self.resolve_expr(iterator);
                self.push_scope();
                self.declare(*item_name);
                self.resolve_expr(mapped_expr);
                self.pop_scope();
            },
            ExprKind::InterpolatedString(pieces) => {
                self.resolve_exprs(pieces);
            },
            ExprKind::IndexGet { object, index } => {
                self.resolve_expr(object);
                self.resolve_expr(index);
            },
            ExprKind::IndexSet { object, index, value } => {
                self.resolve_expr(object);
                self.resolve_expr(index);
                self.resolve_expr(value);
            },
            ExprKind::SelfRef => {
                if !self.scopes.resolve(self.self_sym) {
                    let m = String::from_str("Cannot use 'self' outside of a class method.");
                    self.error(expr.span, DiagnosticCode::UnknownIdentifier, m);
                }
            },
            ExprKind::Integer(_) => {},
            ExprKind::Float(_) => {},
            ExprKind::String(_) => {},
            ExprKind::Boolean(_) => {},
            ExprKind::Null => {},
            ExprKind::ForceUnwrap(inner) => {
                self.resolve_expr(inner);
            },
            ExprKind::OptionalGet { object, .. } => {
                self.resolve_expr(object);
            },
            ExprKind::NullCoalesce { left, right } => {
                self.resolve_expr(left);
                self.resolve_expr(right);
            },
            ExprKind::NullCoalesceAssign { left, right } => {
                self.resolve_expr(left);
                self.resolve_expr(right);
            },
            ExprKind::Match { value, arms } => {
                self.resolve_expr(value);
                self.resolve_arms(arms, expr.span);
            },
        }
    }
}

} // verus!
