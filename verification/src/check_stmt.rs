use vstd::prelude::*;
use crate::ast::{Expr, Span, Stmt, StmtKind, TypeExpr, lemma_stmts_interned_each, opt_type_expr_interned, stmt_interned,
    stmts_interned, expr_interned, symbols_below, type_exprs_interned};
use crate::check_rules::{diag, reported, errors_if};
use crate::checker::{TypeChecker, assignable};
use crate::diagnostics::{DiagnosticCode, DiagnosticV, diagnostics_view};
use crate::env::{Binding, with_declaration};
use crate::interner::Symbol;
use crate::types::{Type, TypeId, TypeV, type_children};
use crate::check_expr::{expr_checked, picked, with_env};
use crate::check_types::type_parsed;

verus! {

/// A weak variable must hold an optional class instance or interface.
pub open spec fn weak_ok(types: Seq<TypeV>, t: TypeId) -> bool {
    &&& (t.0 as int) < types.len()
    &&& types[t.0 as int] matches TypeV::Optional(inner)
    &&& (inner.0 as int) < types.len()
    &&& (types[inner.0 as int] is Instance || types[inner.0 as int] is Interface)
}

/// Checking a condition from `s0` can end in `s1`: its type must be
/// `Boolean` (or the error type); `prefix` starts the message otherwise.
pub open spec fn condition_checked(s0: TypeChecker, condition: Expr, prefix: &str, s1: TypeChecker) -> bool {
    exists|m: TypeChecker, c: TypeId| #[trigger] picked((m, c))
        && expr_checked(s0, condition, None, m, c)
        && s1.expr_step(m) && s1.session == m.session
        && reported(s1, m, errors_if(c != m.common.boolean && c != m.common.error,
            seq![diag(DiagnosticCode::TypeMismatch, prefix@ + m.text(c) + "'."@, condition.span)]))
}

/// Checking a return statement from `s0` can end in `s1`: the value is
/// checked against the return type of the function being checked, and a
/// missing value must go with a `Void` function.
pub open spec fn return_checked(s0: TypeChecker, value: Option<Expr>, span: Span, s1: TypeChecker) -> bool {
    match value {
        None => s1.expr_step(s0) && s1.session == s0.session && reported(s1, s0, match s0.current_return_type {
            Some(rt) => errors_if(rt != s0.common.void, seq![diag(DiagnosticCode::TypeMismatch,
                "Expected return type '"@ + s0.text(rt) + "', found 'Void'."@, span)]),
            None => seq![],
        }),
        Some(v) => exists|m: TypeChecker, t: TypeId| #[trigger] picked((m, t))
            && expr_checked(s0, v, s0.current_return_type, m, t)
            && s1.expr_step(m) && s1.session == m.session
            && reported(s1, m, match m.current_return_type {
                Some(et) => errors_if(!assignable(m.session.types@, m.class_implements@, m.common, t, et)
                    && t != m.common.error && et != m.common.error && et != m.common.any,
                    seq![diag(DiagnosticCode::TypeMismatch, "Expected return type '"@ + m.text(et) + "', found '"@
                        + m.text(t) + "'."@, v.span)]),
                None => seq![diag(DiagnosticCode::TypeMismatch, "Cannot return from outside a function."@, span)],
            }),
    }
}

/// The errors that a variable declaration reports once its annotation has
/// been parsed to `annotated` and its initializer checked to `init_type`.
pub open spec fn var_decl_errors(m: TypeChecker, annotated: Option<TypeId>, init_type: TypeId, declared: TypeId,
    is_weak: bool, span: Span) -> Seq<DiagnosticV> {
    (match annotated {
        Some(a) => errors_if(init_type != m.common.any
            && !assignable(m.session.types@, m.class_implements@, m.common, init_type, a)
            && init_type != m.common.error,
            seq![diag(DiagnosticCode::TypeMismatch, "Cannot assign type '"@ + m.text(init_type)
                + "' to variable of type '"@ + m.text(a) + "'."@, span)]),
        None => seq![],
    }) + errors_if(is_weak && !weak_ok(m.session.types@, declared), seq![diag(DiagnosticCode::TypeMismatch,
        "Weak variables must be of optional instance type (e.g. 'weak var x: User?')."@, span)])
}

/// Checking a variable declaration from `s0` can end in `s1` with the
/// variable declared with type `r`: the annotation is parsed, the
/// initializer checked against it, and the declared type is the
/// annotation, else the initializer's type, else `Any`.
pub open spec fn var_decl_checked(s0: TypeChecker, name: Symbol, type_annotation: Option<TypeExpr>,
    initializer: Option<Expr>, is_weak: bool, is_mutable: bool, span: Span, s1: TypeChecker, r: TypeId) -> bool {
    exists|m1: TypeChecker, ann: Option<TypeId>, m2: TypeChecker, init: Option<TypeId>, m3: TypeChecker|
        #[trigger] picked((m1, ann, m2, init, m3))
        && (match type_annotation {
            None => m1 == s0 && ann is None,
            Some(a) => ann matches Some(x) && type_parsed(s0, a, span, m1, x),
        })
        && (match initializer {
            None => m2 == m1 && init is None,
            Some(e) => init matches Some(y) && expr_checked(m1, e, ann, m2, y),
        })
        && ({
            let init_type = match init { Some(y) => y, None => m2.common.any };
            let declared = match ann { Some(x) => x, None => init_type };
            &&& m3.expr_step(m2)
            &&& m3.session == m2.session
            &&& reported(m3, m2, var_decl_errors(m2, ann, init_type, declared, is_weak, span))
            &&& with_env(m3, with_declaration(m3.env@, name, Binding { ty: declared, is_mutable }), s1)
            &&& r == declared
        })
}

/// Checking a statement from `s0` can end in `s1`: blocks and loop bodies
/// in scopes of their own, declarations by the rules for them,
/// conditions and returns as above, expressions by `expr_checked`.
pub open spec fn stmt_checked(s0: TypeChecker, stmt: Stmt, s1: TypeChecker) -> bool
    decreases stmt, 1nat,
{
    let span = stmt.span;
    match stmt.kind {
        StmtKind::Block(stmts) => exists|ma: TypeChecker, mb: TypeChecker| #[trigger] picked((ma, mb))
            && with_env(s0, s0.env@.push(Seq::empty()), ma)
            && stmts_checked(ma, stmts@, mb)
            && with_env(mb, mb.env@.drop_last(), s1),
        StmtKind::Let { name, type_annotation, initializer, .. } => exists|r: TypeId| #[trigger] picked(r)
            && var_decl_checked(s0, name, type_annotation, initializer, false, false, span, s1, r),
        StmtKind::Var { name, type_annotation, initializer, is_weak, .. } => exists|r: TypeId| #[trigger] picked(r)
            && var_decl_checked(s0, name, type_annotation, initializer, is_weak, true, span, s1, r),
        StmtKind::If { condition, then_branch, else_branch } => exists|m1: TypeChecker, m2: TypeChecker|
            #[trigger] picked((m1, m2))
            && condition_checked(s0, condition, "Expected 'Boolean' for if condition, found '", m1)
            && stmt_checked(m1, *then_branch, m2)
            && match else_branch {
                Some(e) => stmt_checked(m2, *e, s1),
                None => s1 == m2,
            },
        StmtKind::While { condition, body } => exists|m: TypeChecker| #[trigger] picked(m)
            && condition_checked(s0, condition, "Expected 'Boolean' for while condition, found '", m)
            && stmt_checked(m, *body, s1),
        StmtKind::For { item_name, iterator, body } =>
            exists|m1: TypeChecker, it: TypeId, m2: TypeChecker, item: TypeId, m3: TypeChecker, m4: TypeChecker|
                #[trigger] picked((m1, it, m2, item, m3, m4))
                && expr_checked(s0, iterator, None, m1, it)
                && TypeChecker::iterable_item_type_done(m1, it, span, m2, item)
                && with_env(m2, with_declaration(m2.env@.push(Seq::empty()), item_name, Binding { ty: item, is_mutable: false }), m3)
                && stmt_checked(m3, *body, m4)
                && with_env(m4, m4.env@.drop_last(), s1),
        StmtKind::Import { .. } | StmtKind::Export { .. } => s1 == s0,
        StmtKind::Expression(e) => exists|r: TypeId| #[trigger] picked(r) && expr_checked(s0, e, None, s1, r),
        StmtKind::Return { value } => return_checked(s0, value, span, s1),
        StmtKind::Class { .. } => TypeChecker::check_class_decl_done(s0, stmt, s1),
        StmtKind::Interface { name, methods, .. } => TypeChecker::check_interface_decl_done(s0, name, methods, s1),
        StmtKind::Enum { name, type_params, variants, .. } =>
            TypeChecker::check_enum_decl_done(s0, name, type_params, variants, span, s1),
        StmtKind::ForeignFunc { name, type_params, params, return_type, .. } =>
            TypeChecker::check_foreign_decl_done(s0, name, type_params, params, return_type, span, s1),
        StmtKind::Func { .. } => TypeChecker::check_func_decl_done(s0, stmt, s1),
    }
}

/// `s1` is `s0` where every symbol interned so far may be used by the
/// program.
pub open spec fn names_rebound(s0: TypeChecker, s1: TypeChecker) -> bool {
    &&& s1.names_bound@ == s0.session.interner@.len()
    &&& s1.session == s0.session
    &&& s1.env == s0.env
    &&& s1.errors == s0.errors
    &&& s1.current_return_type == s0.current_return_type
    &&& s1.classes == s0.classes
    &&& s1.class_mutables == s0.class_mutables
    &&& s1.interfaces == s0.interfaces
    &&& s1.enums == s0.enums
    &&& s1.class_implements == s0.class_implements
    &&& s1.current_class == s0.current_class
    &&& s1.uninitialized_class_properties == s0.uninitialized_class_properties
    &&& s1.generic_classes == s0.generic_classes
    &&& s1.generic_functions == s0.generic_functions
    &&& s1.is_checking_method == s0.is_checking_method
    &&& s1.common == s0.common
    &&& s1.names == s0.names
}

/// Statements checked in order.
pub open spec fn stmts_checked(s0: TypeChecker, stmts: Seq<Stmt>, s1: TypeChecker) -> bool
    decreases stmts, 0nat,
{
    if stmts.len() == 0 {
        s1 == s0
    } else {
        exists|m: TypeChecker| #[trigger] picked(m) && stmts_checked(s0, stmts.drop_last(), m) && stmt_checked(m, stmts.last(), s1)
    }
}

impl TypeChecker {
    /// Whether a weak variable may have type `t`.
    pub fn is_weak_compatible(&self, t: TypeId) -> (r: bool)
        requires
            self.wf(),
            (t.0 as int) < self.session.types@.len(),
        ensures
            r == weak_ok(self.session.types@, t),
    {
        match self.session.types.get(t) {
            Type::Optional(inner) => {
                assert(type_children(self.ty(t))[0] == *inner);
                match self.session.types.get(*inner) {
                    Type::Instance(_) | Type::Interface(_) => true,
                    _ => false,
                }
            },
            _ => false,
        }
    }

    /// Checks a variable declaration and declares the variable with the
    /// annotated type, or else the initializer's type (`Any` without
    /// either).  Returns the declared type.
    pub fn check_var_decl(
        &mut self,
        name: Symbol,
        type_annotation: &Option<TypeExpr>,
        initializer: &Option<Expr>,
        is_weak: bool,
        is_mutable: bool,
        span: Span,
    ) -> (r: TypeId)
        requires
            old(self).wf(),
            opt_type_expr_interned(old(self).names_bound@, *type_annotation),
            *initializer matches Some(e) ==> expr_interned(old(self).names_bound@, e),
        ensures
            final(self).grows_from(*old(self)),
            (r.0 as int) < final(self).session.types@.len(),
            type_annotation.is_none() && initializer.is_none() ==> r == old(self).common.any,
            final(self).env@ == with_declaration(old(self).env@, name, Binding { ty: r, is_mutable }),
            final(self).current_return_type == old(self).current_return_type,
            final(self).current_class == old(self).current_class,
            final(self).classes == old(self).classes,
            final(self).class_mutables == old(self).class_mutables,
            final(self).interfaces == old(self).interfaces,
            final(self).enums == old(self).enums,
            final(self).class_implements == old(self).class_implements,
            final(self).uninitialized_class_properties == old(self).uninitialized_class_properties,
            final(self).generic_classes == old(self).generic_classes,
            final(self).generic_functions == old(self).generic_functions,
            final(self).is_checking_method == old(self).is_checking_method,
            var_decl_checked(*old(self), name, *type_annotation, *initializer, is_weak, is_mutable, span, *final(self), r),
    {
        let ghost start = *self;
        let expected = match type_annotation {
            Some(ann) => Some(self.parse_type(ann, span)),
            None => None,
        };
        let ghost m1 = *self;
        let init = match initializer {
            Some(e) => Some(self.check_expr_with_expected(e, expected)),
            None => None,
        };
        let ghost m2 = *self;
        let any = self.common.any;
        let err = self.common.error;
        let init_type = match init {
            Some(t) => t,
            None => any,
        };
        let decl = match expected {
            Some(ann) => ann,
            None => init_type,
        };
        let ghost first_errors: Seq<DiagnosticV> = match expected {
            Some(a) => errors_if(init_type != m2.common.any
                && !assignable(m2.session.types@, m2.class_implements@, m2.common, init_type, a)
                && init_type != m2.common.error,
                seq![diag(DiagnosticCode::TypeMismatch, "Cannot assign type '"@ + m2.text(init_type)
                    + "' to variable of type '"@ + m2.text(a) + "'."@, span)]),
            None => seq![],
        };
        if let Some(ann) = expected {
            if init_type != any && !self.is_assignable(init_type, ann) && init_type != err {
                let m = self.msg2("Cannot assign type '", init_type, "' to variable of type '", ann, "'.");
                self.error(span, DiagnosticCode::TypeMismatch, m.as_str());
            }
        }
        assert(diagnostics_view(self.errors@) =~= diagnostics_view(m2.errors@) + first_errors);
        let ghost mid = *self;
        let ghost weak_errors: Seq<DiagnosticV> = errors_if(is_weak && !weak_ok(m2.session.types@, decl),
            seq![diag(DiagnosticCode::TypeMismatch,
                "Weak variables must be of optional instance type (e.g. 'weak var x: User?')."@, span)]);
        if is_weak && !self.is_weak_compatible(decl) {
            self.error(span, DiagnosticCode::TypeMismatch,
                "Weak variables must be of optional instance type (e.g. 'weak var x: User?').");
        }
        assert(diagnostics_view(self.errors@) =~= diagnostics_view(mid.errors@) + weak_errors);
        let ghost m3 = *self;
        assert(diagnostics_view(m3.errors@) =~= diagnostics_view(m2.errors@) + (first_errors + weak_errors));
        assert(reported(m3, m2, var_decl_errors(m2, expected, init_type, decl, is_weak, span)));
        let ghost before = self.env@;
        self.env.declare_var(name, decl, is_mutable);
        proof {
            assert(picked((m1, expected, m2, init, m3)));
            assert(with_env(m3, with_declaration(m3.env@, name, Binding { ty: decl, is_mutable }), *self));
            let after = self.env@;
            assert(after.drop_last() =~= before.drop_last());
            assert forall|a: int, c: int| 0 <= a < after.len() && 0 <= c < after[a].len()
                implies ((#[trigger] after[a][c]).1.ty.0 as nat) < self.session.types@.len() by {
                if a < after.len() - 1 {
                    assert(after[a] == before[a]);
                } else if c < before.last().len() {
                    assert(after[a][c] == before[a][c]);
                }
            }
        }
        decl
    }

    /// Checks the statements of a program in order.
    pub fn check_stmts(&mut self, stmts: &[Stmt])
        requires
            old(self).wf(),
            stmts_interned(old(self).names_bound@, stmts@),
        ensures
            final(self).stmt_step(*old(self)),
            stmts_checked(*old(self), stmts@, *final(self)),
        decreases stmts@, 0nat,
    {
        let ghost start = *self;
        proof { lemma_stmts_interned_each(self.names_bound@, stmts@); }
        let mut i: usize = 0;
        while i < stmts.len()
            invariant
                self.stmt_step(start),
                i <= stmts@.len(),
                forall|k: int| 0 <= k < stmts@.len() ==> #[trigger] stmt_interned(self.names_bound@, stmts@[k]),
                stmts_checked(start, stmts@.take(i as int), *self),
            decreases stmts@.len() - i,
        {
            proof {
                assert(decreases_to!(stmts@ => stmts@[i as int]));
            }
            let ghost m = *self;
            self.check_stmt(&stmts[i]);
            proof {
                let p = stmts@.take(i + 1);
                assert(p.drop_last() =~= stmts@.take(i as int));
                assert(p.last() == stmts@[i as int]);
                assert(picked(m));
                assert(stmts_checked(start, p, *self));
            }
            i = i + 1;
        }
        assert(stmts@.take(stmts@.len() as int) =~= stmts@);
    }

    /// Checks a statement: declarations go into scope and into the tables
    /// of classes, interfaces and enums; conditions must be `Boolean`;
    /// returns must fit the function's return type.
    pub fn check_stmt(&mut self, stmt: &Stmt)
        requires
            old(self).wf(),
            stmt_interned(old(self).names_bound@, *stmt),
        ensures
            final(self).stmt_step(*old(self)),
            stmt_checked(*old(self), *stmt, *final(self)),
            stmt.kind is Block ==> final(self).env@ == old(self).env@,
        decreases *stmt, 2nat,
    {
        let ghost start = *self;
        let span = stmt.span;
        match &stmt.kind {
            StmtKind::Block(stmts) => {
                let ghost before = self.env@;
                self.env.push_scope();
                proof {
                    let after = self.env@;
                    assert forall|a: int, c: int| 0 <= a < after.len() && 0 <= c < after[a].len()
                        implies ((#[trigger] after[a][c]).1.ty.0 as nat) < self.session.types@.len() by {
                        assert(after[a] == before[a]);
                    }
                    assert(decreases_to!(*stmt => *stmts)) by {
                        assert(decreases_to!(*stmt => stmt.kind));
                        assert(decreases_to!(stmt.kind => stmt.kind->Block_0));
                    }
                    assert(decreases_to!(*stmts => stmts@));
                }
                let ghost ma = *self;
                self.check_stmts(stmts.as_slice());
                let ghost mb = *self;
                self.env.pop_scope();
                assert(self.env@ =~= before);
                assert(with_env(start, start.env@.push(Seq::empty()), ma));
                assert(with_env(mb, mb.env@.drop_last(), *self));
                assert(picked((ma, mb)));
            },
            StmtKind::Let { name, type_annotation, initializer, .. } => {
                let r = self.check_var_decl(*name, type_annotation, initializer, false, false, span);
                assert(picked(r));
                proof { assert(self.env@.drop_last() =~= start.env@.drop_last()); }
            },
            StmtKind::Var { name, type_annotation, initializer, is_weak, .. } => {
                let r = self.check_var_decl(*name, type_annotation, initializer, *is_weak, true, span);
                assert(picked(r));
                proof { assert(self.env@.drop_last() =~= start.env@.drop_last()); }
            },
            StmtKind::If { condition, then_branch, else_branch } => {
                self.check_condition(condition, "Expected 'Boolean' for if condition, found '");
                let ghost m1 = *self;
                self.check_stmt(then_branch);
                let ghost m2 = *self;
                match else_branch {
                    Some(e) => self.check_stmt(e),
                    None => {},
                }
                assert(picked((m1, m2)));
            },
            StmtKind::While { condition, body } => {
                self.check_condition(condition, "Expected 'Boolean' for while condition, found '");
                let ghost m = *self;
                self.check_stmt(body);
                assert(picked(m));
            },
            StmtKind::For { item_name, iterator, body } => {
                let it = self.check_expr(iterator);
                let ghost m1 = *self;
                let item = self.iterable_item_type(it, span);
                let ghost m2 = *self;
                let ghost before = self.env@;
                self.env.push_scope();
                self.env.declare_var(*item_name, item, false);
                let ghost m3 = *self;
                assert(with_env(m2, with_declaration(m2.env@.push(Seq::empty()), *item_name,
                    Binding { ty: item, is_mutable: false }), m3));
                proof {
                    let after = self.env@;
                    assert forall|a: int, c: int| 0 <= a < after.len() && 0 <= c < after[a].len()
                        implies ((#[trigger] after[a][c]).1.ty.0 as nat) < self.session.types@.len() by {
                        if a < after.len() - 1 {
                            assert(after[a] == before[a]);
                        }
                    }
                }
                self.check_stmt(body);
                let ghost m4 = *self;
                self.env.pop_scope();
                assert(with_env(m4, m4.env@.drop_last(), *self));
                assert(picked((m1, it, m2, item, m3, m4)));
                assert(self.env@.drop_last() =~= start.env@.drop_last());
            },
            StmtKind::Import { .. } | StmtKind::Export { .. } => {},
            StmtKind::Expression(e) => {
                let r = self.check_expr(e);
                assert(picked(r));
            },
            StmtKind::Return { value } => {
                self.check_return(value, span);
            },
            StmtKind::Class { .. } => self.check_class_decl(stmt),
            StmtKind::Interface { name, methods, .. } => self.check_interface_decl(*name, methods),
            StmtKind::Enum { name, type_params, variants, .. } => self.check_enum_decl(*name, type_params, variants, span),
            StmtKind::ForeignFunc { name, type_params, params, return_type, .. } =>
                self.check_foreign_decl(*name, type_params, params, return_type, span),
            StmtKind::Func { .. } => self.check_func_decl(stmt),
        }
    }

    /// Checks that a condition is `Boolean`; `prefix` starts the message.
    pub fn check_condition(&mut self, condition: &Expr, prefix: &str)
        requires
            old(self).wf(),
            expr_interned(old(self).names_bound@, *condition),
        ensures
            final(self).expr_step(*old(self)),
            condition_checked(*old(self), *condition, prefix, *final(self)),
    {
        let c = self.check_expr(condition);
        let ghost m = *self;
        if c != self.common.boolean && c != self.common.error {
            let msg = self.msg1(prefix, c, "'.");
            self.error(condition.span, DiagnosticCode::TypeMismatch, msg.as_str());
            assert(diagnostics_view(self.errors@) =~= diagnostics_view(m.errors@)
                + seq![diag(DiagnosticCode::TypeMismatch, prefix@ + m.text(c) + "'."@, condition.span)]);
        } else {
            assert(diagnostics_view(self.errors@) =~= diagnostics_view(m.errors@) + Seq::<DiagnosticV>::empty());
        }
        assert(picked((m, c)));
    }

    /// Checks a return statement against the return type of the function
    /// being checked.
    pub fn check_return(&mut self, value: &Option<Expr>, span: Span)
        requires
            old(self).wf(),
            *value matches Some(v) ==> expr_interned(old(self).names_bound@, v),
        ensures
            final(self).expr_step(*old(self)),
            value is None ==> final(self).session == old(self).session && reported(*final(self), *old(self),
                match old(self).current_return_type {
                    Some(rt) => errors_if(rt != old(self).common.void, seq![diag(DiagnosticCode::TypeMismatch,
                        "Expected return type '"@ + old(self).text(rt) + "', found 'Void'."@, span)]),
                    None => seq![],
                }),
            value is Some && old(self).current_return_type is None ==>
                diagnostics_view(final(self).errors@).last() == diag(DiagnosticCode::TypeMismatch,
                    "Cannot return from outside a function."@, span),
            return_checked(*old(self), *value, span, *final(self)),
    {
        let ghost start = *self;
        match value {
            Some(v) => {
                let expected = self.current_return_type;
                let t = self.check_expr_with_expected(v, expected);
                let ghost m = *self;
                match self.current_return_type {
                    Some(et) => {
                        let c = self.common;
                        if !self.is_assignable(t, et) && t != c.error && et != c.error && et != c.any {
                            let msg = self.msg2("Expected return type '", et, "', found '", t, "'.");
                            self.error(v.span, DiagnosticCode::TypeMismatch, msg.as_str());
                            assert(diagnostics_view(self.errors@) =~= diagnostics_view(m.errors@)
                                + seq![diag(DiagnosticCode::TypeMismatch, "Expected return type '"@ + m.text(et)
                                    + "', found '"@ + m.text(t) + "'."@, v.span)]);
                        } else {
                            assert(diagnostics_view(self.errors@) =~= diagnostics_view(m.errors@) + Seq::<DiagnosticV>::empty());
                        }
                    },
                    None => {
                        self.error(span, DiagnosticCode::TypeMismatch, "Cannot return from outside a function.");
                        assert(diagnostics_view(self.errors@) =~= diagnostics_view(m.errors@)
                            + seq![diag(DiagnosticCode::TypeMismatch, "Cannot return from outside a function."@, span)]);
                    },
                }
                assert(picked((m, t)));
            },
            None => {
                match self.current_return_type {
                    Some(rt) => {
                        if rt != self.common.void {
                            let m = self.msg1("Expected return type '", rt, "', found 'Void'.");
                            self.error(span, DiagnosticCode::TypeMismatch, m.as_str());
                        }
                    },
                    None => {},
                }
                assert(diagnostics_view(self.errors@) =~= diagnostics_view(start.errors@) + match start.current_return_type {
                    Some(rt) => errors_if(rt != start.common.void, seq![diag(DiagnosticCode::TypeMismatch,
                        "Expected return type '"@ + start.text(rt) + "', found 'Void'."@, span)]),
                    None => seq![],
                });
            },
        }
    }

    /// Checks the statements of a program in order; the problems found are
    /// added to `errors`.  The symbols of the program are those of this
    /// checker's session.
    pub fn check(&mut self, statements: &[Stmt])
        requires
            old(self).wf(),
            stmts_interned(old(self).session.interner@.len(), statements@),
        ensures
            final(self).wf(),
            final(self).common == old(self).common,
            final(self).names == old(self).names,
            final(self).errors@.len() >= old(self).errors@.len(),
            forall|k: int| 0 <= k < old(self).errors@.len() ==> final(self).errors@[k] == #[trigger] old(self).errors@[k],
            final(self).session.types@.len() >= old(self).session.types@.len(),
            forall|k: int| 0 <= k < old(self).session.types@.len() ==> final(self).session.types@[k] == #[trigger] old(self).session.types@[k],
            final(self).session.interner@.len() >= old(self).session.interner@.len(),
            forall|k: int| 0 <= k < old(self).session.interner@.len() ==> final(self).session.interner@[k] == #[trigger] old(self).session.interner@[k],
            final(self).env@.len() == old(self).env@.len(),
            final(self).env@.drop_last() == old(self).env@.drop_last(),
            final(self).current_return_type == old(self).current_return_type,
            final(self).current_class == old(self).current_class,
            exists|m: TypeChecker| #[trigger] picked(m) && names_rebound(*old(self), m) && stmts_checked(m, statements@, *final(self)),
    {
        self.bind_names();
        let ghost m = *self;
        self.check_stmts(statements);
        assert(picked(m));
    }

    /// Checks a whole program: its statements in order.
    pub fn check_program(&mut self, statements: &[Stmt])
        requires
            old(self).wf(),
            stmts_interned(old(self).session.interner@.len(), statements@),
        ensures
            final(self).wf(),
            final(self).errors@.len() >= old(self).errors@.len(),
            forall|k: int| 0 <= k < old(self).errors@.len() ==> final(self).errors@[k] == #[trigger] old(self).errors@[k],
            final(self).env@.len() == old(self).env@.len(),
            final(self).env@.drop_last() == old(self).env@.drop_last(),
            exists|m: TypeChecker| #[trigger] picked(m) && names_rebound(*old(self), m) && stmts_checked(m, statements@, *final(self)),
    {
        self.check(statements);
    }

    /// Takes every symbol interned so far as a symbol that programs may use.
    pub fn bind_names(&mut self)
        requires
            old(self).wf(),
        ensures
            final(self).wf(),
            names_rebound(*old(self), *final(self)),
    {
        let ghost n = self.names_bound@;
        let ghost m = self.session.interner@.len();
        self.names_bound = Ghost(m);
        proof {
            assert forall|i: int| 0 <= i < self.generic_classes@.len() implies {
                &&& ((#[trigger] self.generic_classes@[i]).0.0 as nat) < m
                &&& symbols_below(m, self.generic_classes@[i].1.type_params@)
                &&& (self.generic_classes@[i].1.init_params matches Some(ps) ==> type_exprs_interned(m, ps@))
            } by {
                if let Some(ps) = self.generic_classes@[i].1.init_params {
                    crate::ast::lemma_type_exprs_interned_mono(n, m, ps@);
                }
            }
            assert forall|i: int| 0 <= i < self.generic_functions@.len() implies {
                &&& ((#[trigger] self.generic_functions@[i]).0.0 as nat) < m
                &&& symbols_below(m, self.generic_functions@[i].1.type_params@)
                &&& type_exprs_interned(m, self.generic_functions@[i].1.params@)
                &&& opt_type_expr_interned(m, self.generic_functions@[i].1.return_type)
            } by {
                crate::ast::lemma_type_exprs_interned_mono(n, m, self.generic_functions@[i].1.params@);
                if let Some(t) = self.generic_functions@[i].1.return_type {
                    crate::ast::lemma_type_expr_interned_mono(n, m, t);
                }
            }
        }
    }
}

} // verus!
