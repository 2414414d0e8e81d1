use vstd::prelude::*;
use crate::ast::{BinaryOp, Expr, ExprKind, MatchArm, Span, TypeExpr, UnaryOp, expr_interned, exprs_interned, arms_interned,
    lemma_arms_interned_each, lemma_exprs_interned_each, type_exprs_interned};
use crate::check_call::ids_below;
use crate::env::Binding;
use crate::checker::{TypeChecker, assignable, int_like, type_fits};
use crate::diagnostics::{DiagnosticCode, DiagnosticV, diagnostics_view};
use crate::env::lookup;
use crate::interner::Symbol;
use crate::types::{Type, TypeId, TypeV, type_children, type_symbols};

verus! {

/// The errors after optionally reporting one more.
pub open spec fn with_optional_error(
    errors: Seq<DiagnosticV>,
    message: Option<Seq<char>>,
    code: DiagnosticCode,
    span: Span,
) -> Seq<DiagnosticV> {
    match message {
        Some(m) => errors.push(DiagnosticV { code, message: m, span }),
        None => errors,
    }
}

/// The type of a binary operation on operands of types `l` and `r`, and
/// the message of the error it reports, if any.
pub open spec fn binary_outcome(tc: TypeChecker, op: BinaryOp, l: TypeId, r: TypeId) -> (TypeId, Option<Seq<char>>) {
    let c = tc.common;
    let a = |s: TypeId, t: TypeId| assignable(tc.session.types@, tc.class_implements@, c, s, t);
    if l == c.error || r == c.error {
        (c.error, None)
    } else {
        match op {
            BinaryOp::Add | BinaryOp::Subtract | BinaryOp::Multiply | BinaryOp::Divide => {
                if (a(l, c.int) || l == c.float) && a(l, r) {
                    (l, None)
                } else if op == BinaryOp::Add && l == c.string && r == c.string {
                    (c.string, None)
                } else {
                    (c.error, Some("Cannot apply operator to types '"@ + tc.text(l) + "' and '"@ + tc.text(r) + "'."@))
                }
            },
            BinaryOp::Equal | BinaryOp::NotEqual => {
                if !a(l, r) && !a(r, l) {
                    (c.error, Some("Cannot compare types '"@ + tc.text(l) + "' and '"@ + tc.text(r) + "' for equality."@))
                } else {
                    (c.boolean, None)
                }
            },
            _ => {
                if !a(l, r) && !a(r, l) {
                    (c.boolean, Some("Cannot apply comparison to types '"@ + tc.text(l) + "' and '"@ + tc.text(r) + "'."@))
                } else {
                    (c.boolean, None)
                }
            },
        }
    }
}

/// The type of a negation of an operand of type `t`, and the error message,
/// if any.
pub open spec fn unary_outcome(tc: TypeChecker, t: TypeId) -> (TypeId, Option<Seq<char>>) {
    let c = tc.common;
    if t == c.error {
        (c.error, None)
    } else if t == c.int || t == c.float {
        (t, None)
    } else {
        (c.error, Some("Cannot negate type '"@ + tc.text(t) + "'."@))
    }
}

/// Marks the intermediate states and types that a step of checking went
/// through, so that they can be named; it holds of every value.
pub open spec fn picked<A>(a: A) -> bool {
    true
}

/// Interning `ty` takes `s0` to `s1` and gives `id`.
pub open spec fn interned_done(s0: TypeChecker, ty: TypeV, s1: TypeChecker, id: TypeId) -> bool {
    &&& s1.expr_step(s0)
    &&& s1.errors == s0.errors
    &&& (id.0 as int) < s1.session.types@.len()
    &&& s0.session.types@.len() + 1 < u32::MAX ==> s1.ty(id) == ty
    &&& s0.session.types@.len() + 1 >= u32::MAX ==> id == s0.common.error
    &&& s0.session.types@.contains(ty) ==> s1.session.types@ == s0.session.types@
}

/// `s1` is `s0` with the environment `env` in place of its own.
pub open spec fn with_env(s0: TypeChecker, env: Seq<Seq<(Symbol, Binding)>>, s1: TypeChecker) -> bool {
    s1.same_but_env(s0) && s1.env@ == env
}

/// The variable that the left side of `??=` names, if it is one.
pub open spec fn assigned_variable(e: Expr) -> Option<Symbol> {
    match e.kind {
        ExprKind::Variable(n) => Some(n),
        _ => None,
    }
}

/// The type that the context wants for argument `i` of a call.
pub open spec fn hint_at(hints: Option<Seq<TypeId>>, i: int) -> Option<TypeId> {
    match hints {
        Some(h) => if i < h.len() { Some(h[i]) } else { None },
        None => None,
    }
}

/// Checking an expression from state `s0`, where the context wants
/// `expected`, can end in state `s1` with type `r`.  The subexpressions are
/// checked from left to right and each rule is applied to their types, as
/// the `_done` relation of each rule states it.
pub open spec fn expr_checked(s0: TypeChecker, e: Expr, expected: Option<TypeId>, s1: TypeChecker, r: TypeId) -> bool
    decreases e,
{
    let span = e.span;
    match e.kind {
        ExprKind::Integer(_) => s1 == s0 && r == s0.common.int,
        ExprKind::Float(_) => s1 == s0 && r == s0.common.float,
        ExprKind::String(_) => s1 == s0 && r == s0.common.string,
        ExprKind::Boolean(_) => s1 == s0 && r == s0.common.boolean,
        ExprKind::Null => s1 == s0 && r == s0.common.null,
        ExprKind::InterpolatedString(pieces) => pieces_checked(s0, pieces@, s1) && r == s1.common.string,
        ExprKind::Variable(name) => TypeChecker::variable_type_done(s0, name, span, s1, r),
        ExprKind::Assign { name, value } => exists|m: TypeChecker| #[trigger] picked(m) &&
            expr_checked(s0, *value, None, m, r) && TypeChecker::assign_check_done(m, name, r, span, s1),
        ExprKind::SelfRef => TypeChecker::self_type_done(s0, span, s1, r),
        ExprKind::ForceUnwrap(inner) => exists|m: TypeChecker, t: TypeId| #[trigger] picked((m, t)) &&
            expr_checked(s0, *inner, None, m, t) && TypeChecker::force_unwrap_type_done(m, t, span, s1, r),
        ExprKind::OptionalGet { object, name } => exists|m: TypeChecker, o: TypeId| #[trigger] picked((m, o)) &&
            expr_checked(s0, *object, None, m, o) && TypeChecker::optional_get_type_done(m, o, name, span, s1, r),
        ExprKind::NullCoalesce { left, right } => exists|m1: TypeChecker, l: TypeId, m2: TypeChecker| #[trigger] picked((m1, l, m2)) &&
            expr_checked(s0, *left, None, m1, l) && expr_checked(m1, *right, None, m2, r)
            && TypeChecker::null_coalesce_check_done(m2, l, r, span, s1),
        ExprKind::NullCoalesceAssign { left, right } => exists|m1: TypeChecker, m2: TypeChecker, v: TypeId| #[trigger] picked((m1, m2, v)) &&
            expr_checked(s0, *left, None, m1, r) && expr_checked(m1, *right, None, m2, v)
            && TypeChecker::null_coalesce_assign_check_done(m2, r, v, assigned_variable(*left), span, s1),
        ExprKind::Array(elements) => if elements@.len() == 0 {
            &&& s1.expr_step(s0)
            &&& s1.session == s0.session
            &&& diagnostics_view(s1.errors@) == diagnostics_view(s0.errors@).push(
                DiagnosticV { code: DiagnosticCode::TypeMismatch, message: "Cannot infer type of empty array literal."@, span })
            &&& r == s0.common.error
        } else {
            exists|m1: TypeChecker, first: TypeId, m2: TypeChecker| #[trigger] picked((m1, first, m2)) &&
                expr_checked(s0, elements@[0], None, m1, first)
                && elements_checked(m1, elements@.subrange(1, elements@.len() as int), first, span, m2)
                && interned_done(m2, TypeV::Array(first), s1, r)
        },
        ExprKind::ArrayRepeat { value, count } => exists|m1: TypeChecker, v: TypeId, m2: TypeChecker, n: TypeId, m3: TypeChecker| #[trigger] picked((m1, v, m2, n, m3)) &&
            expr_checked(s0, *value, None, m1, v) && expr_checked(m1, *count, None, m2, n)
            && TypeChecker::expect_int_done(m2, n, "Array repeat count must be 'Int', found '", span, m3)
            && interned_done(m3, TypeV::Array(v), s1, r),
        ExprKind::ListComprehension { expr: mapped, item_name, iterator } =>
            exists|m1: TypeChecker, it: TypeId, m2: TypeChecker, item: TypeId, m3: TypeChecker, m4: TypeChecker, t: TypeId, m5: TypeChecker| #[trigger] picked((m1, it, m2, item, m3, m4, t, m5)) &&
                expr_checked(s0, *iterator, None, m1, it)
                && TypeChecker::iterable_item_type_done(m1, it, span, m2, item)
                && with_env(m2, crate::env::with_declaration(m2.env@.push(Seq::empty()), item_name,
                    Binding { ty: item, is_mutable: false }), m3)
                && expr_checked(m3, *mapped, None, m4, t)
                && with_env(m4, m4.env@.drop_last(), m5)
                && interned_done(m5, TypeV::Array(t), s1, r),
        ExprKind::IndexGet { object, index } => exists|m1: TypeChecker, o: TypeId, m2: TypeChecker, i: TypeId, m3: TypeChecker| #[trigger] picked((m1, o, m2, i, m3)) &&
            expr_checked(s0, *object, None, m1, o) && expr_checked(m1, *index, None, m2, i)
            && TypeChecker::expect_int_done(m2, i, "Array index must be 'Int', found '", span, m3)
            && TypeChecker::index_get_type_done(m3, o, span, s1, r),
        ExprKind::IndexSet { object, index, value } =>
            exists|m1: TypeChecker, o: TypeId, m2: TypeChecker, i: TypeId, m3: TypeChecker, m4: TypeChecker| #[trigger] picked((m1, o, m2, i, m3, m4)) &&
                expr_checked(s0, *object, None, m1, o) && expr_checked(m1, *index, None, m2, i)
                && expr_checked(m2, *value, None, m3, r)
                && TypeChecker::expect_int_done(m3, i, "Array index must be 'Int', found '", span, m4)
                && TypeChecker::index_set_check_done(m4, o, r, span, s1),
        ExprKind::Get { object, name } => exists|m: TypeChecker, o: TypeId| #[trigger] picked((m, o)) &&
            expr_checked(s0, *object, None, m, o) && TypeChecker::get_property_type_done(m, o, name, span, s1, r),
        ExprKind::SetProperty { object, name, value } => exists|m1: TypeChecker, o: TypeId, m2: TypeChecker| #[trigger] picked((m1, o, m2)) &&
            expr_checked(s0, *object, None, m1, o) && expr_checked(m1, *value, None, m2, r)
            && TypeChecker::set_property_check_done(m2, o, name, r, span, s1),
        ExprKind::Grouping(inner) => expr_checked(s0, *inner, None, s1, r),
        ExprKind::Match { value, arms } => exists|m: TypeChecker, v: TypeId, common: Option<TypeId>| #[trigger] picked((m, v, common)) &&
            expr_checked(s0, *value, None, m, v) && arms_checked(m, arms@, v, span, s1, common)
            && r == (match common { Some(c) => c, None => s1.common.void }),
        ExprKind::Call { callee, type_args, arguments } => exists|m1: TypeChecker, c: TypeId, m2: TypeChecker, ts: Seq<TypeId>| #[trigger] picked((m1, c, m2, ts)) &&
            expr_checked(s0, *callee, None, m1, c)
            && args_checked(m1, arguments@, crate::check_call::param_hints(m1, c), m2, ts)
            && TypeChecker::call_result_done(m2, c, type_args@, ts, arguments@, expected, span, s1, r),
        ExprKind::Unary(_, right) => exists|m: TypeChecker, t: TypeId| #[trigger] picked((m, t)) &&
            expr_checked(s0, *right, None, m, t) && TypeChecker::unary_type_done(m, t, span, s1, r),
        ExprKind::Range { start: lo, end: hi } => exists|m1: TypeChecker, a: TypeId, m2: TypeChecker, b: TypeId| #[trigger] picked((m1, a, m2, b)) &&
            expr_checked(s0, *lo, Some(s0.common.int), m1, a)
            && expr_checked(m1, *hi, Some(s0.common.int), m2, b)
            && TypeChecker::range_check_done(m2, a, b, span, s1) && r == s1.common.range,
        ExprKind::Binary(left, op, right) => exists|m1: TypeChecker, l: TypeId, m2: TypeChecker, t: TypeId| #[trigger] picked((m1, l, m2, t)) &&
            expr_checked(s0, *left, None, m1, l) && expr_checked(m1, *right, None, m2, t)
            && TypeChecker::binary_type_done(m2, op, l, t, span, s1, r),
    }
}

/// The pieces of an interpolated string, checked in order, each of a type
/// that can be interpolated.
pub open spec fn pieces_checked(s0: TypeChecker, pieces: Seq<Expr>, s1: TypeChecker) -> bool
    decreases pieces,
{
    if pieces.len() == 0 {
        s1 == s0
    } else {
        exists|m1: TypeChecker, m2: TypeChecker, t: TypeId| #[trigger] picked((m1, m2, t)) &&
            pieces_checked(s0, pieces.drop_last(), m1) && expr_checked(m1, pieces.last(), None, m2, t)
            && TypeChecker::interpolation_check_done(m2, t, pieces.last().span, s1)
    }
}

/// The elements of an array literal after the first, checked in order,
/// each against the type `first` of the first one.
pub open spec fn elements_checked(s0: TypeChecker, elements: Seq<Expr>, first: TypeId, span: Span, s1: TypeChecker) -> bool
    decreases elements,
{
    if elements.len() == 0 {
        s1 == s0
    } else {
        exists|m1: TypeChecker, m2: TypeChecker, t: TypeId| #[trigger] picked((m1, m2, t)) &&
            elements_checked(s0, elements.drop_last(), first, span, m1)
            && expr_checked(m1, elements.last(), None, m2, t)
            && TypeChecker::array_element_check_done(m2, first, t, span, s1)
    }
}

/// The arguments of a call, checked in order, each with the parameter type
/// that `hints` gives it as its expected type; `types` are their types.
pub open spec fn args_checked(s0: TypeChecker, arguments: Seq<Expr>, hints: Option<Seq<TypeId>>, s1: TypeChecker,
    types: Seq<TypeId>) -> bool
    decreases arguments,
{
    if arguments.len() == 0 {
        s1 == s0 && types == Seq::<TypeId>::empty()
    } else {
        exists|m: TypeChecker, ts: Seq<TypeId>, t: TypeId| #[trigger] picked((m, ts, t)) &&
            args_checked(s0, arguments.drop_last(), hints, m, ts)
            && expr_checked(m, arguments.last(), hint_at(hints, arguments.len() - 1), s1, t)
            && types == ts.push(t)
    }
}

/// The arms of a match on a value of type `v`, checked in order, each in a
/// scope of its own that holds the bindings of its pattern; `common` is
/// the type the arms agree on so far.
pub open spec fn arms_checked(s0: TypeChecker, arms: Seq<MatchArm>, v: TypeId, span: Span, s1: TypeChecker,
    common: Option<TypeId>) -> bool
    decreases arms,
{
    if arms.len() == 0 {
        s1 == s0 && common is None
    } else {
        exists|m: TypeChecker, c: Option<TypeId>, ma: TypeChecker, mb: TypeChecker, mc: TypeChecker, b: TypeId, md: TypeChecker| #[trigger] picked((m, c, ma, mb, mc, b, md)) &&
            arms_checked(s0, arms.drop_last(), v, span, m, c)
            && with_env(m, m.env@.push(Seq::empty()), ma)
            && TypeChecker::declare_match_bindings_done(ma, v, arms.last().pattern, mb)
            && expr_checked(mb, *arms.last().body, None, mc, b)
            && with_env(mc, mc.env@.drop_last(), md)
            && TypeChecker::match_join_done(md, c, b, span, s1, common)
    }
}

impl TypeChecker {
    /// `a` + the text of `t1` + `b` + the text of `t2` + `c`.
    pub(crate) fn msg2(&self, a: &str, t1: TypeId, b: &str, t2: TypeId, c: &str) -> (m: String)
        requires
            self.wf(),
            (t1.0 as int) < self.session.types@.len(),
            (t2.0 as int) < self.session.types@.len(),
        ensures
            m@ == a@ + self.text(t1) + b@ + self.text(t2) + c@,
    {
        let mut m = String::from_str(a);
        m.append(self.fmt(t1).as_str());
        m.append(b);
        m.append(self.fmt(t2).as_str());
        m.append(c);
        m
    }

    /// `a` + the text of `t` + `b`.
    pub(crate) fn msg1(&self, a: &str, t: TypeId, b: &str) -> (m: String)
        requires
            self.wf(),
            (t.0 as int) < self.session.types@.len(),
        ensures
            m@ == a@ + self.text(t) + b@,
    {
        let mut m = String::from_str(a);
        m.append(self.fmt(t).as_str());
        m.append(b);
        m
    }

    /// `a` + the name + `b`.
    pub(crate) fn msg_name(&self, a: &str, name: Symbol, b: &str) -> (m: String)
        requires
            self.wf(),
            (name.0 as int) < self.session.interner@.len(),
        ensures
            m@ == a@ + self.session.interner@[name.0 as int] + b@,
    {
        let mut m = String::from_str(a);
        m.append(self.session.interner.lookup(name));
        m.append(b);
        m
    }

    /// What `binary_type` leaves behind.
    pub open spec fn binary_type_done(s0: TypeChecker, op: BinaryOp, l: TypeId, r: TypeId, span: Span, s1: TypeChecker, t: TypeId) -> bool {
        &&& s1.expr_step(s0)
        &&& s1.session == s0.session
        &&& t == binary_outcome(s0, op, l, r).0
        &&& diagnostics_view(s1.errors@) == with_optional_error(diagnostics_view(s0.errors@),
                binary_outcome(s0, op, l, r).1, DiagnosticCode::TypeMismatch, span)
    }

    /// Types a binary operation whose operands have been checked.
    pub fn binary_type(&mut self, op: BinaryOp, l: TypeId, r: TypeId, span: Span) -> (t: TypeId)
        requires
            old(self).wf(),
            (l.0 as int) < old(self).session.types@.len(),
            (r.0 as int) < old(self).session.types@.len(),
        ensures
            Self::binary_type_done(*old(self), op, l, r, span, *final(self), t),
    {
        let c = self.common;
        if l == c.error || r == c.error {
            return c.error;
        }
        match op {
            BinaryOp::Add | BinaryOp::Subtract | BinaryOp::Multiply | BinaryOp::Divide => {
                if (self.is_assignable(l, c.int) || l == c.float) && self.is_assignable(l, r) {
                    l
                } else if op == BinaryOp::Add && l == c.string && r == c.string {
                    c.string
                } else {
                    let m = self.msg2("Cannot apply operator to types '", l, "' and '", r, "'.");
                    self.error(span, DiagnosticCode::TypeMismatch, m.as_str());
                    c.error
                }
            },
            BinaryOp::Equal | BinaryOp::NotEqual => {
                if !self.is_assignable(l, r) && !self.is_assignable(r, l) {
                    let m = self.msg2("Cannot compare types '", l, "' and '", r, "' for equality.");
                    self.error(span, DiagnosticCode::TypeMismatch, m.as_str());
                    c.error
                } else {
                    c.boolean
                }
            },
            _ => {
                if !self.is_assignable(l, r) && !self.is_assignable(r, l) {
                    let m = self.msg2("Cannot apply comparison to types '", l, "' and '", r, "'.");
                    self.error(span, DiagnosticCode::TypeMismatch, m.as_str());
                }
                c.boolean
            },
        }
    }

    /// What `unary_type` leaves behind.
    pub open spec fn unary_type_done(s0: TypeChecker, t: TypeId, span: Span, s1: TypeChecker, r: TypeId) -> bool {
        &&& s1.expr_step(s0)
        &&& s1.session == s0.session
        &&& r == unary_outcome(s0, t).0
        &&& diagnostics_view(s1.errors@) == with_optional_error(diagnostics_view(s0.errors@),
                unary_outcome(s0, t).1, DiagnosticCode::TypeMismatch, span)
    }

    /// Types a negation whose operand has been checked.
    pub fn unary_type(&mut self, t: TypeId, span: Span) -> (r: TypeId)
        requires
            old(self).wf(),
            (t.0 as int) < old(self).session.types@.len(),
        ensures
            Self::unary_type_done(*old(self), t, span, *final(self), r),
    {
        let c = self.common;
        if t == c.error {
            c.error
        } else if t == c.int || t == c.float {
            t
        } else {
            let m = self.msg1("Cannot negate type '", t, "'.");
            self.error(span, DiagnosticCode::TypeMismatch, m.as_str());
            c.error
        }
    }

    /// The type of an expression.
    pub fn check_expr(&mut self, expr: &Expr) -> (r: TypeId)
        requires
            old(self).wf(),
            expr_interned(old(self).names_bound@, *expr),
        ensures
            final(self).expr_step(*old(self)),
            (r.0 as int) < final(self).session.types@.len(),
            expr_checked(*old(self), *expr, None, *final(self), r),
        decreases expr, 2nat,
    {
        self.check_expr_with_expected(expr, None)
    }

    /// The type of an expression, where `expected` is the type the context
    /// wants, if any (it guides the inference of a generic call's type
    /// arguments).  Mismatches are reported and the error type stands for an
    /// expression that has none.
    #[verifier::rlimit(100)]
    #[verifier::spinoff_prover]
    pub fn check_expr_with_expected(&mut self, expr: &Expr, expected: Option<TypeId>) -> (r: TypeId)
        requires
            old(self).wf(),
            expr_interned(old(self).names_bound@, *expr),
            expected matches Some(e) ==> (e.0 as int) < old(self).session.types@.len(),
        ensures
            final(self).expr_step(*old(self)),
            (r.0 as int) < final(self).session.types@.len(),
            expr_checked(*old(self), *expr, expected, *final(self), r),
        decreases expr, 1nat,
    {
        let ghost start = *self;
        let span = expr.span;
        match &expr.kind {
            ExprKind::Integer(_) => self.common.int,
            ExprKind::Float(_) => self.common.float,
            ExprKind::String(_) => self.common.string,
            ExprKind::Boolean(_) => self.common.boolean,
            ExprKind::Null => self.common.null,
            ExprKind::InterpolatedString(pieces) => self.check_pieces(expr, pieces, expected),
            ExprKind::Variable(name) => self.variable_type(*name, span),
            ExprKind::Assign { name, value } => {
                let v = self.check_expr(value);
                let ghost m = *self;
                self.assign_check(*name, v, span);
                assert(picked(m));
                v
            },
            ExprKind::SelfRef => self.self_type(span),
            ExprKind::ForceUnwrap(inner) => {
                let t = self.check_expr(inner);
                let ghost m = *self;
                assert(picked((m, t)));
                self.force_unwrap_type(t, span)
            },
            ExprKind::OptionalGet { object, name } => {
                let o = self.check_expr(object);
                let ghost m = *self;
                assert(picked((m, o)));
                self.optional_get_type(o, *name, span)
            },
            ExprKind::NullCoalesce { left, right } => {
                let l = self.check_expr(left);
                let ghost m1 = *self;
                let r = self.check_expr(right);
                let ghost m2 = *self;
                self.null_coalesce_check(l, r, span);
                assert(picked((m1, l, m2)));
                r
            },
            ExprKind::NullCoalesceAssign { left, right } => {
                let l = self.check_expr(left);
                let ghost m1 = *self;
                let r = self.check_expr(right);
                let ghost m2 = *self;
                assert(picked((m1, m2, r)));
                let left_var = match &left.kind {
                    ExprKind::Variable(n) => {
                        assert(expr_interned(start.names_bound@, **left));
                        Some(*n)
                    },
                    _ => None,
                };
                assert(left_var == assigned_variable(**left));
                self.null_coalesce_assign_check(l, r, left_var, span);
                l
            },
            ExprKind::Array(elements) => self.check_array(expr, elements, expected),
            ExprKind::ArrayRepeat { value, count } => {
                let v = self.check_expr(value);
                let ghost m1 = *self;
                let c = self.check_expr(count);
                let ghost m2 = *self;
                self.expect_int(c, "Array repeat count must be 'Int', found '", span);
                let ghost m3 = *self;
                assert(picked((m1, v, m2, c, m3)));
                let r = self.intern_type(Type::Array(v));
                assert(interned_done(m3, TypeV::Array(v), *self, r));
                r
            },
            ExprKind::ListComprehension { expr: mapped, item_name, iterator } =>
                self.check_comprehension(expr, mapped, *item_name, iterator, expected),
            ExprKind::IndexGet { object, index } => {
                let o = self.check_expr(object);
                let ghost m1 = *self;
                let i = self.check_expr(index);
                let ghost m2 = *self;
                self.expect_int(i, "Array index must be 'Int', found '", span);
                let ghost m3 = *self;
                assert(picked((m1, o, m2, i, m3)));
                self.index_get_type(o, span)
            },
            ExprKind::IndexSet { object, index, value } => {
                let o = self.check_expr(object);
                let ghost m1 = *self;
                let i = self.check_expr(index);
                let ghost m2 = *self;
                let v = self.check_expr(value);
                let ghost m3 = *self;
                self.expect_int(i, "Array index must be 'Int', found '", span);
                let ghost m4 = *self;
                self.index_set_check(o, v, span);
                assert(picked((m1, o, m2, i, m3, m4)));
                v
            },
            ExprKind::Get { object, name } => {
                let o = self.check_expr(object);
                let ghost m = *self;
                assert(picked((m, o)));
                self.get_property_type(o, *name, span)
            },
            ExprKind::SetProperty { object, name, value } => {
                let o = self.check_expr(object);
                let ghost m1 = *self;
                let v = self.check_expr(value);
                let ghost m2 = *self;
                self.set_property_check(o, *name, v, span);
                assert(picked((m1, o, m2)));
                v
            },
            ExprKind::Grouping(inner) => self.check_expr(inner),
            ExprKind::Match { value, arms } => self.check_match(expr, value, arms, expected),
            ExprKind::Call { callee, type_args, arguments } => self.check_call(expr, callee, type_args, arguments, expected),
            ExprKind::Unary(_, right) => {
                let t = self.check_expr(right);
                let ghost m = *self;
                assert(picked((m, t)));
                self.unary_type(t, span)
            },
            ExprKind::Range { start: lo, end: hi } => {
                let int_ty = self.common.int;
                let s = self.check_expr_with_expected(lo, Some(int_ty));
                let ghost m1 = *self;
                let e = self.check_expr_with_expected(hi, Some(int_ty));
                let ghost m2 = *self;
                self.range_check(s, e, span);
                assert(picked((m1, s, m2, e)));
                self.common.range
            },
            ExprKind::Binary(left, op, right) => {
                let l = self.check_expr(left);
                let ghost m1 = *self;
                let r = self.check_expr(right);
                let ghost m2 = *self;
                assert(picked((m1, l, m2, r)));
                self.binary_type(*op, l, r, span)
            },
        }
    }

    /// The type of an interpolated string: each piece is checked and must
    /// be of a type that can be interpolated.
    fn check_pieces(&mut self, expr: &Expr, pieces: &Vec<Expr>, expected: Option<TypeId>) -> (r: TypeId)
        requires
            old(self).wf(),
            expr_interned(old(self).names_bound@, *expr),
            expected matches Some(e) ==> (e.0 as int) < old(self).session.types@.len(),
            expr.kind is InterpolatedString && expr.kind->InterpolatedString_0 == *pieces,
        ensures
            final(self).expr_step(*old(self)),
            (r.0 as int) < final(self).session.types@.len(),
            expr_checked(*old(self), *expr, expected, *final(self), r),
        decreases expr, 0nat,
    {
        let ghost start = *self;
        let span = expr.span;
        proof { lemma_exprs_interned_each(self.names_bound@, pieces@); }
        let mut i: usize = 0;
        while i < pieces.len()
            invariant
                self.expr_step(start),
                i <= pieces@.len(),
                forall|k: int| 0 <= k < pieces@.len() ==> #[trigger] expr_interned(self.names_bound@, pieces@[k]),
                expr.kind is InterpolatedString && expr.kind->InterpolatedString_0 == *pieces,
                pieces_checked(start, pieces@.take(i as int), *self),
            decreases pieces@.len() - i,
        {
            proof {
                assert(decreases_to!(*expr => pieces@[i as int])) by {
                    assert(decreases_to!(*expr => expr.kind));
                    assert(decreases_to!(expr.kind => expr.kind->InterpolatedString_0));
                    assert(expr.kind->InterpolatedString_0 == *pieces);
                    assert(decreases_to!(*pieces => pieces@));
                    assert(decreases_to!(pieces@ => pieces@[i as int]));
                }
            }
            let ghost m1 = *self;
            let t = self.check_expr(&pieces[i]);
            let ghost m2 = *self;
            self.interpolation_check(t, pieces[i].span);
            proof {
                let p = pieces@.take(i + 1);
                assert(p.drop_last() =~= pieces@.take(i as int));
                assert(p.last() == pieces@[i as int]);
                assert(picked((m1, m2, t)));
                assert(pieces_checked(start, p, *self));
            }
            i = i + 1;
        }
        assert(pieces@.take(pieces@.len() as int) =~= pieces@);
        self.common.string
    }

    /// The type of an array literal: the elements must agree with the
    /// first; an empty literal is reported.
    fn check_array(&mut self, expr: &Expr, elements: &Vec<Expr>, expected: Option<TypeId>) -> (r: TypeId)
        requires
            old(self).wf(),
            expr_interned(old(self).names_bound@, *expr),
            expected matches Some(e) ==> (e.0 as int) < old(self).session.types@.len(),
            expr.kind is Array && expr.kind->Array_0 == *elements,
        ensures
            final(self).expr_step(*old(self)),
            (r.0 as int) < final(self).session.types@.len(),
            expr_checked(*old(self), *expr, expected, *final(self), r),
        decreases expr, 0nat,
    {
        let ghost start = *self;
        let span = expr.span;
        if elements.len() == 0 {
            self.error(span, DiagnosticCode::TypeMismatch, "Cannot infer type of empty array literal.");
            return self.common.error;
        }
        proof { lemma_exprs_interned_each(self.names_bound@, elements@); }
        proof {
            assert(decreases_to!(*expr => elements@[0])) by {
                assert(decreases_to!(*expr => expr.kind));
                assert(decreases_to!(expr.kind => expr.kind->Array_0));
                assert(expr.kind->Array_0 == *elements);
                assert(decreases_to!(*elements => elements@));
                assert(decreases_to!(elements@ => elements@[0]));
            }
        }
        let first = self.check_expr(&elements[0]);
        let ghost m1 = *self;
        let mut i: usize = 1;
        assert(elements@.subrange(1, 1) =~= Seq::<Expr>::empty());
        while i < elements.len()
            invariant
                self.expr_step(start),
                1 <= i <= elements@.len(),
                (first.0 as int) < self.session.types@.len(),
                forall|k: int| 0 <= k < elements@.len() ==> #[trigger] expr_interned(self.names_bound@, elements@[k]),
                expr.kind is Array && expr.kind->Array_0 == *elements,
                expr_checked(start, elements@[0], None, m1, first),
                elements_checked(m1, elements@.subrange(1, i as int), first, span, *self),
            decreases elements@.len() - i,
        {
            proof {
                assert(decreases_to!(*expr => elements@[i as int])) by {
                    assert(decreases_to!(*expr => expr.kind));
                    assert(decreases_to!(expr.kind => expr.kind->Array_0));
                    assert(expr.kind->Array_0 == *elements);
                    assert(decreases_to!(*elements => elements@));
                    assert(decreases_to!(elements@ => elements@[i as int]));
                }
            }
            let ghost ma = *self;
            let next = self.check_expr(&elements[i]);
            let ghost mb = *self;
            self.array_element_check(first, next, span);
            proof {
                let p = elements@.subrange(1, i + 1);
                assert(p.drop_last() =~= elements@.subrange(1, i as int));
                assert(p.last() == elements@[i as int]);
                assert(picked((ma, mb, next)));
                assert(elements_checked(m1, p, first, span, *self));
            }
            i = i + 1;
        }
        let ghost m2 = *self;
        let r = self.intern_type(Type::Array(first));
        assert(interned_done(m2, TypeV::Array(first), *self, r));
        assert(picked((m1, first, m2)));
        r
    }

    /// The type of a list comprehension: the mapped expression is checked
    /// in a scope where the item has the iterable's item type.
    fn check_comprehension(&mut self, expr: &Expr, mapped: &Box<Expr>, item_name: Symbol, iterator: &Box<Expr>,
        expected: Option<TypeId>) -> (r: TypeId)
        requires
            old(self).wf(),
            expr_interned(old(self).names_bound@, *expr),
            expected matches Some(e) ==> (e.0 as int) < old(self).session.types@.len(),
            expr.kind == (ExprKind::ListComprehension { expr: *mapped, item_name, iterator: *iterator }),
        ensures
            final(self).expr_step(*old(self)),
            (r.0 as int) < final(self).session.types@.len(),
            expr_checked(*old(self), *expr, expected, *final(self), r),
        decreases expr, 0nat,
    {
        let ghost start = *self;
        let span = expr.span;
        let it = self.check_expr(iterator);
        let ghost m1 = *self;
        let item = self.iterable_item_type(it, span);
        let ghost m2 = *self;
        let ghost before = self.env@;
        self.env.push_scope();
        self.env.declare_var(item_name, item, false);
        let ghost m3 = *self;
        proof {
            let after = self.env@;
            assert forall|a: int, c: int| 0 <= a < after.len() && 0 <= c < after[a].len()
                implies ((#[trigger] after[a][c]).1.ty.0 as nat) < self.session.types@.len() by {
                if a < after.len() - 1 {
                    assert(after[a] == before[a]);
                }
            }
            assert(with_env(m2, crate::env::with_declaration(m2.env@.push(Seq::empty()), item_name,
                Binding { ty: item, is_mutable: false }), m3));
        }
        let e = self.check_expr(mapped);
        let ghost m4 = *self;
        self.env.pop_scope();
        let ghost m5 = *self;
        assert(with_env(m4, m4.env@.drop_last(), m5));
        assert(self.env@ =~= before);
        let r = self.intern_type(Type::Array(e));
        assert(interned_done(m5, TypeV::Array(e), *self, r));
        assert(picked((m1, it, m2, item, m3, m4, e, m5)));
        r
    }

    /// The type of a match: each arm is checked in a scope of its own with
    /// the bindings of its pattern, and the arms must agree.
    fn check_match(&mut self, expr: &Expr, value: &Box<Expr>, arms: &Vec<MatchArm>, expected: Option<TypeId>) -> (r: TypeId)
        requires
            old(self).wf(),
            expr_interned(old(self).names_bound@, *expr),
            expected matches Some(e) ==> (e.0 as int) < old(self).session.types@.len(),
            expr.kind is Match && expr.kind->Match_value == *value && expr.kind->arms == *arms,
        ensures
            final(self).expr_step(*old(self)),
            (r.0 as int) < final(self).session.types@.len(),
            expr_checked(*old(self), *expr, expected, *final(self), r),
        decreases expr, 0nat,
    {
        let ghost start = *self;
        let span = expr.span;
        let v = self.check_expr(value);
        let ghost m = *self;
        proof { lemma_arms_interned_each(self.names_bound@, arms@); }
        let mut common: Option<TypeId> = None;
        let mut i: usize = 0;
        while i < arms.len()
            invariant
                self.expr_step(start),
                i <= arms@.len(),
                (v.0 as int) < self.session.types@.len(),
                common matches Some(c) ==> (c.0 as int) < self.session.types@.len(),
                forall|k: int| 0 <= k < arms@.len() ==> crate::ast::pattern_interned(self.names_bound@, (#[trigger] arms@[k]).pattern)
                    && expr_interned(self.names_bound@, *arms@[k].body),
                expr.kind is Match && expr.kind->arms == *arms,
                expr_checked(start, **value, None, m, v),
                arms_checked(m, arms@.take(i as int), v, span, *self, common),
            decreases arms@.len() - i,
        {
            let ghost before = self.env@;
            let ghost s0 = *self;
            let ghost c0 = common;
            self.env.push_scope();
            let ghost ma = *self;
            proof {
                let after = self.env@;
                assert forall|a: int, c: int| 0 <= a < after.len() && 0 <= c < after[a].len()
                    implies ((#[trigger] after[a][c]).1.ty.0 as nat) < self.session.types@.len() by {
                    assert(after[a] == before[a]);
                }
            }
            let arm = &arms[i];
            assert(crate::ast::pattern_interned(self.names_bound@, arm.pattern));
            self.declare_match_bindings(v, &arm.pattern);
            let ghost mb = *self;
            proof {
                assert(decreases_to!(*expr => *arms@[i as int].body)) by {
                    assert(decreases_to!(*expr => expr.kind));
                    assert(decreases_to!(expr.kind => expr.kind->arms));
                    assert(expr.kind->arms == *arms);
                    assert(decreases_to!(*arms => arms@));
                    assert(decreases_to!(arms@ => arms@[i as int]));
                    assert(decreases_to!(arms@[i as int] => arms@[i as int].body));
                }
            }
            let b = self.check_expr(&arm.body);
            let ghost mc = *self;
            self.env.pop_scope();
            let ghost md = *self;
            assert(self.env@ =~= before);
            common = self.match_join(common, b, span);
            proof {
                let p = arms@.take(i + 1);
                assert(p.drop_last() =~= arms@.take(i as int));
                assert(p.last() == arms@[i as int]);
                assert(with_env(s0, s0.env@.push(Seq::empty()), ma));
                assert(with_env(mc, mc.env@.drop_last(), md));
                assert(picked((s0, c0, ma, mb, mc, b, md)));
                assert(arms_checked(m, p, v, span, *self, common));
            }
            i = i + 1;
        }
        assert(arms@.take(arms@.len() as int) =~= arms@);
        assert(picked((m, v, common)));
        match common {
            Some(c) => c,
            None => self.common.void,
        }
    }

    /// The type of a call: the callee is checked, then each argument with
    /// the matching parameter type as its expected type, then the call.
    fn check_call(&mut self, expr: &Expr, callee: &Box<Expr>, type_args: &Vec<TypeExpr>, arguments: &Vec<Expr>,
        expected: Option<TypeId>) -> (r: TypeId)
        requires
            old(self).wf(),
            expr_interned(old(self).names_bound@, *expr),
            expected matches Some(e) ==> (e.0 as int) < old(self).session.types@.len(),
            expr.kind is Call && expr.kind->callee == *callee && expr.kind->type_args == *type_args
            && expr.kind->arguments == *arguments,
        ensures
            final(self).expr_step(*old(self)),
            (r.0 as int) < final(self).session.types@.len(),
            expr_checked(*old(self), *expr, expected, *final(self), r),
        decreases expr, 0nat,
    {
        let ghost start = *self;
        let span = expr.span;
        let c = self.check_expr(callee);
        let ghost m1 = *self;
        let hints = self.call_param_hints(c);
        proof { lemma_exprs_interned_each(self.names_bound@, arguments@); }
        let mut arg_types: Vec<TypeId> = Vec::new();
        let mut i: usize = 0;
        while i < arguments.len()
            invariant
                self.expr_step(start),
                i <= arguments@.len(),
                arg_types@.len() == i,
                (c.0 as int) < self.session.types@.len(),
                hints matches Some(h) ==> ids_below(h@, self.session.types@.len()),
                hints matches Some(h) ==> crate::check_call::param_hints(m1, c) == Some(h@),
                hints is None ==> crate::check_call::param_hints(m1, c) is None,
                ids_below(arg_types@, self.session.types@.len()),
                forall|k: int| 0 <= k < arguments@.len() ==> #[trigger] expr_interned(self.names_bound@, arguments@[k]),
                expr.kind is Call && expr.kind->arguments == *arguments,
                expr_checked(start, **callee, None, m1, c),
                args_checked(m1, arguments@.take(i as int), crate::check_call::param_hints(m1, c), *self, arg_types@),
            decreases arguments@.len() - i,
        {
            let hint = match &hints {
                Some(h) => if i < h.len() { Some(h[i]) } else { None },
                None => None,
            };
            assert(hint == hint_at(crate::check_call::param_hints(m1, c), i as int));
            proof {
                assert(decreases_to!(*expr => arguments@[i as int])) by {
                    assert(decreases_to!(*expr => expr.kind));
                    assert(decreases_to!(expr.kind => expr.kind->arguments));
                    assert(expr.kind->arguments == *arguments);
                    assert(decreases_to!(*arguments => arguments@));
                    assert(decreases_to!(arguments@ => arguments@[i as int]));
                }
            }
            let ghost ma = *self;
            let ghost ts = arg_types@;
            let t = self.check_expr_with_expected(&arguments[i], hint);
            arg_types.push(t);
            proof {
                let p = arguments@.take(i + 1);
                assert(p.drop_last() =~= arguments@.take(i as int));
                assert(p.last() == arguments@[i as int]);
                assert(picked((ma, ts, t)));
                assert(args_checked(m1, p, crate::check_call::param_hints(m1, c), *self, arg_types@));
            }
            i = i + 1;
        }
        assert(arguments@.take(arguments@.len() as int) =~= arguments@);
        let ghost m2 = *self;
        assert(picked((m1, c, m2, arg_types@)));
        self.call_result(c, type_args, &arg_types, arguments, expected, span)
    }
}

} // verus!
