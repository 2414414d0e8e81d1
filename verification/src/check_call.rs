use vstd::prelude::*;
use crate::ast::{Expr, Span, TypeExpr, copies_of, copy_type_exprs, lemma_type_exprs_interned, type_expr_interned, type_exprs_interned};
use crate::checker::{TypeChecker, assignable, generic_classes_interned};
use crate::check_rules::{diag, member, member_of, reported, errors_if, zip_map};
use crate::diagnostics::{DiagnosticCode, DiagnosticV, diagnostics_view};
use crate::interner::Symbol;
use crate::session::{decimal, decimal_string};
use crate::substitution::{map_below, min_len, substituted, types_matched};
use crate::check_expr::{interned_done, picked, with_env};
use crate::check_rules::tparams_declared;
use crate::check_types::types_parsed;
use crate::check_types::type_parsed;
use crate::tables::{assoc, find_last, insert_if_absent, inserted, keys_unique, table_insert};
use crate::types::{Type, TypeId, TypeV, copy_ids, copy_symbols, type_children, type_symbols};

verus! {

/// The parameter types that the arguments of a call of a value of type
/// `callee` are checked against: those of a function, of an enum variant,
/// or of a class's `init` method.
pub open spec fn param_hints(tc: TypeChecker, callee: TypeId) -> Option<Seq<TypeId>> {
    match tc.ty(callee) {
        TypeV::Function(_, ps, _) => Some(ps),
        TypeV::EnumVariantConstructor(_, _, _, ps, _) => Some(ps),
        TypeV::Class(cn, _) => match member(tc.classes@, cn, tc.names.init) {
            Some(t) => match tc.ty(t) {
                TypeV::Function(_, ps, _) => Some(ps),
                _ => None,
            },
            None => None,
        },
        _ => None,
    }
}

/// The errors of the arguments `args[..n]` checked against the parameter
/// types `ps`.
pub open spec fn argument_errors(tc: TypeChecker, ps: Seq<TypeId>, args: Seq<TypeId>, span: Span, n: nat) -> Seq<DiagnosticV>
    decreases n,
{
    if n == 0 {
        Seq::empty()
    } else {
        let k = (n - 1) as int;
        argument_errors(tc, ps, args, span, (n - 1) as nat) + errors_if(
            !assignable(tc.session.types@, tc.class_implements@, tc.common, args[k], ps[k])
                && ps[k] != tc.common.any && args[k] != tc.common.error,
            seq![diag(DiagnosticCode::TypeMismatch, "Argument "@ + decimal(n) + " expected type '"@ + tc.text(ps[k])
                + "', found '"@ + tc.text(args[k]) + "'."@, span)])
    }
}

/// The errors of a call with argument types `args` of a function with
/// parameter types `ps`: a count mismatch, or each argument that does not
/// fit its parameter.
pub open spec fn call_errors(tc: TypeChecker, ps: Seq<TypeId>, args: Seq<TypeId>, span: Span) -> Seq<DiagnosticV> {
    if ps.len() != args.len() {
        seq![diag(DiagnosticCode::TypeMismatch, "Expected "@ + decimal(ps.len()) + " arguments, found "@
            + decimal(args.len()) + "."@, span)]
    } else {
        argument_errors(tc, ps, args, span, ps.len())
    }
}

/// Every id in the list is in the arena.
pub open spec fn ids_below(ids: Seq<TypeId>, n: nat) -> bool {
    forall|k: int| 0 <= k < ids.len() ==> ((#[trigger] ids[k]).0 as nat) < n
}

/// Arguments of types `args` fit parameters of types `ps`: as many, and
/// each assignable to its parameter.
pub open spec fn fits(tc: TypeChecker, ps: Seq<TypeId>, args: Seq<TypeId>) -> bool {
    &&& ps.len() == args.len()
    &&& forall|k: int| 0 <= k < ps.len() ==> #[trigger] assignable(tc.session.types@, tc.class_implements@, tc.common, args[k], ps[k])
}

/// The result type of the first of `variants` that is a function whose
/// parameters the arguments fit, if there is one.
pub open spec fn overload_pick(tc: TypeChecker, variants: Seq<(Symbol, TypeId)>, args: Seq<TypeId>) -> Option<TypeId>
    decreases variants.len(),
{
    if variants.len() == 0 {
        None
    } else {
        let rest = overload_pick(tc, variants.subrange(1, variants.len() as int), args);
        match tc.ty(variants[0].1) {
            TypeV::Function(_, ps, ret) => if fits(tc, ps, args) { Some(ret) } else { rest },
            _ => rest,
        }
    }
}

/// The first `n` explicit type arguments, parsed in order, each bound to
/// the type parameter at its position when there is one.
pub open spec fn explicit_bound(s0: TypeChecker, ftps: Seq<Symbol>, type_args: Seq<TypeExpr>, span: Span, n: nat,
    m0: Seq<(Symbol, TypeId)>, s1: TypeChecker, m1: Seq<(Symbol, TypeId)>) -> bool
    decreases n,
{
    if n == 0 {
        s1 == s0 && m1 == m0
    } else {
        n <= type_args.len() && exists|m: TypeChecker, mm: Seq<(Symbol, TypeId)>, t: TypeId| #[trigger] picked((m, mm, t))
            && explicit_bound(s0, ftps, type_args, span, (n - 1) as nat, m0, m, mm)
            && type_parsed(m, type_args[n - 1], span, s1, t)
            && m1 == (if n - 1 < ftps.len() { inserted(mm, ftps[n - 1], t) } else { mm })
    }
}

/// The first `n` parameter types matched against the argument types.
pub open spec fn args_matched(s0: TypeChecker, ps: Seq<TypeId>, args: Seq<TypeId>, n: nat, m0: Seq<(Symbol, TypeId)>,
    s1: TypeChecker, m1: Seq<(Symbol, TypeId)>) -> bool
    decreases n,
{
    if n == 0 {
        s1 == s0 && m1 == m0
    } else {
        n <= ps.len() && n <= args.len() && exists|m: TypeChecker, mm: Seq<(Symbol, TypeId)>| #[trigger] picked((m, mm))
            && args_matched(s0, ps, args, (n - 1) as nat, m0, m, mm)
            && types_matched(m, ps[n - 1], args[n - 1], mm, s1, m1)
    }
}

/// Each of the first `n` type parameters that nothing bound is reported
/// and bound to the error type.
pub open spec fn unbound_reported(s0: TypeChecker, ftps: Seq<Symbol>, span: Span, n: nat, m0: Seq<(Symbol, TypeId)>,
    s1: TypeChecker, m1: Seq<(Symbol, TypeId)>) -> bool
    decreases n,
{
    if n == 0 {
        s1 == s0 && m1 == m0
    } else {
        n <= ftps.len() && exists|m: TypeChecker, mm: Seq<(Symbol, TypeId)>| #[trigger] picked((m, mm))
            && unbound_reported(s0, ftps, span, (n - 1) as nat, m0, m, mm)
            && if assoc(mm, ftps[n - 1]) is Some {
                s1 == m && m1 == mm
            } else {
                &&& s1.expr_step(m)
                &&& s1.session == m.session
                &&& reported(s1, m, seq![diag(DiagnosticCode::TypeMismatch, "Cannot infer generic type '"@
                    + m.session.interner@[ftps[n - 1].0 as int] + "'. Please provide explicit type arguments."@, span)])
                &&& m1 == mm.push((ftps[n - 1], m.common.error))
            }
    }
}

/// How the type arguments of a call of a generic function are chosen:
/// the explicit ones (a count mismatch is reported), or else those that
/// matching the parameter types against the argument types, then the
/// result type against the expected type, teaches; a parameter left
/// unbound is reported and bound to the error type.
pub open spec fn generic_args_chosen(s0: TypeChecker, ftps: Seq<Symbol>, ps: Seq<TypeId>, ret: TypeId, args: Seq<TypeId>,
    type_args: Seq<TypeExpr>, expected: Option<TypeId>, span: Span, s1: TypeChecker, m: Seq<(Symbol, TypeId)>) -> bool {
    if type_args.len() == 0 {
        exists|ma: TypeChecker, mam: Seq<(Symbol, TypeId)>, mb: TypeChecker, mbm: Seq<(Symbol, TypeId)>|
            #[trigger] picked((ma, mam, mb, mbm))
            && args_matched(s0, ps, args, min_len(ps.len(), args.len()), Seq::empty(), ma, mam)
            && (match expected {
                Some(e) => types_matched(ma, ret, e, mam, mb, mbm),
                None => mb == ma && mbm == mam,
            })
            && unbound_reported(mb, ftps, span, ftps.len(), mbm, s1, m)
    } else {
        exists|ma: TypeChecker| #[trigger] picked(ma)
            && (if type_args.len() != ftps.len() {
                &&& ma.expr_step(s0)
                &&& ma.session == s0.session
                &&& reported(ma, s0, seq![diag(DiagnosticCode::TypeMismatch, "Expected "@ + decimal(ftps.len())
                    + " generic arguments, found "@ + decimal(type_args.len()) + "."@, span)])
            } else {
                ma == s0
            })
            && explicit_bound(ma, ftps, type_args, span, type_args.len(), Seq::empty(), s1, m)
    }
}

/// The first `n` argument types checked against the parameter types with
/// the type arguments `m` put in.
pub open spec fn generic_args_checked(s0: TypeChecker, ps: Seq<TypeId>, args: Seq<TypeId>, m: Seq<(Symbol, TypeId)>,
    span: Span, n: nat, s1: TypeChecker) -> bool
    decreases n,
{
    if n == 0 {
        s1 == s0
    } else {
        n <= ps.len() && n <= args.len() && exists|mm: TypeChecker, ma: TypeChecker, e: TypeId| #[trigger] picked((mm, ma, e))
            && generic_args_checked(s0, ps, args, m, span, (n - 1) as nat, mm)
            && substituted(mm, ps[n - 1], m, ma, e)
            && s1.expr_step(ma) && s1.session == ma.session
            && reported(s1, ma, errors_if(!assignable(ma.session.types@, ma.class_implements@, ma.common, args[n - 1], e)
                && e != ma.common.any && args[n - 1] != ma.common.error,
                seq![diag(DiagnosticCode::TypeMismatch, "Argument "@ + decimal(n) + " expected type '"@ + ma.text(e)
                    + "', found '"@ + ma.text(args[n - 1]) + "'."@, span)]))
    }
}

/// The result of a call of a generic function: the type arguments are
/// chosen, the arguments checked with them put in, and the result type
/// is the declared one with them put in.
pub open spec fn generic_call_result(s0: TypeChecker, ftps: Seq<Symbol>, ps: Seq<TypeId>, ret: TypeId,
    type_args: Seq<TypeExpr>, args: Seq<TypeId>, expected: Option<TypeId>, span: Span, s1: TypeChecker, r: TypeId) -> bool {
    exists|ma: TypeChecker, m: Seq<(Symbol, TypeId)>, mb: TypeChecker| #[trigger] picked((ma, m, mb))
        && generic_args_chosen(s0, ftps, ps, ret, args, type_args, expected, span, ma, m)
        && (if ps.len() != args.len() {
            mb.expr_step(ma) && mb.session == ma.session && reported(mb, ma, call_errors(ma, ps, args, span))
        } else {
            generic_args_checked(ma, ps, args, m, span, ps.len(), mb)
        })
        && substituted(mb, ret, m, s1, r)
}

/// Finding the constructor of class `cn` from state `s0` can end in state
/// `s1` with `r`: the type of the class's `init` method; for a generic
/// class, a function type built from the parameter types of its latest
/// `init`, parsed with the class's type parameters in scope; or nothing.
pub open spec fn ctor_found(s0: TypeChecker, cn: Symbol, span: Span, s1: TypeChecker, r: Option<TypeId>) -> bool {
    match member(s0.classes@, cn, s0.names.init) {
        Some(t) => s1 == s0 && r == Some(t),
        None => match assoc(s0.generic_classes@, cn) {
            None => s1 == s0 && r is None,
            Some(gc) => match gc.init_params {
                None => s1 == s0 && r is None,
                Some(params) => exists|copied: Seq<TypeExpr>, ma: TypeChecker, mb: TypeChecker, mc: TypeChecker, ps: Seq<TypeId>,
                    md: TypeChecker, t: TypeId|
                    #[trigger] picked((copied, ma, mb, mc, ps, md, t))
                    && copies_of(copied, params@)
                    && with_env(s0, s0.env@.push(Seq::empty()), ma)
                    && tparams_declared(ma, gc.type_params@, gc.type_params@.len(), mb)
                    && types_parsed(mb, copied, span, mc, ps)
                    && with_env(mc, mc.env@.drop_last(), md)
                    && interned_done(md, TypeV::Function(Seq::empty(), ps, md.common.void), s1, t)
                    && r == Some(t),
            },
        },
    }
}

/// Each type parameter paired with the type argument at its position, as
/// far as both lists go.
pub open spec fn zipped(ps: Seq<Symbol>, ts: Seq<TypeId>) -> Seq<(Symbol, TypeId)> {
    Seq::new(min_len(ps.len(), ts.len()), |k: int| (ps[k], ts[k]))
}

/// The type arguments of a generic class for the first `n` of its type
/// parameters: the one that matching bound, or else the error type, with
/// the parameter reported.
pub open spec fn class_args_resolved(s0: TypeChecker, ctps: Seq<Symbol>, m: Seq<(Symbol, TypeId)>, span: Span, n: nat,
    s1: TypeChecker, resolved: Seq<TypeId>) -> bool
    decreases n,
{
    if n == 0 {
        s1 == s0 && resolved == Seq::<TypeId>::empty()
    } else {
        n <= ctps.len() && exists|mm: TypeChecker, res: Seq<TypeId>| #[trigger] picked((mm, res))
            && class_args_resolved(s0, ctps, m, span, (n - 1) as nat, mm, res)
            && match assoc(m, ctps[n - 1]) {
                Some(x) => s1 == mm && resolved == res.push(x),
                None => {
                    &&& s1.expr_step(mm)
                    &&& s1.session == mm.session
                    &&& reported(s1, mm, seq![diag(DiagnosticCode::TypeMismatch, "Cannot infer generic type '"@
                        + mm.session.interner@[ctps[n - 1].0 as int] + "'. Please provide explicit type arguments."@, span)])
                    &&& resolved == res.push(mm.common.error)
                },
            }
    }
}

/// The first `n` arguments of a call of a generic class checked against
/// the constructor's parameter types with the type arguments `m` put in.
pub open spec fn ctor_generic_args_checked(s0: TypeChecker, ps: Seq<TypeId>, args: Seq<TypeId>, arguments: Seq<Expr>,
    m: Seq<(Symbol, TypeId)>, n: nat, s1: TypeChecker) -> bool
    decreases n,
{
    if n == 0 {
        s1 == s0
    } else {
        n <= ps.len() && n <= args.len() && n <= arguments.len()
            && exists|mm: TypeChecker, ma: TypeChecker, e: TypeId| #[trigger] picked((mm, ma, e))
                && ctor_generic_args_checked(s0, ps, args, arguments, m, (n - 1) as nat, mm)
                && substituted(mm, ps[n - 1], m, ma, e)
                && s1.expr_step(ma) && s1.session == ma.session
                && reported(s1, ma, errors_if(!assignable(ma.session.types@, ma.class_implements@, ma.common, args[n - 1], e),
                    seq![diag(DiagnosticCode::TypeMismatch, "Expected type '"@ + ma.text(e) + "' for argument, found '"@
                        + ma.text(args[n - 1]) + "'."@, arguments[n - 1].span)]))
    }
}

/// The errors for the first `n` arguments of a call of a class that do not
/// fit the constructor's parameter types.
pub open spec fn ctor_argument_errors(tc: TypeChecker, ps: Seq<TypeId>, args: Seq<TypeId>, span: Span, n: nat) -> Seq<DiagnosticV>
    decreases n,
{
    if n == 0 {
        Seq::empty()
    } else {
        let k = (n - 1) as int;
        ctor_argument_errors(tc, ps, args, span, (n - 1) as nat) + errors_if(
            !assignable(tc.session.types@, tc.class_implements@, tc.common, args[k], ps[k])
                && ps[k] != tc.common.any && args[k] != tc.common.error,
            seq![diag(DiagnosticCode::TypeMismatch, "Argument "@ + decimal(n) + " to constructor expects '"@ + tc.text(ps[k])
                + "', found '"@ + tc.text(args[k]) + "'."@, span)])
    }
}

/// Checking the arguments of a call of class `cn` against its constructor
/// with parameter types `ps`; `resolved` are the type arguments of a
/// generic class: the explicit ones, or those the arguments teach.
pub open spec fn ctor_args_checked(s0: TypeChecker, ctps: Seq<Symbol>, ps: Seq<TypeId>, type_args: Seq<TypeExpr>,
    args: Seq<TypeId>, arguments: Seq<Expr>, span: Span, s1: TypeChecker, resolved: Seq<TypeId>) -> bool {
    if ps.len() != args.len() {
        &&& s1.expr_step(s0)
        &&& s1.session == s0.session
        &&& reported(s1, s0, seq![diag(DiagnosticCode::TypeMismatch, "Constructor expected "@ + decimal(ps.len())
            + " arguments, found "@ + decimal(args.len()) + "."@, span)])
        &&& resolved == Seq::<TypeId>::empty()
    } else if ctps.len() > 0 {
        exists|ma: TypeChecker| #[trigger] picked(ma)
            && (if type_args.len() == 0 {
                exists|mx: TypeChecker, mxm: Seq<(Symbol, TypeId)>| #[trigger] picked((mx, mxm))
                    && args_matched(s0, ps, args, ps.len(), Seq::empty(), mx, mxm)
                    && class_args_resolved(mx, ctps, mxm, span, ctps.len(), ma, resolved)
            } else {
                exists|mx: TypeChecker| #[trigger] picked(mx)
                    && (if type_args.len() != ctps.len() {
                        &&& mx.expr_step(s0)
                        &&& mx.session == s0.session
                        &&& reported(mx, s0, seq![diag(DiagnosticCode::TypeMismatch, "Expected "@ + decimal(ctps.len())
                            + " generic arguments, found "@ + decimal(type_args.len()) + "."@, span)])
                    } else {
                        mx == s0
                    })
                    && types_parsed(mx, type_args, span, ma, resolved)
            })
            && ctor_generic_args_checked(ma, ps, args, arguments, zipped(ctps, resolved), ps.len(), s1)
    } else {
        &&& s1.expr_step(s0)
        &&& s1.session == s0.session
        &&& reported(s1, s0, ctor_argument_errors(s0, ps, args, span, ps.len()))
        &&& resolved == Seq::<TypeId>::empty()
    }
}

/// A call of class `cn` (with type parameters `ctps`) from state `s0` can
/// end in state `s1` with type `r`: the constructor is found and the
/// arguments checked against it (arguments to a class without one are
/// reported), and the result is an instance of the class, applied to the
/// type arguments for a generic class.
pub open spec fn constructed(s0: TypeChecker, cn: Symbol, ctps: Seq<Symbol>, type_args: Seq<TypeExpr>, args: Seq<TypeId>,
    arguments: Seq<Expr>, span: Span, s1: TypeChecker, r: TypeId) -> bool {
    exists|m1: TypeChecker, ctor: Option<TypeId>, m2: TypeChecker, resolved: Seq<TypeId>| #[trigger] picked((m1, ctor, m2, resolved))
        && ctor_found(s0, cn, span, m1, ctor)
        && (if ctor matches Some(c) && m1.ty(c) is Function {
            ctor_args_checked(m1, ctps, m1.ty(ctor.unwrap())->Function_1, type_args, args, arguments, span, m2, resolved)
        } else {
            &&& m2.expr_step(m1)
            &&& m2.session == m1.session
            &&& reported(m2, m1, errors_if(args.len() > 0, seq![diag(DiagnosticCode::TypeMismatch, "Class '"@
                + m1.session.interner@[cn.0 as int] + "' has no 'init' method but arguments were provided."@, span)]))
            &&& resolved == Seq::<TypeId>::empty()
        })
        && if ctps.len() > 0 {
            interned_done(m2, TypeV::GenericInstance(cn, resolved), s1, r)
        } else {
            interned_done(m2, TypeV::Instance(cn), s1, r)
        }
}

impl TypeChecker {
    /// The parameter types that the arguments of a call are checked against.
    pub fn call_param_hints(&self, callee: TypeId) -> (r: Option<Vec<TypeId>>)
        requires
            self.wf(),
            (callee.0 as int) < self.session.types@.len(),
        ensures
            r matches Some(v) ==> param_hints(*self, callee) == Some(v@) && ids_below(v@, self.session.types@.len()),
            r is None ==> param_hints(*self, callee) is None,
    {
        let t = self.session.types.get(callee);
        proof {
            assert(forall|k: int| 0 <= k < type_children(t@).len() ==> ((#[trigger] type_children(t@)[k]).0 as int) < callee.0);
        }
        match t {
            Type::Function(_, ps, _) => {
                assert(forall|k: int| 0 <= k < ps@.len() ==> type_children(t@)[k] == #[trigger] ps@[k]);
                Some(copy_ids(ps))
            },
            Type::EnumVariantConstructor(_, _, _, ps, _) => {
                assert(forall|k: int| 0 <= k < ps@.len() ==> type_children(t@)[k] == #[trigger] ps@[k]);
                Some(copy_ids(ps))
            },
            Type::Class(cn, _) => {
                proof { crate::check_rules::lemma_member_below(self.classes@, self.session.types@.len(), *cn, self.names.init); }
                match member_of(&self.classes, *cn, self.names.init) {
                    Some(init) => {
                        let it = self.session.types.get(init);
                        proof {
                            assert(forall|k: int| 0 <= k < type_children(it@).len() ==> ((#[trigger] type_children(it@)[k]).0 as int) < init.0);
                        }
                        match it {
                            Type::Function(_, ps, _) => {
                                assert(forall|k: int| 0 <= k < ps@.len() ==> type_children(it@)[k] == #[trigger] ps@[k]);
                                Some(copy_ids(ps))
                            },
                            _ => None,
                        }
                    },
                    None => None,
                }
            },
            _ => None,
        }
    }

    /// Checks the argument types `args` of a call against the parameter
    /// types `ps`.
    pub fn check_arguments(&mut self, ps: &Vec<TypeId>, args: &Vec<TypeId>, span: Span)
        requires
            old(self).wf(),
            ids_below(ps@, old(self).session.types@.len()),
            ids_below(args@, old(self).session.types@.len()),
        ensures
            final(self).expr_step(*old(self)),
            final(self).session == old(self).session,
            reported(*final(self), *old(self), call_errors(*old(self), ps@, args@, span)),
    {
        let ghost start = *self;
        if ps.len() != args.len() {
            let mut m = String::from_str("Expected ");
            m.append(decimal_string(ps.len()).as_str());
            m.append(" arguments, found ");
            m.append(decimal_string(args.len()).as_str());
            m.append(".");
            self.error(span, DiagnosticCode::TypeMismatch, m.as_str());
            assert(diagnostics_view(self.errors@) =~= diagnostics_view(start.errors@) + call_errors(start, ps@, args@, span));
            return;
        }
        let mut i: usize = 0;
        assert(diagnostics_view(self.errors@) =~= diagnostics_view(start.errors@) + argument_errors(start, ps@, args@, span, 0));
        while i < ps.len()
            invariant
                self.expr_step(start),
                self.session == start.session,
                start.wf(),
                ps@.len() == args@.len(),
                ids_below(ps@, start.session.types@.len()),
                ids_below(args@, start.session.types@.len()),
                i <= ps@.len(),
                diagnostics_view(self.errors@) == diagnostics_view(start.errors@) + argument_errors(start, ps@, args@, span, i as nat),
            decreases ps@.len() - i,
        {
            let e = ps[i];
            let a = args[i];
            let c = self.common;
            let ghost before = diagnostics_view(self.errors@);
            if !self.is_assignable(a, e) && e != c.any && a != c.error {
                let mut m = String::from_str("Argument ");
                m.append(decimal_string(i + 1).as_str());
                m.append(" expected type '");
                m.append(self.fmt(e).as_str());
                m.append("', found '");
                m.append(self.fmt(a).as_str());
                m.append("'.");
                self.error(span, DiagnosticCode::TypeMismatch, m.as_str());
            }
            i = i + 1;
            assert(diagnostics_view(self.errors@) =~= diagnostics_view(start.errors@) + argument_errors(start, ps@, args@, span, i as nat));
        }
    }

    /// The type arguments of a call of something generic with type
    /// parameters `ftps`, parameter types `ps` and result type `ret`: the
    /// explicit ones, or those inferred from the argument types `args` and
    /// the expected result type.  A parameter that cannot be inferred is
    /// reported and bound to the error type.
    pub fn generic_arguments(
        &mut self,
        ftps: &Vec<Symbol>,
        ps: &Vec<TypeId>,
        ret: TypeId,
        args: &Vec<TypeId>,
        type_args: &Vec<TypeExpr>,
        expected: Option<TypeId>,
        span: Span,
    ) -> (m: Vec<(Symbol, TypeId)>)
        requires
            old(self).wf(),
            forall|k: int| 0 <= k < ftps@.len() ==> ((#[trigger] ftps@[k]).0 as int) < old(self).session.interner@.len(),
            ids_below(ps@, old(self).session.types@.len()),
            ids_below(args@, old(self).session.types@.len()),
            (ret.0 as int) < old(self).session.types@.len(),
            expected matches Some(e) ==> (e.0 as int) < old(self).session.types@.len(),
            type_exprs_interned(old(self).names_bound@, type_args@),
        ensures
            final(self).expr_step(*old(self)),
            keys_unique(m@),
            map_below(m@, final(self).session.types@.len()),
            type_args@.len() == 0 ==> forall|k: int| 0 <= k < ftps@.len() ==> assoc(m@, #[trigger] ftps@[k]) is Some,
            generic_args_chosen(*old(self), ftps@, ps@, ret, args@, type_args@, expected, span, *final(self), m@),
    {
        let ghost start = *self;
        let mut m: Vec<(Symbol, TypeId)> = Vec::new();
        if type_args.len() == 0 {
            let mut i: usize = 0;
            while i < ps.len() && i < args.len()
                invariant
                    self.expr_step(start),
                    i <= ps@.len(),
                    i <= args@.len(),
                    ids_below(ps@, start.session.types@.len()),
                    ids_below(args@, start.session.types@.len()),
                    keys_unique(m@),
                    map_below(m@, self.session.types@.len()),
                    args_matched(start, ps@, args@, i as nat, Seq::empty(), *self, m@),
                decreases ps@.len() - i,
            {
                let ghost mi = *self;
                let ghost mm = m@;
                self.infer_generics(ps[i], args[i], &mut m);
                assert(picked((mi, mm)));
                assert(args_matched(start, ps@, args@, (i + 1) as nat, Seq::empty(), *self, m@));
                i = i + 1;
            }
            let ghost ma = *self;
            let ghost mam = m@;
            match expected {
                Some(e) => self.infer_generics(ret, e, &mut m),
                None => {},
            }
            let ghost mb = *self;
            let ghost mbm = m@;
            let mut j: usize = 0;
            while j < ftps.len()
                invariant
                    self.expr_step(start),
                    j <= ftps@.len(),
                    forall|k: int| 0 <= k < ftps@.len() ==> ((#[trigger] ftps@[k]).0 as int) < start.session.interner@.len(),
                    keys_unique(m@),
                    map_below(m@, self.session.types@.len()),
                    forall|k: int| 0 <= k < j ==> assoc(m@, #[trigger] ftps@[k]) is Some,
                    unbound_reported(mb, ftps@, span, j as nat, mbm, *self, m@),
                decreases ftps@.len() - j,
            {
                let tp = ftps[j];
                let ghost mj = *self;
                let ghost mm = m@;
                if find_last(&m, tp).is_none() {
                    let msg = self.msg_name("Cannot infer generic type '", tp, "'. Please provide explicit type arguments.");
                    self.error(span, DiagnosticCode::TypeMismatch, msg.as_str());
                    assert(diagnostics_view(self.errors@) =~= diagnostics_view(mj.errors@) + seq![diag(DiagnosticCode::TypeMismatch,
                        "Cannot infer generic type '"@ + mj.session.interner@[tp.0 as int]
                        + "'. Please provide explicit type arguments."@, span)]);
                    let err = self.common.error;
                    let ghost before = m@;
                    insert_if_absent(&mut m, tp, err);
                    proof {
                        assert forall|k: int| 0 <= k < j + 1 implies assoc(m@, #[trigger] ftps@[k]) is Some by {
                            if k < j {
                                lemma_assoc_push(before, (tp, err), ftps@[k]);
                            }
                        }
                    }
                }
                assert(picked((mj, mm)));
                assert(unbound_reported(mb, ftps@, span, (j + 1) as nat, mbm, *self, m@));
                j = j + 1;
            }
            assert(picked((ma, mam, mb, mbm)));
        } else {
            if type_args.len() != ftps.len() {
                let mut msg = String::from_str("Expected ");
                msg.append(decimal_string(ftps.len()).as_str());
                msg.append(" generic arguments, found ");
                msg.append(decimal_string(type_args.len()).as_str());
                msg.append(".");
                self.error(span, DiagnosticCode::TypeMismatch, msg.as_str());
                assert(diagnostics_view(self.errors@) =~= diagnostics_view(start.errors@) + seq![diag(DiagnosticCode::TypeMismatch,
                    "Expected "@ + decimal(ftps@.len()) + " generic arguments, found "@ + decimal(type_args@.len()) + "."@, span)]);
            }
            let ghost ma = *self;
            assert(picked(ma));
            proof { lemma_type_exprs_interned(self.names_bound@, type_args@); }
            let mut i: usize = 0;
            while i < type_args.len()
                invariant
                    self.expr_step(start),
                    i <= type_args@.len(),
                    forall|k: int| 0 <= k < type_args@.len() ==> #[trigger] type_expr_interned(self.names_bound@, type_args@[k]),
                    keys_unique(m@),
                    map_below(m@, self.session.types@.len()),
                    explicit_bound(ma, ftps@, type_args@, span, i as nat, Seq::empty(), *self, m@),
                decreases type_args@.len() - i,
            {
                let ghost mi = *self;
                let ghost mm = m@;
                let t = self.parse_type(&type_args[i], span);
                if i < ftps.len() {
                    let ghost before = m@;
                    table_insert(&mut m, ftps[i], t);
                    proof {
                        assert forall|k: int| 0 <= k < m@.len() implies ((#[trigger] m@[k]).1.0 as nat) < self.session.types@.len() by {
                            if m@[k].0 == ftps@[i as int] {
                                assert(m@[k] == (ftps@[i as int], t));
                            } else {
                                assert(k < before.len());
                                assert(before[k].0 == m@[k].0);
                                assert(m@[k] == before[k]);
                            }
                        }
                    }
                }
                assert(picked((mi, mm, t)));
                assert(explicit_bound(ma, ftps@, type_args@, span, (i + 1) as nat, Seq::empty(), *self, m@));
                i = i + 1;
            }
        }
        m
    }

    /// Checks the argument types `args` of a call against the parameter
    /// types `ps` with the type arguments `m` put in.
    pub fn check_generic_arguments(&mut self, ps: &Vec<TypeId>, args: &Vec<TypeId>, m: &Vec<(Symbol, TypeId)>, span: Span)
        requires
            old(self).wf(),
            ids_below(ps@, old(self).session.types@.len()),
            ids_below(args@, old(self).session.types@.len()),
            map_below(m@, old(self).session.types@.len()),
        ensures
            final(self).expr_step(*old(self)),
            ps@.len() != args@.len() ==> reported(*final(self), *old(self), call_errors(*old(self), ps@, args@, span))
                && final(self).session == old(self).session,
            ps@.len() == args@.len() ==> generic_args_checked(*old(self), ps@, args@, m@, span, ps@.len(), *final(self)),
    {
        let ghost start = *self;
        if ps.len() != args.len() {
            self.check_arguments(ps, args, span);
            return;
        }
        let mut i: usize = 0;
        while i < ps.len()
            invariant
                self.expr_step(start),
                ps@.len() == args@.len(),
                ids_below(ps@, start.session.types@.len()),
                ids_below(args@, start.session.types@.len()),
                map_below(m@, self.session.types@.len()),
                i <= ps@.len(),
                generic_args_checked(start, ps@, args@, m@, span, i as nat, *self),
            decreases ps@.len() - i,
        {
            let ghost mm = *self;
            let e = self.substitute_generics(ps[i], m);
            let ghost ma = *self;
            let a = args[i];
            let c = self.common;
            if !self.is_assignable(a, e) && e != c.any && a != c.error {
                let mut msg = String::from_str("Argument ");
                msg.append(decimal_string(i + 1).as_str());
                msg.append(" expected type '");
                msg.append(self.fmt(e).as_str());
                msg.append("', found '");
                msg.append(self.fmt(a).as_str());
                msg.append("'.");
                self.error(span, DiagnosticCode::TypeMismatch, msg.as_str());
                assert(diagnostics_view(self.errors@) =~= diagnostics_view(ma.errors@) + seq![diag(DiagnosticCode::TypeMismatch,
                    "Argument "@ + decimal((i + 1) as nat) + " expected type '"@ + ma.text(e) + "', found '"@ + ma.text(a) + "'."@, span)]);
            } else {
                assert(diagnostics_view(self.errors@) =~= diagnostics_view(ma.errors@) + Seq::<DiagnosticV>::empty());
            }
            assert(picked((mm, ma, e)));
            assert(generic_args_checked(start, ps@, args@, m@, span, (i + 1) as nat, *self));
            i = i + 1;
        }
    }

    /// The result type of a call of an overloaded function: that of the
    /// first variant whose parameters the arguments fit.
    pub fn overload_result(&mut self, variants: &Vec<(Symbol, TypeId)>, args: &Vec<TypeId>, span: Span) -> (r: TypeId)
        requires
            old(self).wf(),
            map_below(variants@, old(self).session.types@.len()),
            ids_below(args@, old(self).session.types@.len()),
        ensures
            final(self).expr_step(*old(self)),
            final(self).session == old(self).session,
            (r.0 as int) < final(self).session.types@.len(),
            match overload_pick(*old(self), variants@, args@) {
                Some(ret) => r == ret && reported(*final(self), *old(self), seq![]),
                None => r == old(self).common.error && reported(*final(self), *old(self),
                    seq![diag(DiagnosticCode::TypeMismatch, "No matching overload found for arguments."@, span)]),
            },
    {
        let ghost start = *self;
        assert(diagnostics_view(self.errors@) =~= diagnostics_view(self.errors@) + seq![]);
        let mut i: usize = 0;
        assert(variants@.subrange(0, variants@.len() as int) =~= variants@);
        while i < variants.len()
            invariant
                self.wf(),
                *self == start,
                map_below(variants@, self.session.types@.len()),
                ids_below(args@, self.session.types@.len()),
                i <= variants@.len(),
                overload_pick(start, variants@, args@)
                    == overload_pick(start, variants@.subrange(i as int, variants@.len() as int), args@),
            decreases variants@.len() - i,
        {
            proof {
                let rest = variants@.subrange(i as int, variants@.len() as int);
                assert(rest[0] == variants@[i as int]);
                assert(rest.subrange(1, rest.len() as int) =~= variants@.subrange(i + 1, variants@.len() as int));
            }
            let t = self.session.types.get(variants[i].1);
            match t {
                Type::Function(_, ps, ret) => {
                    proof {
                        assert(forall|k: int| 0 <= k < type_children(t@).len() ==> ((#[trigger] type_children(t@)[k]).0 as int) < self.session.types@.len());
                        assert(forall|k: int| 0 <= k < ps@.len() ==> type_children(t@)[k] == #[trigger] ps@[k]);
                        assert(type_children(t@)[ps@.len() as int] == *ret);
                    }
                    if ps.len() == args.len() {
                        let mut all_fit = true;
                        let mut k: usize = 0;
                        while k < ps.len() && all_fit
                            invariant
                                self.wf(),
                                *self == start,
                                ps@.len() == args@.len(),
                                k <= ps@.len(),
                                ids_below(args@, self.session.types@.len()),
                                forall|j: int| 0 <= j < ps@.len() ==> ((#[trigger] ps@[j]).0 as int) < self.session.types@.len(),
                                all_fit ==> forall|j: int| 0 <= j < k ==>
                                    #[trigger] assignable(start.session.types@, start.class_implements@, start.common, args@[j], ps@[j]),
                                !all_fit ==> k < ps@.len()
                                    && !assignable(start.session.types@, start.class_implements@, start.common, args@[k as int], ps@[k as int]),
                            decreases ps@.len() - k + (if all_fit { 1int } else { 0int }),
                        {
                            if !self.is_assignable(args[k], ps[k]) {
                                all_fit = false;
                            } else {
                                k = k + 1;
                            }
                        }
                        if all_fit {
                            assert(fits(start, ps@, args@));
                            return *ret;
                        }
                        assert(!fits(start, ps@, args@));
                    }
                },
                _ => {},
            }
            i = i + 1;
        }
        self.error(span, DiagnosticCode::TypeMismatch, "No matching overload found for arguments.");
        assert(diagnostics_view(self.errors@) =~= diagnostics_view(start.errors@)
            + seq![diag(DiagnosticCode::TypeMismatch, "No matching overload found for arguments."@, span)]);
        self.common.error
    }

    /// The type of the constructor of class `cn`: its `init` method, or the
    /// `init` method of the generic class kept under that name.
    pub fn constructor_type(&mut self, cn: Symbol, span: Span) -> (r: Option<TypeId>)
        requires
            old(self).wf(),
        ensures
            final(self).expr_step(*old(self)),
            r matches Some(t) ==> (t.0 as int) < final(self).session.types@.len(),
            member(old(self).classes@, cn, old(self).names.init) is Some ==> r == member(old(self).classes@, cn, old(self).names.init)
                && final(self).session == old(self).session && final(self).errors == old(self).errors,
            ctor_found(*old(self), cn, span, *final(self), r),
    {
        let ghost s0 = *self;
        proof { crate::check_rules::lemma_member_below(self.classes@, self.session.types@.len(), cn, self.names.init); }
        match member_of(&self.classes, cn, self.names.init) {
            Some(t) => return Some(t),
            None => {},
        }
        let i = match find_last(&self.generic_classes, cn) {
            Some(i) => i,
            None => return None,
        };
        let params = match &self.generic_classes[i].1.init_params {
            Some(ps) => copy_type_exprs(ps),
            None => return None,
        };
        let tps = copy_symbols(&self.generic_classes[i].1.type_params);
        proof {
            assert(generic_classes_interned(self.names_bound@, self.generic_classes@));
            let gc = self.generic_classes@[i as int].1;
            assert(tps@ == gc.type_params@);
            lemma_type_exprs_interned(self.names_bound@, params@);
        }
        let ghost before = self.env@;
        self.env.push_scope();
        let ghost ma = *self;
        assert(with_env(s0, s0.env@.push(Seq::empty()), ma));
        self.declare_type_params(&tps);
        let ghost pushed = *self;
        let mut ps: Vec<TypeId> = Vec::new();
        let mut k: usize = 0;
        while k < params.len()
            invariant
                self.expr_step(pushed),
                k <= params@.len(),
                ps@.len() == k,
                forall|j: int| 0 <= j < params@.len() ==> #[trigger] type_expr_interned(self.names_bound@, params@[j]),
                ids_below(ps@, self.session.types@.len()),
                types_parsed(pushed, params@.take(k as int), span, *self, ps@),
            decreases params@.len() - k,
        {
            let ghost m = *self;
            let ghost ts0 = ps@;
            let t = self.parse_type(&params[k], span);
            ps.push(t);
            proof {
                let p = params@.take(k + 1);
                assert(p.drop_last() =~= params@.take(k as int));
                assert(p.last() == params@[k as int]);
                assert(picked((m, ts0, t)));
                assert(types_parsed(pushed, p, span, *self, ps@));
            }
            k = k + 1;
        }
        assert(params@.take(params@.len() as int) =~= params@);
        let ghost mc = *self;
        self.env.pop_scope();
        let ghost md = *self;
        assert(with_env(mc, mc.env@.drop_last(), md));
        assert(self.env@ =~= before);
        let void = self.common.void;
        let ghost psv = ps@;
        let t = self.intern_type(Type::Function(Vec::new(), ps, void));
        assert(interned_done(md, TypeV::Function(Seq::empty(), psv, md.common.void), *self, t));
        assert(picked((params@, ma, pushed, mc, psv, md, t)));
        Some(t)
    }

    /// The type of a call of class `cn` (with type parameters `ctps`): an
    /// instance of the class, checked against its constructor.  For a
    /// generic class, the type arguments are the explicit ones or those
    /// inferred from the arguments, and the result is the class applied to
    /// them.
    pub fn construct_type(
        &mut self,
        cn: Symbol,
        ctps: &Vec<Symbol>,
        type_args: &Vec<TypeExpr>,
        args: &Vec<TypeId>,
        arguments: &Vec<Expr>,
        span: Span,
    ) -> (r: TypeId)
        requires
            old(self).wf(),
            (cn.0 as int) < old(self).session.interner@.len(),
            forall|k: int| 0 <= k < ctps@.len() ==> ((#[trigger] ctps@[k]).0 as int) < old(self).session.interner@.len(),
            type_exprs_interned(old(self).names_bound@, type_args@),
            ids_below(args@, old(self).session.types@.len()),
            arguments@.len() == args@.len(),
        ensures
            final(self).expr_step(*old(self)),
            (r.0 as int) < final(self).session.types@.len(),
            ctps@.len() == 0 && final(self).room() ==> final(self).ty(r) == TypeV::Instance(cn),
            ctps@.len() > 0 && final(self).room() ==> (final(self).ty(r) matches TypeV::GenericInstance(n, _) && n == cn),
            constructed(*old(self), cn, ctps@, type_args@, args@, arguments@, span, *final(self), r),
    {
        let ghost start = *self;
        let ctor = self.constructor_type(cn, span);
        let ghost m1 = *self;
        let mut resolved: Vec<TypeId> = Vec::new();
        let ft = match ctor {
            Some(c) => Some(self.get_type(c)),
            None => None,
        };
        proof {
            if let Some(c) = ctor {
                assert(forall|k: int| 0 <= k < type_children(self.ty(c)).len() ==> ((#[trigger] type_children(self.ty(c))[k]).0 as int) < self.session.types@.len());
            }
        }
        match ft {
            Some(Type::Function(_, ps, _)) => {
                proof {
                    let t = self.ty(ctor.unwrap());
                    assert(forall|k: int| 0 <= k < ps@.len() ==> type_children(t)[k] == #[trigger] ps@[k]);
                    assert(m1.ty(ctor.unwrap())->Function_1 == ps@);
                }
                if ps.len() != args.len() {
                    let mut msg = String::from_str("Constructor expected ");
                    msg.append(decimal_string(ps.len()).as_str());
                    msg.append(" arguments, found ");
                    msg.append(decimal_string(args.len()).as_str());
                    msg.append(".");
                    self.error(span, DiagnosticCode::TypeMismatch, msg.as_str());
                    assert(diagnostics_view(self.errors@) =~= diagnostics_view(m1.errors@) + seq![diag(DiagnosticCode::TypeMismatch,
                        "Constructor expected "@ + decimal(ps@.len()) + " arguments, found "@ + decimal(args@.len()) + "."@, span)]);
                } else if ctps.len() > 0 {
                    if type_args.len() == 0 {
                        let mut m: Vec<(Symbol, TypeId)> = Vec::new();
                        let ghost s1 = *self;
                        let mut i: usize = 0;
                        while i < ps.len()
                            invariant
                                self.expr_step(s1),
                                i <= ps@.len(),
                                ps@.len() == args@.len(),
                                ids_below(ps@, s1.session.types@.len()),
                                ids_below(args@, s1.session.types@.len()),
                                keys_unique(m@),
                                map_below(m@, self.session.types@.len()),
                                args_matched(s1, ps@, args@, i as nat, Seq::empty(), *self, m@),
                            decreases ps@.len() - i,
                        {
                            let ghost mi = *self;
                            let ghost mm = m@;
                            self.infer_generics(ps[i], args[i], &mut m);
                            assert(picked((mi, mm)));
                            assert(args_matched(s1, ps@, args@, (i + 1) as nat, Seq::empty(), *self, m@));
                            i = i + 1;
                        }
                        let ghost mx = *self;
                        let ghost mxm = m@;
                        let mut j: usize = 0;
                        while j < ctps.len()
                            invariant
                                self.expr_step(s1),
                                j <= ctps@.len(),
                                forall|k: int| 0 <= k < ctps@.len() ==> ((#[trigger] ctps@[k]).0 as int) < s1.session.interner@.len(),
                                map_below(m@, self.session.types@.len()),
                                ids_below(resolved@, self.session.types@.len()),
                                m@ == mxm,
                                class_args_resolved(mx, ctps@, mxm, span, j as nat, *self, resolved@),
                            decreases ctps@.len() - j,
                        {
                            let ghost mj = *self;
                            let ghost res = resolved@;
                            match find_last(&m, ctps[j]) {
                                Some(x) => resolved.push(m[x].1),
                                None => {
                                    let msg = self.msg_name("Cannot infer generic type '", ctps[j], "'. Please provide explicit type arguments.");
                                    self.error(span, DiagnosticCode::TypeMismatch, msg.as_str());
                                    assert(diagnostics_view(self.errors@) =~= diagnostics_view(mj.errors@) + seq![diag(DiagnosticCode::TypeMismatch,
                                        "Cannot infer generic type '"@ + mj.session.interner@[ctps@[j as int].0 as int]
                                        + "'. Please provide explicit type arguments."@, span)]);
                                    resolved.push(self.common.error);
                                },
                            }
                            assert(picked((mj, res)));
                            assert(class_args_resolved(mx, ctps@, mxm, span, (j + 1) as nat, *self, resolved@));
                            j = j + 1;
                        }
                        assert(picked((mx, mxm)));
                    } else {
                        if type_args.len() != ctps.len() {
                            let mut msg = String::from_str("Expected ");
                            msg.append(decimal_string(ctps.len()).as_str());
                            msg.append(" generic arguments, found ");
                            msg.append(decimal_string(type_args.len()).as_str());
                            msg.append(".");
                            self.error(span, DiagnosticCode::TypeMismatch, msg.as_str());
                            assert(diagnostics_view(self.errors@) =~= diagnostics_view(m1.errors@) + seq![diag(DiagnosticCode::TypeMismatch,
                                "Expected "@ + decimal(ctps@.len()) + " generic arguments, found "@ + decimal(type_args@.len()) + "."@, span)]);
                        }
                        proof { lemma_type_exprs_interned(self.names_bound@, type_args@); }
                        let ghost s2 = *self;
                        assert(picked(s2));
                        let mut i: usize = 0;
                        while i < type_args.len()
                            invariant
                                self.expr_step(s2),
                                i <= type_args@.len(),
                                forall|k: int| 0 <= k < type_args@.len() ==> #[trigger] type_expr_interned(self.names_bound@, type_args@[k]),
                                ids_below(resolved@, self.session.types@.len()),
                                types_parsed(s2, type_args@.take(i as int), span, *self, resolved@),
                            decreases type_args@.len() - i,
                        {
                            let ghost mi = *self;
                            let ghost ts0 = resolved@;
                            let t = self.parse_type(&type_args[i], span);
                            resolved.push(t);
                            proof {
                                let p = type_args@.take(i + 1);
                                assert(p.drop_last() =~= type_args@.take(i as int));
                                assert(p.last() == type_args@[i as int]);
                                assert(picked((mi, ts0, t)));
                                assert(types_parsed(s2, p, span, *self, resolved@));
                            }
                            i = i + 1;
                        }
                        assert(type_args@.take(type_args@.len() as int) =~= type_args@);
                    }
                    let m = zip_map(ctps, &resolved);
                    assert(m@ =~= zipped(ctps@, resolved@));
                    let ghost s3 = *self;
                    assert(picked(s3));
                    let mut i: usize = 0;
                    while i < ps.len()
                        invariant
                            self.expr_step(s3),
                            i <= ps@.len(),
                            ps@.len() == args@.len(),
                            arguments@.len() == args@.len(),
                            ids_below(ps@, s3.session.types@.len()),
                            ids_below(args@, s3.session.types@.len()),
                            map_below(m@, self.session.types@.len()),
                            ids_below(resolved@, self.session.types@.len()),
                            ctor_generic_args_checked(s3, ps@, args@, arguments@, m@, i as nat, *self),
                        decreases ps@.len() - i,
                    {
                        let ghost mm = *self;
                        let e = self.substitute_generics(ps[i], &m);
                        let ghost ma = *self;
                        if !self.is_assignable(args[i], e) {
                            let mut msg = self.msg1("Expected type '", e, "' for argument, found '");
                            msg.append(self.fmt(args[i]).as_str());
                            msg.append("'.");
                            self.error(arguments[i].span, DiagnosticCode::TypeMismatch, msg.as_str());
                            assert(diagnostics_view(self.errors@) =~= diagnostics_view(ma.errors@) + seq![diag(DiagnosticCode::TypeMismatch,
                                "Expected type '"@ + ma.text(e) + "' for argument, found '"@ + ma.text(args@[i as int]) + "'."@,
                                arguments@[i as int].span)]);
                        } else {
                            assert(diagnostics_view(self.errors@) =~= diagnostics_view(ma.errors@) + Seq::<DiagnosticV>::empty());
                        }
                        assert(picked((mm, ma, e)));
                        assert(ctor_generic_args_checked(s3, ps@, args@, arguments@, m@, (i + 1) as nat, *self));
                        i = i + 1;
                    }
                    let ghost m2 = *self;
                    let ghost rv = resolved@;
                    let r = self.intern_type(Type::GenericInstance(cn, resolved));
                    assert(interned_done(m2, TypeV::GenericInstance(cn, rv), *self, r));
                    assert(ctor_args_checked(m1, ctps@, ps@, type_args@, args@, arguments@, span, m2, rv));
                    assert(picked((m1, ctor, m2, rv)));
                    return r;
                } else {
                    let ghost s4 = *self;
                    let mut i: usize = 0;
                    assert(diagnostics_view(self.errors@) =~= diagnostics_view(s4.errors@) + ctor_argument_errors(s4, ps@, args@, span, 0));
                    while i < ps.len()
                        invariant
                            self.expr_step(s4),
                            self.session == s4.session,
                            s4 == m1,
                            i <= ps@.len(),
                            ps@.len() == args@.len(),
                            ids_below(ps@, s4.session.types@.len()),
                            ids_below(args@, s4.session.types@.len()),
                            diagnostics_view(self.errors@) == diagnostics_view(s4.errors@) + ctor_argument_errors(s4, ps@, args@, span, i as nat),
                        decreases ps@.len() - i,
                    {
                        let e = ps[i];
                        let a = args[i];
                        let c = self.common;
                        if !self.is_assignable(a, e) && e != c.any && a != c.error {
                            let mut msg = String::from_str("Argument ");
                            msg.append(decimal_string(i + 1).as_str());
                            msg.append(" to constructor expects '");
                            msg.append(self.fmt(e).as_str());
                            msg.append("', found '");
                            msg.append(self.fmt(a).as_str());
                            msg.append("'.");
                            self.error(span, DiagnosticCode::TypeMismatch, msg.as_str());
                        }
                        assert(diagnostics_view(self.errors@) =~= diagnostics_view(s4.errors@)
                            + ctor_argument_errors(s4, ps@, args@, span, (i + 1) as nat));
                        i = i + 1;
                    }
                }
            },
            _ => {
                if args.len() > 0 {
                    let msg = self.msg_name("Class '", cn, "' has no 'init' method but arguments were provided.");
                    self.error(span, DiagnosticCode::TypeMismatch, msg.as_str());
                    assert(diagnostics_view(self.errors@) =~= diagnostics_view(m1.errors@) + seq![diag(DiagnosticCode::TypeMismatch,
                        "Class '"@ + m1.session.interner@[cn.0 as int] + "' has no 'init' method but arguments were provided."@, span)]);
                } else {
                    assert(diagnostics_view(self.errors@) =~= diagnostics_view(m1.errors@) + Seq::<DiagnosticV>::empty());
                }
            },
        }
        let ghost m2 = *self;
        let ghost rv = resolved@;
        assert(picked((m1, ctor, m2, rv)));
        if ctps.len() > 0 {
            let r = self.intern_type(Type::GenericInstance(cn, resolved));
            assert(interned_done(m2, TypeV::GenericInstance(cn, rv), *self, r));
            return r;
        }
        let r = self.intern_type(Type::Instance(cn));
        assert(interned_done(m2, TypeV::Instance(cn), *self, r));
        r
    }

    /// What `call_result` leaves behind.
    pub open spec fn call_result_done(s0: TypeChecker, callee: TypeId, type_args: Seq<TypeExpr>, args: Seq<TypeId>,
        arguments: Seq<Expr>, expected: Option<TypeId>, span: Span, s1: TypeChecker, r: TypeId) -> bool {
        &&& s1.expr_step(s0)
        &&& (r.0 as int) < s1.session.types@.len()
        &&& match s0.ty(callee) {
                TypeV::BuiltinFunc => r == s0.common.void && reported(s1, s0, seq![]),
                TypeV::Error => r == s0.common.error && reported(s1, s0, seq![]),
                TypeV::Function(tps, ps, ret) => if tps.len() == 0 {
                    r == ret && reported(s1, s0, call_errors(s0, ps, args, span))
                } else {
                    generic_call_result(s0, tps, ps, ret, type_args, args, expected, span, s1, r)
                },
                TypeV::EnumVariantConstructor(_, _, tps, ps, ret) => if tps.len() == 0 {
                    r == ret && reported(s1, s0, call_errors(s0, ps, args, span))
                } else {
                    generic_call_result(s0, tps, ps, ret, type_args, args, expected, span, s1, r)
                },
                TypeV::Class(cn, ctps) => constructed(s0, cn, ctps, type_args, args, arguments, span, s1, r),
                TypeV::OverloadedFunction(variants) => match overload_pick(s0, variants, args) {
                    Some(ret) => r == ret && reported(s1, s0, seq![]),
                    None => r == s0.common.error && reported(s1, s0,
                        seq![diag(DiagnosticCode::TypeMismatch, "No matching overload found for arguments."@, span)]),
                },
                _ => r == s0.common.error && reported(s1, s0,
                    seq![diag(DiagnosticCode::TypeMismatch, "Cannot call non-function type."@, span)]),
            }
    }

    /// The type of a call of a value of type `callee` with arguments of
    /// types `args`: `Void` for a built-in; the result of the matching
    /// overload; an instance for a class; the (instantiated) result type for
    /// a function or an enum variant, after checking the arguments.
    pub fn call_result(
        &mut self,
        callee: TypeId,
        type_args: &Vec<TypeExpr>,
        args: &Vec<TypeId>,
        arguments: &Vec<Expr>,
        expected: Option<TypeId>,
        span: Span,
    ) -> (r: TypeId)
        requires
            old(self).wf(),
            (callee.0 as int) < old(self).session.types@.len(),
            type_exprs_interned(old(self).names_bound@, type_args@),
            ids_below(args@, old(self).session.types@.len()),
            arguments@.len() == args@.len(),
            expected matches Some(e) ==> (e.0 as int) < old(self).session.types@.len(),
        ensures
            Self::call_result_done(*old(self), callee, type_args@, args@, arguments@, expected, span, *final(self), r),
    {
        let ghost start = *self;
        assert(diagnostics_view(self.errors@) =~= diagnostics_view(self.errors@) + seq![]);
        let t = self.get_type(callee);
        proof {
            assert(forall|k: int| 0 <= k < type_children(t@).len() ==> ((#[trigger] type_children(t@)[k]).0 as int) < callee.0);
            assert(forall|k: int| 0 <= k < type_symbols(t@).len() ==> ((#[trigger] type_symbols(t@)[k]).0 as int) < self.session.interner@.len());
        }
        match t {
            Type::BuiltinFunc => self.common.void,
            Type::OverloadedFunction(variants) => {
                assert(forall|k: int| 0 <= k < variants@.len() ==> type_children(t@)[k] == (#[trigger] variants@[k]).1);
                self.overload_result(&variants, args, span)
            },
            Type::Class(cn, ctps) => {
                assert(type_symbols(t@)[0] == cn);
                assert(forall|k: int| 0 <= k < ctps@.len() ==> type_symbols(t@)[k + 1] == #[trigger] ctps@[k]);
                self.construct_type(cn, &ctps, type_args, args, arguments, span)
            },
            Type::Function(ftps, ps, ret) => {
                assert(forall|k: int| 0 <= k < ps@.len() ==> type_children(t@)[k] == #[trigger] ps@[k]);
                assert(type_children(t@)[ps@.len() as int] == ret);
                assert(forall|k: int| 0 <= k < ftps@.len() ==> type_symbols(t@)[k] == #[trigger] ftps@[k]);
                self.function_result(&ftps, &ps, ret, type_args, args, expected, span)
            },
            Type::EnumVariantConstructor(_, _, ftps, ps, ret) => {
                assert(forall|k: int| 0 <= k < ps@.len() ==> type_children(t@)[k] == #[trigger] ps@[k]);
                assert(type_children(t@)[ps@.len() as int] == ret);
                assert(forall|k: int| 0 <= k < ftps@.len() ==> type_symbols(t@)[k + 2] == #[trigger] ftps@[k]);
                self.function_result(&ftps, &ps, ret, type_args, args, expected, span)
            },
            Type::Error => self.common.error,
            _ => {
                self.error(span, DiagnosticCode::TypeMismatch, "Cannot call non-function type.");
                assert(diagnostics_view(self.errors@) =~= diagnostics_view(start.errors@)
                    + seq![diag(DiagnosticCode::TypeMismatch, "Cannot call non-function type."@, span)]);
                self.common.error
            },
        }
    }

    /// The result type of a call of a function or enum variant with type
    /// parameters `ftps`, parameter types `ps` and result type `ret`.
    pub fn function_result(
        &mut self,
        ftps: &Vec<Symbol>,
        ps: &Vec<TypeId>,
        ret: TypeId,
        type_args: &Vec<TypeExpr>,
        args: &Vec<TypeId>,
        expected: Option<TypeId>,
        span: Span,
    ) -> (r: TypeId)
        requires
            old(self).wf(),
            forall|k: int| 0 <= k < ftps@.len() ==> ((#[trigger] ftps@[k]).0 as int) < old(self).session.interner@.len(),
            ids_below(ps@, old(self).session.types@.len()),
            (ret.0 as int) < old(self).session.types@.len(),
            type_exprs_interned(old(self).names_bound@, type_args@),
            ids_below(args@, old(self).session.types@.len()),
            expected matches Some(e) ==> (e.0 as int) < old(self).session.types@.len(),
        ensures
            final(self).expr_step(*old(self)),
            (r.0 as int) < final(self).session.types@.len(),
            ftps@.len() == 0 ==> r == ret && reported(*final(self), *old(self), call_errors(*old(self), ps@, args@, span)),
            ftps@.len() > 0 ==> generic_call_result(*old(self), ftps@, ps@, ret, type_args@, args@, expected, span, *final(self), r),
    {
        if ftps.len() == 0 {
            self.check_arguments(ps, args, span);
            return ret;
        }
        let m = self.generic_arguments(ftps, ps, ret, args, type_args, expected, span);
        let ghost ma = *self;
        self.check_generic_arguments(ps, args, &m, span);
        let ghost mb = *self;
        let r = self.substitute_generics(ret, &m);
        assert(picked((ma, m@, mb)));
        r
    }
}

/// Adding an entry keeps the entries of the other keys found.
pub proof fn lemma_assoc_push<V>(table: Seq<(Symbol, V)>, entry: (Symbol, V), key: Symbol)
    ensures
        assoc(table, key) is Some ==> assoc(table.push(entry), key) is Some,
{
    assert(table.push(entry).drop_last() =~= table);
}

} // verus!
