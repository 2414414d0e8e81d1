use vstd::prelude::*;
use crate::ast::{Pattern, Span, TypeExpr, copies_of, copy_of, pattern_interned, copy_type_exprs, lemma_type_exprs_interned, symbols_below, type_expr_interned, type_exprs_interned};
use crate::checker::{GenericFunction, TypeChecker, assignable, generic_classes_interned, generic_functions_interned, lemma_lookup_below, members_below};
use crate::diagnostics::{DiagnosticCode, DiagnosticV, diagnostics_view};
use crate::env::{Binding, lookup, with_declaration};
use crate::check_expr::{interned_done, picked, with_env};
use crate::check_types::{type_parsed, types_parsed};
use crate::interner::Symbol;
use crate::tables::{assoc, find_last};
use crate::types::{Type, TypeId, TypeV, copy_symbols, type_children, type_symbols};
use crate::substitution::{map_below, substituted};
use crate::check_call::zipped;

verus! {

/// A diagnostic with the given code, message and span.
pub open spec fn diag(code: DiagnosticCode, message: Seq<char>, span: Span) -> DiagnosticV {
    DiagnosticV { code, message, span }
}

/// The errors of `fin` are those of `old` followed by `added`.
pub open spec fn reported(fin: TypeChecker, old: TypeChecker, added: Seq<DiagnosticV>) -> bool {
    diagnostics_view(fin.errors@) == diagnostics_view(old.errors@) + added
}

/// `added` if `cond` holds, nothing otherwise.
pub open spec fn errors_if(cond: bool, added: Seq<DiagnosticV>) -> Seq<DiagnosticV> {
    if cond { added } else { Seq::empty() }
}

/// The entry `name` of the member table of `owner`.
pub open spec fn member<V>(table: Seq<(Symbol, Vec<(Symbol, V)>)>, owner: Symbol, name: Symbol) -> Option<V> {
    match assoc(table, owner) {
        Some(ms) => assoc(ms@, name),
        None => None,
    }
}

/// The entry `name` of the member table of `owner`.
pub fn member_of<V: Copy>(table: &Vec<(Symbol, Vec<(Symbol, V)>)>, owner: Symbol, name: Symbol) -> (r: Option<V>)
    ensures
        r == member(table@, owner, name),
{
    match find_last(table, owner) {
        Some(i) => match find_last(&table[i].1, name) {
            Some(j) => Some(table[i].1[j].1),
            None => None,
        },
        None => None,
    }
}

/// A member type found in a table whose entries are in the arena is in
/// the arena.
pub proof fn lemma_member_below(table: Seq<(Symbol, Vec<(Symbol, TypeId)>)>, n: nat, owner: Symbol, name: Symbol)
    requires
        members_below(table, n),
    ensures
        member(table, owner, name) matches Some(t) ==> (t.0 as nat) < n,
{
    lemma_assoc_in(table, owner);
    if let Some(ms) = assoc(table, owner) {
        let i = choose|i: int| 0 <= i < table.len() && table[i].1 == ms;
        lemma_assoc_in(ms@, name);
        if let Some(t) = assoc(ms@, name) {
            let j = choose|j: int| 0 <= j < ms@.len() && ms@[j].1 == t;
            assert(table[i].1@[j] == ms@[j]);
        }
    }
}

/// What an association list gives is one of its entries.
pub proof fn lemma_assoc_in<V>(table: Seq<(Symbol, V)>, key: Symbol)
    ensures
        assoc(table, key) matches Some(v) ==> exists|i: int| 0 <= i < table.len() && table[i].1 == v,
    decreases table.len(),
{
    if table.len() > 0 {
        lemma_assoc_in(table.drop_last(), key);
        if table.last().0 == key {
            assert(table[table.len() - 1].1 == table.last().1);
        } else if let Some(v) = assoc(table.drop_last(), key) {
            let i = choose|i: int| 0 <= i < table.drop_last().len() && table.drop_last()[i].1 == v;
            assert(table[i] == table.drop_last()[i]);
        }
    }
}

/// The first `n` type parameters `tps` declared in order in the innermost
/// scope, each bound to its generic type.
pub open spec fn tparams_declared(s0: TypeChecker, tps: Seq<Symbol>, n: nat, s1: TypeChecker) -> bool
    decreases n,
{
    if n == 0 {
        s1 == s0
    } else {
        n <= tps.len() && exists|m: TypeChecker, ma: TypeChecker, g: TypeId| #[trigger] picked((m, ma, g))
            && tparams_declared(s0, tps, (n - 1) as nat, m)
            && interned_done(m, TypeV::Generic(tps[n - 1]), ma, g)
            && with_env(ma, with_declaration(ma.env@, tps[n - 1], Binding { ty: g, is_mutable: false }), s1)
    }
}

/// The type of a member of type `pt` of an instance of `owner` with type
/// arguments `args`: the class's type parameters are replaced by the
/// arguments.
pub open spec fn member_resolved(s0: TypeChecker, owner: Symbol, pt: TypeId, args: Seq<TypeId>, s1: TypeChecker, r: TypeId) -> bool {
    if args.len() == 0 {
        s1 == s0 && r == pt
    } else {
        match lookup(s0.env@, owner) {
            Some(b) => match s0.ty(b.ty) {
                TypeV::Class(_, params) => substituted(s0, pt, zipped(params, args), s1, r),
                _ => s1 == s0 && r == pt,
            },
            None => s1 == s0 && r == pt,
        }
    }
}

/// The type of the generic function `gf` used as a value, from state
/// `s0` to state `s1`: its parameter and result types, parsed from copies
/// of their type expressions with its type parameters in scope, make a
/// function type.
pub open spec fn generic_fn_type(s0: TypeChecker, gf: GenericFunction, span: Span, s1: TypeChecker, r: TypeId) -> bool {
    exists|copied: Seq<TypeExpr>, ret_copy: Option<TypeExpr>, ma: TypeChecker, mb: TypeChecker, mc: TypeChecker,
        ps: Seq<TypeId>, md: TypeChecker, ret: TypeId, me: TypeChecker|
        #[trigger] picked((copied, ret_copy, ma, mb, mc, ps, md, ret, me))
        && copies_of(copied, gf.params@)
        && (match (ret_copy, gf.return_type) {
            (Some(a), Some(b)) => copy_of(a, b),
            (None, None) => true,
            _ => false,
        })
        && with_env(s0, s0.env@.push(Seq::empty()), ma)
        && tparams_declared(ma, gf.type_params@, gf.type_params@.len(), mb)
        && types_parsed(mb, copied, span, mc, ps)
        && (match ret_copy {
            Some(te) => type_parsed(mc, te, span, md, ret),
            None => md == mc && ret == mc.common.void,
        })
        && with_env(md, md.env@.drop_last(), me)
        && interned_done(me, TypeV::Function(gf.type_params@, ps, ret), s1, r)
}

/// The first `n` of `ids`, each substituted with `m`, in order.
pub open spec fn substituted_each(s0: TypeChecker, ids: Seq<TypeId>, m: Seq<(Symbol, TypeId)>, n: nat, s1: TypeChecker,
    out: Seq<TypeId>) -> bool
    decreases n,
{
    if n == 0 {
        s1 == s0 && out == Seq::<TypeId>::empty()
    } else {
        n <= ids.len() && exists|mm: TypeChecker, out0: Seq<TypeId>, t: TypeId| #[trigger] picked((mm, out0, t))
            && substituted_each(s0, ids, m, (n - 1) as nat, mm, out0)
            && substituted(mm, ids[n - 1], m, s1, t)
            && out == out0.push(t)
    }
}

/// The enum and type arguments of a value matched by a pattern.
pub open spec fn matched_enum(t: TypeV) -> Option<(Symbol, Seq<TypeId>)> {
    match t {
        TypeV::GenericInstance(n, args) => Some((n, args)),
        TypeV::Instance(n) => Some((n, Seq::empty())),
        _ => None,
    }
}

/// The field types of the variant that the pattern path `path` names, for
/// a value of type `value`, with the value's type arguments put in; none
/// when the value is no enum instance or the variant has no fields.
pub open spec fn fields_extracted(s0: TypeChecker, value: TypeId, path: Seq<Symbol>, s1: TypeChecker, out: Seq<TypeId>) -> bool {
    let none = s1 == s0 && out == Seq::<TypeId>::empty();
    match matched_enum(s0.ty(value)) {
        Some((en, args)) => if assoc(s0.enums@, en) is Some {
            let vn = if path.len() > 0 { path.last() } else { s0.names.empty };
            match member(s0.enums@, en, vn) {
                Some(v) => match s0.ty(v) {
                    TypeV::EnumVariantConstructor(_, _, ftps, pts, _) =>
                        substituted_each(s0, pts, zipped(ftps, args), pts.len(), s1, out),
                    _ => none,
                },
                None => none,
            }
        } else {
            none
        },
        None => none,
    }
}

/// The first `n` bindings declared, each other than `_` with the field
/// type at its position, or `Any` past the fields.
pub open spec fn binds_declared(s0: TypeChecker, binds: Seq<Symbol>, fields: Seq<TypeId>, n: nat, s1: TypeChecker) -> bool
    decreases n,
{
    if n == 0 {
        s1 == s0
    } else {
        n <= binds.len() && exists|m: TypeChecker| #[trigger] picked(m)
            && binds_declared(s0, binds, fields, (n - 1) as nat, m)
            && if binds[n - 1] != m.names.wildcard {
                with_env(m, with_declaration(m.env@, binds[n - 1], Binding {
                    ty: if n - 1 < fields.len() { fields[n - 1] } else { m.common.any },
                    is_mutable: false,
                }), s1)
            } else {
                s1 == m
            }
    }
}

/// The bindings of a match pattern declared for a value of type `value`.
pub open spec fn bindings_declared(s0: TypeChecker, value: TypeId, pattern: Pattern, s1: TypeChecker) -> bool {
    match pattern {
        Pattern::Wildcard => s1 == s0,
        Pattern::Variant { path, bindings } => match bindings {
            None => s1 == s0,
            Some(binds) => exists|m: TypeChecker, fields: Seq<TypeId>| #[trigger] picked((m, fields))
                && fields_extracted(s0, value, path@, m, fields)
                && binds_declared(m, binds@, fields, binds@.len(), s1),
        },
    }
}

impl TypeChecker {
    /// The message "Variable 'x' not found.".
    pub open spec fn not_found_text(&self, name: Symbol) -> Seq<char> {
        "Variable '"@ + self.session.interner@[name.0 as int] + "' not found."@
    }

    /// What `assign_check` leaves behind.
    pub open spec fn assign_check_done(s0: TypeChecker, name: Symbol, value: TypeId, span: Span, s1: TypeChecker) -> bool {
        &&& s1.expr_step(s0)
        &&& s1.session == s0.session
        &&& reported(s1, s0, match lookup(s0.env@, name) {
                Some(b) => errors_if(!b.is_mutable, seq![diag(DiagnosticCode::ImmutableAssignment,
                        "Cannot mutate immutable variable '"@ + s0.session.interner@[name.0 as int] + "'."@, span)])
                    + errors_if(value != b.ty && value != s0.common.error && b.ty != s0.common.error
                        && b.ty != s0.common.any, seq![diag(DiagnosticCode::TypeMismatch,
                        "Cannot assign type '"@ + s0.text(value) + "' to variable of type '"@ + s0.text(b.ty) + "'."@, span)]),
                None => seq![diag(DiagnosticCode::UnknownIdentifier, s0.not_found_text(name), span)],
            })
    }

    /// Checks an assignment of a value of type `value` to the variable
    /// `name`: the variable must exist, be mutable, and have the value's
    /// type (unless either is the error type or the variable's is `Any`).
    pub fn assign_check(&mut self, name: Symbol, value: TypeId, span: Span)
        requires
            old(self).wf(),
            (name.0 as nat) < old(self).session.interner@.len(),
            (value.0 as int) < old(self).session.types@.len(),
        ensures
            Self::assign_check_done(*old(self), name, value, span, *final(self)),
    {
        let ghost start = *self;
        proof { lemma_lookup_below(self.env@, self.session.types@.len(), name); }
        match self.env.resolve(name) {
            Some(var_type) => {
                if !self.env.is_mutable(name) {
                    let m = self.msg_name("Cannot mutate immutable variable '", name, "'.");
                    self.error(span, DiagnosticCode::ImmutableAssignment, m.as_str());
                }
                let ghost mid = *self;
                let c = self.common;
                if value != var_type && value != c.error && var_type != c.error && var_type != c.any {
                    let m = self.msg2("Cannot assign type '", value, "' to variable of type '", var_type, "'.");
                    self.error(span, DiagnosticCode::TypeMismatch, m.as_str());
                }
                assert(diagnostics_view(self.errors@) =~= diagnostics_view(start.errors@) + match lookup(start.env@, name) {
                    Some(b) => errors_if(!b.is_mutable, seq![diag(DiagnosticCode::ImmutableAssignment,
                            "Cannot mutate immutable variable '"@ + start.session.interner@[name.0 as int] + "'."@, span)])
                        + errors_if(value != b.ty && value != start.common.error && b.ty != start.common.error
                            && b.ty != start.common.any, seq![diag(DiagnosticCode::TypeMismatch,
                            "Cannot assign type '"@ + start.text(value) + "' to variable of type '"@ + start.text(b.ty) + "'."@, span)]),
                    None => Seq::empty(),
                });
            },
            None => {
                let m = self.msg_name("Variable '", name, "' not found.");
                self.error(span, DiagnosticCode::UnknownIdentifier, m.as_str());
                assert(diagnostics_view(self.errors@) =~= diagnostics_view(start.errors@)
                    + seq![diag(DiagnosticCode::UnknownIdentifier, start.not_found_text(name), span)]);
            },
        }
    }

    /// What `self_type` leaves behind.
    pub open spec fn self_type_done(s0: TypeChecker, span: Span, s1: TypeChecker, r: TypeId) -> bool {
        &&& s1.expr_step(s0)
        &&& s1.session == s0.session
        &&& (r.0 as int) < s1.session.types@.len()
        &&& lookup(s0.env@, s0.names.self_name) matches Some(b) ==> r == b.ty && reported(s1, s0, seq![])
        &&& lookup(s0.env@, s0.names.self_name) is None ==> r == s0.common.error
                && reported(s1, s0, seq![diag(DiagnosticCode::TypeMismatch, "Cannot use 'self' outside a class."@, span)])
    }

    /// The type of `self`: the binding of `self` in scope.
    pub fn self_type(&mut self, span: Span) -> (r: TypeId)
        requires
            old(self).wf(),
        ensures
            Self::self_type_done(*old(self), span, *final(self), r),
    {
        proof { lemma_lookup_below(self.env@, self.session.types@.len(), self.names.self_name); }
        match self.env.resolve(self.names.self_name) {
            Some(t) => {
                assert(diagnostics_view(self.errors@) =~= diagnostics_view(self.errors@) + seq![]);
                t
            },
            None => {
                let ghost start = *self;
                self.error(span, DiagnosticCode::TypeMismatch, "Cannot use 'self' outside a class.");
                assert(diagnostics_view(self.errors@) =~= diagnostics_view(start.errors@)
                    + seq![diag(DiagnosticCode::TypeMismatch, "Cannot use 'self' outside a class."@, span)]);
                self.common.error
            },
        }
    }

    /// What `force_unwrap_type` leaves behind.
    pub open spec fn force_unwrap_type_done(s0: TypeChecker, t: TypeId, span: Span, s1: TypeChecker, r: TypeId) -> bool {
        &&& s1.expr_step(s0)
        &&& s1.session == s0.session
        &&& (r.0 as int) < s1.session.types@.len()
        &&& match s0.ty(t) {
                TypeV::Optional(i) => r == i && reported(s1, s0, seq![]),
                TypeV::Null => r == s0.common.error && reported(s1, s0,
                    seq![diag(DiagnosticCode::TypeMismatch, "Cannot force unwrap a null literal."@, span)]),
                TypeV::Error | TypeV::Any => r == t && reported(s1, s0, seq![]),
                _ => r == t && reported(s1, s0, seq![diag(DiagnosticCode::TypeMismatch,
                    "Cannot force unwrap non-optional type '"@ + s0.text(t) + "'."@, span)]),
            }
    }

    /// The type of a force unwrap `e!` whose operand has type `t`.
    pub fn force_unwrap_type(&mut self, t: TypeId, span: Span) -> (r: TypeId)
        requires
            old(self).wf(),
            (t.0 as int) < old(self).session.types@.len(),
        ensures
            Self::force_unwrap_type_done(*old(self), t, span, *final(self), r),
    {
        assert(diagnostics_view(self.errors@) =~= diagnostics_view(self.errors@) + seq![]);
        match self.session.types.get(t) {
            Type::Optional(i) => {
                assert(type_children(self.ty(t))[0] == *i);
                *i
            },
            Type::Null => {
                self.error(span, DiagnosticCode::TypeMismatch, "Cannot force unwrap a null literal.");
                self.common.error
            },
            Type::Error | Type::Any => t,
            _ => {
                let m = self.msg1("Cannot force unwrap non-optional type '", t, "'.");
                self.error(span, DiagnosticCode::TypeMismatch, m.as_str());
                t
            },
        }
    }

    /// What `null_coalesce_check` leaves behind.
    pub open spec fn null_coalesce_check_done(s0: TypeChecker, l: TypeId, r: TypeId, span: Span, s1: TypeChecker) -> bool {
        &&& s1.expr_step(s0)
        &&& s1.session == s0.session
        &&& reported(s1, s0, match s0.ty(l) {
                TypeV::Optional(inner) => errors_if(!(r == inner || r == l || r == s0.common.error || l == s0.common.error),
                    seq![diag(DiagnosticCode::TypeMismatch, "Cannot coalesce type '"@ + s0.text(l) + "' with '"@ + s0.text(r) + "'."@, span)]),
                TypeV::Null | TypeV::Error | TypeV::Any => seq![],
                _ => seq![diag(DiagnosticCode::TypeMismatch,
                    "Left operand of '??' must be an optional type, found '"@ + s0.text(l) + "'."@, span)],
            })
    }

    /// Checks `l ?? r`, whose operands have types `l` and `r`; its type is `r`.
    pub fn null_coalesce_check(&mut self, l: TypeId, r: TypeId, span: Span)
        requires
            old(self).wf(),
            (l.0 as int) < old(self).session.types@.len(),
            (r.0 as int) < old(self).session.types@.len(),
        ensures
            Self::null_coalesce_check_done(*old(self), l, r, span, *final(self)),
    {
        let ghost start = *self;
        let c = self.common;
        match self.session.types.get(l) {
            Type::Optional(inner) => {
                if !(r == *inner || r == l || r == c.error || l == c.error) {
                    let m = self.msg2("Cannot coalesce type '", l, "' with '", r, "'.");
                    self.error(span, DiagnosticCode::TypeMismatch, m.as_str());
                }
            },
            Type::Null | Type::Error | Type::Any => {},
            _ => {
                let m = self.msg1("Left operand of '??' must be an optional type, found '", l, "'.");
                self.error(span, DiagnosticCode::TypeMismatch, m.as_str());
            },
        }
        assert(diagnostics_view(self.errors@) =~= diagnostics_view(start.errors@) + match start.ty(l) {
            TypeV::Optional(inner) => errors_if(!(r == inner || r == l || r == start.common.error || l == start.common.error),
                seq![diag(DiagnosticCode::TypeMismatch, "Cannot coalesce type '"@ + start.text(l) + "' with '"@ + start.text(r) + "'."@, span)]),
            TypeV::Null | TypeV::Error | TypeV::Any => seq![],
            _ => seq![diag(DiagnosticCode::TypeMismatch,
                "Left operand of '??' must be an optional type, found '"@ + start.text(l) + "'."@, span)],
        });
    }

    /// What `null_coalesce_assign_check` leaves behind.
    pub open spec fn null_coalesce_assign_check_done(s0: TypeChecker, l: TypeId, r: TypeId, left_var: Option<Symbol>, span: Span, s1: TypeChecker) -> bool {
        &&& s1.expr_step(s0)
        &&& s1.session == s0.session
        &&& reported(s1, s0, match s0.ty(l) {
                TypeV::Optional(inner) => errors_if(left_var matches Some(n) && !(lookup(s0.env@, n) matches Some(b) && b.is_mutable),
                        seq![diag(DiagnosticCode::ImmutableAssignment,
                        "Cannot mutate immutable variable '"@ + s0.session.interner@[left_var.unwrap().0 as int] + "'."@, span)])
                    + errors_if(!(r == inner || r == l || r == s0.common.error || l == s0.common.error),
                        seq![diag(DiagnosticCode::TypeMismatch, "Cannot assign type '"@ + s0.text(r) + "' to variable of type '"@ + s0.text(l) + "'."@, span)]),
                TypeV::Error | TypeV::Any => seq![],
                _ => seq![diag(DiagnosticCode::TypeMismatch,
                    "Left operand of '??=' must be an optional type, found '"@ + s0.text(l) + "'."@, span)],
            })
    }

    /// Checks `l ??= r`, whose operands have types `l` and `r`; its type is
    /// `l`.  `left_var` is the variable on the left, if it is one.
    pub fn null_coalesce_assign_check(&mut self, l: TypeId, r: TypeId, left_var: Option<Symbol>, span: Span)
        requires
            old(self).wf(),
            (l.0 as int) < old(self).session.types@.len(),
            (r.0 as int) < old(self).session.types@.len(),
            left_var matches Some(n) ==> (n.0 as int) < old(self).session.interner@.len(),
        ensures
            Self::null_coalesce_assign_check_done(*old(self), l, r, left_var, span, *final(self)),
    {
        let ghost start = *self;
        let c = self.common;
        match self.get_type(l) {
            Type::Optional(inner) => {
                match left_var {
                    Some(n) => {
                        if !self.env.is_mutable(n) {
                            let m = self.msg_name("Cannot mutate immutable variable '", n, "'.");
                            self.error(span, DiagnosticCode::ImmutableAssignment, m.as_str());
                        }
                    },
                    None => {},
                }
                if !(r == inner || r == l || r == c.error || l == c.error) {
                    let m = self.msg2("Cannot assign type '", r, "' to variable of type '", l, "'.");
                    self.error(span, DiagnosticCode::TypeMismatch, m.as_str());
                }
            },
            Type::Error | Type::Any => {},
            _ => {
                let m = self.msg1("Left operand of '??=' must be an optional type, found '", l, "'.");
                self.error(span, DiagnosticCode::TypeMismatch, m.as_str());
            },
        }
        assert(diagnostics_view(self.errors@) =~= diagnostics_view(start.errors@) + match start.ty(l) {
            TypeV::Optional(inner) => errors_if(left_var matches Some(n) && !(lookup(start.env@, n) matches Some(b) && b.is_mutable),
                    seq![diag(DiagnosticCode::ImmutableAssignment,
                    "Cannot mutate immutable variable '"@ + start.session.interner@[left_var.unwrap().0 as int] + "'."@, span)])
                + errors_if(!(r == inner || r == l || r == start.common.error || l == start.common.error),
                    seq![diag(DiagnosticCode::TypeMismatch, "Cannot assign type '"@ + start.text(r) + "' to variable of type '"@ + start.text(l) + "'."@, span)]),
            TypeV::Error | TypeV::Any => seq![],
            _ => seq![diag(DiagnosticCode::TypeMismatch,
                "Left operand of '??=' must be an optional type, found '"@ + start.text(l) + "'."@, span)],
        });
    }

    /// What `iterable_item_type` leaves behind.
    pub open spec fn iterable_item_type_done(s0: TypeChecker, t: TypeId, span: Span, s1: TypeChecker, r: TypeId) -> bool {
        &&& s1.expr_step(s0)
        &&& s1.session == s0.session
        &&& (r.0 as int) < s1.session.types@.len()
        &&& match s0.ty(t) {
                TypeV::Range => r == s0.common.int && reported(s1, s0, seq![]),
                TypeV::Array(i) => r == i && reported(s1, s0, seq![]),
                TypeV::Error => r == s0.common.error && reported(s1, s0, seq![]),
                _ => r == s0.common.error && reported(s1, s0, seq![diag(DiagnosticCode::TypeMismatch,
                    "Cannot iterate over non-iterable type '"@ + s0.text(t) + "'."@, span)]),
            }
    }

    /// The type of the items of an iterable of type `t`: `Int` for a range,
    /// the element type for an array.
    pub fn iterable_item_type(&mut self, t: TypeId, span: Span) -> (r: TypeId)
        requires
            old(self).wf(),
            (t.0 as int) < old(self).session.types@.len(),
        ensures
            Self::iterable_item_type_done(*old(self), t, span, *final(self), r),
    {
        assert(diagnostics_view(self.errors@) =~= diagnostics_view(self.errors@) + seq![]);
        match self.session.types.get(t) {
            Type::Range => self.common.int,
            Type::Array(i) => {
                assert(type_children(self.ty(t))[0] == *i);
                *i
            },
            Type::Error => self.common.error,
            _ => {
                let m = self.msg1("Cannot iterate over non-iterable type '", t, "'.");
                self.error(span, DiagnosticCode::TypeMismatch, m.as_str());
                self.common.error
            },
        }
    }

    /// What `expect_int` leaves behind.
    pub open spec fn expect_int_done(s0: TypeChecker, t: TypeId, prefix: &str, span: Span, s1: TypeChecker) -> bool {
        &&& s1.expr_step(s0)
        &&& s1.session == s0.session
        &&& reported(s1, s0, errors_if(t != s0.common.int && t != s0.common.error,
                seq![diag(DiagnosticCode::TypeMismatch, prefix@ + s0.text(t) + "'."@, span)]))
    }

    /// Reports `prefix` + the type + `'.` unless `t` is `Int` or the error
    /// type.
    pub fn expect_int(&mut self, t: TypeId, prefix: &str, span: Span)
        requires
            old(self).wf(),
            (t.0 as int) < old(self).session.types@.len(),
        ensures
            Self::expect_int_done(*old(self), t, prefix, span, *final(self)),
    {
        let ghost start = *self;
        if t != self.common.int && t != self.common.error {
            let m = self.msg1(prefix, t, "'.");
            self.error(span, DiagnosticCode::TypeMismatch, m.as_str());
        }
        assert(diagnostics_view(self.errors@) =~= diagnostics_view(start.errors@) + errors_if(t != start.common.int && t != start.common.error,
            seq![diag(DiagnosticCode::TypeMismatch, prefix@ + start.text(t) + "'."@, span)]));
    }

    /// What `index_get_type` leaves behind.
    pub open spec fn index_get_type_done(s0: TypeChecker, o: TypeId, span: Span, s1: TypeChecker, r: TypeId) -> bool {
        &&& s1.expr_step(s0)
        &&& s1.session == s0.session
        &&& (r.0 as int) < s1.session.types@.len()
        &&& match s0.ty(o) {
                TypeV::Array(i) => r == i && reported(s1, s0, seq![]),
                TypeV::Error => r == s0.common.error && reported(s1, s0, seq![]),
                _ => r == s0.common.error && reported(s1, s0, seq![diag(DiagnosticCode::TypeMismatch,
                    "Cannot index into non-array type '"@ + s0.text(o) + "'."@, span)]),
            }
    }

    /// The type of `o[i]` for an object of type `o`: the element type of an
    /// array.
    pub fn index_get_type(&mut self, o: TypeId, span: Span) -> (r: TypeId)
        requires
            old(self).wf(),
            (o.0 as int) < old(self).session.types@.len(),
        ensures
            Self::index_get_type_done(*old(self), o, span, *final(self), r),
    {
        assert(diagnostics_view(self.errors@) =~= diagnostics_view(self.errors@) + seq![]);
        match self.session.types.get(o) {
            Type::Array(i) => {
                assert(type_children(self.ty(o))[0] == *i);
                *i
            },
            Type::Error => self.common.error,
            _ => {
                let m = self.msg1("Cannot index into non-array type '", o, "'.");
                self.error(span, DiagnosticCode::TypeMismatch, m.as_str());
                self.common.error
            },
        }
    }

    /// What `index_set_check` leaves behind.
    pub open spec fn index_set_check_done(s0: TypeChecker, o: TypeId, v: TypeId, span: Span, s1: TypeChecker) -> bool {
        &&& s1.expr_step(s0)
        &&& s1.session == s0.session
        &&& reported(s1, s0, match s0.ty(o) {
                TypeV::Array(inner) => errors_if(!assignable(s0.session.types@, s0.class_implements@, s0.common, v, inner)
                    && v != s0.common.error && inner != s0.common.error && inner != s0.common.any,
                    seq![diag(DiagnosticCode::TypeMismatch, "Cannot assign type '"@ + s0.text(v) + "' to array element of type '"@
                        + s0.text(inner) + "'."@, span)]),
                TypeV::Error => seq![],
                _ => seq![diag(DiagnosticCode::TypeMismatch, "Cannot index into non-array type '"@ + s0.text(o) + "'."@, span)],
            })
    }

    /// Checks `o[i] = v` for an object of type `o` and a value of type `v`.
    pub fn index_set_check(&mut self, o: TypeId, v: TypeId, span: Span)
        requires
            old(self).wf(),
            (o.0 as int) < old(self).session.types@.len(),
            (v.0 as int) < old(self).session.types@.len(),
        ensures
            Self::index_set_check_done(*old(self), o, v, span, *final(self)),
    {
        let ghost start = *self;
        let c = self.common;
        match self.get_type(o) {
            Type::Array(inner) => {
                assert(type_children(self.ty(o))[0] == inner);
                if !self.is_assignable(v, inner) && v != c.error && inner != c.error && inner != c.any {
                    let m = self.msg2("Cannot assign type '", v, "' to array element of type '", inner, "'.");
                    self.error(span, DiagnosticCode::TypeMismatch, m.as_str());
                }
            },
            Type::Error => {},
            _ => {
                let m = self.msg1("Cannot index into non-array type '", o, "'.");
                self.error(span, DiagnosticCode::TypeMismatch, m.as_str());
            },
        }
        assert(diagnostics_view(self.errors@) =~= diagnostics_view(start.errors@) + match start.ty(o) {
            TypeV::Array(inner) => errors_if(!assignable(start.session.types@, start.class_implements@, start.common, v, inner)
                && v != start.common.error && inner != start.common.error && inner != start.common.any,
                seq![diag(DiagnosticCode::TypeMismatch, "Cannot assign type '"@ + start.text(v) + "' to array element of type '"@
                    + start.text(inner) + "'."@, span)]),
            TypeV::Error => seq![],
            _ => seq![diag(DiagnosticCode::TypeMismatch, "Cannot index into non-array type '"@ + start.text(o) + "'."@, span)],
        });
    }

    /// What `array_element_check` leaves behind.
    pub open spec fn array_element_check_done(s0: TypeChecker, elem: TypeId, next: TypeId, span: Span, s1: TypeChecker) -> bool {
        &&& s1.expr_step(s0)
        &&& s1.session == s0.session
        &&& reported(s1, s0, errors_if(next != elem && next != s0.common.error && elem != s0.common.error,
                seq![diag(DiagnosticCode::TypeMismatch, "Array elements have inconsistent types: expected '"@ + s0.text(elem)
                    + "', found '"@ + s0.text(next) + "'."@, span)]))
    }

    /// Checks that an array element of type `next` has the type `elem` of
    /// the first element.
    pub fn array_element_check(&mut self, elem: TypeId, next: TypeId, span: Span)
        requires
            old(self).wf(),
            (elem.0 as int) < old(self).session.types@.len(),
            (next.0 as int) < old(self).session.types@.len(),
        ensures
            Self::array_element_check_done(*old(self), elem, next, span, *final(self)),
    {
        let ghost start = *self;
        if next != elem && next != self.common.error && elem != self.common.error {
            let m = self.msg2("Array elements have inconsistent types: expected '", elem, "', found '", next, "'.");
            self.error(span, DiagnosticCode::TypeMismatch, m.as_str());
        }
        assert(diagnostics_view(self.errors@) =~= diagnostics_view(start.errors@) + errors_if(next != elem && next != start.common.error
            && elem != start.common.error, seq![diag(DiagnosticCode::TypeMismatch, "Array elements have inconsistent types: expected '"@
                + start.text(elem) + "', found '"@ + start.text(next) + "'."@, span)]));
    }

    /// What `interpolation_check` leaves behind.
    pub open spec fn interpolation_check_done(s0: TypeChecker, t: TypeId, span: Span, s1: TypeChecker) -> bool {
        &&& s1.expr_step(s0)
        &&& s1.session == s0.session
        &&& reported(s1, s0, errors_if(!(s0.ty(t) is Int || s0.ty(t) is Float || s0.ty(t) is String
                || s0.ty(t) is Boolean || s0.ty(t) is Error),
                seq![diag(DiagnosticCode::TypeMismatch, "Cannot interpolate type '"@ + s0.text(t)
                    + "'. Only Int, Float, String, and Boolean are supported."@, span)]))
    }

    /// Checks that a piece of an interpolated string can be shown.
    pub fn interpolation_check(&mut self, t: TypeId, span: Span)
        requires
            old(self).wf(),
            (t.0 as int) < old(self).session.types@.len(),
        ensures
            Self::interpolation_check_done(*old(self), t, span, *final(self)),
    {
        let ghost start = *self;
        match self.session.types.get(t) {
            Type::Int | Type::Float | Type::String | Type::Boolean | Type::Error => {},
            _ => {
                let m = self.msg1("Cannot interpolate type '", t, "'. Only Int, Float, String, and Boolean are supported.");
                self.error(span, DiagnosticCode::TypeMismatch, m.as_str());
            },
        }
        assert(diagnostics_view(self.errors@) =~= diagnostics_view(start.errors@) + errors_if(!(start.ty(t) is Int || start.ty(t) is Float
            || start.ty(t) is String || start.ty(t) is Boolean || start.ty(t) is Error),
            seq![diag(DiagnosticCode::TypeMismatch, "Cannot interpolate type '"@ + start.text(t)
                + "'. Only Int, Float, String, and Boolean are supported."@, span)]));
    }

    /// What `range_check` leaves behind.
    pub open spec fn range_check_done(s0: TypeChecker, s: TypeId, e: TypeId, span: Span, s1: TypeChecker) -> bool {
        &&& s1.expr_step(s0)
        &&& s1.session == s0.session
        &&& reported(s1, s0, errors_if(s != s0.common.int || e != s0.common.int,
                seq![diag(DiagnosticCode::TypeMismatch, "Range bounds must be integers."@, span)]))
    }

    /// Checks that both bounds of a range are `Int`.
    pub fn range_check(&mut self, s: TypeId, e: TypeId, span: Span)
        requires
            old(self).wf(),
        ensures
            Self::range_check_done(*old(self), s, e, span, *final(self)),
    {
        let ghost start = *self;
        if s != self.common.int || e != self.common.int {
            self.error(span, DiagnosticCode::TypeMismatch, "Range bounds must be integers.");
        }
        assert(diagnostics_view(self.errors@) =~= diagnostics_view(start.errors@) + errors_if(s != start.common.int || e != start.common.int,
            seq![diag(DiagnosticCode::TypeMismatch, "Range bounds must be integers."@, span)]));
    }

    /// What `match_join` leaves behind.
    pub open spec fn match_join_done(s0: TypeChecker, common: Option<TypeId>, body: TypeId, span: Span, s1: TypeChecker, r: Option<TypeId>) -> bool {
        &&& s1.expr_step(s0)
        &&& s1.session == s0.session
        &&& r matches Some(t) && (t.0 as int) < s1.session.types@.len()
        &&& ({
                let a = |x: TypeId, y: TypeId| assignable(s0.session.types@, s0.class_implements@, s0.common, x, y);
                let err = s0.common.error;
                match common {
                    None => r == Some(body) && reported(s1, s0, seq![]),
                    Some(c) => if !a(body, c) && body != err && c != err {
                        if a(c, body) {
                            r == Some(body) && reported(s1, s0, seq![])
                        } else {
                            r == Some(c) && reported(s1, s0, seq![diag(DiagnosticCode::TypeMismatch,
                                "Match arms have incompatible return types. Expected '"@ + s0.text(c) + "', found '"@
                                + s0.text(body) + "'."@, span)])
                        }
                    } else {
                        r == Some(c) && reported(s1, s0, seq![])
                    },
                }
            })
    }

    /// The common type of the match arms so far, `common`, joined with the
    /// type `body` of the next arm: the first arm sets it, a wider arm
    /// replaces it, an incompatible one is reported.
    pub fn match_join(&mut self, common: Option<TypeId>, body: TypeId, span: Span) -> (r: Option<TypeId>)
        requires
            old(self).wf(),
            (body.0 as int) < old(self).session.types@.len(),
            common matches Some(c) ==> (c.0 as int) < old(self).session.types@.len(),
        ensures
            Self::match_join_done(*old(self), common, body, span, *final(self), r),
    {
        assert(diagnostics_view(self.errors@) =~= diagnostics_view(self.errors@) + seq![]);
        match common {
            None => Some(body),
            Some(c) => {
                let err = self.common.error;
                if !self.is_assignable(body, c) && body != err && c != err {
                    if self.is_assignable(c, body) {
                        Some(body)
                    } else {
                        let m = self.msg2("Match arms have incompatible return types. Expected '", c, "', found '", body, "'.");
                        self.error(span, DiagnosticCode::TypeMismatch, m.as_str());
                        Some(c)
                    }
                } else {
                    Some(c)
                }
            },
        }
    }

    /// The message `a` + the name `p` + `b` + the name `owner` + `'.`.
    pub open spec fn names_text(&self, a: Seq<char>, p: Symbol, b: Seq<char>, owner: Symbol) -> Seq<char> {
        a + self.session.interner@[p.0 as int] + b + self.session.interner@[owner.0 as int] + "'."@
    }

    /// `a` + the name `p` + `b` + the name `owner` + `'.`.
    pub(crate) fn msg_names(&self, a: &str, p: Symbol, b: &str, owner: Symbol) -> (m: String)
        requires
            self.wf(),
            (p.0 as int) < self.session.interner@.len(),
            (owner.0 as int) < self.session.interner@.len(),
        ensures
            m@ == self.names_text(a@, p, b@, owner),
    {
        let mut m = self.msg_name(a, p, b);
        m.append(self.session.interner.lookup(owner));
        m.append("'.");
        assert(m@ =~= self.names_text(a@, p, b@, owner));
        m
    }

    /// What `optional_get_type` leaves behind.
    pub open spec fn optional_get_type_done(s0: TypeChecker, o: TypeId, p: Symbol, span: Span, s1: TypeChecker, r: TypeId) -> bool {
        &&& s1.expr_step(s0)
        &&& (r.0 as int) < s1.session.types@.len()
        &&& match s0.ty(o) {
                TypeV::Optional(inner) => match s0.ty(inner) {
                    TypeV::Instance(cn) => match assoc(s0.classes@, cn) {
                        Some(fields) => match assoc(fields@, p) {
                            Some(ft) => (s1.room() ==> s1.ty(r) == TypeV::Optional(ft))
                                && reported(s1, s0, seq![]),
                            None => r == s0.common.error && reported(s1, s0,
                                seq![diag(DiagnosticCode::UnknownIdentifier, s0.names_text("Property '"@, p, "' not found on '"@, cn), span)]),
                        },
                        None => r == s0.common.error && reported(s1, s0, seq![]),
                    },
                    _ => r == s0.common.error && reported(s1, s0, seq![diag(DiagnosticCode::TypeMismatch,
                        "Cannot access property on non-instance optional type '"@ + s0.text(inner) + "'."@, span)]),
                },
                TypeV::Error | TypeV::Any => r == o && reported(s1, s0, seq![]),
                _ => r == s0.common.error && reported(s1, s0, seq![diag(DiagnosticCode::TypeMismatch,
                    "Optional chaining '?.' requires an optional type, found '"@ + s0.text(o) + "'."@, span)]),
            }
    }

    /// The type of `o?.p` for an object of type `o`: the optional of the
    /// field's type, for an optional class instance.
    pub fn optional_get_type(&mut self, o: TypeId, p: Symbol, span: Span) -> (r: TypeId)
        requires
            old(self).wf(),
            (o.0 as int) < old(self).session.types@.len(),
            (p.0 as int) < old(self).session.interner@.len(),
        ensures
            Self::optional_get_type_done(*old(self), o, p, span, *final(self), r),
    {
        let ghost start = *self;
        assert(diagnostics_view(self.errors@) =~= diagnostics_view(self.errors@) + seq![]);
        match self.get_type(o) {
            Type::Optional(inner) => {
                assert(type_children(self.ty(o))[0] == inner);
                match self.get_type(inner) {
                    Type::Instance(cn) => {
                        assert(type_symbols(self.ty(inner))[0] == cn);
                        match find_last(&self.classes, cn) {
                            Some(i) => match find_last(&self.classes[i].1, p) {
                                Some(j) => {
                                    let ft = self.classes[i].1[j].1;
                                    proof { lemma_member_below(self.classes@, self.session.types@.len(), cn, p); }
                                    self.intern_type(Type::Optional(ft))
                                },
                                None => {
                                    let m = self.msg_names("Property '", p, "' not found on '", cn);
                                    self.error(span, DiagnosticCode::UnknownIdentifier, m.as_str());
                                    self.common.error
                                },
                            },
                            None => self.common.error,
                        }
                    },
                    _ => {
                        let m = self.msg1("Cannot access property on non-instance optional type '", inner, "'.");
                        self.error(span, DiagnosticCode::TypeMismatch, m.as_str());
                        self.common.error
                    },
                }
            },
            Type::Error | Type::Any => o,
            _ => {
                let m = self.msg1("Optional chaining '?.' requires an optional type, found '", o, "'.");
                self.error(span, DiagnosticCode::TypeMismatch, m.as_str());
                self.common.error
            },
        }
    }

    /// The type of member `pt` of class `owner` seen through an instance
    /// with type arguments `args`: when `owner` is a generic class in scope,
    /// its type parameters are replaced by the arguments.
    pub fn resolve_member_type(&mut self, owner: Symbol, pt: TypeId, args: &Vec<TypeId>) -> (r: TypeId)
        requires
            old(self).wf(),
            (pt.0 as int) < old(self).session.types@.len(),
            forall|k: int| 0 <= k < args@.len() ==> ((#[trigger] args@[k]).0 as int) < old(self).session.types@.len(),
        ensures
            final(self).expr_step(*old(self)),
            final(self).errors == old(self).errors,
            (r.0 as int) < final(self).session.types@.len(),
            !(lookup(old(self).env@, owner) matches Some(b) && old(self).ty(b.ty) is Class) ==> r == pt,
            args@.len() == 0 ==> r == pt && final(self).session == old(self).session,
            member_resolved(*old(self), owner, pt, args@, *final(self), r),
    {
        if args.len() == 0 {
            return pt;
        }
        proof { lemma_lookup_below(self.env@, self.session.types@.len(), owner); }
        match self.env.resolve(owner) {
            Some(id) => match self.get_type(id) {
                Type::Class(_, params) => {
                    let map = zip_map(&params, args);
                    assert(map@ =~= zipped(params@, args@));
                    self.substitute_generics(pt, &map)
                },
                _ => pt,
            },
            None => pt,
        }
    }

    /// What `get_property_type` leaves behind.
    pub open spec fn get_property_type_done(s0: TypeChecker, o: TypeId, p: Symbol, span: Span, s1: TypeChecker, r: TypeId) -> bool {
        &&& s1.expr_step(s0)
        &&& (r.0 as int) < s1.session.types@.len()
        &&& match property_owner(s0.ty(o), true) {
                None => r == s0.common.error && reported(s1, s0, errors_if(o != s0.common.error,
                    seq![diag(DiagnosticCode::TypeMismatch, "Cannot get property '"@ + s0.session.interner@[p.0 as int]
                        + "' on non-instance type '"@ + s0.text(o) + "'."@, span)])),
                Some((n, args)) => if assoc(s0.classes@, n) is Some {
                    match member(s0.classes@, n, p) {
                        Some(pt) => reported(s1, s0, seq![]) && member_resolved(s0, n, pt, args, s1, r),
                        None => r == s0.common.error && reported(s1, s0, seq![diag(DiagnosticCode::UnknownType,
                            s0.names_text("Property '"@, p, "' not found on class '"@, n), span)]),
                    }
                } else if assoc(s0.interfaces@, n) is Some {
                    match member(s0.interfaces@, n, p) {
                        Some(pt) => r == pt && reported(s1, s0, seq![]),
                        None => r == s0.common.error && reported(s1, s0, seq![diag(DiagnosticCode::UnknownType,
                            s0.names_text("Property '"@, p, "' not found on interface '"@, n), span)]),
                    }
                } else if assoc(s0.enums@, n) is Some {
                    match member(s0.enums@, n, p) {
                        Some(vt) => reported(s1, s0, seq![])
                            && r == unit_variant_type(s0.ty(vt), vt),
                        None => r == s0.common.error && reported(s1, s0, seq![diag(DiagnosticCode::UnknownType,
                            s0.names_text("Variant '"@, p, "' not found in enum '"@, n), span)]),
                    }
                } else {
                    r == s0.common.error && reported(s1, s0, seq![diag(DiagnosticCode::UnknownType,
                        "Type '"@ + s0.session.interner@[n.0 as int] + "' not found."@, span)])
                },
            }
    }

    /// The type of `o.p` for an object of type `o`: a field or method of a
    /// class (its type parameters replaced by the instance's arguments), a
    /// method of an interface, or a variant of an enum (a variant without
    /// fields has the enum's type).
    pub fn get_property_type(&mut self, o: TypeId, p: Symbol, span: Span) -> (r: TypeId)
        requires
            old(self).wf(),
            (o.0 as int) < old(self).session.types@.len(),
            (p.0 as int) < old(self).session.interner@.len(),
        ensures
            Self::get_property_type_done(*old(self), o, p, span, *final(self), r),
    {
        let ghost start = *self;
        assert(diagnostics_view(self.errors@) =~= diagnostics_view(self.errors@) + seq![]);
        let ot = self.get_type(o);
        proof {
            assert(forall|k: int| 0 <= k < type_children(ot@).len() ==> ((#[trigger] type_children(ot@)[k]).0 as int) < self.session.types@.len());
            assert(forall|k: int| 0 <= k < type_symbols(ot@).len() ==> ((#[trigger] type_symbols(ot@)[k]).0 as int) < self.session.interner@.len());
        }
        let (n, args): (Symbol, Vec<TypeId>) = match ot {
            Type::Instance(n) => { assert(type_symbols(ot@)[0] == n); (n, Vec::new()) },
            Type::GenericInstance(n, args) => {
                assert(type_symbols(ot@)[0] == n);
                assert(forall|k: int| 0 <= k < args@.len() ==> type_children(ot@)[k] == #[trigger] args@[k]);
                (n, args)
            },
            Type::Interface(n) => { assert(type_symbols(ot@)[0] == n); (n, Vec::new()) },
            Type::Enum(n, _) => { assert(type_symbols(ot@)[0] == n); (n, Vec::new()) },
            _ => {
                if o != self.common.error {
                    let mut m = self.msg_name("Cannot get property '", p, "' on non-instance type '");
                    m.append(self.fmt(o).as_str());
                    m.append("'.");
                    self.error(span, DiagnosticCode::TypeMismatch, m.as_str());
                }
                assert(diagnostics_view(self.errors@) =~= diagnostics_view(start.errors@) + errors_if(o != start.common.error,
                    seq![diag(DiagnosticCode::TypeMismatch, "Cannot get property '"@ + start.session.interner@[p.0 as int]
                        + "' on non-instance type '"@ + start.text(o) + "'."@, span)]));
                return self.common.error;
            },
        };
        assert(property_owner(start.ty(o), true) == Some((n, args@)));
        proof {
            lemma_member_below(self.classes@, self.session.types@.len(), n, p);
            lemma_member_below(self.interfaces@, self.session.types@.len(), n, p);
            lemma_member_below(self.enums@, self.session.types@.len(), n, p);
        }
        if find_last(&self.classes, n).is_some() {
            match member_of(&self.classes, n, p) {
                Some(pt) => self.resolve_member_type(n, pt, &args),
                None => {
                    let m = self.msg_names("Property '", p, "' not found on class '", n);
                    self.error(span, DiagnosticCode::UnknownType, m.as_str());
                    self.common.error
                },
            }
        } else if find_last(&self.interfaces, n).is_some() {
            match member_of(&self.interfaces, n, p) {
                Some(pt) => pt,
                None => {
                    let m = self.msg_names("Property '", p, "' not found on interface '", n);
                    self.error(span, DiagnosticCode::UnknownType, m.as_str());
                    self.common.error
                },
            }
        } else if find_last(&self.enums, n).is_some() {
            match member_of(&self.enums, n, p) {
                Some(vt) => {
                    let resolved = match self.get_type(o) {
                        Type::Enum(_, params) => {
                            let map = zip_map(&params, &args);
                            if map.len() == 0 {
                                vt
                            } else {
                                self.substitute_generics(vt, &map)
                            }
                        },
                        _ => vt,
                    };
                    let rt = self.get_type(resolved);
                    match rt {
                        Type::EnumVariantConstructor(_, _, _, params, ret) => {
                            if params.len() == 0 {
                                assert(type_children(rt@)[params@.len() as int] == ret);
                                ret
                            } else {
                                resolved
                            }
                        },
                        _ => resolved,
                    }
                },
                None => {
                    let m = self.msg_names("Variant '", p, "' not found in enum '", n);
                    self.error(span, DiagnosticCode::UnknownType, m.as_str());
                    self.common.error
                },
            }
        } else {
            let m = self.msg_name("Type '", n, "' not found.");
            self.error(span, DiagnosticCode::UnknownType, m.as_str());
            self.common.error
        }
    }

    /// What `set_property_check` leaves behind.
    pub open spec fn set_property_check_done(s0: TypeChecker, o: TypeId, p: Symbol, v: TypeId, span: Span, s1: TypeChecker) -> bool {
        &&& s1.expr_step(s0)
        &&& match property_owner(s0.ty(o), false) {
                None => reported(s1, s0, errors_if(o != s0.common.error,
                    seq![diag(DiagnosticCode::TypeMismatch, "Cannot set property '"@ + s0.session.interner@[p.0 as int]
                        + "' on non-instance type '"@ + s0.text(o) + "'."@, span)])),
                Some((n, args)) => if assoc(s0.classes@, n) is Some {
                    match member(s0.classes@, n, p) {
                        Some(pt) => exists|m: TypeChecker, rt: TypeId| #[trigger] picked((m, rt))
                            && member_resolved(s0, n, pt, args, m, rt)
                            && s1.session == m.session
                            && reported(s1, m,
                            errors_if(member(m.class_mutables@, n, p) == Some(false), seq![diag(DiagnosticCode::ImmutableAssignment,
                                "Cannot mutate immutable property '"@ + m.session.interner@[p.0 as int] + "'."@, span)])
                            + errors_if(!assignable(m.session.types@, m.class_implements@, m.common, v, rt)
                                && v != m.common.error && rt != m.common.error && rt != m.common.any,
                                seq![diag(DiagnosticCode::TypeMismatch, "Cannot assign type '"@ + m.text(v)
                                    + "' to property of type '"@ + m.text(rt) + "'."@, span)])),
                        None => reported(s1, s0, seq![diag(DiagnosticCode::UnknownType,
                            s0.names_text("Property '"@, p, "' not found on class '"@, n), span)]),
                    }
                } else {
                    reported(s1, s0, seq![])
                },
            }
    }

    /// Checks `o.p = v` for an object of type `o` and a value of type `v`:
    /// the class must have the property, it must be mutable, and the value
    /// must fit it.
    pub fn set_property_check(&mut self, o: TypeId, p: Symbol, v: TypeId, span: Span)
        requires
            old(self).wf(),
            (o.0 as int) < old(self).session.types@.len(),
            (v.0 as int) < old(self).session.types@.len(),
            (p.0 as int) < old(self).session.interner@.len(),
        ensures
            Self::set_property_check_done(*old(self), o, p, v, span, *final(self)),
    {
        let ghost start = *self;
        assert(diagnostics_view(self.errors@) =~= diagnostics_view(self.errors@) + seq![]);
        let ot = self.get_type(o);
        proof {
            assert(forall|k: int| 0 <= k < type_children(ot@).len() ==> ((#[trigger] type_children(ot@)[k]).0 as int) < self.session.types@.len());
            assert(forall|k: int| 0 <= k < type_symbols(ot@).len() ==> ((#[trigger] type_symbols(ot@)[k]).0 as int) < self.session.interner@.len());
        }
        let (n, args): (Symbol, Vec<TypeId>) = match ot {
            Type::Instance(n) => { assert(type_symbols(ot@)[0] == n); (n, Vec::new()) },
            Type::GenericInstance(n, args) => {
                assert(type_symbols(ot@)[0] == n);
                assert(forall|k: int| 0 <= k < args@.len() ==> type_children(ot@)[k] == #[trigger] args@[k]);
                (n, args)
            },
            Type::Interface(n) => { assert(type_symbols(ot@)[0] == n); (n, Vec::new()) },
            _ => {
                if o != self.common.error {
                    let mut m = self.msg_name("Cannot set property '", p, "' on non-instance type '");
                    m.append(self.fmt(o).as_str());
                    m.append("'.");
                    self.error(span, DiagnosticCode::TypeMismatch, m.as_str());
                }
                assert(diagnostics_view(self.errors@) =~= diagnostics_view(start.errors@) + errors_if(o != start.common.error,
                    seq![diag(DiagnosticCode::TypeMismatch, "Cannot set property '"@ + start.session.interner@[p.0 as int]
                        + "' on non-instance type '"@ + start.text(o) + "'."@, span)]));
                return;
            },
        };
        assert(property_owner(start.ty(o), false) == Some((n, args@)));
        proof { lemma_member_below(self.classes@, self.session.types@.len(), n, p); }
        if find_last(&self.classes, n).is_some() {
            match member_of(&self.classes, n, p) {
                Some(pt) => {
                    let resolved = self.resolve_member_type(n, pt, &args);
                    let ghost mid = *self;
                    match member_of(&self.class_mutables, n, p) {
                        Some(is_mut) => {
                            if !is_mut {
                                let m = self.msg_name("Cannot mutate immutable property '", p, "'.");
                                self.error(span, DiagnosticCode::ImmutableAssignment, m.as_str());
                            }
                        },
                        None => {},
                    }
                    let c = self.common;
                    if !self.is_assignable(v, resolved) && v != c.error && resolved != c.error && resolved != c.any {
                        let m = self.msg2("Cannot assign type '", v, "' to property of type '", resolved, "'.");
                        self.error(span, DiagnosticCode::TypeMismatch, m.as_str());
                    }
                    proof {
                        assert(diagnostics_view(self.errors@) =~= diagnostics_view(mid.errors@)
                            + (errors_if(member(mid.class_mutables@, n, p) == Some(false), seq![diag(DiagnosticCode::ImmutableAssignment,
                                "Cannot mutate immutable property '"@ + mid.session.interner@[p.0 as int] + "'."@, span)])
                            + errors_if(!assignable(mid.session.types@, mid.class_implements@, mid.common, v, resolved)
                                && v != mid.common.error && resolved != mid.common.error && resolved != mid.common.any,
                                seq![diag(DiagnosticCode::TypeMismatch, "Cannot assign type '"@ + mid.text(v)
                                    + "' to property of type '"@ + mid.text(resolved) + "'."@, span)])));
                        assert(picked((mid, resolved)));
                    }
                },
                None => {
                    let m = self.msg_names("Property '", p, "' not found on class '", n);
                    self.error(span, DiagnosticCode::UnknownType, m.as_str());
                    assert(diagnostics_view(self.errors@) =~= diagnostics_view(start.errors@) + seq![diag(DiagnosticCode::UnknownType,
                        start.names_text("Property '"@, p, "' not found on class '"@, n), span)]);
                },
            }
        } else {
            assert(diagnostics_view(self.errors@) =~= diagnostics_view(start.errors@) + seq![]);
        }
    }

    /// Declares each type parameter as its generic type in the innermost
    /// scope.
    pub fn declare_type_params(&mut self, tps: &Vec<Symbol>)
        requires
            old(self).wf(),
            symbols_below(old(self).names_bound@, tps@),
        ensures
            final(self).grows_from(*old(self)),
            final(self).errors == old(self).errors,
            final(self).env@.drop_last() == old(self).env@.drop_last(),
            final(self).env@.last().len() == old(self).env@.last().len() + tps@.len(),
            forall|k: int| 0 <= k < old(self).env@.last().len() ==> final(self).env@.last()[k] == #[trigger] old(self).env@.last()[k],
            forall|k: int| 0 <= k < tps@.len() ==> (#[trigger] final(self).env@.last()[old(self).env@.last().len() + k]).0 == tps@[k],
            final(self).current_return_type == old(self).current_return_type,
            final(self).classes == old(self).classes,
            final(self).class_mutables == old(self).class_mutables,
            final(self).interfaces == old(self).interfaces,
            final(self).enums == old(self).enums,
            final(self).class_implements == old(self).class_implements,
            final(self).current_class == old(self).current_class,
            final(self).uninitialized_class_properties == old(self).uninitialized_class_properties,
            final(self).generic_classes == old(self).generic_classes,
            final(self).generic_functions == old(self).generic_functions,
            final(self).is_checking_method == old(self).is_checking_method,
            tparams_declared(*old(self), tps@, tps@.len(), *final(self)),
    {
        let ghost start = *self;
        let mut i: usize = 0;
        while i < tps.len()
            invariant
                self.grows_from(start),
                self.errors == start.errors,
                symbols_below(start.names_bound@, tps@),
                i <= tps@.len(),
                self.env@.drop_last() == start.env@.drop_last(),
                self.env@.last().len() == start.env@.last().len() + i,
                forall|k: int| 0 <= k < start.env@.last().len() ==> self.env@.last()[k] == #[trigger] start.env@.last()[k],
                forall|k: int| 0 <= k < i ==> (#[trigger] self.env@.last()[start.env@.last().len() + k]).0 == tps@[k],
                self.current_return_type == start.current_return_type,
                self.classes == start.classes,
                self.class_mutables == start.class_mutables,
                self.interfaces == start.interfaces,
                self.enums == start.enums,
                self.class_implements == start.class_implements,
                self.current_class == start.current_class,
                self.uninitialized_class_properties == start.uninitialized_class_properties,
                self.generic_classes == start.generic_classes,
                self.generic_functions == start.generic_functions,
                self.is_checking_method == start.is_checking_method,
                tparams_declared(start, tps@, i as nat, *self),
            decreases tps@.len() - i,
        {
            let tp = tps[i];
            assert(symbols_below(start.names_bound@, tps@));
            assert((tps@[i as int].0 as nat) < start.names_bound@);
            let ghost m = *self;
            let g = self.intern_type(Type::Generic(tp));
            let ghost ma = *self;
            let ghost before = self.env@;
            self.env.declare(tp, g);
            proof {
                assert(interned_done(m, TypeV::Generic(tps@[i as int]), ma, g));
                assert(with_env(ma, with_declaration(ma.env@, tp, Binding { ty: g, is_mutable: false }), *self));
                assert(picked((m, ma, g)));
                assert(tparams_declared(start, tps@, (i + 1) as nat, *self));
                let after = self.env@;
                assert(after.drop_last() =~= before.drop_last());
                assert(after.last() == before.last().push((tp, Binding { ty: g, is_mutable: false })));
                assert forall|a: int, b: int| 0 <= a < after.len() && 0 <= b < after[a].len()
                    implies ((#[trigger] after[a][b]).1.ty.0 as nat) < self.session.types@.len() by {
                    if a < after.len() - 1 {
                        assert(after[a] == before[a]);
                    } else if b < before.last().len() {
                        assert(after[a][b] == before[a][b]);
                    }
                }
            }
            i = i + 1;
        }
    }

    /// What `variable_type` leaves behind.
    pub open spec fn variable_type_done(s0: TypeChecker, name: Symbol, span: Span, s1: TypeChecker, r: TypeId) -> bool {
        &&& s1.expr_step(s0)
        &&& (r.0 as int) < s1.session.types@.len()
        &&& lookup(s0.env@, name) matches Some(b) ==> r == b.ty && s1.session == s0.session
                && reported(s1, s0, seq![])
        &&& lookup(s0.env@, name) is None ==> match assoc(s0.generic_classes@, name) {
                Some(gc) => interned_done(s0, TypeV::Class(name, gc.type_params@), s1, r),
                None => match assoc(s0.generic_functions@, name) {
                    Some(gf) => generic_fn_type(s0, gf, span, s1, r),
                    None => r == s0.common.error && reported(s1, s0,
                        seq![diag(DiagnosticCode::UnknownIdentifier, s0.not_found_text(name), span)]),
                },
            }
    }

    /// The type of the variable `name`: its binding in scope, or a generic
    /// class or function kept for later use; an unknown name is reported.
    pub fn variable_type(&mut self, name: Symbol, span: Span) -> (r: TypeId)
        requires
            old(self).wf(),
            (name.0 as nat) < old(self).names_bound@,
        ensures
            Self::variable_type_done(*old(self), name, span, *final(self), r),
    {
        let ghost start = *self;
        assert(diagnostics_view(self.errors@) =~= diagnostics_view(self.errors@) + seq![]);
        proof { lemma_lookup_below(self.env@, self.session.types@.len(), name); }
        match self.env.resolve(name) {
            Some(t) => return t,
            None => {},
        }
        match find_last(&self.generic_classes, name) {
            Some(i) => {
                let tps = copy_symbols(&self.generic_classes[i].1.type_params);
                proof {
                    assert(generic_classes_interned(self.names_bound@, self.generic_classes@));
                    assert(symbols_below(self.names_bound@, self.generic_classes@[i as int].1.type_params@));
                    assert forall|k: int| 0 <= k < tps@.len() implies ((#[trigger] tps@[k]).0 as int) < self.session.interner@.len() by {
                        assert(tps@[k] == self.generic_classes@[i as int].1.type_params@[k]);
                    }
                }
                let ghost tv = tps@;
                let r = self.intern_type(Type::Class(name, tps));
                assert(interned_done(start, TypeV::Class(name, tv), *self, r));
                return r;
            },
            None => {},
        }
        match find_last(&self.generic_functions, name) {
            Some(i) => {
                let tps = copy_symbols(&self.generic_functions[i].1.type_params);
                let params = copy_type_exprs(&self.generic_functions[i].1.params);
                let ret_expr: Option<TypeExpr> = match &self.generic_functions[i].1.return_type {
                    Some(t) => Some(t.copy()),
                    None => None,
                };
                proof {
                    assert(generic_functions_interned(self.names_bound@, self.generic_functions@));
                    let gf = self.generic_functions@[i as int].1;
                    assert(symbols_below(self.names_bound@, gf.type_params@));
                    assert(tps@ == gf.type_params@);
                    lemma_type_exprs_interned(self.names_bound@, params@);
                }
                let ghost before = self.env@;
                self.env.push_scope();
                let ghost ma = *self;
                assert(with_env(start, start.env@.push(Seq::empty()), ma));
                self.declare_type_params(&tps);
                let mut ps: Vec<TypeId> = Vec::new();
                let mut k: usize = 0;
                let ghost pushed = *self;
                while k < params.len()
                    invariant
                        self.expr_step(pushed),
                        k <= params@.len(),
                        ps@.len() == k,
                        forall|j: int| 0 <= j < params@.len() ==> #[trigger] type_expr_interned(self.names_bound@, params@[j]),
                        forall|j: int| 0 <= j < ps@.len() ==> ((#[trigger] ps@[j]).0 as int) < self.session.types@.len(),
                        types_parsed(pushed, params@.take(k as int), span, *self, ps@),
                    decreases params@.len() - k,
                {
                    let ghost m = *self;
                    let ghost ts0 = ps@;
                    let t = self.parse_type(&params[k], span);
                    ps.push(t);
                    proof {
                        let p = params@.take(k + 1);
                        assert(p.drop_last() =~= params@.take(k as int));
                        assert(p.last() == params@[k as int]);
                        assert(picked((m, ts0, t)));
                        assert(types_parsed(pushed, p, span, *self, ps@));
                    }
                    k = k + 1;
                }
                assert(params@.take(params@.len() as int) =~= params@);
                let ghost mc = *self;
                let ret = match &ret_expr {
                    Some(t) => self.parse_type(t, span),
                    None => self.common.void,
                };
                let ghost md = *self;
                self.env.pop_scope();
                let ghost me = *self;
                assert(with_env(md, md.env@.drop_last(), me));
                assert(self.env@ =~= before);
                let ghost psv = ps@;
                let ghost tv = tps@;
                let r = self.intern_type(Type::Function(tps, ps, ret));
                assert(interned_done(me, TypeV::Function(tv, psv, ret), *self, r));
                assert(picked((params@, ret_expr, ma, pushed, mc, psv, md, ret, me)));
                return r;
            },
            None => {},
        }
        let m = self.msg_name("Variable '", name, "' not found.");
        self.error(span, DiagnosticCode::UnknownIdentifier, m.as_str());
        assert(diagnostics_view(self.errors@) =~= diagnostics_view(start.errors@)
            + seq![diag(DiagnosticCode::UnknownIdentifier, start.not_found_text(name), span)]);
        self.common.error
    }

    /// What `declare_match_bindings` leaves behind.
    pub open spec fn declare_match_bindings_done(s0: TypeChecker, value: TypeId, pattern: Pattern, s1: TypeChecker) -> bool {
        &&& s1.grows_from(s0)
        &&& s1.errors == s0.errors
        &&& s1.env@.drop_last() == s0.env@.drop_last()
        &&& s1.env@.last().len() >= s0.env@.last().len()
        &&& forall|k: int| 0 <= k < s0.env@.last().len() ==> s1.env@.last()[k] == #[trigger] s0.env@.last()[k]
        &&& pattern is Wildcard ==> s1.env@ == s0.env@
        &&& bindings_declared(s0, value, pattern, s1)
        &&& s1.current_return_type == s0.current_return_type
        &&& s1.classes == s0.classes
        &&& s1.class_mutables == s0.class_mutables
        &&& s1.interfaces == s0.interfaces
        &&& s1.enums == s0.enums
        &&& s1.class_implements == s0.class_implements
        &&& s1.current_class == s0.current_class
        &&& s1.uninitialized_class_properties == s0.uninitialized_class_properties
        &&& s1.generic_classes == s0.generic_classes
        &&& s1.generic_functions == s0.generic_functions
        &&& s1.is_checking_method == s0.is_checking_method
    }

    /// Declares the bindings of a match pattern in the innermost scope: each
    /// binding other than `_` gets the type of the matching field of the
    /// variant (with the value's type arguments put in), or `Any`.
    pub fn declare_match_bindings(&mut self, value: TypeId, pattern: &Pattern)
        requires
            old(self).wf(),
            (value.0 as int) < old(self).session.types@.len(),
            pattern_interned(old(self).names_bound@, *pattern),
        ensures
            Self::declare_match_bindings_done(*old(self), value, *pattern, *final(self)),
    {
        let ghost start = *self;
        let (path, binds) = match pattern {
            Pattern::Wildcard => return,
            Pattern::Variant { path, bindings } => match bindings {
                Some(b) => (path, b),
                None => return,
            },
        };
        let mut extracted: Vec<TypeId> = Vec::new();
        let vt = self.get_type(value);
        proof {
            assert(forall|k: int| 0 <= k < type_children(vt@).len() ==> ((#[trigger] type_children(vt@)[k]).0 as int) < self.session.types@.len());
        }
        let (enum_name, type_args): (Option<Symbol>, Vec<TypeId>) = match vt {
            Type::GenericInstance(n, args) => {
                assert(forall|k: int| 0 <= k < args@.len() ==> type_children(vt@)[k] == #[trigger] args@[k]);
                (Some(n), args)
            },
            Type::Instance(n) => (Some(n), Vec::new()),
            _ => (None, Vec::new()),
        };
        match enum_name {
            Some(en) => {
                if find_last(&self.enums, en).is_some() {
                    let variant_name = if path.len() > 0 { path[path.len() - 1] } else { self.names.empty };
                    proof { lemma_member_below(self.enums@, self.session.types@.len(), en, variant_name); }
                    match member_of(&self.enums, en, variant_name) {
                        Some(v) => {
                            let t = self.get_type(v);
                            proof {
                                assert(forall|k: int| 0 <= k < type_children(t@).len() ==> ((#[trigger] type_children(t@)[k]).0 as int) < self.session.types@.len());
                            }
                            match t {
                                Type::EnumVariantConstructor(_, _, ftps, pts, _) => {
                                    assert(forall|k: int| 0 <= k < pts@.len() ==> type_children(t@)[k] == #[trigger] pts@[k]);
                                    let m = zip_map(&ftps, &type_args);
                                    assert(m@ =~= zipped(ftps@, type_args@));
                                    let ghost s1 = *self;
                                    let mut i: usize = 0;
                                    while i < pts.len()
                                        invariant
                                            self.expr_step(s1),
                                            self.errors == start.errors,
                                            s1.errors == start.errors,
                                            s1 == start,
                                            i <= pts@.len(),
                                            forall|k: int| 0 <= k < pts@.len() ==> ((#[trigger] pts@[k]).0 as int) < s1.session.types@.len(),
                                            map_below(m@, self.session.types@.len()),
                                            forall|k: int| 0 <= k < extracted@.len() ==> ((#[trigger] extracted@[k]).0 as int) < self.session.types@.len(),
                                            substituted_each(s1, pts@, m@, i as nat, *self, extracted@),
                                        decreases pts@.len() - i,
                                    {
                                        let ghost mm = *self;
                                        let ghost out0 = extracted@;
                                        let st = self.substitute_generics(pts[i], &m);
                                        extracted.push(st);
                                        assert(picked((mm, out0, st)));
                                        assert(substituted_each(s1, pts@, m@, (i + 1) as nat, *self, extracted@));
                                        i = i + 1;
                                    }
                                },
                                _ => {},
                            }
                        },
                        None => {},
                    }
                }
            },
            None => {},
        }
        let ghost s2 = *self;
        assert(fields_extracted(start, value, path@, s2, extracted@));
        assert(picked((s2, extracted@)));
        let mut i: usize = 0;
        while i < binds.len()
            invariant
                binds_declared(s2, binds@, extracted@, i as nat, *self),
                self.names == s2.names,
                self.common == s2.common,
                self.grows_from(s2),
                s2.grows_from(start),
                self.errors == start.errors,
                s2.errors == start.errors,
                i <= binds@.len(),
                symbols_below(self.names_bound@, binds@),
                forall|k: int| 0 <= k < extracted@.len() ==> ((#[trigger] extracted@[k]).0 as int) < self.session.types@.len(),
                self.env@.drop_last() == start.env@.drop_last(),
                self.env@.last().len() >= start.env@.last().len(),
                forall|k: int| 0 <= k < start.env@.last().len() ==> self.env@.last()[k] == #[trigger] start.env@.last()[k],
                self.current_return_type == start.current_return_type,
                self.classes == start.classes,
                self.class_mutables == start.class_mutables,
                self.interfaces == start.interfaces,
                self.enums == start.enums,
                self.class_implements == start.class_implements,
                self.current_class == start.current_class,
                self.uninitialized_class_properties == start.uninitialized_class_properties,
                self.generic_classes == start.generic_classes,
                self.generic_functions == start.generic_functions,
                self.is_checking_method == start.is_checking_method,
            decreases binds@.len() - i,
        {
            let b = binds[i];
            let ghost m = *self;
            if b != self.names.wildcard {
                let bt = if i < extracted.len() { extracted[i] } else { self.common.any };
                let ghost before = self.env@;
                self.env.declare_var(b, bt, false);
                assert(with_env(m, with_declaration(m.env@, b, Binding { ty: bt, is_mutable: false }), *self));
                proof {
                    let after = self.env@;
                    assert(after.drop_last() =~= before.drop_last());
                    assert forall|a: int, c: int| 0 <= a < after.len() && 0 <= c < after[a].len()
                        implies ((#[trigger] after[a][c]).1.ty.0 as nat) < self.session.types@.len() by {
                        if a < after.len() - 1 {
                            assert(after[a] == before[a]);
                        } else if c < before.last().len() {
                            assert(after[a][c] == before[a][c]);
                        }
                    }
                }
            }
            assert(picked(m));
            assert(binds_declared(s2, binds@, extracted@, (i + 1) as nat, *self));
            i = i + 1;
        }
    }
}

/// The owner of a property and the instance's type arguments, for a type
/// whose properties can be read (enums too when `with_enums`).
pub open spec fn property_owner(t: TypeV, with_enums: bool) -> Option<(Symbol, Seq<TypeId>)> {
    match t {
        TypeV::Instance(n) => Some((n, Seq::empty())),
        TypeV::GenericInstance(n, args) => Some((n, args)),
        TypeV::Interface(n) => Some((n, Seq::empty())),
        TypeV::Enum(n, _) => if with_enums { Some((n, Seq::empty())) } else { None },
        _ => None,
    }
}

/// A variant without fields stands for its enum's type; one with fields is
/// a constructor.
pub open spec fn unit_variant_type(vt: TypeV, id: TypeId) -> TypeId {
    match vt {
        TypeV::EnumVariantConstructor(_, _, _, ps, ret) => if ps.len() == 0 { ret } else { id },
        _ => id,
    }
}

/// Pairs each type parameter with the argument at the same position, as far
/// as both lists go.
pub fn zip_map(params: &Vec<Symbol>, args: &Vec<TypeId>) -> (m: Vec<(Symbol, TypeId)>)
    ensures
        m@.len() == if params@.len() < args@.len() { params@.len() } else { args@.len() },
        forall|k: int| 0 <= k < m@.len() ==> #[trigger] m@[k] == (params@[k], args@[k]),
        forall|n: nat| (forall|k: int| 0 <= k < args@.len() ==> ((#[trigger] args@[k]).0 as nat) < n) ==> map_below(m@, n),
{
    let mut m: Vec<(Symbol, TypeId)> = Vec::new();
    let mut i: usize = 0;
    while i < params.len() && i < args.len()
        invariant
            i <= params@.len(),
            i <= args@.len(),
            m@.len() == i,
            forall|k: int| 0 <= k < m@.len() ==> #[trigger] m@[k] == (params@[k], args@[k]),
        decreases params@.len() - i,
    {
        m.push((params[i], args[i]));
        i = i + 1;
    }
    m
}

} // verus!