use vstd::prelude::*;
use crate::checker::{TypeChecker, type_fits};
use crate::check_expr::{interned_done, picked};
use crate::interner::Symbol;
use crate::tables::{assoc, find_last, insert_if_absent, keys_unique};
use crate::types::{Type, TypeId, TypeV, copy_symbols, type_children, type_symbols};

verus! {

/// Types built from other types: the ones substitution rebuilds.
pub open spec fn compound(t: TypeV) -> bool {
    t is Optional || t is Array || t is Pointer || t is Function || t is GenericInstance
}

/// `b` is built like `a`: the same constructor, the same type parameters
/// and name, and as many parts.
pub open spec fn same_shape(a: TypeV, b: TypeV) -> bool {
    match a {
        TypeV::Optional(_) => b is Optional,
        TypeV::Array(_) => b is Array,
        TypeV::Pointer(_) => b is Pointer,
        TypeV::Function(tps, ps, _) => b matches TypeV::Function(tps2, ps2, _) && tps2 == tps && ps2.len() == ps.len(),
        TypeV::GenericInstance(n, args) => b matches TypeV::GenericInstance(n2, args2) && n2 == n && args2.len() == args.len(),
        _ => b == a,
    }
}

/// Every value of a map from type parameters to types is in the arena.
pub open spec fn map_below(m: Seq<(Symbol, TypeId)>, n: nat) -> bool {
    forall|k: int| 0 <= k < m.len() ==> ((#[trigger] m[k]).1.0 as nat) < n
}

/// Substituting `repl` in the type `ty` from state `s0` can end in state
/// `s1` with type `r`: a type parameter becomes its image (or stays), and
/// optionals, arrays, pointers, functions and generic instances are
/// interned again around their substituted parts; other types stay.
pub open spec fn substituted(s0: TypeChecker, ty: TypeId, repl: Seq<(Symbol, TypeId)>, s1: TypeChecker, r: TypeId) -> bool
    decreases ty.0 + 1, 0nat,
{
    match s0.ty(ty) {
        TypeV::Generic(g) => s1 == s0 && r == (match assoc(repl, g) { Some(x) => x, None => ty }),
        TypeV::Optional(inner) => inner.0 < ty.0 && exists|m: TypeChecker, t: TypeId| #[trigger] picked((m, t))
            && substituted(s0, inner, repl, m, t) && interned_done(m, TypeV::Optional(t), s1, r),
        TypeV::Array(inner) => inner.0 < ty.0 && exists|m: TypeChecker, t: TypeId| #[trigger] picked((m, t))
            && substituted(s0, inner, repl, m, t) && interned_done(m, TypeV::Array(t), s1, r),
        TypeV::Pointer(inner) => inner.0 < ty.0 && exists|m: TypeChecker, t: TypeId| #[trigger] picked((m, t))
            && substituted(s0, inner, repl, m, t) && interned_done(m, TypeV::Pointer(t), s1, r),
        TypeV::Function(tps, ps, ret) => ret.0 < ty.0 && exists|m1: TypeChecker, sub: Seq<TypeId>, m2: TypeChecker, t: TypeId|
            #[trigger] picked((m1, sub, m2, t))
            && substituted_all(s0, ty, ps, repl, m1, sub) && substituted(m1, ret, repl, m2, t)
            && interned_done(m2, TypeV::Function(tps, sub, t), s1, r),
        TypeV::GenericInstance(n, args) => exists|m: TypeChecker, sub: Seq<TypeId>| #[trigger] picked((m, sub))
            && substituted_all(s0, ty, args, repl, m, sub) && interned_done(m, TypeV::GenericInstance(n, sub), s1, r),
        _ => s1 == s0 && r == ty,
    }
}

/// The parts `ids` of the type `owner`, substituted in order, give `sub`.
pub open spec fn substituted_all(s0: TypeChecker, owner: TypeId, ids: Seq<TypeId>, repl: Seq<(Symbol, TypeId)>,
    s1: TypeChecker, sub: Seq<TypeId>) -> bool
    decreases owner.0, ids.len(),
{
    if ids.len() == 0 {
        s1 == s0 && sub == Seq::<TypeId>::empty()
    } else {
        ids.last().0 < owner.0 && exists|m: TypeChecker, sub0: Seq<TypeId>, t: TypeId| #[trigger] picked((m, sub0, t))
            && substituted_all(s0, owner, ids.drop_last(), repl, m, sub0)
            && substituted(m, ids.last(), repl, s1, t) && sub == sub0.push(t)
    }
}

/// `m` with `key` bound to `value` unless it is bound already.
pub open spec fn bound_if_absent(m: Seq<(Symbol, TypeId)>, key: Symbol, value: TypeId) -> Seq<(Symbol, TypeId)> {
    if assoc(m, key) is Some { m } else { m.push((key, value)) }
}

/// Matching the `expected` type against the `actual` one from state `s0`,
/// with the bindings `m0` learnt so far, can end in state `s1` with the
/// bindings `m1`: a type parameter is bound to the actual type unless it
/// is bound already; matching constructors are matched part by part; the
/// parameters of a generic class or enum are bound to the arguments of an
/// instance of it; anything else teaches nothing.
pub open spec fn types_matched(s0: TypeChecker, expected: TypeId, actual: TypeId, m0: Seq<(Symbol, TypeId)>,
    s1: TypeChecker, m1: Seq<(Symbol, TypeId)>) -> bool
    decreases expected.0 + 1, 0nat,
{
    match (s0.ty(expected), s0.ty(actual)) {
        (TypeV::Generic(g), _) => s1 == s0 && m1 == bound_if_absent(m0, g, actual),
        (TypeV::Optional(e), TypeV::Optional(a)) => e.0 < expected.0 && types_matched(s0, e, a, m0, s1, m1),
        (TypeV::Array(e), TypeV::Array(a)) => e.0 < expected.0 && types_matched(s0, e, a, m0, s1, m1),
        (TypeV::Pointer(e), TypeV::Pointer(a)) => e.0 < expected.0 && types_matched(s0, e, a, m0, s1, m1),
        (TypeV::GenericInstance(en, es), TypeV::GenericInstance(an, acts)) => if en == an {
            pairs_inferred(s0, expected, es, acts, min_len(es.len(), acts.len()), m0, s1, m1)
        } else {
            s1 == s0 && m1 == m0
        },
        (TypeV::Enum(en, ps), TypeV::GenericInstance(an, acts)) => if en == an {
            params_inferred(s0, ps, acts, min_len(ps.len(), acts.len()), m0, s1, m1)
        } else {
            s1 == s0 && m1 == m0
        },
        (TypeV::Class(en, ps), TypeV::GenericInstance(an, acts)) => if en == an {
            params_inferred(s0, ps, acts, min_len(ps.len(), acts.len()), m0, s1, m1)
        } else {
            s1 == s0 && m1 == m0
        },
        (TypeV::Function(_, eps, eret), TypeV::Function(_, aps, aret)) => eret.0 < expected.0
            && exists|m: TypeChecker, mm: Seq<(Symbol, TypeId)>| #[trigger] picked((m, mm))
                && pairs_inferred(s0, expected, eps, aps, min_len(eps.len(), aps.len()), m0, m, mm)
                && types_matched(m, eret, aret, mm, s1, m1),
        _ => s1 == s0 && m1 == m0,
    }
}

/// The smaller of two lengths.
pub open spec fn min_len(a: nat, b: nat) -> nat {
    if a <= b { a } else { b }
}

/// The first `n` pairs of parts of the type `owner` and of the actual
/// type, matched in order.
pub open spec fn pairs_inferred(s0: TypeChecker, owner: TypeId, es: Seq<TypeId>, acts: Seq<TypeId>, n: nat,
    m0: Seq<(Symbol, TypeId)>, s1: TypeChecker, m1: Seq<(Symbol, TypeId)>) -> bool
    decreases owner.0, n,
{
    if n == 0 {
        s1 == s0 && m1 == m0
    } else {
        n <= es.len() && n <= acts.len() && es[n - 1].0 < owner.0
            && exists|m: TypeChecker, mm: Seq<(Symbol, TypeId)>| #[trigger] picked((m, mm))
                && pairs_inferred(s0, owner, es, acts, (n - 1) as nat, m0, m, mm)
                && types_matched(m, es[n - 1], acts[n - 1], mm, s1, m1)
    }
}

/// The first `n` type parameters bound, unless bound already, to the
/// arguments at the same positions.
pub open spec fn params_inferred(s0: TypeChecker, ps: Seq<Symbol>, acts: Seq<TypeId>, n: nat,
    m0: Seq<(Symbol, TypeId)>, s1: TypeChecker, m1: Seq<(Symbol, TypeId)>) -> bool
    decreases n,
{
    if n == 0 {
        s1 == s0 && m1 == m0
    } else {
        n <= ps.len() && n <= acts.len()
            && exists|m: TypeChecker, mm: Seq<(Symbol, TypeId)>, g: TypeId| #[trigger] picked((m, mm, g))
                && params_inferred(s0, ps, acts, (n - 1) as nat, m0, m, mm)
                && interned_done(m, TypeV::Generic(ps[n - 1]), s1, g)
                && m1 == bound_if_absent(mm, ps[n - 1], acts[n - 1])
    }
}

impl TypeChecker {
    /// The type with every type parameter that `replacements` maps replaced
    /// by its image, rebuilding optionals, arrays, pointers, functions and
    /// generic instances around them.
    pub fn substitute_generics(&mut self, ty: TypeId, replacements: &Vec<(Symbol, TypeId)>) -> (r: TypeId)
        requires
            old(self).wf(),
            (ty.0 as int) < old(self).session.types@.len(),
            map_below(replacements@, old(self).session.types@.len()),
        ensures
            final(self).expr_step(*old(self)),
            final(self).errors == old(self).errors,
            (r.0 as int) < final(self).session.types@.len(),
            old(self).ty(ty) matches TypeV::Generic(g) ==> r == (match assoc(replacements@, g) {
                Some(x) => x,
                None => ty,
            }),
            !(old(self).ty(ty) is Generic) && !compound(old(self).ty(ty)) ==> r == ty,
            compound(old(self).ty(ty)) && final(self).room() ==> same_shape(old(self).ty(ty), final(self).ty(r)),
            replacements@.len() == 0 && final(self).room() ==> r == ty,
            substituted(*old(self), ty, replacements@, *final(self), r),
        decreases ty.0,
    {
        let ghost start = *self;
        let t = self.get_type(ty);
        proof {
            assert(forall|k: int| 0 <= k < type_children(t@).len() ==> (#[trigger] type_children(t@)[k]).0 < ty.0);
            assert(forall|k: int| 0 <= k < type_symbols(t@).len() ==> ((#[trigger] type_symbols(t@)[k]).0 as int) < self.session.interner@.len());
        }
        match t {
            Type::Generic(g) => {
                match find_last(replacements, g) {
                    Some(i) => replacements[i].1,
                    None => ty,
                }
            },
            Type::Optional(inner) => {
                assert(type_children(t@)[0] == inner);
                let s = self.substitute_generics(inner, replacements);
                let ghost mid = *self;
                let r = self.intern_type(Type::Optional(s));
                assert(interned_done(mid, TypeV::Optional(s), *self, r));
                assert(picked((mid, s)));
                proof { if replacements@.len() == 0 && self.room() { assert(mid.room()); self.lemma_same_id(start, ty, r); } }
                r
            },
            Type::Array(inner) => {
                assert(type_children(t@)[0] == inner);
                let s = self.substitute_generics(inner, replacements);
                let ghost mid = *self;
                let r = self.intern_type(Type::Array(s));
                assert(interned_done(mid, TypeV::Array(s), *self, r));
                assert(picked((mid, s)));
                proof { if replacements@.len() == 0 && self.room() { assert(mid.room()); self.lemma_same_id(start, ty, r); } }
                r
            },
            Type::Pointer(inner) => {
                assert(type_children(t@)[0] == inner);
                let s = self.substitute_generics(inner, replacements);
                let ghost mid = *self;
                let r = self.intern_type(Type::Pointer(s));
                assert(interned_done(mid, TypeV::Pointer(s), *self, r));
                assert(picked((mid, s)));
                proof { if replacements@.len() == 0 && self.room() { assert(mid.room()); self.lemma_same_id(start, ty, r); } }
                r
            },
            Type::Function(tps, ps, ret) => {
                assert(type_children(t@)[ps@.len() as int] == ret);
                assert(forall|k: int| 0 <= k < ps@.len() ==> type_children(t@)[k] == #[trigger] ps@[k]);
                let sub = self.substitute_all(ty, &ps, replacements);
                let ghost m1 = *self;
                let sret = self.substitute_generics(ret, replacements);
                let tps2 = copy_symbols(&tps);
                proof {
                    assert(forall|k: int| 0 <= k < tps2@.len() ==> type_symbols(t@)[k] == #[trigger] tps2@[k]);
                    if replacements@.len() == 0 && self.room() {
                        assert(sub@ =~= ps@);
                    }
                }
                let ghost mid = *self;
                let ghost subv = sub@;
                let r = self.intern_type(Type::Function(tps2, sub, sret));
                assert(interned_done(mid, TypeV::Function(tps@, subv, sret), *self, r));
                assert(picked((m1, subv, mid, sret)));
                proof { if replacements@.len() == 0 && self.room() { assert(mid.room()); self.lemma_same_id(start, ty, r); } }
                r
            },
            Type::GenericInstance(n, args) => {
                assert(forall|k: int| 0 <= k < args@.len() ==> type_children(t@)[k] == #[trigger] args@[k]);
                assert(type_symbols(t@)[0] == n);
                let sub = self.substitute_all(ty, &args, replacements);
                proof {
                    if replacements@.len() == 0 && self.room() {
                        assert(sub@ =~= args@);
                    }
                }
                let ghost mid = *self;
                let ghost subv = sub@;
                let r = self.intern_type(Type::GenericInstance(n, sub));
                assert(interned_done(mid, TypeV::GenericInstance(n, subv), *self, r));
                assert(picked((mid, subv)));
                proof { if replacements@.len() == 0 && self.room() { assert(mid.room()); self.lemma_same_id(start, ty, r); } }
                r
            },
            _ => ty,
        }
    }

    /// Substitutes in each of the parts `ids` of the type `owner`.
    fn substitute_all(&mut self, owner: TypeId, ids: &Vec<TypeId>, replacements: &Vec<(Symbol, TypeId)>) -> (sub: Vec<TypeId>)
        requires
            old(self).wf(),
            (owner.0 as int) < old(self).session.types@.len(),
            forall|k: int| 0 <= k < ids@.len() ==> (#[trigger] ids@[k]).0 < owner.0,
            map_below(replacements@, old(self).session.types@.len()),
        ensures
            final(self).expr_step(*old(self)),
            final(self).errors == old(self).errors,
            sub@.len() == ids@.len(),
            forall|k: int| 0 <= k < sub@.len() ==> ((#[trigger] sub@[k]).0 as int) < final(self).session.types@.len(),
            replacements@.len() == 0 && final(self).room() ==> sub@ == ids@,
            substituted_all(*old(self), owner, ids@, replacements@, *final(self), sub@),
        decreases owner.0, 0nat,
    {
        let ghost start = *self;
        let mut sub: Vec<TypeId> = Vec::new();
        let mut i: usize = 0;
        while i < ids.len()
            invariant
                self.expr_step(start),
                self.errors == start.errors,
                start.wf(),
                (owner.0 as int) < start.session.types@.len(),
                i <= ids@.len(),
                sub@.len() == i,
                forall|k: int| 0 <= k < ids@.len() ==> (#[trigger] ids@[k]).0 < owner.0,
                forall|k: int| 0 <= k < sub@.len() ==> ((#[trigger] sub@[k]).0 as int) < self.session.types@.len(),
                map_below(replacements@, self.session.types@.len()),
                replacements@.len() == 0 && self.room() ==> sub@ == ids@.take(i as int),
                substituted_all(start, owner, ids@.take(i as int), replacements@, *self, sub@),
            decreases ids@.len() - i,
        {
            let ghost m = *self;
            let ghost sub0 = sub@;
            let s = self.substitute_generics(ids[i], replacements);
            proof {
                assert(ids@[i as int].0 < owner.0);
            }
            sub.push(s);
            proof {
                let p = ids@.take(i + 1);
                assert(p.drop_last() =~= ids@.take(i as int));
                assert(p.last() == ids@[i as int]);
                assert(picked((m, sub0, s)));
                assert(substituted_all(start, owner, p, replacements@, *self, sub@));
            }
            i = i + 1;
            proof {
                if replacements@.len() == 0 && self.room() {
                    assert(sub@ =~= ids@.take(i as int));
                }
            }
        }
        proof {
            assert(ids@.take(ids@.len() as int) =~= ids@);
        }
        sub
    }

    /// When nothing was substituted, the rebuilt type is the one at hand.
    proof fn lemma_same_id(&self, start: TypeChecker, ty: TypeId, r: TypeId)
        requires
            self.wf(),
            self.expr_step(start),
            (ty.0 as int) < start.session.types@.len(),
            (r.0 as int) < self.session.types@.len(),
            self.room() ==> self.ty(r) == start.ty(ty),
        ensures
            self.room() ==> r == ty,
    {
        if self.room() {
            assert(self.ty(ty) == start.ty(ty));
        }
    }

    /// Learns type arguments by matching the `expected` type, which may
    /// mention type parameters, against the `actual` one.  A parameter
    /// already known keeps its first value.
    pub fn infer_generics(&mut self, expected: TypeId, actual: TypeId, inferred: &mut Vec<(Symbol, TypeId)>)
        requires
            old(self).wf(),
            (expected.0 as int) < old(self).session.types@.len(),
            (actual.0 as int) < old(self).session.types@.len(),
            map_below(old(inferred)@, old(self).session.types@.len()),
            keys_unique(old(inferred)@),
        ensures
            final(self).expr_step(*old(self)),
            final(self).errors == old(self).errors,
            keys_unique(final(inferred)@),
            map_below(final(inferred)@, final(self).session.types@.len()),
            final(inferred)@.len() >= old(inferred)@.len(),
            forall|k: int| 0 <= k < old(inferred)@.len() ==> final(inferred)@[k] == #[trigger] old(inferred)@[k],
            old(self).ty(expected) matches TypeV::Generic(g) ==> final(inferred)@ == (
                if assoc(old(inferred)@, g) is Some { old(inferred)@ } else { old(inferred)@.push((g, actual)) }),
            types_matched(*old(self), expected, actual, old(inferred)@, *final(self), final(inferred)@),
        decreases expected.0,
    {
        let e = self.get_type(expected);
        let a = self.get_type(actual);
        proof {
            assert(forall|k: int| 0 <= k < type_children(e@).len() ==> (#[trigger] type_children(e@)[k]).0 < expected.0);
            assert(forall|k: int| 0 <= k < type_children(a@).len() ==> ((#[trigger] type_children(a@)[k]).0 as int) < self.session.types@.len());
            assert(forall|k: int| 0 <= k < type_symbols(e@).len() ==> ((#[trigger] type_symbols(e@)[k]).0 as int) < self.session.interner@.len());
        }
        match (e, a) {
            (Type::Generic(g), _) => {
                insert_if_absent(inferred, g, actual);
            },
            (Type::Optional(ei), Type::Optional(ai)) => {
                assert(type_children(e@)[0] == ei && type_children(a@)[0] == ai);
                self.infer_generics(ei, ai, inferred);
            },
            (Type::Array(ei), Type::Array(ai)) => {
                assert(type_children(e@)[0] == ei && type_children(a@)[0] == ai);
                self.infer_generics(ei, ai, inferred);
            },
            (Type::Pointer(ei), Type::Pointer(ai)) => {
                assert(type_children(e@)[0] == ei && type_children(a@)[0] == ai);
                self.infer_generics(ei, ai, inferred);
            },
            (Type::GenericInstance(en, eargs), Type::GenericInstance(an, aargs)) => {
                if en == an {
                    assert(forall|k: int| 0 <= k < eargs@.len() ==> type_children(e@)[k] == #[trigger] eargs@[k]);
                    assert(forall|k: int| 0 <= k < aargs@.len() ==> type_children(a@)[k] == #[trigger] aargs@[k]);
                    self.infer_pairs(expected, &eargs, &aargs, inferred);
                }
            },
            (Type::Enum(en, eparams), Type::GenericInstance(an, aargs)) => {
                if en == an {
                    assert(forall|k: int| 0 <= k < eparams@.len() ==> type_symbols(e@)[k + 1] == #[trigger] eparams@[k]);
                    assert(forall|k: int| 0 <= k < aargs@.len() ==> type_children(a@)[k] == #[trigger] aargs@[k]);
                    self.infer_params(&eparams, &aargs, inferred);
                }
            },
            (Type::Class(en, eparams), Type::GenericInstance(an, aargs)) => {
                if en == an {
                    assert(forall|k: int| 0 <= k < eparams@.len() ==> type_symbols(e@)[k + 1] == #[trigger] eparams@[k]);
                    assert(forall|k: int| 0 <= k < aargs@.len() ==> type_children(a@)[k] == #[trigger] aargs@[k]);
                    self.infer_params(&eparams, &aargs, inferred);
                }
            },
            (Type::Function(_, eps, eret), Type::Function(_, aps, aret)) => {
                assert(forall|k: int| 0 <= k < eps@.len() ==> type_children(e@)[k] == #[trigger] eps@[k]);
                assert(forall|k: int| 0 <= k < aps@.len() ==> type_children(a@)[k] == #[trigger] aps@[k]);
                assert(type_children(e@)[eps@.len() as int] == eret && type_children(a@)[aps@.len() as int] == aret);
                self.infer_pairs(expected, &eps, &aps, inferred);
                let ghost m = *self;
                let ghost mm = inferred@;
                self.infer_generics(eret, aret, inferred);
                assert(picked((m, mm)));
            },
            _ => {},
        }
    }

    /// Matches the parts of two types pairwise, as far as both go.
    fn infer_pairs(&mut self, owner: TypeId, es: &Vec<TypeId>, acts: &Vec<TypeId>, inferred: &mut Vec<(Symbol, TypeId)>)
        requires
            old(self).wf(),
            forall|k: int| 0 <= k < es@.len() ==> (#[trigger] es@[k]).0 < owner.0,
            forall|k: int| 0 <= k < acts@.len() ==> ((#[trigger] acts@[k]).0 as int) < old(self).session.types@.len(),
            map_below(old(inferred)@, old(self).session.types@.len()),
            keys_unique(old(inferred)@),
            (owner.0 as int) < old(self).session.types@.len(),
        ensures
            final(self).expr_step(*old(self)),
            final(self).errors == old(self).errors,
            keys_unique(final(inferred)@),
            map_below(final(inferred)@, final(self).session.types@.len()),
            final(inferred)@.len() >= old(inferred)@.len(),
            forall|k: int| 0 <= k < old(inferred)@.len() ==> final(inferred)@[k] == #[trigger] old(inferred)@[k],
            pairs_inferred(*old(self), owner, es@, acts@, min_len(es@.len(), acts@.len()), old(inferred)@, *final(self), final(inferred)@),
        decreases owner.0, 0nat,
    {
        let ghost start = *self;
        let ghost start_map = inferred@;
        let mut i: usize = 0;
        while i < es.len() && i < acts.len()
            invariant
                self.expr_step(start),
                self.errors == start.errors,
                i <= es@.len(),
                forall|k: int| 0 <= k < es@.len() ==> (#[trigger] es@[k]).0 < owner.0,
                forall|k: int| 0 <= k < acts@.len() ==> ((#[trigger] acts@[k]).0 as int) < start.session.types@.len(),
                (owner.0 as int) < start.session.types@.len(),
                keys_unique(inferred@),
                map_below(inferred@, self.session.types@.len()),
                inferred@.len() >= start_map.len(),
                forall|k: int| 0 <= k < start_map.len() ==> inferred@[k] == #[trigger] start_map[k],
                i <= acts@.len(),
                pairs_inferred(start, owner, es@, acts@, i as nat, start_map, *self, inferred@),
            decreases es@.len() - i,
        {
            let ghost m = *self;
            let ghost mm = inferred@;
            self.infer_generics(es[i], acts[i], inferred);
            proof {
                assert(picked((m, mm)));
                assert(pairs_inferred(start, owner, es@, acts@, (i + 1) as nat, start_map, *self, inferred@));
            }
            i = i + 1;
        }
    }

    /// Binds each type parameter to the argument at the same position, as
    /// far as both lists go.
    fn infer_params(&mut self, params: &Vec<Symbol>, acts: &Vec<TypeId>, inferred: &mut Vec<(Symbol, TypeId)>)
        requires
            old(self).wf(),
            forall|k: int| 0 <= k < params@.len() ==> ((#[trigger] params@[k]).0 as int) < old(self).session.interner@.len(),
            forall|k: int| 0 <= k < acts@.len() ==> ((#[trigger] acts@[k]).0 as int) < old(self).session.types@.len(),
            map_below(old(inferred)@, old(self).session.types@.len()),
            keys_unique(old(inferred)@),
        ensures
            final(self).expr_step(*old(self)),
            final(self).errors == old(self).errors,
            keys_unique(final(inferred)@),
            map_below(final(inferred)@, final(self).session.types@.len()),
            final(inferred)@.len() >= old(inferred)@.len(),
            forall|k: int| 0 <= k < old(inferred)@.len() ==> final(inferred)@[k] == #[trigger] old(inferred)@[k],
            params_inferred(*old(self), params@, acts@, min_len(params@.len(), acts@.len()), old(inferred)@, *final(self), final(inferred)@),
    {
        let ghost start = *self;
        let ghost start_map = inferred@;
        let mut i: usize = 0;
        while i < params.len() && i < acts.len()
            invariant
                self.expr_step(start),
                self.errors == start.errors,
                i <= params@.len(),
                forall|k: int| 0 <= k < params@.len() ==> ((#[trigger] params@[k]).0 as int) < start.session.interner@.len(),
                forall|k: int| 0 <= k < acts@.len() ==> ((#[trigger] acts@[k]).0 as int) < start.session.types@.len(),
                keys_unique(inferred@),
                map_below(inferred@, self.session.types@.len()),
                inferred@.len() >= start_map.len(),
                forall|k: int| 0 <= k < start_map.len() ==> inferred@[k] == #[trigger] start_map[k],
                i <= acts@.len(),
                params_inferred(start, params@, acts@, i as nat, start_map, *self, inferred@),
            decreases params@.len() - i,
        {
            let ghost m = *self;
            let ghost mm = inferred@;
            let g = self.intern_type(Type::Generic(params[i]));
            insert_if_absent(inferred, params[i], acts[i]);
            proof {
                assert(interned_done(m, TypeV::Generic(params@[i as int]), *self, g));
                assert(inferred@ == bound_if_absent(mm, params@[i as int], acts@[i as int]));
                assert(picked((m, mm, g)));
                assert(params_inferred(start, params@, acts@, (i + 1) as nat, start_map, *self, inferred@));
            }
            i = i + 1;
        }
    }
}

} // verus!
