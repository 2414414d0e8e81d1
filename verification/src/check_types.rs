use vstd::prelude::*;
use crate::ast::{Span, TypeExpr, lemma_type_exprs_interned, type_expr_interned};
use crate::check_expr::{interned_done, picked};
use crate::check_rules::{diag, reported};
use crate::checker::{TypeChecker, lemma_lookup_below, type_fits};
use crate::diagnostics::{DiagnosticCode, DiagnosticV, diagnostics_view};
use crate::env::lookup;
use crate::interner::Symbol;
use crate::tables::{assoc, find_last};
use crate::types::{Type, TypeId, TypeV};

verus! {

/// How a name written as a type is found: an id at hand, a type to intern,
/// or nothing (an unknown type).
pub enum Found {
    Id(TypeId),
    Make(TypeV),
    Unknown,
}

/// What a named type denotes: a built-in type, a type parameter in scope,
/// a class or enum instance, an interface, or nothing.
pub open spec fn named_found(tc: TypeChecker, name: Symbol) -> Found {
    let n = tc.names;
    let c = tc.common;
    if name == n.int {
        Found::Id(c.int)
    } else if name == n.float {
        Found::Id(c.float)
    } else if name == n.string {
        Found::Id(c.string)
    } else if name == n.boolean {
        Found::Id(c.boolean)
    } else if name == n.void {
        Found::Id(c.void)
    } else if name == n.c_int {
        Found::Make(TypeV::CInt)
    } else if name == n.c_uint {
        Found::Make(TypeV::CUInt)
    } else if name == n.c_char {
        Found::Make(TypeV::CChar)
    } else if name == n.c_size {
        Found::Make(TypeV::CSize)
    } else if lookup(tc.env@, name) matches Some(b) && tc.ty(b.ty) is Generic {
        Found::Id(lookup(tc.env@, name).unwrap().ty)
    } else if assoc(tc.classes@, name) is Some || assoc(tc.enums@, name) is Some {
        Found::Make(TypeV::Instance(name))
    } else if assoc(tc.interfaces@, name) is Some {
        Found::Make(TypeV::Interface(name))
    } else {
        Found::Unknown
    }
}

/// `r` is what `f` says, and an unknown type was reported with `message`.
pub open spec fn found_ok(fin: TypeChecker, old: TypeChecker, r: TypeId, f: Found, message: Seq<char>, span: Span) -> bool {
    match f {
        Found::Id(t) => r == t && fin.errors == old.errors,
        Found::Make(v) => (fin.room() ==> fin.ty(r) == v) && fin.errors == old.errors,
        Found::Unknown => r == old.common.error && diagnostics_view(fin.errors@) == diagnostics_view(old.errors@).push(
            DiagnosticV { code: DiagnosticCode::UnknownType, message, span }),
    }
}

/// Parsing the type expression `te` from state `s0` can end in state `s1`
/// with type `r`: a name is looked up; the arguments of a generic instance
/// are parsed in order, and a pointer, a class or enum instance, or an
/// unknown generic class comes of them; an optional or array type is
/// interned around its parsed element type.
pub open spec fn type_parsed(s0: TypeChecker, te: TypeExpr, span: Span, s1: TypeChecker, r: TypeId) -> bool
    decreases te,
{
    match te {
        TypeExpr::Named(name) => s1.expr_step(s0) && found_ok(s1, s0, r, named_found(s0, name),
            "Unknown type '"@ + s0.session.interner@[name.0 as int] + "'."@, span),
        TypeExpr::GenericInstance(name, args) => exists|m: TypeChecker, ts: Seq<TypeId>|
            #[trigger] picked((m, ts)) && types_parsed(s0, args@, span, m, ts) && if name == m.names.pointer && ts.len() == 1 {
                interned_done(m, TypeV::Pointer(ts[0]), s1, r)
            } else if assoc(m.classes@, name) is Some || assoc(m.enums@, name) is Some {
                interned_done(m, TypeV::GenericInstance(name, ts), s1, r)
            } else {
                &&& s1.expr_step(m)
                &&& s1.session == m.session
                &&& reported(s1, m, seq![diag(DiagnosticCode::UnknownType,
                    "Unknown generic class '"@ + m.session.interner@[name.0 as int] + "'."@, span)])
                &&& r == m.common.error
            },
        TypeExpr::Optional(inner) => exists|m: TypeChecker, t: TypeId|
            #[trigger] picked((m, t)) && type_parsed(s0, *inner, span, m, t) && interned_done(m, TypeV::Optional(t), s1, r),
        TypeExpr::Array(inner) => exists|m: TypeChecker, t: TypeId|
            #[trigger] picked((m, t)) && type_parsed(s0, *inner, span, m, t) && interned_done(m, TypeV::Array(t), s1, r),
    }
}

/// The type expressions `tes`, parsed in order, give the types `ts`.
pub open spec fn types_parsed(s0: TypeChecker, tes: Seq<TypeExpr>, span: Span, s1: TypeChecker, ts: Seq<TypeId>) -> bool
    decreases tes,
{
    if tes.len() == 0 {
        s1 == s0 && ts == Seq::<TypeId>::empty()
    } else {
        exists|m: TypeChecker, ts0: Seq<TypeId>, t: TypeId| #[trigger] picked((m, ts0, t))
            && types_parsed(s0, tes.drop_last(), span, m, ts0) && type_parsed(m, tes.last(), span, s1, t) && ts == ts0.push(t)
    }
}

impl TypeChecker {
    /// The type that a name written as a type denotes.
    pub fn parse_named(&mut self, name: Symbol, span: Span) -> (r: TypeId)
        requires
            old(self).wf(),
            (name.0 as nat) < old(self).names_bound@,
        ensures
            final(self).expr_step(*old(self)),
            (r.0 as int) < final(self).session.types@.len(),
            found_ok(*final(self), *old(self), r, named_found(*old(self), name),
                "Unknown type '"@ + old(self).session.interner@[name.0 as int] + "'."@, span),
    {
        let n = self.names;
        let c = self.common;
        if name == n.int {
            return c.int;
        } else if name == n.float {
            return c.float;
        } else if name == n.string {
            return c.string;
        } else if name == n.boolean {
            return c.boolean;
        } else if name == n.void {
            return c.void;
        } else if name == n.c_int {
            return self.intern_type(Type::CInt);
        } else if name == n.c_uint {
            return self.intern_type(Type::CUInt);
        } else if name == n.c_char {
            return self.intern_type(Type::CChar);
        } else if name == n.c_size {
            return self.intern_type(Type::CSize);
        }
        proof { lemma_lookup_below(self.env@, self.session.types@.len(), name); }
        match self.env.resolve(name) {
            Some(id) => {
                match self.session.types.get(id) {
                    Type::Generic(_) => {
                        return id;
                    },
                    _ => {},
                }
            },
            None => {},
        }
        if find_last(&self.classes, name).is_some() || find_last(&self.enums, name).is_some() {
            self.intern_type(Type::Instance(name))
        } else if find_last(&self.interfaces, name).is_some() {
            self.intern_type(Type::Interface(name))
        } else {
            let m = self.msg_name("Unknown type '", name, "'.");
            self.error(span, DiagnosticCode::UnknownType, m.as_str());
            c.error
        }
    }

    /// The type that a type expression denotes, with type parameters in
    /// scope taking their generic types; an unknown name is reported and
    /// the error type stands for it.
    pub fn parse_type(&mut self, type_expr: &TypeExpr, span: Span) -> (r: TypeId)
        requires
            old(self).wf(),
            type_expr_interned(old(self).names_bound@, *type_expr),
        ensures
            final(self).expr_step(*old(self)),
            (r.0 as int) < final(self).session.types@.len(),
            type_parsed(*old(self), *type_expr, span, *final(self), r),
        decreases type_expr,
    {
        match type_expr {
            TypeExpr::Named(name) => {
                self.parse_named(*name, span)
            },
            TypeExpr::GenericInstance(name, args) => {
                let ghost start = *self;
                proof { lemma_type_exprs_interned(self.names_bound@, args@); }
                let mut parsed: Vec<TypeId> = Vec::new();
                let mut i: usize = 0;
                while i < args.len()
                    invariant
                        self.expr_step(start),
                        *type_expr == TypeExpr::GenericInstance(*name, *args),
                        i <= args@.len(),
                        parsed@.len() == i,
                        forall|k: int| 0 <= k < args@.len() ==> #[trigger] type_expr_interned(self.names_bound@, args@[k]),
                        forall|k: int| 0 <= k < parsed@.len() ==> ((#[trigger] parsed@[k]).0 as int) < self.session.types@.len(),
                        types_parsed(start, args@.take(i as int), span, *self, parsed@),
                    decreases args@.len() - i,
                {
                    proof {
                        assert(decreases_to!(*type_expr => args@[i as int])) by {
                            assert(decreases_to!(*type_expr => (*type_expr)->1));
                            assert((*type_expr)->1 == *args);
                            assert(decreases_to!(*args => args@));
                            assert(decreases_to!(args@ => args@[i as int]));
                        }
                    }
                    let ghost m = *self;
                    let ghost ts0 = parsed@;
                    let t = self.parse_type(&args[i], span);
                    parsed.push(t);
                    proof {
                        let p = args@.take(i + 1);
                        assert(p.drop_last() =~= args@.take(i as int));
                        assert(p.last() == args@[i as int]);
                        assert(picked((m, ts0, t)));
                        assert(types_parsed(start, p, span, *self, parsed@));
                    }
                    i = i + 1;
                }
                assert(args@.take(args@.len() as int) =~= args@);
                let ghost m = *self;
                assert(picked((m, parsed@)));
                if *name == self.names.pointer && parsed.len() == 1 {
                    let r = self.intern_type(Type::Pointer(parsed[0]));
                    assert(interned_done(m, TypeV::Pointer(parsed@[0]), *self, r));
                    r
                } else if find_last(&self.classes, *name).is_some() || find_last(&self.enums, *name).is_some() {
                    let ghost ts = parsed@;
                    let ty = Type::GenericInstance(*name, parsed);
                    let r = self.intern_type(ty);
                    assert(interned_done(m, TypeV::GenericInstance(*name, ts), *self, r));
                    r
                } else {
                    let msg = self.msg_name("Unknown generic class '", *name, "'.");
                    self.error(span, DiagnosticCode::UnknownType, msg.as_str());
                    assert(diagnostics_view(self.errors@) =~= diagnostics_view(m.errors@) + seq![diag(DiagnosticCode::UnknownType,
                        "Unknown generic class '"@ + m.session.interner@[name.0 as int] + "'."@, span)]);
                    self.common.error
                }
            },
            TypeExpr::Optional(inner) => {
                let t = self.parse_type(inner, span);
                let ghost m = *self;
                let r = self.intern_type(Type::Optional(t));
                assert(interned_done(m, TypeV::Optional(t), *self, r));
                assert(picked((m, t)));
                r
            },
            TypeExpr::Array(inner) => {
                let t = self.parse_type(inner, span);
                let ghost m = *self;
                let r = self.intern_type(Type::Array(t));
                assert(interned_done(m, TypeV::Array(t), *self, r));
                assert(picked((m, t)));
                r
            },
        }
    }
}

} // verus!
