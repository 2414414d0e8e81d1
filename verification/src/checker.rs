use vstd::prelude::*;
use crate::ast::{
    Span, TypeExpr, opt_type_expr_interned, symbols_below, type_exprs_interned,
};
use crate::diagnostics::{Diagnostic, DiagnosticCode, DiagnosticV, diagnostics_view};
use crate::env::{Binding, TypeEnvironment, last_binding, lookup, with_declaration};
use crate::interner::{Symbol, no_duplicates};
use crate::session::{CompilerSession, arena_well_formed, type_text};
use crate::types::{Type, TypeId, TypeV, no_duplicate_types, type_children, type_symbols};
use crate::tables::{assoc, keys_unique};

verus! {

/// The ids of the types that checking refers to all the time.
#[derive(Debug, Clone, Copy)]
pub struct CommonTypes {
    pub int: TypeId,
    pub float: TypeId,
    pub string: TypeId,
    pub boolean: TypeId,
    pub void: TypeId,
    pub error: TypeId,
    pub any: TypeId,
    pub null: TypeId,
    pub range: TypeId,
    pub builtin: TypeId,
}

/// The symbols of the names that checking compares against.
#[derive(Debug, Clone, Copy)]
pub struct CommonNames {
    pub print: Symbol,
    pub self_name: Symbol,
    pub init: Symbol,
    pub wildcard: Symbol,
    pub empty: Symbol,
    pub int: Symbol,
    pub float: Symbol,
    pub string: Symbol,
    pub boolean: Symbol,
    pub void: Symbol,
    pub c_int: Symbol,
    pub c_uint: Symbol,
    pub c_char: Symbol,
    pub c_size: Symbol,
    pub pointer: Symbol,
}

/// The common ids denote the types they are named after.
pub open spec fn common_types_ok(types: Seq<TypeV>, c: CommonTypes) -> bool {
    &&& (c.int.0 as int) < types.len() && types[c.int.0 as int] == TypeV::Int
    &&& (c.float.0 as int) < types.len() && types[c.float.0 as int] == TypeV::Float
    &&& (c.string.0 as int) < types.len() && types[c.string.0 as int] == TypeV::String
    &&& (c.boolean.0 as int) < types.len() && types[c.boolean.0 as int] == TypeV::Boolean
    &&& (c.void.0 as int) < types.len() && types[c.void.0 as int] == TypeV::Void
    &&& (c.error.0 as int) < types.len() && types[c.error.0 as int] == TypeV::Error
    &&& (c.any.0 as int) < types.len() && types[c.any.0 as int] == TypeV::Any
    &&& (c.null.0 as int) < types.len() && types[c.null.0 as int] == TypeV::Null
    &&& (c.range.0 as int) < types.len() && types[c.range.0 as int] == TypeV::Range
    &&& (c.builtin.0 as int) < types.len() && types[c.builtin.0 as int] == TypeV::BuiltinFunc
}

pub open spec fn name_is(names: Seq<Seq<char>>, s: Symbol, text: Seq<char>) -> bool {
    (s.0 as int) < names.len() && names[s.0 as int] == text
}

/// The common symbols denote the names they are named after.
pub open spec fn common_names_ok(names: Seq<Seq<char>>, c: CommonNames) -> bool {
    &&& name_is(names, c.print, "print"@)
    &&& name_is(names, c.self_name, "self"@)
    &&& name_is(names, c.init, "init"@)
    &&& name_is(names, c.wildcard, "_"@)
    &&& name_is(names, c.empty, ""@)
    &&& name_is(names, c.int, "Int"@)
    &&& name_is(names, c.float, "Float"@)
    &&& name_is(names, c.string, "String"@)
    &&& name_is(names, c.boolean, "Boolean"@)
    &&& name_is(names, c.void, "Void"@)
    &&& name_is(names, c.c_int, "CInt"@)
    &&& name_is(names, c.c_uint, "CUInt"@)
    &&& name_is(names, c.c_char, "CChar"@)
    &&& name_is(names, c.c_size, "CSize"@)
    &&& name_is(names, c.pointer, "Pointer"@)
}

/// A type whose parts are already in the arena and whose names are interned.
pub open spec fn type_fits(t: TypeV, n_types: nat, n_names: nat) -> bool {
    &&& forall|k: int| 0 <= k < type_children(t).len() ==> ((#[trigger] type_children(t)[k]).0 as nat) < n_types
    &&& forall|k: int| 0 <= k < type_symbols(t).len() ==> ((#[trigger] type_symbols(t)[k]).0 as nat) < n_names
}

/// All bindings of the environment name types in the arena.
pub open spec fn env_ids_below(scopes: Seq<Seq<(Symbol, Binding)>>, n: nat) -> bool {
    forall|i: int, j: int| 0 <= i < scopes.len() && 0 <= j < scopes[i].len()
        ==> ((#[trigger] scopes[i][j]).1.ty.0 as nat) < n
}

/// The member table entries name types in the arena.
pub open spec fn members_below(table: Seq<(Symbol, Vec<(Symbol, TypeId)>)>, n: nat) -> bool {
    forall|i: int, j: int| 0 <= i < table.len() && 0 <= j < table[i].1@.len()
        ==> ((#[trigger] table[i].1@[j]).1.0 as nat) < n
}

/// The binding a name denotes names a type in the arena.
pub proof fn lemma_lookup_below(scopes: Seq<Seq<(Symbol, Binding)>>, n: nat, name: Symbol)
    requires
        env_ids_below(scopes, n),
    ensures
        lookup(scopes, name) matches Some(b) ==> (b.ty.0 as nat) < n,
    decreases scopes.len(),
{
    if scopes.len() > 0 {
        let last = scopes.last();
        assert forall|j: int| 0 <= j < last.len() implies ((#[trigger] last[j]).1.ty.0 as nat) < n by {
            assert(scopes[scopes.len() - 1][j] == last[j]);
        }
        lemma_last_binding_below(last, n, name);
        let rest = scopes.drop_last();
        assert(env_ids_below(rest, n)) by {
            assert forall|i: int, j: int| 0 <= i < rest.len() && 0 <= j < rest[i].len()
                implies ((#[trigger] rest[i][j]).1.ty.0 as nat) < n by {
                assert(rest[i] == scopes[i]);
                assert(scopes[i][j] == rest[i][j]);
            }
        }
        lemma_lookup_below(rest, n, name);
    }
}

proof fn lemma_last_binding_below(decls: Seq<(Symbol, Binding)>, n: nat, name: Symbol)
    requires
        forall|j: int| 0 <= j < decls.len() ==> ((#[trigger] decls[j]).1.ty.0 as nat) < n,
    ensures
        last_binding(decls, name) matches Some(b) ==> (b.ty.0 as nat) < n,
    decreases decls.len(),
{
    if decls.len() > 0 {
        assert(decls[decls.len() - 1] == decls.last());
        let rest = decls.drop_last();
        assert forall|j: int| 0 <= j < rest.len() implies ((#[trigger] rest[j]).1.ty.0 as nat) < n by {
            assert(rest[j] == decls[j]);
        }
        lemma_last_binding_below(rest, n, name);
    }
}

/// Adding a type whose parts are in the arena keeps the arena well formed.
pub proof fn lemma_arena_push(types: Seq<TypeV>, names: Seq<Seq<char>>, t: TypeV)
    requires
        arena_well_formed(types, names),
        type_fits(t, types.len(), names.len()),
    ensures
        arena_well_formed(types.push(t), names),
{
    let ts = types.push(t);
    assert forall|i: int, k: int| 0 <= i < ts.len() && 0 <= k < type_children(ts[i]).len()
        implies (#[trigger] type_children(ts[i])[k]).0 < i by {
        if i < types.len() {
            assert(ts[i] == types[i]);
        }
    }
    assert forall|i: int, k: int| 0 <= i < ts.len() && 0 <= k < type_symbols(ts[i]).len()
        implies ((#[trigger] type_symbols(ts[i])[k]).0 as int) < names.len() by {
        if i < types.len() {
            assert(ts[i] == types[i]);
        }
    }
}

/// More interned names keep the arena well formed.
pub proof fn lemma_arena_more_names(types: Seq<TypeV>, names: Seq<Seq<char>>, more: Seq<Seq<char>>)
    requires
        arena_well_formed(types, names),
        more.len() >= names.len(),
    ensures
        arena_well_formed(types, more),
{
}

/// An integer type, native or C.
pub open spec fn int_like(t: TypeV) -> bool {
    t is Int || t is CInt || t is CUInt || t is CChar || t is CSize
}

/// A value of type `s` may be used where type `t` is expected: equal types,
/// the error type either way, integer types among themselves, `null` for an
/// optional, a value for its optional, anything for `Any`, and an instance
/// for an interface its class implements.
pub open spec fn assignable(
    types: Seq<TypeV>,
    implements: Seq<(Symbol, Vec<Symbol>)>,
    c: CommonTypes,
    s: TypeId,
    t: TypeId,
) -> bool
    decreases t.0,
{
    if !((s.0 as int) < types.len() && (t.0 as int) < types.len()) {
        false
    } else {
        ||| s == t
        ||| s == c.error
        ||| t == c.error
        ||| (int_like(types[s.0 as int]) && int_like(types[t.0 as int]))
        ||| (s == c.null && types[t.0 as int] is Optional)
        ||| (types[t.0 as int] matches TypeV::Optional(inner) && inner.0 < t.0 && assignable(types, implements, c, s, inner))
        ||| t == c.any
        ||| (types[s.0 as int] matches TypeV::Instance(cn) && types[t.0 as int] matches TypeV::Interface(i)
            && assoc(implements, cn) matches Some(v) && v@.contains(i))
    }
}

/// Whether `name` occurs in `v`.
pub fn contains_symbol(v: &Vec<Symbol>, name: Symbol) -> (r: bool)
    ensures
        r == v@.contains(name),
{
    let mut i: usize = 0;
    while i < v.len()
        invariant
            i <= v@.len(),
            forall|k: int| 0 <= k < i ==> v@[k] != name,
        decreases v@.len() - i,
    {
        if v[i] == name {
            assert(v@[i as int] == name);
            return true;
        }
        i = i + 1;
    }
    false
}

/// A generic class, kept by name until it is used: its type parameters and
/// the parameter types of its latest `init` method, if it has one.
pub struct GenericClass {
    pub type_params: Vec<Symbol>,
    pub init_params: Option<Vec<TypeExpr>>,
}

/// A generic function, kept by name until it is used: its type parameters,
/// parameter types and return type as written.
pub struct GenericFunction {
    pub type_params: Vec<Symbol>,
    pub params: Vec<TypeExpr>,
    pub return_type: Option<TypeExpr>,
}

/// The symbols of the kept generic classes are interned.
pub open spec fn generic_classes_interned(n: nat, table: Seq<(Symbol, GenericClass)>) -> bool {
    forall|i: int| 0 <= i < table.len() ==> {
        &&& ((#[trigger] table[i]).0.0 as nat) < n
        &&& symbols_below(n, table[i].1.type_params@)
        &&& (table[i].1.init_params matches Some(ps) ==> type_exprs_interned(n, ps@))
    }
}

/// The symbols of the kept generic functions are interned.
pub open spec fn generic_functions_interned(n: nat, table: Seq<(Symbol, GenericFunction)>) -> bool {
    forall|i: int| 0 <= i < table.len() ==> {
        &&& ((#[trigger] table[i]).0.0 as nat) < n
        &&& symbols_below(n, table[i].1.type_params@)
        &&& type_exprs_interned(n, table[i].1.params@)
        &&& opt_type_expr_interned(n, table[i].1.return_type)
    }
}

/// Infers and checks the types of a program, reporting mismatches.
pub struct TypeChecker {
    pub session: CompilerSession,
    pub env: TypeEnvironment,
    pub errors: Vec<Diagnostic>,
    pub current_return_type: Option<TypeId>,
    pub classes: Vec<(Symbol, Vec<(Symbol, TypeId)>)>,
    pub class_mutables: Vec<(Symbol, Vec<(Symbol, bool)>)>,
    pub interfaces: Vec<(Symbol, Vec<(Symbol, TypeId)>)>,
    pub enums: Vec<(Symbol, Vec<(Symbol, TypeId)>)>,
    pub class_implements: Vec<(Symbol, Vec<Symbol>)>,
    pub current_class: Option<Symbol>,
    pub uninitialized_class_properties: Vec<(Symbol, Vec<Symbol>)>,
    pub generic_classes: Vec<(Symbol, GenericClass)>,
    pub generic_functions: Vec<(Symbol, GenericFunction)>,
    pub is_checking_method: bool,
    pub common: CommonTypes,
    pub names: CommonNames,
    pub names_bound: Ghost<nat>,
}

impl TypeChecker {
    /// The invariant of the checker: the session is well formed, the common
    /// ids and names are right, and every stored type id is in the arena.
    pub open spec fn wf(&self) -> bool {
        let n = self.session.types@.len();
        &&& self.session.well_formed()
        &&& no_duplicates(self.session.interner@)
        &&& no_duplicate_types(self.session.types@)
        &&& self.session.types@.len() < u32::MAX
        &&& self.names_bound@ <= self.session.interner@.len()
        &&& common_types_ok(self.session.types@, self.common)
        &&& common_names_ok(self.session.interner@, self.names)
        &&& self.env@.len() >= 1
        &&& env_ids_below(self.env@, n)
        &&& (self.current_return_type matches Some(t) ==> (t.0 as nat) < n)
        &&& members_below(self.classes@, n)
        &&& members_below(self.interfaces@, n)
        &&& members_below(self.enums@, n)
        &&& (self.current_class matches Some(c) ==> (c.0 as nat) < self.session.interner@.len())
        &&& keys_unique(self.classes@)
        &&& keys_unique(self.class_mutables@)
        &&& keys_unique(self.interfaces@)
        &&& keys_unique(self.enums@)
        &&& keys_unique(self.class_implements@)
        &&& keys_unique(self.uninitialized_class_properties@)
        &&& keys_unique(self.generic_classes@)
        &&& keys_unique(self.generic_functions@)
        &&& generic_classes_interned(self.names_bound@, self.generic_classes@)
        &&& generic_functions_interned(self.names_bound@, self.generic_functions@)
        &&& forall|i: int, j: int| 0 <= i < self.interfaces@.len() && 0 <= j < self.interfaces@[i].1@.len()
            ==> ((#[trigger] self.interfaces@[i].1@[j]).0.0 as nat) < self.names_bound@
        &&& forall|i: int| 0 <= i < self.uninitialized_class_properties@.len()
            ==> symbols_below(self.names_bound@, (#[trigger] self.uninitialized_class_properties@[i]).1@)
    }

    /// The arena has room for one more type.
    pub open spec fn room(&self) -> bool {
        self.session.types@.len() + 1 < u32::MAX
    }

    /// What every checking step keeps: the invariant, the common ids, names
    /// and name bound; the arena, interner and errors only grow.
    pub open spec fn grows_from(&self, old: TypeChecker) -> bool {
        &&& self.wf()
        &&& self.common == old.common
        &&& self.names == old.names
        &&& self.names_bound == old.names_bound
        &&& self.session.types@.len() >= old.session.types@.len()
        &&& forall|k: int| 0 <= k < old.session.types@.len() ==> self.session.types@[k] == #[trigger] old.session.types@[k]
        &&& self.session.interner@.len() >= old.session.interner@.len()
        &&& forall|k: int| 0 <= k < old.session.interner@.len() ==> self.session.interner@[k] == #[trigger] old.session.interner@[k]
        &&& self.errors@.len() >= old.errors@.len()
        &&& forall|k: int| 0 <= k < old.errors@.len() ==> self.errors@[k] == #[trigger] old.errors@[k]
        &&& self.env@.len() == old.env@.len()
    }

    /// What checking a statement keeps: the invariant and what
    /// `grows_from` keeps; the outer scopes of the environment; the
    /// function and class being checked.  Declarations go to the innermost
    /// scope and to the tables.
    pub open spec fn stmt_step(&self, old: TypeChecker) -> bool {
        &&& self.grows_from(old)
        &&& self.env@.drop_last() == old.env@.drop_last()
        &&& self.current_return_type == old.current_return_type
        &&& self.current_class == old.current_class
    }

    /// Checking an expression also keeps the environment, the tables and
    /// the context.
    pub open spec fn expr_step(&self, old: TypeChecker) -> bool {
        &&& self.grows_from(old)
        &&& self.env@ == old.env@
        &&& self.current_return_type == old.current_return_type
        &&& self.classes == old.classes
        &&& self.class_mutables == old.class_mutables
        &&& self.interfaces == old.interfaces
        &&& self.enums == old.enums
        &&& self.class_implements == old.class_implements
        &&& self.current_class == old.current_class
        &&& self.uninitialized_class_properties == old.uninitialized_class_properties
        &&& self.generic_classes == old.generic_classes
        &&& self.generic_functions == old.generic_functions
        &&& self.is_checking_method == old.is_checking_method
    }

    /// A checker with an empty typing environment apart from `print`.
    pub fn new(session: CompilerSession) -> (tc: Self)
        requires
            session.well_formed(),
            session.types@.len() + 12 < u32::MAX,
            session.interner@.len() + 20 < u32::MAX,
        ensures
            tc.wf(),
            tc.errors@.len() == 0,
            tc.current_return_type is None,
            tc.current_class is None,
            !tc.is_checking_method,
            tc.classes@.len() == 0,
            tc.interfaces@.len() == 0,
            tc.enums@.len() == 0,
            tc.class_implements@.len() == 0,
            tc.generic_classes@.len() == 0,
            tc.generic_functions@.len() == 0,
            tc.env@ == seq![seq![(tc.names.print, Binding { ty: tc.common.builtin, is_mutable: false })]],
            tc.session.interner@.len() >= session.interner@.len(),
            forall|k: int| 0 <= k < session.interner@.len() ==> tc.session.interner@[k] == #[trigger] session.interner@[k],
            tc.session.types@.len() >= session.types@.len(),
            forall|k: int| 0 <= k < session.types@.len() ==> tc.session.types@[k] == #[trigger] session.types@[k],
            tc.names_bound@ == tc.session.interner@.len(),
    {
        let mut session = session;
        let names = Self::intern_names(&mut session);
        let common = Self::intern_common(&mut session);
        session.types.unique();
        let env = TypeEnvironment::new(names.print, common.builtin);
        let ghost bound: nat = session.interner@.len();
        TypeChecker {
            session,
            env,
            errors: Vec::new(),
            current_return_type: None,
            classes: Vec::new(),
            class_mutables: Vec::new(),
            interfaces: Vec::new(),
            enums: Vec::new(),
            class_implements: Vec::new(),
            current_class: None,
            uninitialized_class_properties: Vec::new(),
            generic_classes: Vec::new(),
            generic_functions: Vec::new(),
            is_checking_method: false,
            common,
            names,
            names_bound: Ghost(bound),
        }
    }

    fn intern_name(session: &mut CompilerSession, text: &str) -> (s: Symbol)
        requires
            old(session).well_formed(),
            old(session).interner@.len() + 1 < u32::MAX,
        ensures
            final(session).well_formed(),
            final(session).types == old(session).types,
            name_is(final(session).interner@, s, text@),
            no_duplicates(final(session).interner@),
            final(session).interner@.len() <= old(session).interner@.len() + 1,
            final(session).interner@.len() >= old(session).interner@.len(),
            forall|k: int| 0 <= k < old(session).interner@.len() ==> final(session).interner@[k] == #[trigger] old(session).interner@[k],
    {
        let ghost before = session.interner@;
        let s = session.interner.intern(text);
        proof { lemma_arena_more_names(session.types@, before, session.interner@); }
        s
    }

    #[verifier::rlimit(40)]
    fn intern_names(session: &mut CompilerSession) -> (names: CommonNames)
        requires
            old(session).well_formed(),
            old(session).interner@.len() + 20 < u32::MAX,
        ensures
            final(session).well_formed(),
            final(session).types == old(session).types,
            common_names_ok(final(session).interner@, names),
            no_duplicates(final(session).interner@),
            final(session).interner@.len() >= old(session).interner@.len(),
            forall|k: int| 0 <= k < old(session).interner@.len() ==> final(session).interner@[k] == #[trigger] old(session).interner@[k],
    {
        proof {
            reveal_strlit("print");
            reveal_strlit("self");
            reveal_strlit("init");
            reveal_strlit("_");
            reveal_strlit("");
            reveal_strlit("Int");
            reveal_strlit("Float");
            reveal_strlit("String");
            reveal_strlit("Boolean");
            reveal_strlit("Void");
            reveal_strlit("CInt");
            reveal_strlit("CUInt");
            reveal_strlit("CChar");
            reveal_strlit("CSize");
            reveal_strlit("Pointer");
        }
        let ghost n0 = session.interner@;
        let print = Self::intern_name(session, "print");
        let self_name = Self::intern_name(session, "self");
        let init = Self::intern_name(session, "init");
        let wildcard = Self::intern_name(session, "_");
        let empty = Self::intern_name(session, "");
        let ghost n1 = session.interner@;
        assert(name_is(n1, print, "print"@) && name_is(n1, self_name, "self"@) && name_is(n1, init, "init"@));
        let int_name = Self::intern_name(session, "Int");
        let float = Self::intern_name(session, "Float");
        let string = Self::intern_name(session, "String");
        let boolean = Self::intern_name(session, "Boolean");
        let void = Self::intern_name(session, "Void");
        let ghost n2 = session.interner@;
        assert(name_is(n2, print, "print"@) && name_is(n2, self_name, "self"@) && name_is(n2, init, "init"@)
            && name_is(n2, wildcard, "_"@) && name_is(n2, empty, ""@));
        let c_int = Self::intern_name(session, "CInt");
        let c_uint = Self::intern_name(session, "CUInt");
        let c_char = Self::intern_name(session, "CChar");
        let c_size = Self::intern_name(session, "CSize");
        let pointer = Self::intern_name(session, "Pointer");
        let ghost n3 = session.interner@;
        assert(name_is(n3, print, "print"@) && name_is(n3, self_name, "self"@) && name_is(n3, init, "init"@)
            && name_is(n3, wildcard, "_"@) && name_is(n3, empty, ""@));
        assert(name_is(n3, int_name, "Int"@) && name_is(n3, float, "Float"@) && name_is(n3, string, "String"@)
            && name_is(n3, boolean, "Boolean"@) && name_is(n3, void, "Void"@));
        assert(forall|k: int| 0 <= k < n0.len() ==> n3[k] == #[trigger] n0[k]);
        CommonNames {
            print, self_name, init, wildcard, empty, int: int_name, float, string, boolean, void, c_int, c_uint, c_char, c_size, pointer,
        }
    }

    #[verifier::rlimit(40)]
    fn intern_common(session: &mut CompilerSession) -> (common: CommonTypes)
        requires
            old(session).well_formed(),
            old(session).types@.len() + 12 < u32::MAX,
        ensures
            final(session).well_formed(),
            final(session).interner == old(session).interner,
            common_types_ok(final(session).types@, common),
            final(session).types@.len() >= old(session).types@.len(),
            final(session).types@.len() <= old(session).types@.len() + 10,
            forall|k: int| 0 <= k < old(session).types@.len() ==> final(session).types@[k] == #[trigger] old(session).types@[k],
    {
        let ghost t0 = session.types@;
        let builtin = Self::intern_basic(session, Type::BuiltinFunc);
        let int_ty = Self::intern_basic(session, Type::Int);
        let float = Self::intern_basic(session, Type::Float);
        let string = Self::intern_basic(session, Type::String);
        let boolean = Self::intern_basic(session, Type::Boolean);
        let ghost t1 = session.types@;
        assert(t1[builtin.0 as int] == TypeV::BuiltinFunc && t1[int_ty.0 as int] == TypeV::Int);
        let void = Self::intern_basic(session, Type::Void);
        let error = Self::intern_basic(session, Type::Error);
        let any = Self::intern_basic(session, Type::Any);
        let null = Self::intern_basic(session, Type::Null);
        let range = Self::intern_basic(session, Type::Range);
        let ghost t2 = session.types@;
        assert(t2[builtin.0 as int] == TypeV::BuiltinFunc && t2[int_ty.0 as int] == TypeV::Int
            && t2[float.0 as int] == TypeV::Float && t2[string.0 as int] == TypeV::String
            && t2[boolean.0 as int] == TypeV::Boolean);
        assert(forall|k: int| 0 <= k < t0.len() ==> t2[k] == #[trigger] t0[k]);
        CommonTypes { int: int_ty, float, string, boolean, void, error, any, null, range, builtin }
    }

    /// Interns a type without parts while building a checker.
    fn intern_basic(session: &mut CompilerSession, ty: Type) -> (id: TypeId)
        requires
            old(session).well_formed(),
            old(session).types@.len() + 1 < u32::MAX,
            type_children(ty@).len() == 0,
            type_symbols(ty@).len() == 0,
        ensures
            final(session).well_formed(),
            final(session).interner == old(session).interner,
            final(session).types@.len() <= old(session).types@.len() + 1,
            final(session).types@.len() >= old(session).types@.len(),
            forall|k: int| 0 <= k < old(session).types@.len() ==> final(session).types@[k] == #[trigger] old(session).types@[k],
            (id.0 as int) < final(session).types@.len(),
            final(session).types@[id.0 as int] == ty@,
    {
        let ghost t = ty@;
        proof { lemma_arena_push(session.types@, session.interner@, t); }
        session.types.intern(ty)
    }

    /// Interns a type whose parts are in the arena.  When the arena is full
    /// (it holds `u32::MAX - 1` types) the type is not added and the error
    /// type stands for it.
    pub fn intern_type(&mut self, ty: Type) -> (id: TypeId)
        requires
            old(self).wf(),
            type_fits(ty@, old(self).session.types@.len(), old(self).session.interner@.len()),
        ensures
            final(self).expr_step(*old(self)),
            final(self).errors == old(self).errors,
            (id.0 as int) < final(self).session.types@.len(),
            old(self).session.types@.len() + 1 < u32::MAX ==> final(self).ty(id) == ty@,
            old(self).session.types@.len() + 1 >= u32::MAX ==> id == old(self).common.error,
            old(self).session.types@.contains(ty@) ==> final(self).session.types@ == old(self).session.types@,
    {
        if self.session.types.len() + 1 < 4294967295 {
            proof {
                lemma_arena_push(self.session.types@, self.session.interner@, ty@);
            }
            self.session.types.intern(ty)
        } else {
            self.common.error
        }
    }

    /// Interns a name.  When the interner is full (it holds `u32::MAX - 1`
    /// names) the name is not added and the empty name stands for it.
    pub fn intern_text(&mut self, text: &str) -> (sym: Symbol)
        requires
            old(self).wf(),
        ensures
            final(self).expr_step(*old(self)),
            final(self).errors == old(self).errors,
            final(self).session.types == old(self).session.types,
            (sym.0 as int) < final(self).session.interner@.len(),
            old(self).session.interner@.len() + 1 < u32::MAX ==> final(self).session.interner@[sym.0 as int] == text@,
    {
        if self.session.interner.len() < 4294967294 {
            let ghost before = self.session.interner@;
            let sym = self.session.interner.intern(text);
            proof { lemma_arena_more_names(self.session.types@, before, self.session.interner@); }
            sym
        } else {
            self.names.empty
        }
    }

    /// Declares `name` in the innermost scope.
    pub fn declare_name(&mut self, name: Symbol, ty: TypeId, is_mutable: bool)
        requires
            old(self).wf(),
            (ty.0 as int) < old(self).session.types@.len(),
        ensures
            final(self).wf(),
            final(self).env@ == with_declaration(old(self).env@, name, Binding { ty, is_mutable }),
            final(self).same_but_env(*old(self)),
    {
        let ghost before = self.env@;
        self.env.declare_var(name, ty, is_mutable);
        proof {
            let after = self.env@;
            assert forall|a: int, c: int| 0 <= a < after.len() && 0 <= c < after[a].len()
                implies ((#[trigger] after[a][c]).1.ty.0 as nat) < self.session.types@.len() by {
                if a < after.len() - 1 {
                    assert(after[a] == before[a]);
                } else if c < before.last().len() {
                    assert(after[a][c] == before[a][c]);
                }
            }
        }
    }

    /// Enters a new innermost scope.
    pub fn enter_scope(&mut self)
        requires
            old(self).wf(),
        ensures
            final(self).wf(),
            final(self).env@ == old(self).env@.push(Seq::empty()),
            final(self).same_but_env(*old(self)),
    {
        let ghost before = self.env@;
        self.env.push_scope();
        proof {
            let after = self.env@;
            assert forall|a: int, c: int| 0 <= a < after.len() && 0 <= c < after[a].len()
                implies ((#[trigger] after[a][c]).1.ty.0 as nat) < self.session.types@.len() by {
                assert(after[a] == before[a]);
            }
        }
    }

    /// Leaves the innermost scope.
    pub fn leave_scope(&mut self)
        requires
            old(self).wf(),
            old(self).env@.len() > 1,
        ensures
            final(self).wf(),
            final(self).env@ == old(self).env@.drop_last(),
            final(self).same_but_env(*old(self)),
    {
        let ghost before = self.env@;
        self.env.pop_scope();
        proof {
            let after = self.env@;
            assert forall|a: int, c: int| 0 <= a < after.len() && 0 <= c < after[a].len()
                implies ((#[trigger] after[a][c]).1.ty.0 as nat) < self.session.types@.len() by {
                assert(after[a] == before[a]);
            }
        }
    }

    /// Everything but the environment is as in `old`.
    pub open spec fn same_but_env(&self, old: TypeChecker) -> bool {
        &&& self.session == old.session
        &&& self.errors == old.errors
        &&& self.current_return_type == old.current_return_type
        &&& self.classes == old.classes
        &&& self.class_mutables == old.class_mutables
        &&& self.interfaces == old.interfaces
        &&& self.enums == old.enums
        &&& self.class_implements == old.class_implements
        &&& self.current_class == old.current_class
        &&& self.uninitialized_class_properties == old.uninitialized_class_properties
        &&& self.generic_classes == old.generic_classes
        &&& self.generic_functions == old.generic_functions
        &&& self.is_checking_method == old.is_checking_method
        &&& self.common == old.common
        &&& self.names == old.names
        &&& self.names_bound == old.names_bound
    }

    /// Reports an error.
    pub fn error(&mut self, span: Span, code: DiagnosticCode, message: &str)
        requires
            old(self).wf(),
        ensures
            final(self).expr_step(*old(self)),
            final(self).session == old(self).session,
            diagnostics_view(final(self).errors@) == diagnostics_view(old(self).errors@).push(
                DiagnosticV { code, message: message@, span }),
    {
        self.errors.push(Diagnostic::error(code, String::from_str(message), span));
        assert(diagnostics_view(self.errors@) =~= diagnostics_view(old(self).errors@).push(
            DiagnosticV { code, message: message@, span }));
    }

    /// The display text of a type.
    pub fn fmt(&self, t: TypeId) -> (s: String)
        requires
            self.wf(),
            (t.0 as int) < self.session.types@.len(),
        ensures
            s@ == self.text(t),
    {
        self.session.format_type(t)
    }

    /// A copy of the type with id `t`.
    pub fn get_type(&self, t: TypeId) -> (ty: Type)
        requires
            (t.0 as int) < self.session.types@.len(),
        ensures
            ty@ == self.ty(t),
    {
        self.session.types.get(t).duplicate()
    }

    /// Whether a value of type `source` may be used where `target` is
    /// expected.
    pub fn is_assignable(&self, source: TypeId, target: TypeId) -> (r: bool)
        requires
            self.wf(),
            (source.0 as int) < self.session.types@.len(),
            (target.0 as int) < self.session.types@.len(),
        ensures
            r == assignable(self.session.types@, self.class_implements@, self.common, source, target),
        decreases target.0,
    {
        if source == target || source == self.common.error || target == self.common.error {
            return true;
        }
        let source_ty = self.session.types.get(source);
        let target_ty = self.session.types.get(target);
        let is_source_int = match source_ty {
            Type::Int | Type::CInt | Type::CUInt | Type::CChar | Type::CSize => true,
            _ => false,
        };
        let is_target_int = match target_ty {
            Type::Int | Type::CInt | Type::CUInt | Type::CChar | Type::CSize => true,
            _ => false,
        };
        if is_source_int && is_target_int {
            return true;
        }
        let target_optional = match target_ty {
            Type::Optional(_) => true,
            _ => false,
        };
        if source == self.common.null && target_optional {
            return true;
        }
        match target_ty {
            Type::Optional(inner) => {
                proof {
                    let i = target.0 as int;
                    assert(type_children(self.session.types@[i])[0] == *inner);
                }
                if self.is_assignable(source, *inner) {
                    return true;
                }
            },
            _ => {},
        }
        if target == self.common.any {
            return true;
        }
        match (source_ty, target_ty) {
            (Type::Instance(class_name), Type::Interface(interface_name)) => {
                match self.implements_of(*class_name) {
                    Some(implements) => {
                        if contains_symbol(implements, *interface_name) {
                            return true;
                        }
                    },
                    None => {},
                }
            },
            _ => {},
        }
        false
    }

    /// The interfaces that class `name` was declared to implement.
    fn implements_of(&self, name: Symbol) -> (r: Option<&Vec<Symbol>>)
        ensures
            r matches Some(v) ==> assoc(self.class_implements@, name) == Some(*v),
            r is None ==> assoc(self.class_implements@, name) is None,
    {
        let mut i = self.class_implements.len();
        assert(self.class_implements@.take(i as int) =~= self.class_implements@);
        while i > 0
            invariant
                i <= self.class_implements@.len(),
                assoc(self.class_implements@, name) == assoc(self.class_implements@.take(i as int), name),
            decreases i,
        {
            proof {
                let t = self.class_implements@.take(i as int);
                assert(t.drop_last() =~= self.class_implements@.take(i - 1));
            }
            if self.class_implements[i - 1].0 == name {
                return Some(&self.class_implements[i - 1].1);
            }
            i = i - 1;
        }
        None
    }

    /// The display text of a type id.
    pub open spec fn text(&self, t: TypeId) -> Seq<char> {
        type_text(self.session.types@, self.session.interner@, t.0 as int)
    }

    /// The view of a type id.
    pub open spec fn ty(&self, t: TypeId) -> TypeV {
        self.session.types@[t.0 as int]
    }
}

} // verus!
