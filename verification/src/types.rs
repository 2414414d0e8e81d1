use vstd::prelude::*;
use crate::interner::Symbol;

verus! {

/// The handle of an interned type: its position in the type arena.
#[derive(Debug, Clone, Copy, PartialEq, Eq, Hash, Structural)]
pub struct TypeId(pub u32);

/// A semantic type.  Compound types refer to their parts by `TypeId`.
#[derive(Debug, PartialEq, Eq)]
pub enum Type {
    Int,
    Float,
    String,
    Boolean,
    Void,
    Error,
    Any,
    BuiltinFunc,
    OverloadedFunction(Vec<(Symbol, TypeId)>),
    Function(Vec<Symbol>, Vec<TypeId>, TypeId),
    EnumVariantConstructor(Symbol, Symbol, Vec<Symbol>, Vec<TypeId>, TypeId),
    Class(Symbol, Vec<Symbol>),
    Struct(Symbol, Vec<Symbol>),
    Enum(Symbol, Vec<Symbol>),
    Instance(Symbol),
    Generic(Symbol),
    GenericInstance(Symbol, Vec<TypeId>),
    Interface(Symbol),
    Optional(TypeId),
    Array(TypeId),
    Range,
    Null,
    // FFI Types
    CInt,
    CUInt,
    CChar,
    CSize,
    Pointer(TypeId),
}

/// The mathematical value of a `Type`: the same shape, with sequences in
/// place of vectors.
pub enum TypeV {
    Int,
    Float,
    String,
    Boolean,
    Void,
    Error,
    Any,
    BuiltinFunc,
    OverloadedFunction(Seq<(Symbol, TypeId)>),
    Function(Seq<Symbol>, Seq<TypeId>, TypeId),
    EnumVariantConstructor(Symbol, Symbol, Seq<Symbol>, Seq<TypeId>, TypeId),
    Class(Symbol, Seq<Symbol>),
    Struct(Symbol, Seq<Symbol>),
    Enum(Symbol, Seq<Symbol>),
    Instance(Symbol),
    Generic(Symbol),
    GenericInstance(Symbol, Seq<TypeId>),
    Interface(Symbol),
    Optional(TypeId),
    Array(TypeId),
    Range,
    Null,
    CInt,
    CUInt,
    CChar,
    CSize,
    Pointer(TypeId),
}

impl View for Type {
    type V = TypeV;

    open spec fn view(&self) -> TypeV {
        match self {
            Type::Int => TypeV::Int,
            Type::Float => TypeV::Float,
            Type::String => TypeV::String,
            Type::Boolean => TypeV::Boolean,
            Type::Void => TypeV::Void,
            Type::Error => TypeV::Error,
            Type::Any => TypeV::Any,
            Type::BuiltinFunc => TypeV::BuiltinFunc,
            Type::OverloadedFunction(fs) => TypeV::OverloadedFunction(fs@),
            Type::Function(tps, ps, r) => TypeV::Function(tps@, ps@, *r),
            Type::EnumVariantConstructor(e, v, tps, ps, r) => TypeV::EnumVariantConstructor(*e, *v, tps@, ps@, *r),
            Type::Class(n, tps) => TypeV::Class(*n, tps@),
            Type::Struct(n, tps) => TypeV::Struct(*n, tps@),
            Type::Enum(n, tps) => TypeV::Enum(*n, tps@),
            Type::Instance(n) => TypeV::Instance(*n),
            Type::Generic(n) => TypeV::Generic(*n),
            Type::GenericInstance(n, args) => TypeV::GenericInstance(*n, args@),
            Type::Interface(n) => TypeV::Interface(*n),
            Type::Optional(i) => TypeV::Optional(*i),
            Type::Array(i) => TypeV::Array(*i),
            Type::Range => TypeV::Range,
            Type::Null => TypeV::Null,
            Type::CInt => TypeV::CInt,
            Type::CUInt => TypeV::CUInt,
            Type::CChar => TypeV::CChar,
            Type::CSize => TypeV::CSize,
            Type::Pointer(i) => TypeV::Pointer(*i),
        }
    }
}

/// The type ids that a type refers to directly.
pub open spec fn type_children(t: TypeV) -> Seq<TypeId> {
    match t {
        TypeV::OverloadedFunction(fs) => fs.map_values(|p: (Symbol, TypeId)| p.1),
        TypeV::Function(_, ps, r) => ps.push(r),
        TypeV::EnumVariantConstructor(_, _, _, ps, r) => ps.push(r),
        TypeV::GenericInstance(_, args) => args,
        TypeV::Optional(i) => seq![i],
        TypeV::Array(i) => seq![i],
        TypeV::Pointer(i) => seq![i],
        _ => Seq::empty(),
    }
}

/// The symbols that a type names directly.
pub open spec fn type_symbols(t: TypeV) -> Seq<Symbol> {
    match t {
        TypeV::OverloadedFunction(fs) => fs.map_values(|p: (Symbol, TypeId)| p.0),
        TypeV::Function(tps, _, _) => tps,
        TypeV::EnumVariantConstructor(e, v, tps, _, _) => seq![e, v] + tps,
        TypeV::Class(n, tps) => seq![n] + tps,
        TypeV::Struct(n, tps) => seq![n] + tps,
        TypeV::Enum(n, tps) => seq![n] + tps,
        TypeV::Instance(n) => seq![n],
        TypeV::Generic(n) => seq![n],
        TypeV::GenericInstance(n, _) => seq![n],
        TypeV::Interface(n) => seq![n],
        _ => Seq::empty(),
    }
}

fn symbols_eq(a: &Vec<Symbol>, b: &Vec<Symbol>) -> (r: bool)
    ensures
        r == (a@ == b@),
{
    if a.len() != b.len() {
        return false;
    }
    let mut i: usize = 0;
    while i < a.len()
        invariant
            a.len() == b.len(),
            i <= a.len(),
            forall|k: int| 0 <= k < i ==> a@[k] == b@[k],
        decreases a.len() - i,
    {
        if a[i] != b[i] {
            return false;
        }
        i = i + 1;
    }
    assert(a@ =~= b@);
    true
}

fn ids_eq(a: &Vec<TypeId>, b: &Vec<TypeId>) -> (r: bool)
    ensures
        r == (a@ == b@),
{
    if a.len() != b.len() {
        return false;
    }
    let mut i: usize = 0;
    while i < a.len()
        invariant
            a.len() == b.len(),
            i <= a.len(),
            forall|k: int| 0 <= k < i ==> a@[k] == b@[k],
        decreases a.len() - i,
    {
        if a[i] != b[i] {
            return false;
        }
        i = i + 1;
    }
    assert(a@ =~= b@);
    true
}

fn pairs_eq(a: &Vec<(Symbol, TypeId)>, b: &Vec<(Symbol, TypeId)>) -> (r: bool)
    ensures
        r == (a@ == b@),
{
    if a.len() != b.len() {
        return false;
    }
    let mut i: usize = 0;
    while i < a.len()
        invariant
            a.len() == b.len(),
            i <= a.len(),
            forall|k: int| 0 <= k < i ==> a@[k] == b@[k],
        decreases a.len() - i,
    {
        let (s1, t1) = a[i];
        let (s2, t2) = b[i];
        if s1 != s2 || t1 != t2 {
            return false;
        }
        i = i + 1;
    }
    assert(a@ =~= b@);
    true
}

/// A copy of a vector of symbols.
pub fn copy_symbols(v: &Vec<Symbol>) -> (r: Vec<Symbol>)
    ensures
        r@ == v@,
{
    let mut r: Vec<Symbol> = Vec::new();
    let mut i: usize = 0;
    while i < v.len()
        invariant
            i <= v.len(),
            r@ == v@.take(i as int),
        decreases v.len() - i,
    {
        r.push(v[i]);
        i = i + 1;
        assert(r@ =~= v@.take(i as int));
    }
    assert(v@.take(v.len() as int) =~= v@);
    r
}

/// A copy of a vector of type ids.
pub fn copy_ids(v: &Vec<TypeId>) -> (r: Vec<TypeId>)
    ensures
        r@ == v@,
{
    let mut r: Vec<TypeId> = Vec::new();
    let mut i: usize = 0;
    while i < v.len()
        invariant
            i <= v.len(),
            r@ == v@.take(i as int),
        decreases v.len() - i,
    {
        r.push(v[i]);
        i = i + 1;
        assert(r@ =~= v@.take(i as int));
    }
    assert(v@.take(v.len() as int) =~= v@);
    r
}

fn copy_pairs(v: &Vec<(Symbol, TypeId)>) -> (r: Vec<(Symbol, TypeId)>)
    ensures
        r@ == v@,
{
    let mut r: Vec<(Symbol, TypeId)> = Vec::new();
    let mut i: usize = 0;
    while i < v.len()
        invariant
            i <= v.len(),
            r@ == v@.take(i as int),
        decreases v.len() - i,
    {
        let (s, t) = v[i];
        r.push((s, t));
        i = i + 1;
        assert(r@ =~= v@.take(i as int));
    }
    assert(v@.take(v.len() as int) =~= v@);
    r
}

impl Type {
    /// Structural equality of two types.
    pub fn same_as(&self, other: &Type) -> (r: bool)
        ensures
            r == (self@ == other@),
    {
        match (self, other) {
            (Type::Int, Type::Int) => true,
            (Type::Float, Type::Float) => true,
            (Type::String, Type::String) => true,
            (Type::Boolean, Type::Boolean) => true,
            (Type::Void, Type::Void) => true,
            (Type::Error, Type::Error) => true,
            (Type::Any, Type::Any) => true,
            (Type::BuiltinFunc, Type::BuiltinFunc) => true,
            (Type::OverloadedFunction(a), Type::OverloadedFunction(b)) => pairs_eq(a, b),
            (Type::Function(a1, a2, a3), Type::Function(b1, b2, b3)) => *a3 == *b3 && symbols_eq(a1, b1) && ids_eq(a2, b2),
            (Type::EnumVariantConstructor(a1, a2, a3, a4, a5), Type::EnumVariantConstructor(b1, b2, b3, b4, b5)) => {
                *a1 == *b1 && *a2 == *b2 && *a5 == *b5 && symbols_eq(a3, b3) && ids_eq(a4, b4)
            },
            (Type::Class(a1, a2), Type::Class(b1, b2)) => *a1 == *b1 && symbols_eq(a2, b2),
            (Type::Struct(a1, a2), Type::Struct(b1, b2)) => *a1 == *b1 && symbols_eq(a2, b2),
            (Type::Enum(a1, a2), Type::Enum(b1, b2)) => *a1 == *b1 && symbols_eq(a2, b2),
            (Type::Instance(a), Type::Instance(b)) => *a == *b,
            (Type::Generic(a), Type::Generic(b)) => *a == *b,
            (Type::GenericInstance(a1, a2), Type::GenericInstance(b1, b2)) => *a1 == *b1 && ids_eq(a2, b2),
            (Type::Interface(a), Type::Interface(b)) => *a == *b,
            (Type::Optional(a), Type::Optional(b)) => *a == *b,
            (Type::Array(a), Type::Array(b)) => *a == *b,
            (Type::Range, Type::Range) => true,
            (Type::Null, Type::Null) => true,
            (Type::CInt, Type::CInt) => true,
            (Type::CUInt, Type::CUInt) => true,
            (Type::CChar, Type::CChar) => true,
            (Type::CSize, Type::CSize) => true,
            (Type::Pointer(a), Type::Pointer(b)) => *a == *b,
            _ => false,
        }
    }

    /// A copy of this type.
    pub fn duplicate(&self) -> (r: Type)
        ensures
            r@ == self@,
    {
        match self {
            Type::Int => Type::Int,
            Type::Float => Type::Float,
            Type::String => Type::String,
            Type::Boolean => Type::Boolean,
            Type::Void => Type::Void,
            Type::Error => Type::Error,
            Type::Any => Type::Any,
            Type::BuiltinFunc => Type::BuiltinFunc,
            Type::OverloadedFunction(fs) => Type::OverloadedFunction(copy_pairs(fs)),
            Type::Function(tps, ps, r) => Type::Function(copy_symbols(tps), copy_ids(ps), *r),
            Type::EnumVariantConstructor(e, v, tps, ps, r) => Type::EnumVariantConstructor(*e, *v, copy_symbols(tps), copy_ids(ps), *r),
            Type::Class(n, tps) => Type::Class(*n, copy_symbols(tps)),
            Type::Struct(n, tps) => Type::Struct(*n, copy_symbols(tps)),
            Type::Enum(n, tps) => Type::Enum(*n, copy_symbols(tps)),
            Type::Instance(n) => Type::Instance(*n),
            Type::Generic(n) => Type::Generic(*n),
            Type::GenericInstance(n, args) => Type::GenericInstance(*n, copy_ids(args)),
            Type::Interface(n) => Type::Interface(*n),
            Type::Optional(i) => Type::Optional(*i),
            Type::Array(i) => Type::Array(*i),
            Type::Range => Type::Range,
            Type::Null => Type::Null,
            Type::CInt => Type::CInt,
            Type::CUInt => Type::CUInt,
            Type::CChar => Type::CChar,
            Type::CSize => Type::CSize,
            Type::Pointer(i) => Type::Pointer(*i),
        }
    }
}

/// The types of a compilation, each stored once.  A type's id is its
/// position in the arena.
pub struct TypeArena {
    types: Vec<Type>,
}

/// No type occurs twice in `types`.
pub open spec fn no_duplicate_types(types: Seq<TypeV>) -> bool {
    forall|i: int, j: int| 0 <= i < types.len() && 0 <= j < types.len() && i != j ==> types[i] != types[j]
}

impl View for TypeArena {
    type V = Seq<TypeV>;

    closed spec fn view(&self) -> Seq<TypeV> {
        self.types@.map_values(|t: Type| t@)
    }
}

impl Default for TypeArena {
    fn default() -> (res: Self)
        ensures
            res@ == Seq::<TypeV>::empty(),
    {
        TypeArena::new()
    }
}

impl TypeArena {
    #[verifier::type_invariant]
    closed spec fn inv(self) -> bool {
        no_duplicate_types(self@)
    }

    pub fn new() -> (res: Self)
        ensures
            res@ == Seq::<TypeV>::empty(),
    {
        let res = TypeArena { types: Vec::new() };
        assert(res@ =~= Seq::<TypeV>::empty());
        res
    }

    /// Interns a type and returns its unique id.
    pub fn intern(&mut self, ty: Type) -> (id: TypeId)
        requires
            old(self)@.len() < u32::MAX,
        ensures
            old(self)@.contains(ty@) ==> final(self)@ == old(self)@,
            !old(self)@.contains(ty@) ==> final(self)@ == old(self)@.push(ty@),
            (id.0 as int) < final(self)@.len(),
            final(self)@[id.0 as int] == ty@,
            no_duplicate_types(final(self)@),
    {
        proof {
            use_type_invariant(&*self);
        }
        let n = self.types.len();
        let mut i: usize = 0;
        while i < n
            invariant
                n == self.types.len(),
                0 <= i <= n,
                n < u32::MAX,
                no_duplicate_types(self@),
                forall|k: int| 0 <= k < i ==> self@[k] != ty@,
            decreases n - i,
        {
            if self.types[i].same_as(&ty) {
                assert(self@[i as int] == ty@);
                return TypeId(i as u32);
            }
            i = i + 1;
        }
        assert(!self@.contains(ty@));
        let id = TypeId(n as u32);
        let mut types: Vec<Type> = Vec::new();
        std::mem::swap(&mut types, &mut self.types);
        types.push(ty);
        assert(types@.map_values(|t: Type| t@) =~= old(self)@.push(ty@));
        self.types = types;
        id
    }

    /// No type is stored twice.
    pub fn unique(&self)
        ensures
            no_duplicate_types(self@),
    {
        proof {
            use_type_invariant(self);
        }
    }

    /// The number of types in the arena.
    pub fn len(&self) -> (n: usize)
        ensures
            n == self@.len(),
    {
        self.types.len()
    }

    /// The type with the given id.
    pub fn get(&self, id: TypeId) -> (t: &Type)
        requires
            (id.0 as int) < self@.len(),
        ensures
            t@ == self@[id.0 as int],
    {
        &self.types[id.0 as usize]
    }
}

} // verus!
