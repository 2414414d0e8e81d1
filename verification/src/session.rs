use vstd::prelude::*;
use crate::interner::{Interner, Symbol};
use crate::types::{Type, TypeArena, TypeId, TypeV, type_children, type_symbols};

verus! {

/// The state shared by the phases of one compilation: the string interner
/// and the type arena.
pub struct CompilerSession {
    pub interner: Interner,
    pub types: TypeArena,
}

/// The characters of the decimal numeral for `n`.
pub open spec fn decimal(n: nat) -> Seq<char>
    decreases n,
{
    if n < 10 {
        seq![digit_char(n)]
    } else {
        decimal(n / 10).push(digit_char(n % 10))
    }
}

pub open spec fn digit_char(d: nat) -> char {
    if d == 0 { '0' }
    else if d == 1 { '1' }
    else if d == 2 { '2' }
    else if d == 3 { '3' }
    else if d == 4 { '4' }
    else if d == 5 { '5' }
    else if d == 6 { '6' }
    else if d == 7 { '7' }
    else if d == 8 { '8' }
    else { '9' }
}

/// The parts joined by `", "`.
pub open spec fn join_comma(parts: Seq<Seq<char>>) -> Seq<char>
    decreases parts.len(),
{
    if parts.len() == 0 {
        Seq::empty()
    } else if parts.len() == 1 {
        parts[0]
    } else {
        join_comma(parts.drop_last()) + ", "@ + parts.last()
    }
}

/// The text of a symbol, or nothing for a symbol that was never interned.
pub open spec fn symbol_text(names: Seq<Seq<char>>, s: Symbol) -> Seq<char> {
    if (s.0 as int) < names.len() {
        names[s.0 as int]
    } else {
        Seq::empty()
    }
}

/// `"<A, B>"` for a non-empty list of type parameters, nothing otherwise.
pub open spec fn type_params_text(names: Seq<Seq<char>>, tps: Seq<Symbol>) -> Seq<char> {
    if tps.len() == 0 {
        Seq::empty()
    } else {
        "<"@ + join_comma(tps.map_values(|p: Symbol| symbol_text(names, p))) + ">"@
    }
}

/// Every type in the arena refers only to types stored before it and to
/// interned symbols.
pub open spec fn arena_well_formed(types: Seq<TypeV>, names: Seq<Seq<char>>) -> bool {
    &&& forall|i: int, k: int|
        0 <= i < types.len() && 0 <= k < type_children(types[i]).len()
            ==> (#[trigger] type_children(types[i])[k]).0 < i
    &&& forall|i: int, k: int|
        0 <= i < types.len() && 0 <= k < type_symbols(types[i]).len()
            ==> ((#[trigger] type_symbols(types[i])[k]).0 as int) < names.len()
}

/// The display texts of the types `ids`, joined by `", "`; only ids below
/// `bound` are rendered.
pub open spec fn types_text(types: Seq<TypeV>, names: Seq<Seq<char>>, ids: Seq<TypeId>, bound: int) -> Seq<char>
    decreases bound, ids.len(),
{
    if ids.len() == 0 {
        Seq::empty()
    } else {
        let c = ids.last();
        let last = if (c.0 as int) < bound { type_text(types, names, c.0 as int) } else { Seq::empty() };
        if ids.len() == 1 {
            last
        } else {
            types_text(types, names, ids.drop_last(), bound) + ", "@ + last
        }
    }
}

/// The display text of the type with id `id`.
pub open spec fn type_text(types: Seq<TypeV>, names: Seq<Seq<char>>, id: int) -> Seq<char>
    decreases id + 1, 0int,
{
    if id < 0 || id >= types.len() {
        Seq::empty()
    } else {
        let child_text = |c: TypeId| if (c.0 as int) < id { type_text(types, names, c.0 as int) } else { Seq::empty() };
        match types[id] {
            TypeV::Int => "Int"@,
            TypeV::Float => "Float"@,
            TypeV::String => "String"@,
            TypeV::Boolean => "Boolean"@,
            TypeV::Void => "Void"@,
            TypeV::Error => "<ErrorType>"@,
            TypeV::Any => "Any"@,
            TypeV::Range => "Range"@,
            TypeV::BuiltinFunc => "<BuiltinFunc>"@,
            TypeV::OverloadedFunction(fs) => "<OverloadedFunction("@ + decimal(fs.len()) + " variants)>"@,
            TypeV::Function(tps, ps, r) => "Func"@ + type_params_text(names, tps) + "("@
                + types_text(types, names, ps, id) + ") -> "@ + child_text(r),
            TypeV::EnumVariantConstructor(e, v, tps, ps, r) => "VariantConstructor("@ + symbol_text(names, e)
                + "::"@ + symbol_text(names, v) + ")"@ + type_params_text(names, tps) + "("@
                + types_text(types, names, ps, id) + ") -> "@ + child_text(r),
            TypeV::Class(n, tps) => "Class("@ + symbol_text(names, n) + ")"@ + type_params_text(names, tps),
            TypeV::Struct(n, tps) => "Struct("@ + symbol_text(names, n) + ")"@ + type_params_text(names, tps),
            TypeV::Enum(n, tps) => "Enum("@ + symbol_text(names, n) + ")"@ + type_params_text(names, tps),
            TypeV::Instance(n) => symbol_text(names, n),
            TypeV::Generic(n) => symbol_text(names, n),
            TypeV::GenericInstance(n, args) => symbol_text(names, n) + "<"@ + types_text(types, names, args, id) + ">"@,
            TypeV::Interface(n) => "Interface("@ + symbol_text(names, n) + ")"@,
            TypeV::Optional(i) => child_text(i) + "?"@,
            TypeV::Array(i) => "["@ + child_text(i) + "]"@,
            TypeV::Null => "Null"@,
            TypeV::CInt => "CInt"@,
            TypeV::CUInt => "CUInt"@,
            TypeV::CChar => "CChar"@,
            TypeV::CSize => "CSize"@,
            TypeV::Pointer(i) => "Pointer<"@ + child_text(i) + ">"@,
        }
    }
}

fn digit_str(d: usize) -> (s: &'static str)
    requires
        d < 10,
    ensures
        s@ == seq![digit_char(d as nat)],
{
    proof {
        reveal_strlit("0");
        reveal_strlit("1");
        reveal_strlit("2");
        reveal_strlit("3");
        reveal_strlit("4");
        reveal_strlit("5");
        reveal_strlit("6");
        reveal_strlit("7");
        reveal_strlit("8");
        reveal_strlit("9");
    }
    if d == 0 { "0" }
    else if d == 1 { "1" }
    else if d == 2 { "2" }
    else if d == 3 { "3" }
    else if d == 4 { "4" }
    else if d == 5 { "5" }
    else if d == 6 { "6" }
    else if d == 7 { "7" }
    else if d == 8 { "8" }
    else { "9" }
}

/// The decimal numeral for `n`.
pub fn decimal_string(n: usize) -> (s: String)
    ensures
        s@ == decimal(n as nat),
    decreases n,
{
    if n < 10 {
        String::from_str(digit_str(n))
    } else {
        let mut s = decimal_string(n / 10);
        s.append(digit_str(n % 10));
        s
    }
}

impl Default for CompilerSession {
    fn default() -> (res: Self)
        ensures
            res.interner@ == Seq::<Seq<char>>::empty(),
            res.types@ == Seq::<TypeV>::empty(),
    {
        CompilerSession::new()
    }
}

impl CompilerSession {
    /// A session with nothing interned yet.
    pub fn new() -> (res: Self)
        ensures
            res.interner@ == Seq::<Seq<char>>::empty(),
            res.types@ == Seq::<TypeV>::empty(),
    {
        CompilerSession { interner: Interner::new(), types: TypeArena::new() }
    }

    /// The session's types refer only to earlier types and interned symbols.
    pub open spec fn well_formed(&self) -> bool {
        arena_well_formed(self.types@, self.interner@)
    }

    /// The display text of a type, such as `Func(Int, String) -> Boolean`.
    pub fn format_type(&self, id: TypeId) -> (s: String)
        requires
            self.well_formed(),
            (id.0 as int) < self.types@.len(),
        ensures
            s@ == type_text(self.types@, self.interner@, id.0 as int),
    {
        self.format_type_internal(id)
    }

    fn append_symbols(&self, s: &mut String, tps: &Vec<Symbol>)
        requires
            forall|k: int| 0 <= k < tps@.len() ==> ((#[trigger] tps@[k]).0 as int) < self.interner@.len(),
        ensures
            final(s)@ == old(s)@ + join_comma(tps@.map_values(|p: Symbol| symbol_text(self.interner@, p))),
    {
        let ghost names = self.interner@;
        let ghost parts = tps@.map_values(|p: Symbol| symbol_text(names, p));
        let ghost start = s@;
        let mut i: usize = 0;
        while i < tps.len()
            invariant
                i <= tps.len(),
                names == self.interner@,
                parts == tps@.map_values(|p: Symbol| symbol_text(names, p)),
                forall|k: int| 0 <= k < tps@.len() ==> ((#[trigger] tps@[k]).0 as int) < names.len(),
                s@ == start + join_comma(parts.take(i as int)),
            decreases tps.len() - i,
        {
            if i > 0 {
                s.append(", ");
            }
            s.append(self.interner.lookup(tps[i]));
            proof {
                let t = parts.take(i as int + 1);
                assert(t.drop_last() =~= parts.take(i as int));
                assert(t.last() == symbol_text(names, tps@[i as int]));
                if i == 0 {
                    assert(t =~= seq![parts[0]]);
                }
            }
            i = i + 1;
        }
        assert(parts.take(tps.len() as int) =~= parts);
    }

    fn append_type_params(&self, s: &mut String, tps: &Vec<Symbol>)
        requires
            forall|k: int| 0 <= k < tps@.len() ==> ((#[trigger] tps@[k]).0 as int) < self.interner@.len(),
        ensures
            final(s)@ == old(s)@ + type_params_text(self.interner@, tps@),
    {
        if tps.len() > 0 {
            s.append("<");
            self.append_symbols(s, tps);
            s.append(">");
        }
    }

    fn append_types(&self, s: &mut String, ids: &Vec<TypeId>, bound: TypeId)
        requires
            self.well_formed(),
            (bound.0 as int) < self.types@.len(),
            forall|k: int| 0 <= k < ids@.len() ==> (#[trigger] ids@[k]).0 < bound.0,
        ensures
            final(s)@ == old(s)@ + types_text(self.types@, self.interner@, ids@, bound.0 as int),
        decreases bound.0, 0int,
    {
        let ghost start = s@;
        let mut i: usize = 0;
        while i < ids.len()
            invariant
                i <= ids.len(),
                self.well_formed(),
                (bound.0 as int) < self.types@.len(),
                forall|k: int| 0 <= k < ids@.len() ==> (#[trigger] ids@[k]).0 < bound.0,
                s@ == start + types_text(self.types@, self.interner@, ids@.take(i as int), bound.0 as int),
            decreases ids.len() - i,
        {
            if i > 0 {
                s.append(", ");
            }
            let part = self.format_type_internal(ids[i]);
            s.append(part.as_str());
            proof {
                let t = ids@.take(i as int + 1);
                assert(t.drop_last() =~= ids@.take(i as int));
                assert(t.last() == ids@[i as int]);
            }
            i = i + 1;
        }
        assert(ids@.take(ids.len() as int) =~= ids@);
    }

    fn format_type_internal(&self, id: TypeId) -> (s: String)
        requires
            self.well_formed(),
            (id.0 as int) < self.types@.len(),
        ensures
            s@ == type_text(self.types@, self.interner@, id.0 as int),
        decreases id.0, 1int,
    {
        let ghost types = self.types@;
        let ghost names = self.interner@;
        let ghost i = id.0 as int;
        let t = self.types.get(id);
        proof {
            assert forall|k: int| 0 <= k < type_children(types[i]).len()
                implies (#[trigger] type_children(types[i])[k]).0 < i by {}
            assert forall|k: int| 0 <= k < type_symbols(types[i]).len()
                implies ((#[trigger] type_symbols(types[i])[k]).0 as int) < names.len() by {}
        }
        let mut s = String::new();
        match t {
            Type::Int => s.append("Int"),
            Type::Float => s.append("Float"),
            Type::String => s.append("String"),
            Type::Boolean => s.append("Boolean"),
            Type::Void => s.append("Void"),
            Type::Error => s.append("<ErrorType>"),
            Type::Any => s.append("Any"),
            Type::Range => s.append("Range"),
            Type::BuiltinFunc => s.append("<BuiltinFunc>"),
            Type::OverloadedFunction(funcs) => {
                s.append("<OverloadedFunction(");
                let n = decimal_string(funcs.len());
                s.append(n.as_str());
                s.append(" variants)>");
            },
            Type::Function(type_params, params, ret) => {
                proof {
                    assert forall|k: int| 0 <= k < params@.len() implies (#[trigger] params@[k]).0 < id.0 by {
                        assert(type_children(types[i])[k] == params@[k]);
                    }
                    assert(type_children(types[i])[params@.len() as int] == *ret);
                    assert forall|k: int| 0 <= k < type_params@.len()
                        implies ((#[trigger] type_params@[k]).0 as int) < names.len() by {
                        assert(type_symbols(types[i])[k] == type_params@[k]);
                    }
                }
                s.append("Func");
                self.append_type_params(&mut s, type_params);
                s.append("(");
                self.append_types(&mut s, params, id);
                s.append(") -> ");
                let r = self.format_type_internal(*ret);
                s.append(r.as_str());
                assert(s@ =~= type_text(types, names, i));
            },
            Type::EnumVariantConstructor(enum_name, variant_name, type_params, params, ret) => {
                proof {
                    assert forall|k: int| 0 <= k < params@.len() implies (#[trigger] params@[k]).0 < id.0 by {
                        assert(type_children(types[i])[k] == params@[k]);
                    }
                    assert(type_children(types[i])[params@.len() as int] == *ret);
                    assert(type_symbols(types[i])[0] == *enum_name);
                    assert(type_symbols(types[i])[1] == *variant_name);
                    assert forall|k: int| 0 <= k < type_params@.len()
                        implies ((#[trigger] type_params@[k]).0 as int) < names.len() by {
                        assert(type_symbols(types[i])[k + 2] == type_params@[k]);
                    }
                }
                s.append("VariantConstructor(");
                s.append(self.interner.lookup(*enum_name));
                s.append("::");
                s.append(self.interner.lookup(*variant_name));
                s.append(")");
                self.append_type_params(&mut s, type_params);
                s.append("(");
                self.append_types(&mut s, params, id);
                s.append(") -> ");
                let r = self.format_type_internal(*ret);
                s.append(r.as_str());
                assert(s@ =~= type_text(types, names, i));
            },
            Type::Class(name, type_params) => {
                proof {
                    assert(type_symbols(types[i])[0] == *name);
                    assert forall|k: int| 0 <= k < type_params@.len()
                        implies ((#[trigger] type_params@[k]).0 as int) < names.len() by {
                        assert(type_symbols(types[i])[k + 1] == type_params@[k]);
                    }
                }
                s.append("Class(");
                s.append(self.interner.lookup(*name));
                s.append(")");
                self.append_type_params(&mut s, type_params);
            },
            Type::Struct(name, type_params) => {
                proof {
                    assert(type_symbols(types[i])[0] == *name);
                    assert forall|k: int| 0 <= k < type_params@.len()
                        implies ((#[trigger] type_params@[k]).0 as int) < names.len() by {
                        assert(type_symbols(types[i])[k + 1] == type_params@[k]);
                    }
                }
                s.append("Struct(");
                s.append(self.interner.lookup(*name));
                s.append(")");
                self.append_type_params(&mut s, type_params);
            },
            Type::Enum(name, type_params) => {
                proof {
                    assert(type_symbols(types[i])[0] == *name);
                    assert forall|k: int| 0 <= k < type_params@.len()
                        implies ((#[trigger] type_params@[k]).0 as int) < names.len() by {
                        assert(type_symbols(types[i])[k + 1] == type_params@[k]);
                    }
                }
                s.append("Enum(");
                s.append(self.interner.lookup(*name));
                s.append(")");
                self.append_type_params(&mut s, type_params);
            },
            Type::Instance(name) => {
                assert(type_symbols(types[i])[0] == *name);
                s.append(self.interner.lookup(*name));
            },
            Type::Generic(name) => {
                assert(type_symbols(types[i])[0] == *name);
                s.append(self.interner.lookup(*name));
            },
            Type::GenericInstance(name, args) => {
                proof {
                    assert(type_symbols(types[i])[0] == *name);
                    assert forall|k: int| 0 <= k < args@.len() implies (#[trigger] args@[k]).0 < id.0 by {
                        assert(type_children(types[i])[k] == args@[k]);
                    }
                }
                s.append(self.interner.lookup(*name));
                s.append("<");
                self.append_types(&mut s, args, id);
                s.append(">");
            },
            Type::Interface(name) => {
                assert(type_symbols(types[i])[0] == *name);
                s.append("Interface(");
                s.append(self.interner.lookup(*name));
                s.append(")");
            },
            Type::Optional(inner) => {
                assert(type_children(types[i])[0] == *inner);
                let r = self.format_type_internal(*inner);
                s.append(r.as_str());
                s.append("?");
            },
            Type::Array(inner) => {
                assert(type_children(types[i])[0] == *inner);
                s.append("[");
                let r = self.format_type_internal(*inner);
                s.append(r.as_str());
                s.append("]");
            },
            Type::Null => s.append("Null"),
            Type::CInt => s.append("CInt"),
            Type::CUInt => s.append("CUInt"),
            Type::CChar => s.append("CChar"),
            Type::CSize => s.append("CSize"),
            Type::Pointer(inner) => {
                assert(type_children(types[i])[0] == *inner);
                s.append("Pointer<");
                let r = self.format_type_internal(*inner);
                s.append(r.as_str());
                s.append(">");
            },
        }
        assert(s@ =~= type_text(types, names, i));
        s
    }
}

} // verus!
