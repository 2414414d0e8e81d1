use vstd::prelude::*;
use crate::session::join_comma;

verus! {

/// A type as the checker's diagnostics describe it, by name.
#[derive(Debug)]
pub enum Type {
    Int,
    Float,
    String,
    Boolean,
    Void,
    Error,
    Any,
    BuiltinFunc,
    Function(Vec<Type>, Box<Type>),
    Class(String, Vec<String>),
    Instance(String),
    Generic(String),
    GenericInstance(String, Vec<Type>),
    Interface(String),
    Optional(Box<Type>),
}

/// The display text of a type: `Func(Int, String) -> Boolean`,
/// `Class(Box)<T>`, `Box<Int>`, `Interface(Shape)`, `Int?`, ...
pub open spec fn display(t: Type) -> Seq<char>
    decreases t,
{
    match t {
        Type::Int => "Int"@,
        Type::Float => "Float"@,
        Type::String => "String"@,
        Type::Boolean => "Boolean"@,
        Type::Void => "Void"@,
        Type::Error => "<ErrorType>"@,
        Type::Any => "Any"@,
        Type::BuiltinFunc => "<BuiltinFunc>"@,
        Type::Function(params, ret) => "Func("@ + display_list(params@) + ") -> "@ + display(*ret),
        Type::Class(name, tps) => "Class("@ + name@ + ")"@ + (if tps@.len() == 0 {
            Seq::empty()
        } else {
            "<"@ + join_comma(tps@.map_values(|s: String| s@)) + ">"@
        }),
        Type::Instance(name) => name@,
        Type::Generic(name) => name@,
        Type::GenericInstance(name, args) => name@ + "<"@ + display_list(args@) + ">"@,
        Type::Interface(name) => "Interface("@ + name@ + ")"@,
        Type::Optional(inner) => display(*inner) + "?"@,
    }
}

/// The display texts of the types, joined by `", "`.
pub open spec fn display_list(ts: Seq<Type>) -> Seq<char>
    decreases ts,
{
    if ts.len() == 0 {
        Seq::empty()
    } else if ts.len() == 1 {
        display(ts[0])
    } else {
        display_list(ts.drop_last()) + ", "@ + display(ts.last())
    }
}

impl Type {
    /// The display text of the type.
    pub fn to_string(&self) -> (s: String)
        ensures
            s@ == display(*self),
        decreases self,
    {
        match self {
            Type::Int => String::from_str("Int"),
            Type::Float => String::from_str("Float"),
            Type::String => String::from_str("String"),
            Type::Boolean => String::from_str("Boolean"),
            Type::Void => String::from_str("Void"),
            Type::Error => String::from_str("<ErrorType>"),
            Type::Any => String::from_str("Any"),
            Type::BuiltinFunc => String::from_str("<BuiltinFunc>"),
            Type::Function(params, ret) => {
                let mut s = String::from_str("Func(");
                let list = list_text(params);
                s.append(list.as_str());
                s.append(") -> ");
                let r = (**ret).to_string();
                s.append(r.as_str());
                assert(s@ =~= display(*self));
                s
            },
            Type::Class(name, tps) => {
                let mut s = String::from_str("Class(");
                s.append(name.as_str());
                s.append(")");
                if tps.len() > 0 {
                    s.append("<");
                    let ghost start = s@;
                    let mut i: usize = 0;
                    while i < tps.len()
                        invariant
                            i <= tps@.len(),
                            tps@.len() > 0,
                            s@ == start + join_comma(tps@.take(i as int).map_values(|x: String| x@)),
                        decreases tps@.len() - i,
                    {
                        let ghost before = s@;
                        if i > 0 {
                            s.append(", ");
                        }
                        s.append(tps[i].as_str());
                        proof {
                            let parts = tps@.take(i + 1).map_values(|x: String| x@);
                            assert(parts.drop_last() =~= tps@.take(i as int).map_values(|x: String| x@));
                            assert(parts.last() == tps@[i as int]@);
                            if i == 0 {
                                assert(tps@.take(0).map_values(|x: String| x@) =~= Seq::<Seq<char>>::empty());
                                assert(parts.len() == 1);
                            }
                        }
                        i = i + 1;
                        assert(s@ =~= start + join_comma(tps@.take(i as int).map_values(|x: String| x@)));
                    }
                    s.append(">");
                    assert(tps@.take(tps@.len() as int) =~= tps@);
                }
                assert(s@ =~= display(*self));
                s
            },
            Type::Instance(name) => String::from_str(name.as_str()),
            Type::Generic(name) => String::from_str(name.as_str()),
            Type::GenericInstance(name, args) => {
                let mut s = String::from_str(name.as_str());
                s.append("<");
                let list = list_text(args);
                s.append(list.as_str());
                s.append(">");
                assert(s@ =~= display(*self));
                s
            },
            Type::Interface(name) => {
                let mut s = String::from_str("Interface(");
                s.append(name.as_str());
                s.append(")");
                s
            },
            Type::Optional(inner) => {
                let mut s = (**inner).to_string();
                s.append("?");
                s
            },
        }
    }
}

/// The display texts of the types, joined by `", "`.
pub fn list_text(ts: &Vec<Type>) -> (s: String)
    ensures
        s@ == display_list(ts@),
    decreases ts@,
{
    let mut s = String::new();
    let mut i: usize = 0;
    while i < ts.len()
        invariant
            i <= ts@.len(),
            s@ == display_list(ts@.take(i as int)),
        decreases ts@.len() - i,
    {
        proof { assert(decreases_to!(ts@ => ts@[i as int])); }
        if i > 0 {
            s.append(", ");
        }
        let t = ts[i].to_string();
        s.append(t.as_str());
        proof {
            let p = ts@.take(i + 1);
            assert(p.drop_last() =~= ts@.take(i as int));
            assert(p.last() == ts@[i as int]);
            if i == 0 {
                assert(ts@.take(0) =~= Seq::<Type>::empty());
            }
        }
        i = i + 1;
        assert(s@ =~= display_list(ts@.take(i as int)));
    }
    assert(ts@.take(ts@.len() as int) =~= ts@);
    s
}

} // verus!
