use vstd::prelude::*;
use crate::interner::Symbol;
use crate::types::TypeId;

verus! {

/// What a name is bound to: its type and whether it may be reassigned.
#[derive(Debug, Clone, Copy, PartialEq, Eq, Structural)]
pub struct Binding {
    pub ty: TypeId,
    pub is_mutable: bool,
}

/// The typing environment: a stack of scopes, each holding its
/// declarations in order.  A name means its most recent declaration that is
/// still in scope.
#[derive(Debug)]
pub struct TypeEnvironment {
    scopes: Vec<Vec<(Symbol, Binding)>>,
}

/// The most recent declaration of `name` in one scope.
pub open spec fn last_binding(decls: Seq<(Symbol, Binding)>, name: Symbol) -> Option<Binding>
    decreases decls.len(),
{
    if decls.len() == 0 {
        None
    } else if decls.last().0 == name {
        Some(decls.last().1)
    } else {
        last_binding(decls.drop_last(), name)
    }
}

/// The binding that `name` denotes: its most recent declaration, searching
/// from the innermost scope outwards.
pub open spec fn lookup(scopes: Seq<Seq<(Symbol, Binding)>>, name: Symbol) -> Option<Binding>
    decreases scopes.len(),
{
    if scopes.len() == 0 {
        None
    } else {
        match last_binding(scopes.last(), name) {
            Some(b) => Some(b),
            None => lookup(scopes.drop_last(), name),
        }
    }
}

/// `scopes` with a declaration added to the innermost scope.
pub open spec fn with_declaration(scopes: Seq<Seq<(Symbol, Binding)>>, name: Symbol, b: Binding) -> Seq<Seq<(Symbol, Binding)>> {
    scopes.update(scopes.len() - 1, scopes.last().push((name, b)))
}

impl View for TypeEnvironment {
    type V = Seq<Seq<(Symbol, Binding)>>;

    closed spec fn view(&self) -> Seq<Seq<(Symbol, Binding)>> {
        self.scopes@.map_values(|s: Vec<(Symbol, Binding)>| s@)
    }
}

impl TypeEnvironment {
    /// The global scope, in which `print` is a built-in function.
    pub fn new(global_print_sym: Symbol, builtin_func_ty: TypeId) -> (env: Self)
        ensures
            env@ == seq![seq![(global_print_sym, Binding { ty: builtin_func_ty, is_mutable: false })]],
    {
        let mut env = TypeEnvironment { scopes: vec![Vec::new()] };
        assert(env@ =~= seq![Seq::<(Symbol, Binding)>::empty()]);
        env.declare(global_print_sym, builtin_func_ty);
        assert(env@ =~= seq![seq![(global_print_sym, Binding { ty: builtin_func_ty, is_mutable: false })]]);
        env
    }

    pub fn push_scope(&mut self)
        ensures
            final(self)@ == old(self)@.push(Seq::empty()),
    {
        self.scopes.push(Vec::new());
        assert(self@ =~= old(self)@.push(Seq::empty()));
    }

    /// Leaves the innermost scope; its declarations go out of scope.  The
    /// global scope cannot be left.
    pub fn pop_scope(&mut self)
        requires
            old(self)@.len() > 1,
        ensures
            final(self)@ == old(self)@.drop_last(),
    {
        let _ = self.scopes.pop();
        assert(self@ =~= old(self)@.drop_last());
    }

    /// Declares an immutable name.
    pub fn declare(&mut self, name: Symbol, ty: TypeId)
        requires
            old(self)@.len() >= 1,
        ensures
            final(self)@ == with_declaration(old(self)@, name, Binding { ty, is_mutable: false }),
    {
        self.declare_var(name, ty, false);
    }

    pub fn declare_var(&mut self, name: Symbol, ty: TypeId, is_mutable: bool)
        requires
            old(self)@.len() >= 1,
        ensures
            final(self)@ == with_declaration(old(self)@, name, Binding { ty, is_mutable }),
    {
        let last = self.scopes.len() - 1;
        let mut scope = self.scopes.remove(last);
        scope.push((name, Binding { ty, is_mutable }));
        self.scopes.push(scope);
        assert(self@ =~= with_declaration(old(self)@, name, Binding { ty, is_mutable }));
    }

    fn lookup_binding(&self, name: Symbol) -> (b: Option<Binding>)
        ensures
            b == lookup(self@, name),
    {
        let ghost v = self@;
        let mut i = self.scopes.len();
        assert(v.take(i as int) =~= v);
        while i > 0
            invariant
                i <= self.scopes.len(),
                v == self@,
                lookup(v, name) == lookup(v.take(i as int), name),
            decreases i,
        {
            let scope = &self.scopes[i - 1];
            let ghost decls = v[i - 1];
            assert(scope@ == decls);
            let mut j = scope.len();
            assert(decls.take(j as int) =~= decls);
            while j > 0
                invariant
                    0 < i <= self.scopes.len(),
                    v == self@,
                    lookup(v, name) == lookup(v.take(i as int), name),
                    decls == v[i - 1],
                    j <= scope.len(),
                    scope@ == decls,
                    last_binding(decls, name) == last_binding(decls.take(j as int), name),
                decreases j,
            {
                let (sym, b) = scope[j - 1];
                proof {
                    let t = decls.take(j as int);
                    assert(t.drop_last() =~= decls.take(j - 1));
                }
                if sym == name {
                    proof {
                        let t = v.take(i as int);
                        assert(t.last() == decls);
                        assert(decls.take(j as int).last() == (sym, b));
                    }
                    return Some(b);
                }
                j = j - 1;
            }
            proof {
                let t = v.take(i as int);
                assert(t.last() == decls);
                assert(t.drop_last() =~= v.take(i - 1));
                assert(decls.take(0) =~= Seq::<(Symbol, Binding)>::empty());
            }
            i = i - 1;
        }
        assert(v.take(0) =~= Seq::<Seq<(Symbol, Binding)>>::empty());
        None
    }

    /// The type of the most recent declaration of `name` in scope.
    pub fn resolve(&self, name: Symbol) -> (ty: Option<TypeId>)
        ensures
            ty == (match lookup(self@, name) { Some(b) => Some(b.ty), None => None }),
    {
        match self.lookup_binding(name) {
            Some(b) => Some(b.ty),
            None => None,
        }
    }

    /// Whether the most recent declaration of `name` in scope is mutable;
    /// false for a name that is not declared.
    pub fn is_mutable(&self, name: Symbol) -> (m: bool)
        ensures
            m == (match lookup(self@, name) { Some(b) => b.is_mutable, None => false }),
    {
        match self.lookup_binding(name) {
            Some(b) => b.is_mutable,
            None => false,
        }
    }
}

} // verus!
