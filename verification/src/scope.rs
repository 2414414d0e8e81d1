use vstd::prelude::*;
use crate::interner::Symbol;

verus! {

/// One lexical scope: the names declared directly in it.
#[derive(Debug)]
pub struct Scope {
    declared_names: Vec<Symbol>,
}

impl View for Scope {
    type V = Set<Symbol>;

    closed spec fn view(&self) -> Set<Symbol> {
        self.declared_names@.to_set()
    }
}

impl Scope {
    pub fn new() -> (res: Self)
        ensures
            res@ == Set::<Symbol>::empty(),
    {
        let res = Scope { declared_names: Vec::new() };
        assert(res@ =~= Set::<Symbol>::empty());
        res
    }

    /// Declares `name` here; true when it was not declared here before.
    pub fn declare(&mut self, name: Symbol) -> (fresh: bool)
        ensures
            fresh == !old(self)@.contains(name),
            final(self)@ == old(self)@.insert(name),
    {
        if self.is_declared_locally(name) {
            assert(old(self)@.insert(name) =~= old(self)@);
            false
        } else {
            self.declared_names.push(name);
            assert(self@ =~= old(self)@.insert(name)) by {
                assert forall|x: Symbol| self@.contains(x) <==> old(self)@.insert(name).contains(x) by {
                    if x == name {
                        assert(self.declared_names@[self.declared_names@.len() - 1] == name);
                    }
                    if old(self)@.contains(x) {
                        let k = choose|k: int| 0 <= k < old(self).declared_names@.len() && old(self).declared_names@[k] == x;
                        assert(self.declared_names@[k] == x);
                    }
                    if self@.contains(x) && x != name {
                        let k = choose|k: int| 0 <= k < self.declared_names@.len() && self.declared_names@[k] == x;
                        assert(old(self).declared_names@[k] == x);
                    }
                }
            }
            true
        }
    }

    /// Whether `name` is declared directly in this scope.
    pub fn is_declared_locally(&self, name: Symbol) -> (r: bool)
        ensures
            r == self@.contains(name),
    {
        let mut i: usize = 0;
        while i < self.declared_names.len()
            invariant
                i <= self.declared_names.len(),
                forall|k: int| 0 <= k < i ==> self.declared_names@[k] != name,
            decreases self.declared_names.len() - i,
        {
            if self.declared_names[i] == name {
                assert(self.declared_names@.contains(name));
                return true;
            }
            i = i + 1;
        }
        false
    }
}

/// The scopes that enclose a point of the program, outermost first.  The
/// first scope is the global scope and is never removed.
#[derive(Debug)]
pub struct ScopeStack {
    scopes: Vec<Scope>,
}

impl View for ScopeStack {
    type V = Seq<Set<Symbol>>;

    closed spec fn view(&self) -> Seq<Set<Symbol>> {
        self.scopes@.map_values(|s: Scope| s@)
    }
}

/// `name` is declared in one of the scopes.
pub open spec fn visible(scopes: Seq<Set<Symbol>>, name: Symbol) -> bool {
    exists|i: int| 0 <= i < scopes.len() && #[trigger] scopes[i].contains(name)
}

impl Default for ScopeStack {
    fn default() -> (res: Self)
        ensures
            res@ == seq![Set::<Symbol>::empty()],
    {
        ScopeStack::new()
    }
}

impl ScopeStack {
    /// Starts with the global scope alone.
    pub fn new() -> (res: Self)
        ensures
            res@ == seq![Set::<Symbol>::empty()],
    {
        let res = ScopeStack { scopes: vec![Scope::new()] };
        assert(res@ =~= seq![Set::<Symbol>::empty()]);
        res
    }

    pub fn push_scope(&mut self)
        ensures
            final(self)@ == old(self)@.push(Set::<Symbol>::empty()),
    {
        self.scopes.push(Scope::new());
        assert(self@ =~= old(self)@.push(Set::<Symbol>::empty()));
    }

    /// Leaves the innermost scope; the global scope cannot be left.
    pub fn pop_scope(&mut self)
        requires
            old(self)@.len() > 1,
        ensures
            final(self)@ == old(self)@.drop_last(),
    {
        let _ = self.scopes.pop();
        assert(self@ =~= old(self)@.drop_last());
    }

    /// Attempts to declare a name in the current innermost scope.
    /// Returns true if successful, false if it was already declared in the
    /// *same* scope (re-declaration error).
    pub fn declare(&mut self, name: Symbol) -> (fresh: bool)
        requires
            old(self)@.len() >= 1,
        ensures
            fresh == !old(self)@.last().contains(name),
            final(self)@ == old(self)@.update(old(self)@.len() - 1, old(self)@.last().insert(name)),
    {
        let last = self.scopes.len() - 1;
        let mut scope = self.scopes.remove(last);
        let fresh = scope.declare(name);
        self.scopes.push(scope);
        assert(self@ =~= old(self)@.update(old(self)@.len() - 1, old(self)@.last().insert(name)));
        fresh
    }

    /// Checks if a name resolves to a valid declaration in any accessible
    /// scope (innermost to outermost).
    pub fn resolve(&self, name: Symbol) -> (found: bool)
        ensures
            found == visible(self@, name),
    {
        let mut i = self.scopes.len();
        while i > 0
            invariant
                i <= self.scopes.len(),
                forall|k: int| i <= k < self@.len() ==> !(#[trigger] self@[k]).contains(name),
            decreases i,
        {
            i = i - 1;
            if self.scopes[i].is_declared_locally(name) {
                assert(self@[i as int].contains(name));
                return true;
            }
        }
        false
    }
}

} // verus!
