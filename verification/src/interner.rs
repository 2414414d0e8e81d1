use vstd::prelude::*;

verus! {

/// A lightweight, interned symbol representing a string: the index of the
/// string in the interner that produced it.
#[derive(Debug, Clone, Copy, PartialEq, Eq, Hash, Structural)]
pub struct Symbol(pub u32);

/// Maps strings to small symbols and back.  Every string is stored once, so
/// equal strings always receive the same symbol.
pub struct Interner {
    vec: Vec<String>,
}

impl View for Interner {
    type V = Seq<Seq<char>>;

    closed spec fn view(&self) -> Seq<Seq<char>> {
        self.vec@.map_values(|s: String| s@)
    }
}

/// No string occurs twice in `names`.
pub open spec fn no_duplicates(names: Seq<Seq<char>>) -> bool {
    forall|i: int, j: int| 0 <= i < names.len() && 0 <= j < names.len() && i != j ==> names[i] != names[j]
}

impl Default for Interner {
    fn default() -> (res: Self)
        ensures
            res@ == Seq::<Seq<char>>::empty(),
    {
        Interner::new()
    }
}

impl Interner {
    #[verifier::type_invariant]
    closed spec fn inv(self) -> bool {
        no_duplicates(self@)
    }

    pub fn new() -> (res: Self)
        ensures
            res@ == Seq::<Seq<char>>::empty(),
    {
        let res = Interner { vec: Vec::new() };
        assert(res@ =~= Seq::<Seq<char>>::empty());
        res
    }

    /// Interns a string and returns its unique Symbol.
    pub fn intern(&mut self, string: &str) -> (symbol: Symbol)
        requires
            old(self)@.len() < u32::MAX,
        ensures
            old(self)@.contains(string@) ==> final(self)@ == old(self)@,
            !old(self)@.contains(string@) ==> final(self)@ == old(self)@.push(string@),
            (symbol.0 as int) < final(self)@.len(),
            final(self)@[symbol.0 as int] == string@,
            no_duplicates(final(self)@),
            final(self)@.len() >= old(self)@.len(),
            forall|k: int| 0 <= k < old(self)@.len() ==> final(self)@[k] == #[trigger] old(self)@[k],
    {
        proof {
            use_type_invariant(&*self);
        }
        let owned = String::from_str(string);
        let n = self.vec.len();
        let mut i: usize = 0;
        while i < n
            invariant
                n == self.vec.len(),
                0 <= i <= n,
                n < u32::MAX,
                owned@ == string@,
                no_duplicates(self@),
                forall|k: int| 0 <= k < i ==> self@[k] != string@,
            decreases n - i,
        {
            if self.vec[i] == owned {
                assert(self@[i as int] == string@);
                return Symbol(i as u32);
            }
            i = i + 1;
        }
        assert(!self@.contains(string@));
        let symbol = Symbol(n as u32);
        let mut names: Vec<String> = Vec::new();
        std::mem::swap(&mut names, &mut self.vec);
        names.push(owned);
        assert(names@.map_values(|s: String| s@) =~= old(self)@.push(string@));
        self.vec = names;
        symbol
    }

    /// The number of interned strings.
    pub fn len(&self) -> (n: usize)
        ensures
            n == self@.len(),
    {
        self.vec.len()
    }

    /// Retrieves the string associated with a Symbol.
    pub fn lookup(&self, symbol: Symbol) -> (s: &str)
        requires
            (symbol.0 as int) < self@.len(),
        ensures
            s@ == self@[symbol.0 as int],
    {
        self.vec[symbol.0 as usize].as_str()
    }
}

} // verus!
