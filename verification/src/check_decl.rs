use vstd::prelude::*;
use crate::ast::{copies_of, copy_of, EnumField, EnumVariant, Expr, ExprKind, Span, Stmt, StmtKind, TypeExpr, copy_type_exprs, lemma_fields_interned_each,
    lemma_params_interned_each, lemma_stmts_interned_each, lemma_type_exprs_interned_from_all, lemma_variants_interned_each,
    opt_type_expr_interned, params_all_interned, stmt_interned, stmts_interned, symbols_below, type_expr_interned,
    type_exprs_interned};
use crate::check_rules::{diag, errors_if, member_of, reported};
use crate::check_expr::{interned_done, picked, with_env};
use crate::check_stmt::{stmt_checked, stmts_checked, weak_ok};
use crate::check_expr::expr_checked;
use crate::check_types::{type_parsed, types_parsed};
use crate::check_rules::tparams_declared;
use crate::env::{Binding, with_declaration};
use crate::checker::{GenericClass, GenericFunction, TypeChecker, generic_classes_interned, generic_functions_interned, members_below};
use crate::diagnostics::{DiagnosticCode, DiagnosticV, diagnostics_view};
use crate::interner::Symbol;
use crate::mangle::{replace_all, replace_str};
use crate::tables::{assoc, find_last, inserted, keys_unique, table_insert};
use crate::types::{Type, TypeId, TypeV, copy_symbols, type_children};

verus! {

/// The properties that a constructor body assigns on `self` on every path:
/// `self.p = ..` statements, those of nested blocks, and those that both
/// branches of an `if` assign.  Loops count for nothing.
pub open spec fn assigned_props(s: Stmt) -> Set<Symbol>
    decreases s,
{
    match s.kind {
        StmtKind::Block(stmts) => assigned_in_list(stmts@),
        StmtKind::Expression(e) => match e.kind {
            ExprKind::SetProperty { object, name, .. } => if object.kind is SelfRef { set![name] } else { Set::empty() },
            _ => Set::empty(),
        },
        StmtKind::If { then_branch, else_branch, .. } => match else_branch {
            Some(e) => assigned_props(*then_branch).intersect(assigned_props(*e)),
            None => Set::empty(),
        },
        _ => Set::empty(),
    }
}

/// The properties that a list of statements assigns.
pub open spec fn assigned_in_list(ss: Seq<Stmt>) -> Set<Symbol>
    decreases ss,
{
    if ss.len() == 0 {
        Set::empty()
    } else {
        assigned_in_list(ss.drop_last()).union(assigned_props(ss.last()))
    }
}

/// What a sequence with one more element contains.
pub proof fn lemma_push_contains<A>(s: Seq<A>, x: A, p: A)
    ensures
        s.push(x).contains(p) <==> (s.contains(p) || p == x),
{
    if s.contains(p) {
        let j = choose|j: int| 0 <= j < s.len() && s[j] == p;
        assert(s.push(x)[j] == p);
    }
    if p == x {
        assert(s.push(x)[s.len() as int] == p);
    }
    if s.push(x).contains(p) && p != x {
        let j = choose|j: int| 0 <= j < s.push(x).len() && s.push(x)[j] == p;
        assert(j < s.len());
        assert(s[j] == p);
    }
}

/// What a concatenation contains.
pub proof fn lemma_concat_contains<A>(a: Seq<A>, b: Seq<A>, p: A)
    ensures
        (a + b).contains(p) <==> (a.contains(p) || b.contains(p)),
{
    if a.contains(p) {
        let j = choose|j: int| 0 <= j < a.len() && a[j] == p;
        assert((a + b)[j] == p);
    }
    if b.contains(p) {
        let j = choose|j: int| 0 <= j < b.len() && b[j] == p;
        assert((a + b)[a.len() + j] == p);
    }
    if (a + b).contains(p) {
        let j = choose|j: int| 0 <= j < (a + b).len() && (a + b)[j] == p;
        if j < a.len() {
            assert(a[j] == p);
        } else {
            assert(b[j - a.len()] == p);
        }
    }
}

/// Appends the symbols of `more` to `r`.
pub fn append_symbols(r: &mut Vec<Symbol>, more: &Vec<Symbol>)
    ensures
        final(r)@ == old(r)@ + more@,
{
    let mut k: usize = 0;
    while k < more.len()
        invariant
            k <= more@.len(),
            r@ == old(r)@ + more@.take(k as int),
        decreases more@.len() - k,
    {
        r.push(more[k]);
        k = k + 1;
        assert(r@ =~= old(r)@ + more@.take(k as int));
    }
    assert(more@.take(more@.len() as int) =~= more@);
}

/// The properties that a constructor body assigns on every path.
pub fn assigned_properties(stmt: &Stmt) -> (r: Vec<Symbol>)
    ensures
        forall|p: Symbol| r@.contains(p) <==> assigned_props(*stmt).contains(p),
    decreases *stmt,
{
    match &stmt.kind {
        StmtKind::Block(stmts) => {
            let mut r: Vec<Symbol> = Vec::new();
            let mut i: usize = 0;
            while i < stmts.len()
                invariant
                    i <= stmts@.len(),
                    stmt.kind is Block && stmt.kind->Block_0 == *stmts,
                    forall|p: Symbol| r@.contains(p) <==> assigned_in_list(stmts@.take(i as int)).contains(p),
                decreases stmts@.len() - i,
            {
                proof {
                    assert(decreases_to!(*stmt => stmts@[i as int])) by {
                        assert(decreases_to!(*stmt => stmt.kind));
                        assert(decreases_to!(stmt.kind => stmt.kind->Block_0));
                        assert(decreases_to!(*stmts => stmts@));
                        assert(decreases_to!(stmts@ => stmts@[i as int]));
                    }
                }
                let inner = assigned_properties(&stmts[i]);
                let ghost before = r@;
                append_symbols(&mut r, &inner);
                proof {
                    assert forall|p: Symbol| r@.contains(p) <==> (before.contains(p) || inner@.contains(p)) by {
                        lemma_concat_contains(before, inner@, p);
                    }
                }
                proof {
                    let t1 = stmts@.take(i + 1);
                    assert(t1.drop_last() =~= stmts@.take(i as int));
                    assert(t1.last() == stmts@[i as int]);
                    assert(assigned_in_list(t1) == assigned_in_list(stmts@.take(i as int)).union(assigned_props(stmts@[i as int])));
                    assert forall|p: Symbol| r@.contains(p) <==> assigned_in_list(t1).contains(p) by {
                        assert(before.contains(p) <==> assigned_in_list(stmts@.take(i as int)).contains(p));
                        assert(inner@.contains(p) <==> assigned_props(stmts@[i as int]).contains(p));
                    }
                }
                i = i + 1;
            }
            proof { assert(stmts@.take(stmts@.len() as int) =~= stmts@); }
            r
        },
        StmtKind::Expression(e) => match &e.kind {
            ExprKind::SetProperty { object, name, .. } => match &object.kind {
                ExprKind::SelfRef => {
                    let r = vec![*name];
                    proof {
                        assert forall|p: Symbol| r@.contains(p) <==> assigned_props(*stmt).contains(p) by {
                            if p == *name {
                                assert(r@[0] == p);
                            }
                        }
                    }
                    r
                },
                _ => Vec::new(),
            },
            _ => Vec::new(),
        },
        StmtKind::If { then_branch, else_branch, .. } => match else_branch {
            Some(e) => {
                let a = assigned_properties(then_branch);
                let b = assigned_properties(e);
                let mut r: Vec<Symbol> = Vec::new();
                let mut k: usize = 0;
                while k < a.len()
                    invariant
                        k <= a@.len(),
                        forall|p: Symbol| r@.contains(p) <==> (a@.take(k as int).contains(p) && b@.contains(p)),
                    decreases a@.len() - k,
                {
                    let ghost before = r@;
                    if crate::checker::contains_symbol(&b, a[k]) {
                        r.push(a[k]);
                    }
                    proof {
                        assert(a@.take(k + 1) =~= a@.take(k as int).push(a@[k as int]));
                        assert forall|p: Symbol| r@.contains(p) <==> (a@.take(k + 1).contains(p) && b@.contains(p)) by {
                            lemma_push_contains(before, a@[k as int], p);
                            lemma_push_contains(a@.take(k as int), a@[k as int], p);
                        }
                    }
                    k = k + 1;
                }
                proof { assert(a@.take(a@.len() as int) =~= a@); }
                r
            },
            None => Vec::new(),
        },
        _ => Vec::new(),
    }
}

/// After setting the entry of `key`, an entry for another key was there
/// before.
pub proof fn lemma_table_entry_kept<V>(before: Seq<(Symbol, V)>, after: Seq<(Symbol, V)>, key: Symbol, i: int)
    requires
        0 <= i < after.len(),
        after[i].0 != key,
        forall|j: int| 0 <= j < before.len() && before[j].0 != key ==> after[j] == #[trigger] before[j],
        forall|j: int| before.len() <= j < after.len() ==> (#[trigger] after[j]).0 == key,
        forall|j: int| 0 <= j < before.len() ==> (#[trigger] after[j]).0 == before[j].0,
    ensures
        i < before.len() && after[i] == before[i],
{
    assert(after[i].0 == before[i].0);
}

/// A copy of a member table.
pub fn copy_members(v: &Vec<(Symbol, TypeId)>) -> (r: Vec<(Symbol, TypeId)>)
    ensures
        r@ == v@,
{
    let mut r: Vec<(Symbol, TypeId)> = Vec::new();
    let mut i: usize = 0;
    while i < v.len()
        invariant
            i <= v@.len(),
            r@ == v@.take(i as int),
        decreases v@.len() - i,
    {
        r.push(v[i]);
        i = i + 1;
        assert(r@ =~= v@.take(i as int));
    }
    assert(v@.take(v@.len() as int) =~= v@);
    r
}

/// Sets the member table of `key` in a table of member tables.
pub fn insert_members(table: &mut Vec<(Symbol, Vec<(Symbol, TypeId)>)>, key: Symbol, members: Vec<(Symbol, TypeId)>)
    requires
        keys_unique(old(table)@),
    ensures
        keys_unique(final(table)@),
        assoc(final(table)@, key) == Some(members),
        forall|k: Symbol| k != key ==> #[trigger] assoc(final(table)@, k) == assoc(old(table)@, k),
        forall|n: nat| members_below(old(table)@, n) && (forall|j: int| 0 <= j < members@.len() ==> ((#[trigger] members@[j]).1.0 as nat) < n)
            ==> #[trigger] members_below(final(table)@, n),
        forall|j: int| 0 <= j < old(table)@.len() && old(table)@[j].0 != key ==> final(table)@[j] == #[trigger] old(table)@[j],
        forall|j: int| old(table)@.len() <= j < final(table)@.len() ==> (#[trigger] final(table)@[j]).0 == key,
        forall|j: int| 0 <= j < final(table)@.len() && (#[trigger] final(table)@[j]).0 == key ==> final(table)@[j] == (key, members),
        forall|j: int| 0 <= j < old(table)@.len() ==> (#[trigger] final(table)@[j]).0 == old(table)@[j].0,
        final(table)@ == inserted(old(table)@, key, members),
{
    let ghost before = table@;
    let ghost ms = members;
    table_insert(table, key, members);
    proof {
        assert forall|n: nat| members_below(before, n) && (forall|j: int| 0 <= j < ms@.len() ==> ((#[trigger] ms@[j]).1.0 as nat) < n)
            implies #[trigger] members_below(table@, n) by {
            assert forall|i: int, j: int| 0 <= i < table@.len() && 0 <= j < table@[i].1@.len()
                implies ((#[trigger] table@[i].1@[j]).1.0 as nat) < n by {
                if table@[i].0 == key {
                    assert(table@[i] == (key, ms));
                } else {
                    assert(i < before.len());
                    assert(table@[i] == before[i]);
                }
            }
        }
    }
}

/// The name part that a parameter of type text `text` adds to the name of
/// an overload: `_` and the text, with `<` as `_`, without `>` and spaces,
/// `?` as `Opt` and `[]` as `Arr`.
pub open spec fn overload_part(text: Seq<char>) -> Seq<char> {
    replace_all(replace_all(replace_all(replace_all(replace_all("_"@ + text, "<"@, "_"@), ">"@, ""@), " "@, ""@), "?"@, "Opt"@), "[]"@, "Arr"@)
}

/// The parameters of the last method named `init` among `methods`, if any.
pub open spec fn last_init_params(methods: Seq<Stmt>, init: Symbol) -> Option<Seq<(Symbol, TypeExpr)>>
    decreases methods.len(),
{
    if methods.len() == 0 {
        None
    } else {
        match methods.last().kind {
            StmtKind::Func { name, params, .. } => if name == init {
                Some(params@)
            } else {
                last_init_params(methods.drop_last(), init)
            },
            _ => last_init_params(methods.drop_last(), init),
        }
    }
}

/// The type expressions of parameters.
pub open spec fn param_types(params: Seq<(Symbol, TypeExpr)>) -> Seq<TypeExpr> {
    params.map_values(|p: (Symbol, TypeExpr)| p.1)
}

/// The scope built for a function body, step by step, is the one that
/// `body_scope` describes.
pub proof fn lemma_body_scope(mb0: TypeChecker, md: TypeChecker, me: TypeChecker, mi: TypeChecker, st: TypeId,
    s1: TypeChecker, params: Seq<(Symbol, TypeExpr)>, ps: Seq<TypeId>, ret: TypeId)
    requires
        with_env(md, md.env@.push(Seq::empty()), me),
        md.current_class matches Some(cn) ==> interned_done(me, TypeV::Instance(cn), mi, st)
            && with_env(mi, with_declaration(mi.env@, md.names.self_name, Binding { ty: st, is_mutable: false }), s1),
        md.current_class is None ==> s1 == me,
        ps.len() == params.len(),
        mb0.same_but_env(TypeChecker { current_return_type: Some(ret), ..s1 }),
        mb0.env@.drop_last() == s1.env@.drop_last(),
        mb0.env@.len() == s1.env@.len(),
        mb0.env@.last().len() == s1.env@.last().len() + params.len(),
        forall|j: int| 0 <= j < s1.env@.last().len() ==> #[trigger] mb0.env@.last()[j] == s1.env@.last()[j],
        forall|j: int| 0 <= j < params.len() ==> #[trigger] mb0.env@.last()[s1.env@.last().len() + j]
            == (params[j].0, Binding { ty: ps[j], is_mutable: false }),
    ensures
        TypeChecker::body_scope(md, params, ps, ret, mb0),
{
    reveal(TypeChecker::body_scope);
    let pb = param_bindings(params, ps);
    match md.current_class {
        Some(cn) => {
            let b = (md.names.self_name, Binding { ty: st, is_mutable: false });
            assert(s1.env@ =~= md.env@.push(seq![b]));
            let last = seq![b] + pb;
            assert(mb0.env@.last() =~= last) by {
                assert forall|j: int| 0 <= j < last.len() implies mb0.env@.last()[j] == #[trigger] last[j] by {
                    if j >= 1 {
                        assert(mb0.env@.last()[s1.env@.last().len() + (j - 1)] == pb[j - 1]);
                    }
                }
            }
            assert forall|i: int| 0 <= i < md.env@.len() implies mb0.env@[i] == #[trigger] md.env@[i] by {
                assert(mb0.env@[i] == mb0.env@.drop_last()[i]);
                assert(s1.env@[i] == s1.env@.drop_last()[i]);
            }
            assert(mb0.env@ =~= md.env@.push(last));
            assert(picked((me, mi, st)));
        },
        None => {
            assert(s1.env@ =~= md.env@.push(Seq::empty()));
            assert(mb0.env@.last() =~= pb) by {
                assert forall|j: int| 0 <= j < pb.len() implies mb0.env@.last()[j] == #[trigger] pb[j] by {
                    assert(mb0.env@.last()[s1.env@.last().len() + j] == pb[j]);
                }
            }
            assert forall|i: int| 0 <= i < md.env@.len() implies mb0.env@[i] == #[trigger] md.env@[i] by {
                assert(mb0.env@[i] == mb0.env@.drop_last()[i]);
                assert(s1.env@[i] == s1.env@.drop_last()[i]);
            }
            assert(mb0.env@ =~= md.env@.push(pb));
        },
    }
}

/// The parameters bound in order, each immutable, to their types `ps`.
pub open spec fn param_bindings(params: Seq<(Symbol, TypeExpr)>, ps: Seq<TypeId>) -> Seq<(Symbol, Binding)> {
    Seq::new(params.len(), |j: int| (params[j].0, Binding { ty: ps[j], is_mutable: false }))
}

/// The errors for the properties among `props` that a constructor leaves
/// unassigned (those not in `assigned`), in order.
pub open spec fn unassigned_errors(m: TypeChecker, props: Seq<Symbol>, assigned: Set<Symbol>, span: Span) -> Seq<DiagnosticV>
    decreases props.len(),
{
    if props.len() == 0 {
        Seq::empty()
    } else {
        unassigned_errors(m, props.drop_last(), assigned, span) + (if assigned.contains(props.last()) {
            Seq::empty()
        } else {
            seq![diag(DiagnosticCode::UninitializedVariable, "Property '"@ + m.session.interner@[props.last().0 as int]
                + "' is not initialized by the constructor."@, span)]
        })
    }
}

/// The errors that the end of a function declaration adds: an `init` of a
/// class must assign each property that has no initial value.
pub open spec fn init_errors(m: TypeChecker, name: Symbol, body: Stmt, span: Span) -> Seq<DiagnosticV> {
    if name == m.names.init {
        match m.current_class {
            Some(cn) => match assoc(m.uninitialized_class_properties@, cn) {
                Some(props) => unassigned_errors(m, props@, assigned_props(body), span),
                None => Seq::empty(),
            },
            None => Seq::empty(),
        }
    } else {
        Seq::empty()
    }
}

/// `s1` is `s0` with the flag that says a method is being checked set to
/// `flag`.
pub open spec fn with_method_flag(s0: TypeChecker, flag: bool, s1: TypeChecker) -> bool {
    s1 == (TypeChecker { is_checking_method: flag, ..s0 })
}

/// The methods of a class, checked in order, each as a statement while the
/// method flag is set.
pub open spec fn methods_checked(s0: TypeChecker, methods: Seq<Stmt>, s1: TypeChecker) -> bool
    decreases methods, 0nat,
{
    if methods.len() == 0 {
        s1 == s0
    } else {
        exists|m: TypeChecker, ma: TypeChecker, mb: TypeChecker| #[trigger] picked((m, ma, mb))
            && methods_checked(s0, methods.drop_last(), m)
            && with_method_flag(m, true, ma)
            && stmt_checked(ma, methods.last(), mb)
            && with_method_flag(mb, m.is_checking_method, s1)
    }
}

/// Parsing an optional return type: the parsed type, or `Void`.
pub open spec fn return_parsed(s0: TypeChecker, return_type: Option<TypeExpr>, span: Span, s1: TypeChecker, r: TypeId) -> bool {
    match return_type {
        Some(rt) => type_parsed(s0, rt, span, s1, r),
        None => s1 == s0 && r == s0.common.void,
    }
}

/// The signature of a method: its name and the function type of its
/// parameter and result types; nothing for a statement that is no
/// function.
pub open spec fn signature_of(s0: TypeChecker, method: Stmt, s1: TypeChecker, r: Option<(Symbol, TypeId)>) -> bool {
    match method.kind {
        StmtKind::Func { name, params, return_type, .. } =>
            exists|m1: TypeChecker, ret: TypeId, m2: TypeChecker, ps: Seq<TypeId>, t: TypeId| #[trigger] picked((m1, ret, m2, ps, t))
                && return_parsed(s0, return_type, method.span, m1, ret)
                && types_parsed(m1, param_types(params@), method.span, m2, ps)
                && interned_done(m2, TypeV::Function(Seq::empty(), ps, ret), s1, t)
                && r == Some((name, t)),
        _ => s1 == s0 && r is None,
    }
}

/// The member table `m0` with the signatures of the first `n` methods
/// added, in order; a later method replaces an earlier member of the same
/// name.
pub open spec fn members_collected(s0: TypeChecker, methods: Seq<Stmt>, n: nat, m0: Seq<(Symbol, TypeId)>, s1: TypeChecker,
    members: Seq<(Symbol, TypeId)>) -> bool
    decreases n,
{
    if n == 0 {
        s1 == s0 && members == m0
    } else {
        n <= methods.len() && exists|m: TypeChecker, mem0: Seq<(Symbol, TypeId)>, sig: Option<(Symbol, TypeId)>|
            #[trigger] picked((m, mem0, sig))
            && members_collected(s0, methods, (n - 1) as nat, m0, m, mem0)
            && signature_of(m, methods[n - 1], s1, sig)
            && members == (match sig {
                Some((nm, t)) => inserted(mem0, nm, t),
                None => mem0,
            })
    }
}

/// The type expressions of the fields of a variant, if it has any.
pub open spec fn field_types(fields: Option<Vec<EnumField>>) -> Seq<TypeExpr> {
    match fields {
        Some(fs) => fs@.map_values(|f: EnumField| f.ty),
        None => Seq::empty(),
    }
}

/// The generic types of the first `n` type parameters, interned in order.
pub open spec fn generics_interned(s0: TypeChecker, tps: Seq<Symbol>, n: nat, s1: TypeChecker, gs: Seq<TypeId>) -> bool
    decreases n,
{
    if n == 0 {
        s1 == s0 && gs == Seq::<TypeId>::empty()
    } else {
        n <= tps.len() && exists|m: TypeChecker, gs0: Seq<TypeId>, g: TypeId| #[trigger] picked((m, gs0, g))
            && generics_interned(s0, tps, (n - 1) as nat, m, gs0)
            && interned_done(m, TypeV::Generic(tps[n - 1]), s1, g)
            && gs == gs0.push(g)
    }
}

/// The constructor type of variant `v` of enum `name` with type parameters
/// `tps`: its field types parsed, and a result type that is the enum's
/// instance, applied to its type parameters when it has some.
pub open spec fn variant_built(s0: TypeChecker, name: Symbol, tps: Seq<Symbol>, v: EnumVariant, span: Span,
    s1: TypeChecker, t: TypeId) -> bool {
    exists|m1: TypeChecker, ps: Seq<TypeId>, m2: TypeChecker, ret: TypeId| #[trigger] picked((m1, ps, m2, ret))
        && types_parsed(s0, field_types(v.fields), span, m1, ps)
        && (if tps.len() == 0 {
            interned_done(m1, TypeV::Instance(name), m2, ret)
        } else {
            exists|mg: TypeChecker, gs: Seq<TypeId>| #[trigger] picked((mg, gs))
                && generics_interned(m1, tps, tps.len(), mg, gs)
                && interned_done(mg, TypeV::GenericInstance(name, gs), m2, ret)
        })
        && interned_done(m2, TypeV::EnumVariantConstructor(name, v.name, tps, ps, ret), s1, t)
}

/// The variant table built from the first `n` variants, in order; a later
/// variant replaces an earlier one of the same name.
pub open spec fn variants_collected(s0: TypeChecker, name: Symbol, tps: Seq<Symbol>, variants: Seq<EnumVariant>, span: Span,
    n: nat, s1: TypeChecker, table: Seq<(Symbol, TypeId)>) -> bool
    decreases n,
{
    if n == 0 {
        s1 == s0 && table == Seq::<(Symbol, TypeId)>::empty()
    } else {
        n <= variants.len() && exists|m: TypeChecker, t0: Seq<(Symbol, TypeId)>, t: TypeId| #[trigger] picked((m, t0, t))
            && variants_collected(s0, name, tps, variants, span, (n - 1) as nat, m, t0)
            && variant_built(m, name, tps, variants[n - 1], span, s1, t)
            && table == inserted(t0, variants[n - 1].name, t)
    }
}

/// The first `n` entries of a table declared in order, immutable.
pub open spec fn entries_declared(s0: TypeChecker, table: Seq<(Symbol, TypeId)>, n: nat, s1: TypeChecker) -> bool
    decreases n,
{
    if n == 0 {
        s1 == s0
    } else {
        n <= table.len() && exists|m: TypeChecker| #[trigger] picked(m)
            && entries_declared(s0, table, (n - 1) as nat, m)
            && with_env(m, crate::env::with_declaration(m.env@, table[n - 1].0, Binding { ty: table[n - 1].1, is_mutable: false }), s1)
    }
}

/// The errors for the first `n` methods `ims` of interface `iface` that
/// class `cn`, with member table `members`, lacks or gives another type.
pub open spec fn method_errors(tc: TypeChecker, cn: Symbol, iface: Symbol, ims: Seq<(Symbol, TypeId)>,
    members: Seq<(Symbol, TypeId)>, span: Span, n: nat) -> Seq<DiagnosticV>
    decreases n,
{
    if n == 0 {
        Seq::empty()
    } else {
        let (mn, mt) = ims[n - 1];
        let names = tc.session.interner@;
        method_errors(tc, cn, iface, ims, members, span, (n - 1) as nat) + match assoc(members, mn) {
            Some(ct) => errors_if(ct != mt, seq![diag(DiagnosticCode::TypeMismatch, "Class '"@ + names[cn.0 as int]
                + "' incorrectly implements method '"@ + names[mn.0 as int] + "' of interface '"@ + names[iface.0 as int]
                + "'. Expected '"@ + tc.text(mt) + "', found '"@ + tc.text(ct) + "'."@, span)]),
            None => seq![diag(DiagnosticCode::TypeMismatch, "Class '"@ + names[cn.0 as int]
                + "' does not implement required method '"@ + names[mn.0 as int] + "' of interface '"@
                + names[iface.0 as int] + "'."@, span)],
        }
    }
}

/// The errors for the first `n` interfaces that class `cn` says it
/// implements: an unknown interface, or each of its methods the class
/// lacks or gives another type.
pub open spec fn implements_errors(tc: TypeChecker, cn: Symbol, implements: Seq<Symbol>, members: Seq<(Symbol, TypeId)>,
    span: Span, n: nat) -> Seq<DiagnosticV>
    decreases n,
{
    if n == 0 {
        Seq::empty()
    } else {
        let iface = implements[n - 1];
        implements_errors(tc, cn, implements, members, span, (n - 1) as nat) + match assoc(tc.interfaces@, iface) {
            Some(ims) => method_errors(tc, cn, iface, ims@, members, span, ims@.len()),
            None => seq![diag(DiagnosticCode::UnknownType, "Interface '"@ + tc.session.interner@[iface.0 as int]
                + "' not found."@, span)],
        }
    }
}

/// After a property's type `t` is found in state `m`: a weak property must
/// have an optional instance type.
pub open spec fn weak_property_checked(m: TypeChecker, t: TypeId, is_weak: bool, span: Span, s1: TypeChecker) -> bool {
    &&& s1.expr_step(m)
    &&& s1.session == m.session
    &&& reported(s1, m, errors_if(is_weak && !weak_ok(m.session.types@, t), seq![diag(DiagnosticCode::TypeMismatch,
        "Weak properties must be of optional instance type (e.g. 'weak var x: User?')."@, span)]))
}

/// The type of a property: its annotation, else its initializer's type,
/// else `Any` (a weak property without either is reported).
pub open spec fn field_typed(s0: TypeChecker, type_annotation: Option<TypeExpr>, initializer: Option<Expr>, is_weak: bool,
    span: Span, s1: TypeChecker, r: TypeId) -> bool {
    match type_annotation {
        Some(a) => exists|m: TypeChecker| #[trigger] picked(m)
            && type_parsed(s0, a, span, m, r) && weak_property_checked(m, r, is_weak, span, s1),
        None => match initializer {
            Some(e) => exists|m: TypeChecker| #[trigger] picked(m)
                && expr_checked(s0, e, None, m, r) && weak_property_checked(m, r, is_weak, span, s1),
            None => {
                &&& s1.expr_step(s0)
                &&& s1.session == s0.session
                &&& reported(s1, s0, errors_if(is_weak, seq![diag(DiagnosticCode::TypeMismatch,
                    "Weak properties must be of optional instance type (e.g. 'weak var x: User?')."@, span)]))
                &&& r == s0.common.any
            },
        },
    }
}

/// The member table, mutability table and uninitialized properties built
/// from the first `n` field statements of a class: each `var` or `let`
/// property gets its type and mutability (a later one replaces an earlier
/// one of the same name), and those without an initial value are listed;
/// other statements are skipped.
pub open spec fn fields_collected(s0: TypeChecker, fields: Seq<Stmt>, n: nat, s1: TypeChecker, members: Seq<(Symbol, TypeId)>,
    mutables: Seq<(Symbol, bool)>, uninit: Seq<Symbol>) -> bool
    decreases n,
{
    if n == 0 {
        s1 == s0 && members == Seq::<(Symbol, TypeId)>::empty() && mutables == Seq::<(Symbol, bool)>::empty()
            && uninit == Seq::<Symbol>::empty()
    } else {
        n <= fields.len() && exists|m: TypeChecker, mem0: Seq<(Symbol, TypeId)>, mut0: Seq<(Symbol, bool)>, un0: Seq<Symbol>,
            t: TypeId| #[trigger] picked((m, mem0, mut0, un0, t))
            && fields_collected(s0, fields, (n - 1) as nat, m, mem0, mut0, un0)
            && match fields[n - 1].kind {
                StmtKind::Var { name: f, type_annotation, initializer, is_weak, .. } =>
                    field_typed(m, type_annotation, initializer, is_weak, fields[n - 1].span, s1, t)
                    && members == inserted(mem0, f, t) && mutables == inserted(mut0, f, true)
                    && uninit == (if initializer is None { un0.push(f) } else { un0 }),
                StmtKind::Let { name: f, type_annotation, initializer, .. } =>
                    field_typed(m, type_annotation, initializer, false, fields[n - 1].span, s1, t)
                    && members == inserted(mem0, f, t) && mutables == inserted(mut0, f, false)
                    && uninit == (if initializer is None { un0.push(f) } else { un0 }),
                _ => s1 == m && members == mem0 && mutables == mut0 && uninit == un0,
            }
    }
}

/// The name under which an overload with parameter types `ps` is kept:
/// `_PO_`, the function's name, and a part for each parameter type.
pub open spec fn overload_name(tc: TypeChecker, name: Symbol, ps: Seq<TypeId>, n: nat) -> Seq<char>
    decreases n,
{
    if n == 0 {
        "_PO_"@ + tc.session.interner@[name.0 as int]
    } else {
        overload_name(tc, name, ps, (n - 1) as nat) + overload_part(tc.text(ps[n - 1]))
    }
}

/// Interning `text` takes `s0` to `s1` and gives `sym`.
pub open spec fn text_interned(s0: TypeChecker, text: Seq<char>, s1: TypeChecker, sym: Symbol) -> bool {
    &&& s1.expr_step(s0)
    &&& s1.errors == s0.errors
    &&& s1.session.types == s0.session.types
    &&& (sym.0 as int) < s1.session.interner@.len()
    &&& s0.session.interner@.len() + 1 < u32::MAX ==> s1.session.interner@[sym.0 as int] == text
}

/// A function of type `func_ty` added to the overloads `fs` of `name`:
/// it is kept under its overload name, and `name` stands for the
/// overload set with it.
pub open spec fn overload_added(s0: TypeChecker, name: Symbol, fs: Seq<(Symbol, TypeId)>, ps: Seq<TypeId>, func_ty: TypeId,
    s1: TypeChecker) -> bool {
    exists|m1: TypeChecker, sym: Symbol, m2: TypeChecker, ot: TypeId, m3: TypeChecker| #[trigger] picked((m1, sym, m2, ot, m3))
        && text_interned(s0, overload_name(s0, name, ps, ps.len()), m1, sym)
        && interned_done(m1, TypeV::OverloadedFunction(fs.push((sym, func_ty))), m2, ot)
        && with_env(m2, crate::env::with_declaration(m2.env@, name, Binding { ty: ot, is_mutable: false }), m3)
        && with_env(m3, crate::env::with_declaration(m3.env@, sym, Binding { ty: func_ty, is_mutable: false }), s1)
}

/// Declaring a function `name` of type `func_ty` with parameter types
/// `ps`: beside a function or an overload set of that name it becomes one
/// more overload; otherwise it is declared as it is.
#[verifier::opaque]
pub open spec fn function_declared(s0: TypeChecker, name: Symbol, ps: Seq<TypeId>, func_ty: TypeId, s1: TypeChecker) -> bool {
    let plain = with_env(s0, crate::env::with_declaration(s0.env@, name, Binding { ty: func_ty, is_mutable: false }), s1);
    match crate::env::lookup(s0.env@, name) {
        Some(b) => match s0.ty(b.ty) {
            TypeV::OverloadedFunction(fs) => overload_added(s0, name, fs, ps, func_ty, s1),
            TypeV::Function(..) => overload_added(s0, name, seq![(name, b.ty)], ps, func_ty, s1),
            _ => plain,
        },
        None => plain,
    }
}

impl TypeChecker {
    /// The name part that a parameter of type `t` adds to the name of an
    /// overload.
    pub fn overload_part(&self, t: TypeId) -> (s: String)
        requires
            self.wf(),
            (t.0 as int) < self.session.types@.len(),
        ensures
            s@ == overload_part(self.text(t)),
    {
        proof {
            reveal_strlit("<");
            reveal_strlit(">");
            reveal_strlit(" ");
            reveal_strlit("?");
            reveal_strlit("[]");
        }
        let mut base = String::from_str("_");
        base.append(self.fmt(t).as_str());
        let a = replace_str(base.as_str(), "<", "_");
        let b = replace_str(a.as_str(), ">", "");
        let c = replace_str(b.as_str(), " ", "");
        let d = replace_str(c.as_str(), "?", "Opt");
        replace_str(d.as_str(), "[]", "Arr")
    }

    /// The name of a method declared by `method` and its function type.
    pub fn method_signature(&mut self, method: &Stmt) -> (r: Option<(Symbol, TypeId)>)
        requires
            old(self).wf(),
            stmt_interned(old(self).names_bound@, *method),
        ensures
            final(self).expr_step(*old(self)),
            r matches Some(p) ==> (p.1.0 as int) < final(self).session.types@.len()
                && (method.kind matches StmtKind::Func { name, .. } && p.0 == name),
            !(method.kind is Func) ==> r is None && *final(self) == *old(self),
            signature_of(*old(self), *method, *final(self), r),
    {
        match &method.kind {
            StmtKind::Func { name, params, return_type, .. } => {
                let ghost start = *self;
                let ret = match return_type {
                    Some(rt) => self.parse_type(rt, method.span),
                    None => self.common.void,
                };
                let ghost m1 = *self;
                let ps = self.parse_param_types(params, method.span);
                let ghost m2 = *self;
                let ghost psv = ps@;
                let t = self.intern_type(Type::Function(Vec::new(), ps, ret));
                assert(interned_done(m2, TypeV::Function(Seq::empty(), psv, ret), *self, t));
                assert(picked((m1, ret, m2, psv, t)));
                Some((*name, t))
            },
            _ => None,
        }
    }

    /// The types of the parameters, in order.
    pub fn parse_param_types(&mut self, params: &Vec<(Symbol, TypeExpr)>, span: Span) -> (ps: Vec<TypeId>)
        requires
            old(self).wf(),
            params_all_interned(old(self).names_bound@, params@),
        ensures
            final(self).expr_step(*old(self)),
            ps@.len() == params@.len(),
            forall|k: int| 0 <= k < ps@.len() ==> ((#[trigger] ps@[k]).0 as int) < final(self).session.types@.len(),
            types_parsed(*old(self), param_types(params@), span, *final(self), ps@),
    {
        let ghost start = *self;
        proof { lemma_params_interned_each(self.names_bound@, params@); }
        let mut ps: Vec<TypeId> = Vec::new();
        let mut i: usize = 0;
        while i < params.len()
            invariant
                self.expr_step(start),
                i <= params@.len(),
                ps@.len() == i,
                forall|k: int| 0 <= k < params@.len() ==> ((#[trigger] params@[k]).0.0 as nat) < self.names_bound@
                    && type_expr_interned(self.names_bound@, params@[k].1),
                forall|k: int| 0 <= k < ps@.len() ==> ((#[trigger] ps@[k]).0 as int) < self.session.types@.len(),
                types_parsed(start, param_types(params@).take(i as int), span, *self, ps@),
            decreases params@.len() - i,
        {
            let ghost m = *self;
            let ghost ts0 = ps@;
            let t = self.parse_type(&params[i].1, span);
            ps.push(t);
            proof {
                let all = param_types(params@);
                let p = all.take(i + 1);
                assert(p.drop_last() =~= all.take(i as int));
                assert(p.last() == params@[i as int].1);
                assert(picked((m, ts0, t)));
                assert(types_parsed(start, p, span, *self, ps@));
            }
            i = i + 1;
        }
        assert(param_types(params@).take(params@.len() as int) =~= param_types(params@));
        ps
    }

    /// What `check_interface_decl` leaves behind.
    pub open spec fn check_interface_decl_done(s0: TypeChecker, name: Symbol, methods: Vec<Stmt>, s1: TypeChecker) -> bool {
        &&& s1.stmt_step(s0)
        &&& assoc(s1.interfaces@, name) is Some
        &&& exists|m: TypeChecker, members: Seq<(Symbol, TypeId)>, mi: TypeChecker, mt: TypeChecker, t: TypeId|
            #[trigger] picked((m, members, mi, mt, t))
            && members_collected(s0, methods@, methods@.len(), Seq::empty(), m, members)
            && (assoc(mi.interfaces@, name) matches Some(v) && v@ == members && mi.interfaces@ == inserted(m.interfaces@, name, v))
            && mi == (TypeChecker { interfaces: mi.interfaces, ..m })
            && interned_done(mi, TypeV::Interface(name), mt, t)
            && with_env(mt, crate::env::with_declaration(mt.env@, name, Binding { ty: t, is_mutable: false }), s1)
    }

    /// Checks an interface declaration: records its method types and
    /// declares it.
    pub fn check_interface_decl(&mut self, name: Symbol, methods: &Vec<Stmt>)
        requires
            old(self).wf(),
            (name.0 as nat) < old(self).names_bound@,
            stmts_interned(old(self).names_bound@, methods@),
        ensures
            Self::check_interface_decl_done(*old(self), name, *methods, *final(self)),
    {
        let ghost start = *self;
        proof { lemma_stmts_interned_each(self.names_bound@, methods@); }
        let mut members: Vec<(Symbol, TypeId)> = Vec::new();
        let mut i: usize = 0;
        while i < methods.len()
            invariant
                self.expr_step(start),
                i <= methods@.len(),
                forall|k: int| 0 <= k < methods@.len() ==> #[trigger] stmt_interned(self.names_bound@, methods@[k]),
                keys_unique(members@),
                forall|j: int| 0 <= j < members@.len() ==> ((#[trigger] members@[j]).1.0 as nat) < self.session.types@.len()
                    && (members@[j].0.0 as nat) < self.names_bound@,
                members_collected(start, methods@, i as nat, Seq::empty(), *self, members@),
            decreases methods@.len() - i,
        {
            assert(stmt_interned(self.names_bound@, methods@[i as int]));
            let ghost mm = *self;
            let ghost mem0 = members@;
            let sig = self.method_signature(&methods[i]);
            match sig {
                Some((n, t)) => {
                    let ghost before = members@;
                    table_insert(&mut members, n, t);
                    proof {
                        assert forall|j: int| 0 <= j < members@.len() implies ((#[trigger] members@[j]).1.0 as nat) < self.session.types@.len()
                            && (members@[j].0.0 as nat) < self.names_bound@ by {
                            if members@[j].0 == n {
                                assert(members@[j] == (n, t));
                            } else {
                                assert(members@[j] == before[j]);
                            }
                        }
                    }
                },
                None => {},
            }
            assert(picked((mm, mem0, sig)));
            assert(members_collected(start, methods@, (i + 1) as nat, Seq::empty(), *self, members@));
            i = i + 1;
        }
        let ghost m = *self;
        let ghost mv = members;
        let ghost before_tbl = self.interfaces@;
        insert_members(&mut self.interfaces, name, members);
        proof {
            let t = self.interfaces@;
            assert forall|i: int, j: int| 0 <= i < t.len() && 0 <= j < t[i].1@.len()
                implies ((#[trigger] t[i].1@[j]).0.0 as nat) < self.names_bound@ by {
                if t[i].0 == name {
                    assert(t[i] == (name, mv));
                } else {
                    lemma_table_entry_kept(before_tbl, t, name, i);
                }
            }
        }
        let ghost mi = *self;
        let t = self.intern_type(Type::Interface(name));
        let ghost mt = *self;
        self.declare_name(name, t, false);
        assert(self.env@.drop_last() =~= start.env@.drop_last());
        assert(assoc(mi.interfaces@, name) == Some(mv));
        assert(picked((m, mv@, mi, mt, t)));
    }

    /// What `check_foreign_decl` leaves behind.
    pub open spec fn check_foreign_decl_done(s0: TypeChecker, name: Symbol, type_params: Vec<Symbol>,
        params: Vec<(Symbol, TypeExpr)>, return_type: Option<TypeExpr>, span: Span, s1: TypeChecker) -> bool {
        &&& s1.stmt_step(s0)
        &&& exists|ma: TypeChecker, mb: TypeChecker, m1: TypeChecker, ret: TypeId, m2: TypeChecker, ps: Seq<TypeId>,
            mc: TypeChecker, md: TypeChecker, t: TypeId| #[trigger] picked((ma, mb, m1, ret, m2, ps, mc, md, t))
            && with_env(s0, s0.env@.push(Seq::empty()), ma)
            && tparams_declared(ma, type_params@, type_params@.len(), mb)
            && return_parsed(mb, return_type, span, m1, ret)
            && types_parsed(m1, param_types(params@), span, m2, ps)
            && with_env(m2, m2.env@.drop_last(), mc)
            && interned_done(mc, TypeV::Function(type_params@, ps, ret), md, t)
            && with_env(md, crate::env::with_declaration(md.env@, name, Binding { ty: t, is_mutable: false }), s1)
    }

    /// Checks a foreign function declaration and declares its type.
    pub fn check_foreign_decl(
        &mut self,
        name: Symbol,
        type_params: &Vec<Symbol>,
        params: &Vec<(Symbol, TypeExpr)>,
        return_type: &Option<TypeExpr>,
        span: Span,
    )
        requires
            old(self).wf(),
            (name.0 as nat) < old(self).names_bound@,
            symbols_below(old(self).names_bound@, type_params@),
            params_all_interned(old(self).names_bound@, params@),
            opt_type_expr_interned(old(self).names_bound@, *return_type),
        ensures
            Self::check_foreign_decl_done(*old(self), name, *type_params, *params, *return_type, span, *final(self)),
    {
        let ghost start = *self;
        self.enter_scope();
        let ghost ma = *self;
        self.declare_type_params(type_params);
        let ghost pushed = *self;
        let ret = match return_type {
            Some(rt) => self.parse_type(rt, span),
            None => self.common.void,
        };
        let ghost m1 = *self;
        let ps = self.parse_param_types(params, span);
        let ghost m2 = *self;
        self.leave_scope();
        let ghost mc = *self;
        assert(self.env@ =~= start.env@);
        let tps = copy_symbols(type_params);
        let ghost psv = ps@;
        let t = self.intern_type(Type::Function(tps, ps, ret));
        let ghost md = *self;
        assert(interned_done(mc, TypeV::Function(type_params@, psv, ret), md, t));
        self.declare_name(name, t, false);
        assert(self.env@.drop_last() =~= start.env@.drop_last());
        assert(with_env(start, start.env@.push(Seq::empty()), ma));
        assert(with_env(m2, m2.env@.drop_last(), mc));
        assert(with_env(md, crate::env::with_declaration(md.env@, name, Binding { ty: t, is_mutable: false }), *self));
        assert(picked((ma, pushed, m1, ret, m2, psv, mc, md, t)));
    }

    /// What `check_enum_decl` leaves behind.
    pub open spec fn check_enum_decl_done(s0: TypeChecker, name: Symbol, type_params: Vec<Symbol>, variants: Vec<EnumVariant>,
        span: Span, s1: TypeChecker) -> bool {
        &&& s1.stmt_step(s0)
        &&& assoc(s1.enums@, name) is Some
        &&& exists|m0: TypeChecker, et: TypeId, ma: TypeChecker, mb: TypeChecker, mc: TypeChecker, mt: TypeChecker,
            table: Seq<(Symbol, TypeId)>, md: TypeChecker, me: TypeChecker|
            #[trigger] picked((m0, et, ma, mb, mc, mt, table, md, me))
            && interned_done(s0, TypeV::Enum(name, type_params@), m0, et)
            && with_env(m0, crate::env::with_declaration(m0.env@, name, Binding { ty: et, is_mutable: false }), ma)
            && with_env(ma, ma.env@.push(Seq::empty()), mb)
            && tparams_declared(mb, type_params@, type_params@.len(), mc)
            && variants_collected(mc, name, type_params@, variants@, span, variants@.len(), mt, table)
            && with_env(mt, mt.env@.drop_last(), md)
            && entries_declared(md, table, table.len(), me)
            && (assoc(s1.enums@, name) matches Some(v) && v@ == table && s1.enums@ == inserted(me.enums@, name, v))
            && s1 == (TypeChecker { enums: s1.enums, ..me })
    }

    /// Checks an enum declaration: declares the enum, records and declares
    /// a constructor for each variant.
    pub fn check_enum_decl(&mut self, name: Symbol, type_params: &Vec<Symbol>, variants: &Vec<EnumVariant>, span: Span)
        requires
            old(self).wf(),
            (name.0 as nat) < old(self).names_bound@,
            symbols_below(old(self).names_bound@, type_params@),
            crate::ast::variants_interned(old(self).names_bound@, variants@),
        ensures
            Self::check_enum_decl_done(*old(self), name, *type_params, *variants, span, *final(self)),
    {
        let ghost start = *self;
        let tps0 = copy_symbols(type_params);
        let enum_ty = self.intern_type(Type::Enum(name, tps0));
        let ghost m0 = *self;
        self.declare_name(name, enum_ty, false);
        let ghost declared = *self;
        self.enter_scope();
        let ghost mb = *self;
        self.declare_type_params(type_params);
        proof { lemma_variants_interned_each(self.names_bound@, variants@); }
        let ghost pushed = *self;
        let mut table: Vec<(Symbol, TypeId)> = Vec::new();
        let mut i: usize = 0;
        while i < variants.len()
            invariant
                self.expr_step(pushed),
                i <= variants@.len(),
                symbols_below(self.names_bound@, type_params@),
                (name.0 as nat) < self.names_bound@,
                forall|k: int| 0 <= k < variants@.len() ==> ((#[trigger] variants@[k]).name.0 as nat) < self.names_bound@
                    && (variants@[k].fields matches Some(fs) ==> crate::ast::fields_interned(self.names_bound@, fs@)),
                keys_unique(table@),
                forall|j: int| 0 <= j < table@.len() ==> ((#[trigger] table@[j]).1.0 as nat) < self.session.types@.len(),
                variants_collected(pushed, name, type_params@, variants@, span, i as nat, *self, table@),
            decreases variants@.len() - i,
        {
            let ghost mi = *self;
            let ghost t0 = table@;
            let v = &variants[i];
            let mut ps: Vec<TypeId> = Vec::new();
            match &v.fields {
                Some(fs) => {
                    proof { lemma_fields_interned_each(self.names_bound@, fs@); }
                    let ghost s1 = *self;
                    let ghost fts = field_types(v.fields);
                    let mut k: usize = 0;
                    while k < fs.len()
                        invariant
                            self.expr_step(s1),
                            k <= fs@.len(),
                            forall|j: int| 0 <= j < fs@.len() ==> #[trigger] type_expr_interned(self.names_bound@, fs@[j].ty),
                            forall|j: int| 0 <= j < ps@.len() ==> ((#[trigger] ps@[j]).0 as int) < self.session.types@.len(),
                            fts == fs@.map_values(|f: EnumField| f.ty),
                            types_parsed(s1, fts.take(k as int), span, *self, ps@),
                        decreases fs@.len() - k,
                    {
                        let ghost mk = *self;
                        let ghost ts0 = ps@;
                        let t = self.parse_type(&fs[k].ty, span);
                        ps.push(t);
                        proof {
                            let p = fts.take(k + 1);
                            assert(p.drop_last() =~= fts.take(k as int));
                            assert(p.last() == fs@[k as int].ty);
                            assert(picked((mk, ts0, t)));
                            assert(types_parsed(s1, p, span, *self, ps@));
                        }
                        k = k + 1;
                    }
                    assert(fts.take(fs@.len() as int) =~= fts);
                },
                None => {
                    assert(field_types(v.fields) =~= Seq::<TypeExpr>::empty());
                },
            }
            let ghost m1 = *self;
            let ghost psv = ps@;
            let ret = if type_params.len() == 0 {
                let r = self.intern_type(Type::Instance(name));
                assert(interned_done(m1, TypeV::Instance(name), *self, r));
                r
            } else {
                let ghost s2 = *self;
                let mut args: Vec<TypeId> = Vec::new();
                let mut k: usize = 0;
                while k < type_params.len()
                    invariant
                        self.expr_step(s2),
                        k <= type_params@.len(),
                        symbols_below(self.names_bound@, type_params@),
                        forall|j: int| 0 <= j < args@.len() ==> ((#[trigger] args@[j]).0 as int) < self.session.types@.len(),
                        forall|j: int| 0 <= j < ps@.len() ==> ((#[trigger] ps@[j]).0 as int) < self.session.types@.len(),
                        generics_interned(s2, type_params@, k as nat, *self, args@),
                    decreases type_params@.len() - k,
                {
                    assert((type_params@[k as int].0 as nat) < self.names_bound@);
                    let ghost mk = *self;
                    let ghost gs0 = args@;
                    let g = self.intern_type(Type::Generic(type_params[k]));
                    args.push(g);
                    assert(picked((mk, gs0, g)));
                    assert(generics_interned(s2, type_params@, (k + 1) as nat, *self, args@));
                    k = k + 1;
                }
                let ghost mg = *self;
                let ghost gs = args@;
                let r = self.intern_type(Type::GenericInstance(name, args));
                assert(interned_done(mg, TypeV::GenericInstance(name, gs), *self, r));
                assert(picked((mg, gs)));
                r
            };
            let ghost m2 = *self;
            let tps = copy_symbols(type_params);
            proof {
                assert forall|j: int| 0 <= j < tps@.len() implies ((#[trigger] tps@[j]).0 as nat) < self.session.interner@.len() by {
                    assert(tps@[j] == type_params@[j]);
                }
            }
            let vty = self.intern_type(Type::EnumVariantConstructor(name, v.name, tps, ps, ret));
            assert(interned_done(m2, TypeV::EnumVariantConstructor(name, v.name, type_params@, psv, ret), *self, vty));
            assert(picked((m1, psv, m2, ret)));
            assert(variant_built(mi, name, type_params@, variants@[i as int], span, *self, vty));
            let ghost before = table@;
            table_insert(&mut table, v.name, vty);
            proof {
                assert forall|j: int| 0 <= j < table@.len() implies ((#[trigger] table@[j]).1.0 as nat) < self.session.types@.len() by {
                    if table@[j].0 == v.name {
                        assert(table@[j] == (v.name, vty));
                    } else {
                        assert(table@[j] == before[j]);
                    }
                }
                assert(picked((mi, t0, vty)));
                assert(variants_collected(pushed, name, type_params@, variants@, span, (i + 1) as nat, *self, table@));
            }
            i = i + 1;
        }
        let ghost mt = *self;
        self.leave_scope();
        let ghost md = *self;
        assert(self.env@ =~= declared.env@);
        let ghost s3 = *self;
        let mut j: usize = 0;
        while j < table.len()
            invariant
                self.grows_from(s3),
                s3.grows_from(start),
                j <= table@.len(),
                self.env@.drop_last() == start.env@.drop_last(),
                self.same_but_env(s3),
                forall|k: int| 0 <= k < table@.len() ==> ((#[trigger] table@[k]).1.0 as nat) < self.session.types@.len(),
                entries_declared(md, table@, j as nat, *self),
            decreases table@.len() - j,
        {
            let (vn, vt) = table[j];
            let ghost before = self.env@;
            let ghost mj = *self;
            self.declare_name(vn, vt, false);
            assert(self.env@.drop_last() =~= before.drop_last());
            assert(with_env(mj, crate::env::with_declaration(mj.env@, vn, Binding { ty: vt, is_mutable: false }), *self));
            assert(picked(mj));
            assert(entries_declared(md, table@, (j + 1) as nat, *self));
            j = j + 1;
        }
        let ghost me = *self;
        let ghost tv = table@;
        insert_members(&mut self.enums, name, table);
        assert(with_env(m0, crate::env::with_declaration(m0.env@, name, Binding { ty: enum_ty, is_mutable: false }), declared));
        assert(with_env(declared, declared.env@.push(Seq::empty()), mb));
        assert(with_env(mt, mt.env@.drop_last(), md));
        assert(picked((m0, enum_ty, declared, mb, pushed, mt, tv, md, me)));
    }

    /// Declares a function `name` of type `func_ty` with parameter types
    /// `ps`.  When `name` already denotes a function or an overload set in
    /// scope, the new function joins the set under a name made from `name`
    /// and its parameter types, and both names are declared.
    pub fn declare_function(&mut self, name: Symbol, ps: &Vec<TypeId>, func_ty: TypeId)
        requires
            old(self).wf(),
            (name.0 as int) < old(self).session.interner@.len(),
            (func_ty.0 as int) < old(self).session.types@.len(),
            forall|k: int| 0 <= k < ps@.len() ==> ((#[trigger] ps@[k]).0 as int) < old(self).session.types@.len(),
        ensures
            final(self).grows_from(*old(self)),
            final(self).env@.drop_last() == old(self).env@.drop_last(),
            final(self).errors == old(self).errors,
            final(self).same_tables(*old(self)),
            !(crate::env::lookup(old(self).env@, name) matches Some(b)
                && (old(self).ty(b.ty) is Function || old(self).ty(b.ty) is OverloadedFunction))
                ==> final(self).env@ == crate::env::with_declaration(old(self).env@, name,
                    crate::env::Binding { ty: func_ty, is_mutable: false }),
            function_declared(*old(self), name, ps@, func_ty, *final(self)),
    {
        let ghost start = *self;
        proof {
            crate::checker::lemma_lookup_below(self.env@, self.session.types@.len(), name);
            reveal(function_declared);
        }
        let existing = match self.env.resolve(name) {
            Some(e) => e,
            None => {
                self.declare_name(name, func_ty, false);
                return;
            },
        };
        let ghost fs0: Seq<(Symbol, TypeId)> = match start.ty(existing) {
            TypeV::OverloadedFunction(fs) => fs,
            _ => seq![(name, existing)],
        };
        let et = self.get_type(existing);
        proof {
            assert(forall|k: int| 0 <= k < crate::types::type_children(et@).len()
                ==> ((#[trigger] crate::types::type_children(et@)[k]).0 as int) < self.session.types@.len());
            assert(forall|k: int| 0 <= k < crate::types::type_symbols(et@).len()
                ==> ((#[trigger] crate::types::type_symbols(et@)[k]).0 as int) < self.session.interner@.len());
        }
        let mut funcs: Vec<(Symbol, TypeId)> = match et {
            Type::OverloadedFunction(fs) => {
                assert(forall|k: int| 0 <= k < fs@.len() ==> crate::types::type_children(et@)[k] == (#[trigger] fs@[k]).1);
                assert(forall|k: int| 0 <= k < fs@.len() ==> crate::types::type_symbols(et@)[k] == (#[trigger] fs@[k]).0);
                fs
            },
            Type::Function(..) => vec![(name, existing)],
            _ => {
                self.declare_name(name, func_ty, false);
                return;
            },
        };
        assert(funcs@ == fs0);
        let mut mangled = self.msg_name("_PO_", name, "");
        proof { reveal_strlit(""); }
        assert(mangled@ =~= overload_name(start, name, ps@, 0));
        let mut i: usize = 0;
        while i < ps.len()
            invariant
                self.wf(),
                *self == start,
                forall|k: int| 0 <= k < ps@.len() ==> ((#[trigger] ps@[k]).0 as int) < self.session.types@.len(),
                i <= ps@.len(),
                mangled@ == overload_name(start, name, ps@, i as nat),
            decreases ps@.len() - i,
        {
            let part = self.overload_part(ps[i]);
            mangled.append(part.as_str());
            i = i + 1;
        }
        let sym = self.intern_text(mangled.as_str());
        let ghost m1 = *self;
        funcs.push((sym, func_ty));
        proof {
            let t = TypeV::OverloadedFunction(funcs@);
            assert forall|k: int| 0 <= k < crate::types::type_children(t).len()
                implies ((#[trigger] crate::types::type_children(t)[k]).0 as int) < self.session.types@.len() by {
                assert(crate::types::type_children(t)[k] == funcs@[k].1);
            }
            assert forall|k: int| 0 <= k < crate::types::type_symbols(t).len()
                implies ((#[trigger] crate::types::type_symbols(t)[k]).0 as int) < self.session.interner@.len() by {
                assert(crate::types::type_symbols(t)[k] == funcs@[k].0);
            }
        }
        let ghost fv = funcs@;
        let ot = self.intern_type(Type::OverloadedFunction(funcs));
        let ghost m2 = *self;
        assert(interned_done(m1, TypeV::OverloadedFunction(fs0.push((sym, func_ty))), m2, ot));
        self.declare_name(name, ot, false);
        let ghost m3 = *self;
        self.declare_name(sym, func_ty, false);
        assert(self.env@.drop_last() =~= start.env@.drop_last());
        assert(with_env(m2, crate::env::with_declaration(m2.env@, name, Binding { ty: ot, is_mutable: false }), m3));
        assert(with_env(m3, crate::env::with_declaration(m3.env@, sym, Binding { ty: func_ty, is_mutable: false }), *self));
        assert(picked((m1, sym, m2, ot, m3)));
    }

    /// The tables and the context are as in `old`.
    pub open spec fn same_tables(&self, old: TypeChecker) -> bool {
        &&& self.current_return_type == old.current_return_type
        &&& self.classes == old.classes
        &&& self.class_mutables == old.class_mutables
        &&& self.interfaces == old.interfaces
        &&& self.enums == old.enums
        &&& self.class_implements == old.class_implements
        &&& self.current_class == old.current_class
        &&& self.uninitialized_class_properties == old.uninitialized_class_properties
        &&& self.generic_classes == old.generic_classes
        &&& self.generic_functions == old.generic_functions
        &&& self.is_checking_method == old.is_checking_method
    }

    /// The registry entry of a generic function: its type parameters, and
    /// copies of its parameter types and return type as written.
    pub open spec fn generic_function_entry(g: GenericFunction, type_params: Seq<Symbol>,
        params: Seq<(Symbol, TypeExpr)>, return_type: Option<TypeExpr>) -> bool
    {
        &&& g.type_params@ == type_params
        &&& copies_of(g.params@, param_types(params))
        &&& match (g.return_type, return_type) {
            (Some(a), Some(b)) => copy_of(a, b),
            (None, None) => true,
            _ => false,
        }
    }

    /// Registering a generic function sets its entry in the registry and
    /// changes nothing else.
    #[verifier::opaque]
    pub open spec fn generic_function_registered(s0: TypeChecker, name: Symbol, type_params: Seq<Symbol>,
        params: Seq<(Symbol, TypeExpr)>, return_type: Option<TypeExpr>, s1: TypeChecker) -> bool
    {
        &&& s1 == (TypeChecker { generic_functions: s1.generic_functions, ..s0 })
        &&& match assoc(s1.generic_functions@, name) {
            Some(g) => Self::generic_function_entry(g, type_params, params, return_type)
                && s1.generic_functions@ == inserted(s0.generic_functions@, name, g),
            None => false,
        }
    }

    /// Keeps a generic function by name until it is used.
    pub fn register_generic_function(
        &mut self,
        name: Symbol,
        type_params: &Vec<Symbol>,
        params: &Vec<(Symbol, TypeExpr)>,
        return_type: &Option<TypeExpr>,
    )
        requires
            old(self).wf(),
            (name.0 as nat) < old(self).names_bound@,
            symbols_below(old(self).names_bound@, type_params@),
            params_all_interned(old(self).names_bound@, params@),
            opt_type_expr_interned(old(self).names_bound@, *return_type),
        ensures
            final(self).stmt_step(*old(self)),
            Self::generic_function_registered(*old(self), name, type_params@, params@, *return_type, *final(self)),
    {
        proof {
            reveal(TypeChecker::generic_function_registered);
            lemma_params_interned_each(self.names_bound@, params@);
        }
        let mut ps: Vec<TypeExpr> = Vec::new();
        let mut i: usize = 0;
        while i < params.len()
            invariant
                i <= params@.len(),
                ps@.len() == i,
                forall|k: int| 0 <= k < params@.len() ==> ((#[trigger] params@[k]).0.0 as nat) < old(self).names_bound@
                    && type_expr_interned(old(self).names_bound@, params@[k].1),
                forall|k: int| 0 <= k < ps@.len() ==> #[trigger] type_expr_interned(old(self).names_bound@, ps@[k]),
                forall|k: int| 0 <= k < ps@.len() ==> copy_of(#[trigger] ps@[k], params@[k].1),
            decreases params@.len() - i,
        {
            let c = params[i].1.copy();
            ps.push(c);
            i = i + 1;
        }
        proof { lemma_type_exprs_interned_from_all(self.names_bound@, ps@); }
        let rt = match return_type {
            Some(t) => Some(t.copy()),
            None => None,
        };
        let g = GenericFunction { type_params: copy_symbols(type_params), params: ps, return_type: rt };
        let ghost gv = g;
        assert(copies_of(gv.params@, param_types(params@)));
        let ghost before = self.generic_functions@;
        table_insert(&mut self.generic_functions, name, g);
        proof {
            let t = self.generic_functions@;
            assert forall|i: int| 0 <= i < t.len() implies {
                &&& ((#[trigger] t[i]).0.0 as nat) < self.names_bound@
                &&& symbols_below(self.names_bound@, t[i].1.type_params@)
                &&& type_exprs_interned(self.names_bound@, t[i].1.params@)
                &&& opt_type_expr_interned(self.names_bound@, t[i].1.return_type)
            } by {
                if t[i].0 == name {
                    assert(t[i] == (name, gv));
                } else {
                    assert(t[i] == before[i]);
                }
            }
        }
    }

    /// Declaring a function before its body is checked: the method flag is
    /// cleared, and a function that is not a method has its type interned
    /// and is declared under its name.
    #[verifier::opaque]
    pub open spec fn func_declared(s0: TypeChecker, name: Symbol, ps: Seq<TypeId>, ret: TypeId, s1: TypeChecker) -> bool {
        let m = TypeChecker { is_checking_method: false, ..s0 };
        if s0.is_checking_method {
            s1 == m
        } else {
            exists|mi: TypeChecker, ft: TypeId| #[trigger] picked((mi, ft))
                && interned_done(m, TypeV::Function(Seq::empty(), ps, ret), mi, ft)
                && function_declared(mi, name, ps, ft, s1)
        }
    }

    /// The state in which a function body is checked: a new scope holding
    /// `self` (inside a class, bound to the instance type) and then the
    /// parameters, with the return type set.
    #[verifier::opaque]
    pub open spec fn body_scope(md: TypeChecker, params: Seq<(Symbol, TypeExpr)>, ps: Seq<TypeId>, ret: TypeId, mb0: TypeChecker) -> bool {
        match md.current_class {
            Some(cn) => exists|me: TypeChecker, mi: TypeChecker, st: TypeId| #[trigger] picked((me, mi, st))
                && with_env(md, md.env@.push(Seq::empty()), me)
                && interned_done(me, TypeV::Instance(cn), mi, st)
                && with_env(TypeChecker { current_return_type: Some(ret), ..mi },
                    md.env@.push(seq![(md.names.self_name, Binding { ty: st, is_mutable: false })] + param_bindings(params, ps)), mb0),
            None => with_env(TypeChecker { current_return_type: Some(ret), ..md }, md.env@.push(param_bindings(params, ps)), mb0),
        }
    }

    /// What `check_func_decl` leaves behind.
    pub open spec fn check_func_decl_done(s0: TypeChecker, stmt: Stmt, s1: TypeChecker) -> bool
        decreases stmt, 0nat,
    {
        &&& s1.stmt_step(s0)
        &&& match stmt.kind {
            StmtKind::Func { name, type_params, params, return_type, body, .. } => if type_params@.len() > 0 {
                Self::generic_function_registered(s0, name, type_params@, params@, return_type, s1)
            } else {
                exists|m1: TypeChecker, ret: TypeId, m2: TypeChecker, ps: Seq<TypeId>, md: TypeChecker, mb0: TypeChecker, mb1: TypeChecker|
                    #[trigger] picked((m1, ret, m2, ps, md, mb0, mb1))
                    && (match return_type {
                        Some(rt) => type_parsed(s0, rt, stmt.span, m1, ret),
                        None => m1 == s0 && ret == s0.common.void,
                    })
                    && types_parsed(m1, param_types(params@), stmt.span, m2, ps)
                    && Self::func_declared(m2, name, ps, ret, md)
                    && Self::body_scope(md, params@, ps, ret, mb0)
                    && stmt_checked(mb0, *body, mb1)
                    && reported(s1, mb1, init_errors(mb1, name, *body, stmt.span))
                    && s1 == (TypeChecker { errors: s1.errors, env: s1.env, current_return_type: s0.current_return_type, ..mb1 })
                    && s1.env@ == md.env@
            },
            _ => s1 == s0,
        }
    }

    /// Checks a function declaration: declares the function (unless it is a
    /// method, which its class records), then checks the body with the
    /// parameters, `self` in a class, and the return type in scope.  A
    /// constructor must assign every property declared without an initial
    /// value.  A generic function is kept until it is used.
    #[verifier::rlimit(60)]
    #[verifier::spinoff_prover]
    pub fn check_func_decl(&mut self, stmt: &Stmt)
        requires
            old(self).wf(),
            stmt_interned(old(self).names_bound@, *stmt),
        ensures
            Self::check_func_decl_done(*old(self), *stmt, *final(self)),
        decreases *stmt, 1nat,
    {
        let ghost start = *self;
        match &stmt.kind {
            StmtKind::Func { name, type_params, params, return_type, body, .. } => {
                if type_params.len() > 0 {
                    self.register_generic_function(*name, type_params, params, return_type);
                    return;
                }
                let ret = match return_type {
                    Some(rt) => self.parse_type(rt, stmt.span),
                    None => self.common.void,
                };
                let ghost m1 = *self;
                let ps = self.parse_param_types(params, stmt.span);
                let ghost m2 = *self;
                let is_method = self.is_checking_method;
                self.is_checking_method = false;
                assert(type_params@ =~= Seq::<Symbol>::empty());
                if !is_method {
                    let ghost mm = *self;
                    let ft = self.intern_type(Type::Function(copy_symbols(type_params), crate::types::copy_ids(&ps), ret));
                    let ghost mi = *self;
                    self.declare_function(*name, &ps, ft);
                    assert(Self::func_declared(m2, *name, ps@, ret, *self)) by {
                        reveal(TypeChecker::func_declared);
                        assert(mm == (TypeChecker { is_checking_method: false, ..m2 }));
                        assert(picked((mi, ft)));
                    }
                } else {
                    assert(Self::func_declared(m2, *name, ps@, ret, *self)) by {
                        reveal(TypeChecker::func_declared);
                    }
                }
                let ghost declared = *self;
                self.enter_scope();
                assert(self.env@.drop_last() =~= declared.env@);
                self.declare_type_params(type_params);
                let ghost me = *self;
                assert(with_env(declared, declared.env@.push(Seq::empty()), me));
                let ghost mut mi2: TypeChecker = *self;
                let ghost mut st2: TypeId = self.common.any;
                match self.current_class {
                    Some(cn) => {
                        let st = self.intern_type(Type::Instance(cn));
                        proof {
                            mi2 = *self;
                            st2 = st;
                        }
                        assert(interned_done(me, TypeV::Instance(cn), mi2, st2));
                        let sn = self.names.self_name;
                        let ghost before = self.env@;
                        self.declare_name(sn, st, false);
                        assert(self.env@.drop_last() =~= before.drop_last());
                        assert(with_env(mi2, with_declaration(mi2.env@, declared.names.self_name,
                            Binding { ty: st2, is_mutable: false }), *self));
                    },
                    None => {},
                }
                assert(self.env@.drop_last() == declared.env@);
                let ghost s1 = *self;
                assert(s1.errors == m2.errors);
                assert(s1.current_class == start.current_class);
                proof { lemma_params_interned_each(self.names_bound@, params@); }
                let mut k: usize = 0;
                while k < params.len()
                    invariant
                        self.grows_from(s1),
                        self.same_but_env(s1) || (self.same_tables(s1) && self.errors == s1.errors),
                        self.current_return_type == s1.current_return_type,
                        self.current_class == s1.current_class,
                        self.env@.drop_last() == s1.env@.drop_last(),
                        self.errors == s1.errors,
                        self.env@.len() == s1.env@.len(),
                        self.env@.last().len() == s1.env@.last().len() + k,
                        self.same_but_env(s1),
                        forall|j: int| 0 <= j < s1.env@.last().len() ==> #[trigger] self.env@.last()[j] == s1.env@.last()[j],
                        forall|j: int| 0 <= j < k ==> #[trigger] self.env@.last()[s1.env@.last().len() + j]
                            == (params@[j].0, Binding { ty: ps@[j], is_mutable: false }),
                        k <= params@.len(),
                        ps@.len() == params@.len(),
                        forall|j: int| 0 <= j < ps@.len() ==> ((#[trigger] ps@[j]).0 as int) < self.session.types@.len(),
                    decreases params@.len() - k,
                {
                    let ghost before = self.env@;
                    self.declare_name(params[k].0, ps[k], false);
                    assert(self.env@.drop_last() =~= before.drop_last());
                    proof {
                        assert forall|j: int| 0 <= j < k + 1 implies #[trigger] self.env@.last()[s1.env@.last().len() + j]
                            == (params@[j].0, Binding { ty: ps@[j], is_mutable: false }) by {
                            if j < k {
                                assert(self.env@.last()[s1.env@.last().len() + j] == before.last()[s1.env@.last().len() + j]);
                            }
                        }
                    }
                    k = k + 1;
                }
                let prev = self.current_return_type;
                self.current_return_type = Some(ret);
                let ghost mb0 = *self;
                proof { lemma_body_scope(mb0, declared, me, mi2, st2, s1, params@, ps@, ret); }
                proof {
                    assert(decreases_to!(*stmt => **body)) by {
                        assert(decreases_to!(*stmt => stmt.kind));
                        assert(decreases_to!(stmt.kind => stmt.kind->Func_body));
                    }
                }
                self.check_stmt(body);
                let ghost mb1 = *self;
                if *name == self.names.init {
                    match self.current_class {
                        Some(cn) => match find_last(&self.uninitialized_class_properties, cn) {
                            Some(i) => {
                                let props = copy_symbols(&self.uninitialized_class_properties[i].1);
                                proof {
                                    assert(symbols_below(self.names_bound@, self.uninitialized_class_properties@[i as int].1@));
                                }
                                let assigned = assigned_properties(body);
                                let ghost s2 = *self;
                                let ghost aset = assigned_props(**body);
                                let mut j: usize = 0;
                                assert(props@.take(0) =~= Seq::<Symbol>::empty());
                                assert(diagnostics_view(self.errors@) =~= diagnostics_view(mb1.errors@)
                                    + unassigned_errors(mb1, props@.take(0), aset, stmt.span));
                                while j < props.len()
                                    invariant
                                        self.expr_step(s2),
                                        self.session == mb1.session,
                                        s2 == mb1,
                                        j <= props@.len(),
                                        symbols_below(self.names_bound@, props@),
                                        forall|p: Symbol| assigned@.contains(p) <==> aset.contains(p),
                                        diagnostics_view(self.errors@) == diagnostics_view(mb1.errors@)
                                            + unassigned_errors(mb1, props@.take(j as int), aset, stmt.span),
                                    decreases props@.len() - j,
                                {
                                    let p = props[j];
                                    let ghost before = diagnostics_view(self.errors@);
                                    proof {
                                        let t = props@.take(j + 1);
                                        assert(t.drop_last() =~= props@.take(j as int));
                                        assert(t.last() == p);
                                    }
                                    if !crate::checker::contains_symbol(&assigned, p) {
                                        let m = self.msg_name("Property '", p, "' is not initialized by the constructor.");
                                        self.error(stmt.span, DiagnosticCode::UninitializedVariable, m.as_str());
                                    }
                                    assert(diagnostics_view(self.errors@) =~= diagnostics_view(mb1.errors@)
                                        + unassigned_errors(mb1, props@.take(j + 1), aset, stmt.span));
                                    j = j + 1;
                                }
                                assert(props@.take(props@.len() as int) =~= props@);
                            },
                            None => {},
                        },
                        None => {},
                    }
                }
                assert(reported(*self, mb1, init_errors(mb1, *name, **body, stmt.span)));
                self.current_return_type = prev;
                assert(self.env@.drop_last() == declared.env@);
                self.leave_scope();
                assert(self.env@ =~= declared.env@);
                assert(self.env@.drop_last() =~= start.env@.drop_last());
                assert(picked((m1, ret, m2, ps@, declared, mb0, mb1)));
            },
            _ => {},
        }
    }

    /// The registry entry of a generic class: its type parameters, and
    /// copies of the parameter types of its last `init` method, if any.
    pub open spec fn generic_class_entry(g: GenericClass, type_params: Seq<Symbol>, methods: Seq<Stmt>, init: Symbol) -> bool {
        &&& g.type_params@ == type_params
        &&& match (g.init_params, last_init_params(methods, init)) {
            (Some(ps), Some(src)) => copies_of(ps@, param_types(src)),
            (None, None) => true,
            _ => false,
        }
    }

    /// Registering a generic class sets its entry in the registry and
    /// changes nothing else.
    #[verifier::opaque]
    pub open spec fn generic_class_registered(s0: TypeChecker, name: Symbol, type_params: Seq<Symbol>,
        methods: Seq<Stmt>, s1: TypeChecker) -> bool
    {
        &&& s1 == (TypeChecker { generic_classes: s1.generic_classes, ..s0 })
        &&& match assoc(s1.generic_classes@, name) {
            Some(g) => Self::generic_class_entry(g, type_params, methods, s0.names.init)
                && s1.generic_classes@ == inserted(s0.generic_classes@, name, g),
            None => false,
        }
    }

    /// Keeps a generic class by name until it is used, with the parameter
    /// types of its latest `init` method.
    pub fn register_generic_class(&mut self, name: Symbol, type_params: &Vec<Symbol>, methods: &Vec<Stmt>)
        requires
            old(self).wf(),
            (name.0 as nat) < old(self).names_bound@,
            symbols_below(old(self).names_bound@, type_params@),
            stmts_interned(old(self).names_bound@, methods@),
        ensures
            final(self).stmt_step(*old(self)),
            Self::generic_class_registered(*old(self), name, type_params@, methods@, *final(self)),
    {
        proof {
            reveal(TypeChecker::generic_class_registered);
            lemma_stmts_interned_each(self.names_bound@, methods@);
        }
        let mut init: Option<Vec<TypeExpr>> = None;
        let mut i: usize = 0;
        while i < methods.len()
            invariant
                i <= methods@.len(),
                forall|k: int| 0 <= k < methods@.len() ==> #[trigger] stmt_interned(old(self).names_bound@, methods@[k]),
                init matches Some(ps) ==> type_exprs_interned(old(self).names_bound@, ps@),
                self.names == old(self).names,
                match (init, last_init_params(methods@.take(i as int), old(self).names.init)) {
                    (Some(ps), Some(src)) => copies_of(ps@, param_types(src)),
                    (None, None) => true,
                    _ => false,
                },
            decreases methods@.len() - i,
        {
            proof {
                assert(methods@.take(i + 1).drop_last() =~= methods@.take(i as int));
                assert(methods@.take(i + 1).last() == methods@[i as int]);
            }
            match &methods[i].kind {
                StmtKind::Func { name: m, params, .. } => {
                    if *m == self.names.init {
                        assert(stmt_interned(old(self).names_bound@, methods@[i as int]));
                        proof { lemma_params_interned_each(old(self).names_bound@, params@); }
                        let mut ps: Vec<TypeExpr> = Vec::new();
                        let mut k: usize = 0;
                        while k < params.len()
                            invariant
                                k <= params@.len(),
                                ps@.len() == k,
                                forall|j: int| 0 <= j < params@.len() ==> ((#[trigger] params@[j]).0.0 as nat) < old(self).names_bound@
                                    && type_expr_interned(old(self).names_bound@, params@[j].1),
                                forall|j: int| 0 <= j < ps@.len() ==> #[trigger] type_expr_interned(old(self).names_bound@, ps@[j]),
                                forall|j: int| 0 <= j < ps@.len() ==> copy_of(#[trigger] ps@[j], params@[j].1),
                            decreases params@.len() - k,
                        {
                            let c = params[k].1.copy();
                            ps.push(c);
                            k = k + 1;
                        }
                        proof { lemma_type_exprs_interned_from_all(old(self).names_bound@, ps@); }
                        assert(copies_of(ps@, param_types(params@)));
                        init = Some(ps);
                    }
                },
                _ => {},
            }
            i = i + 1;
        }
        assert(methods@.take(methods@.len() as int) =~= methods@);
        let g = GenericClass { type_params: copy_symbols(type_params), init_params: init };
        let ghost gv = g;
        let ghost before = self.generic_classes@;
        table_insert(&mut self.generic_classes, name, g);
        proof {
            let t = self.generic_classes@;
            assert forall|i: int| 0 <= i < t.len() implies {
                &&& ((#[trigger] t[i]).0.0 as nat) < self.names_bound@
                &&& symbols_below(self.names_bound@, t[i].1.type_params@)
                &&& (t[i].1.init_params matches Some(ps) ==> type_exprs_interned(self.names_bound@, ps@))
            } by {
                if t[i].0 == name {
                    assert(t[i] == (name, gv));
                } else {
                    assert(t[i] == before[i]);
                }
            }
        }
    }

    /// The type of a class field: the annotated type, or the initializer's,
    /// or `Any`; a weak field must be an optional instance.
    pub fn field_type(&mut self, type_annotation: &Option<TypeExpr>, initializer: &Option<Expr>, is_weak: bool, span: Span) -> (r: TypeId)
        requires
            old(self).wf(),
            opt_type_expr_interned(old(self).names_bound@, *type_annotation),
            *initializer matches Some(e) ==> crate::ast::expr_interned(old(self).names_bound@, e),
        ensures
            final(self).expr_step(*old(self)),
            (r.0 as int) < final(self).session.types@.len(),
            type_annotation.is_none() && initializer.is_none() ==> r == old(self).common.any,
            field_typed(*old(self), *type_annotation, *initializer, is_weak, span, *final(self), r),
    {
        let ghost start = *self;
        let t = match type_annotation {
            Some(ann) => self.parse_type(ann, span),
            None => match initializer {
                Some(e) => self.check_expr(e),
                None => {
                    if is_weak {
                        self.error(span, DiagnosticCode::TypeMismatch,
                            "Weak properties must be of optional instance type (e.g. 'weak var x: User?').");
                    }
                    assert(diagnostics_view(self.errors@) =~= diagnostics_view(start.errors@) + errors_if(is_weak,
                        seq![diag(DiagnosticCode::TypeMismatch,
                            "Weak properties must be of optional instance type (e.g. 'weak var x: User?')."@, span)]));
                    return self.common.any;
                },
            },
        };
        let ghost m = *self;
        if is_weak && !self.is_weak_compatible(t) {
            self.error(span, DiagnosticCode::TypeMismatch,
                "Weak properties must be of optional instance type (e.g. 'weak var x: User?').");
        }
        assert(diagnostics_view(self.errors@) =~= diagnostics_view(m.errors@) + errors_if(is_weak && !weak_ok(m.session.types@, t),
            seq![diag(DiagnosticCode::TypeMismatch,
                "Weak properties must be of optional instance type (e.g. 'weak var x: User?')."@, span)]));
        assert(picked(m));
        t
    }

    /// Checks that class `cn`, with member table `members`, provides each
    /// method of the interfaces it implements, with the same type.
    pub fn check_implements(&mut self, cn: Symbol, implements: &Vec<Symbol>, members: &Vec<(Symbol, TypeId)>, span: Span)
        requires
            old(self).wf(),
            (cn.0 as int) < old(self).session.interner@.len(),
            forall|k: int| 0 <= k < implements@.len() ==> ((#[trigger] implements@[k]).0 as int) < old(self).session.interner@.len(),
            forall|k: int| 0 <= k < members@.len() ==> ((#[trigger] members@[k]).1.0 as int) < old(self).session.types@.len(),
        ensures
            final(self).expr_step(*old(self)),
            final(self).session == old(self).session,
            reported(*final(self), *old(self), implements_errors(*old(self), cn, implements@, members@, span, implements@.len())),
    {
        let ghost start = *self;
        let mut i: usize = 0;
        assert(diagnostics_view(self.errors@) =~= diagnostics_view(start.errors@)
            + implements_errors(start, cn, implements@, members@, span, 0));
        while i < implements.len()
            invariant
                self.expr_step(start),
                self.session == start.session,
                diagnostics_view(self.errors@) == diagnostics_view(start.errors@)
                    + implements_errors(start, cn, implements@, members@, span, i as nat),
                i <= implements@.len(),
                forall|k: int| 0 <= k < implements@.len() ==> ((#[trigger] implements@[k]).0 as int) < start.session.interner@.len(),
                forall|k: int| 0 <= k < members@.len() ==> ((#[trigger] members@[k]).1.0 as int) < start.session.types@.len(),
                (cn.0 as int) < start.session.interner@.len(),
            decreases implements@.len() - i,
        {
            let iface = implements[i];
            let ghost before_i = diagnostics_view(self.errors@);
            match find_last(&self.interfaces, iface) {
                Some(x) => {
                    let imembers = crate::check_decl::copy_members(&self.interfaces[x].1);
                    assert(diagnostics_view(self.errors@) =~= before_i
                        + method_errors(start, cn, iface, imembers@, members@, span, 0));
                    proof {
                        assert forall|k: int| 0 <= k < imembers@.len() implies ((#[trigger] imembers@[k]).1.0 as int) < self.session.types@.len()
                            && (imembers@[k].0.0 as int) < self.session.interner@.len() by {
                            assert(imembers@[k] == self.interfaces@[x as int].1@[k]);
                        }
                    }
                    let mut j: usize = 0;
                    while j < imembers.len()
                        invariant
                            self.expr_step(start),
                            self.session == start.session,
                            j <= imembers@.len(),
                            forall|k: int| 0 <= k < imembers@.len() ==> ((#[trigger] imembers@[k]).1.0 as int) < start.session.types@.len()
                                && (imembers@[k].0.0 as int) < start.session.interner@.len(),
                            forall|k: int| 0 <= k < members@.len() ==> ((#[trigger] members@[k]).1.0 as int) < start.session.types@.len(),
                            (cn.0 as int) < start.session.interner@.len(),
                            (iface.0 as int) < start.session.interner@.len(),
                            diagnostics_view(self.errors@) == before_i
                                + method_errors(start, cn, iface, imembers@, members@, span, j as nat),
                        decreases imembers@.len() - j,
                    {
                        let (mn, mt) = imembers[j];
                        let ghost before_j = diagnostics_view(self.errors@);
                        match find_last(members, mn) {
                            Some(y) => {
                                let ct = members[y].1;
                                if ct != mt {
                                    let mut m = self.msg_name("Class '", cn, "' incorrectly implements method '");
                                    m.append(self.session.interner.lookup(mn));
                                    m.append("' of interface '");
                                    m.append(self.session.interner.lookup(iface));
                                    m.append("'. Expected '");
                                    m.append(self.fmt(mt).as_str());
                                    m.append("', found '");
                                    m.append(self.fmt(ct).as_str());
                                    m.append("'.");
                                    self.error(span, DiagnosticCode::TypeMismatch, m.as_str());
                                }
                            },
                            None => {
                                let mut m = self.msg_name("Class '", cn, "' does not implement required method '");
                                m.append(self.session.interner.lookup(mn));
                                m.append("' of interface '");
                                m.append(self.session.interner.lookup(iface));
                                m.append("'.");
                                self.error(span, DiagnosticCode::TypeMismatch, m.as_str());
                            },
                        }
                        assert(diagnostics_view(self.errors@) =~= before_i
                            + method_errors(start, cn, iface, imembers@, members@, span, (j + 1) as nat));
                        j = j + 1;
                    }
                    assert(imembers@ == start.interfaces@[x as int].1@);
                },
                None => {
                    let m = self.msg_name("Interface '", iface, "' not found.");
                    self.error(span, DiagnosticCode::UnknownType, m.as_str());
                },
            }
            assert(diagnostics_view(self.errors@) =~= diagnostics_view(start.errors@)
                + implements_errors(start, cn, implements@, members@, span, (i + 1) as nat));
            i = i + 1;
        }
    }

    /// Declaring a class before its members are read: the class type is
    /// interned and declared under the class's name, the class gets an
    /// empty member table, and a scope is opened for its body.
    #[verifier::opaque]
    pub open spec fn class_declared(s0: TypeChecker, name: Symbol, mi: TypeChecker) -> bool {
        exists|m0: TypeChecker, ct: TypeId| #[trigger] picked((m0, ct))
            && interned_done(s0, TypeV::Class(name, Seq::empty()), m0, ct)
            && (assoc(mi.classes@, name) matches Some(v) && v@.len() == 0 && mi.classes@ == inserted(m0.classes@, name, v))
            && with_env(TypeChecker { classes: mi.classes, ..m0 },
                with_declaration(m0.env@, name, Binding { ty: ct, is_mutable: false }).push(Seq::empty()), mi)
    }

    /// What `check_class_decl` leaves behind.
    pub open spec fn check_class_decl_done(s0: TypeChecker, stmt: Stmt, s1: TypeChecker) -> bool
        decreases stmt, 0nat,
    {
        &&& s1.stmt_step(s0)
        &&& match stmt.kind {
            StmtKind::Class { name, type_params, implements, methods, fields, .. } => if type_params@.len() > 0 {
                Self::generic_class_registered(s0, name, type_params@, methods@, s1)
            } else {
                exists|mi: TypeChecker, md: TypeChecker, members0: Seq<(Symbol, TypeId)>, mutables: Seq<(Symbol, bool)>,
                    uninit: Seq<Symbol>, mx: TypeChecker, me: TypeChecker, members: Seq<(Symbol, TypeId)>, mf: TypeChecker,
                    ma: TypeChecker, mb: TypeChecker, mc: TypeChecker|
                    #[trigger] picked((mi, md, members0, mutables, uninit, mx, me, members, mf, ma, mb, mc))
                    && Self::class_declared(s0, name, mi)
                    && fields_collected(mi, fields@, fields@.len(), md, members0, mutables, uninit)
                    && (assoc(mx.uninitialized_class_properties@, name) matches Some(v) && v@ == uninit
                        && mx.uninitialized_class_properties@ == inserted(md.uninitialized_class_properties@, name, v))
                    && mx == (TypeChecker { uninitialized_class_properties: mx.uninitialized_class_properties, ..md })
                    && members_collected(mx, methods@, methods@.len(), members0, me, members)
                    && (assoc(mf.classes@, name) matches Some(v) && v@ == members && mf.classes@ == inserted(me.classes@, name, v))
                    && (assoc(mf.class_mutables@, name) matches Some(v) && v@ == mutables
                        && mf.class_mutables@ == inserted(me.class_mutables@, name, v))
                    && (assoc(mf.class_implements@, name) matches Some(v) && v@ == implements@
                        && mf.class_implements@ == inserted(me.class_implements@, name, v))
                    && mf == (TypeChecker { classes: mf.classes, class_mutables: mf.class_mutables,
                        class_implements: mf.class_implements, ..me })
                    && reported(ma, mf, implements_errors(mf, name, implements@, members, stmt.span, implements@.len()))
                    && with_env(TypeChecker { errors: ma.errors, current_class: Some(name), ..mf }, mf.env@, ma)
                    && methods_checked(ma, methods@, mb)
                    && stmts_checked(mb, fields@, mc)
                    && s1 == (TypeChecker { env: s1.env, current_class: s0.current_class, ..mc })
                    && s1.env@ == mi.env@.drop_last()
            },
            _ => s1 == s0,
        }
    }

    /// What `hoist_class` leaves behind: the class is declared and its
    /// member, mutability, interface and uninitialized-property tables are
    /// recorded as `check_class_decl` records them, without checking the
    /// method bodies or field initializers; a generic class is registered.
    pub open spec fn class_hoisted(s0: TypeChecker, stmt: Stmt, s1: TypeChecker) -> bool {
        &&& s1.stmt_step(s0)
        &&& match stmt.kind {
            StmtKind::Class { name, type_params, implements, methods, fields, .. } => if type_params@.len() > 0 {
                Self::generic_class_registered(s0, name, type_params@, methods@, s1)
            } else {
                exists|mi: TypeChecker, md: TypeChecker, members0: Seq<(Symbol, TypeId)>, mutables: Seq<(Symbol, bool)>,
                    uninit: Seq<Symbol>, mx: TypeChecker, me: TypeChecker, members: Seq<(Symbol, TypeId)>, mf: TypeChecker,
                    ma: TypeChecker|
                    #[trigger] picked((mi, md, members0, mutables, uninit, mx, me, members, mf, ma))
                    && Self::class_declared(s0, name, mi)
                    && fields_collected(mi, fields@, fields@.len(), md, members0, mutables, uninit)
                    && (assoc(mx.uninitialized_class_properties@, name) matches Some(v) && v@ == uninit
                        && mx.uninitialized_class_properties@ == inserted(md.uninitialized_class_properties@, name, v))
                    && mx == (TypeChecker { uninitialized_class_properties: mx.uninitialized_class_properties, ..md })
                    && members_collected(mx, methods@, methods@.len(), members0, me, members)
                    && (assoc(mf.classes@, name) matches Some(v) && v@ == members && mf.classes@ == inserted(me.classes@, name, v))
                    && (assoc(mf.class_mutables@, name) matches Some(v) && v@ == mutables
                        && mf.class_mutables@ == inserted(me.class_mutables@, name, v))
                    && (assoc(mf.class_implements@, name) matches Some(v) && v@ == implements@
                        && mf.class_implements@ == inserted(me.class_implements@, name, v))
                    && mf == (TypeChecker { classes: mf.classes, class_mutables: mf.class_mutables,
                        class_implements: mf.class_implements, ..me })
                    && reported(ma, mf, implements_errors(mf, name, implements@, members, stmt.span, implements@.len()))
                    && with_env(TypeChecker { errors: ma.errors, ..mf }, mf.env@, ma)
                    && with_env(ma, ma.env@.drop_last(), s1)
            },
            _ => s1 == s0,
        }
    }

    /// Declares a class ahead of its use: its type, its fields' types and
    /// mutability, its methods' types, the fields without an initial value
    /// and the interfaces it implements (each of whose methods it must
    /// provide with the same type).  A generic class is kept until it is
    /// used.
    #[verifier::rlimit(60)]
    #[verifier::spinoff_prover]
    pub fn hoist_class(&mut self, stmt: &Stmt)
        requires
            old(self).wf(),
            stmt_interned(old(self).names_bound@, *stmt),
        ensures
            Self::class_hoisted(*old(self), *stmt, *final(self)),
    {
        let ghost start = *self;
        match &stmt.kind {
            StmtKind::Class { name, type_params, implements, methods, fields, .. } => {
                let name = *name;
                if type_params.len() > 0 {
                    self.register_generic_class(name, type_params, methods);
                    return;
                }
                let ct = self.intern_type(Type::Class(name, copy_symbols(type_params)));
                assert(type_params@ =~= Seq::<Symbol>::empty());
                let ghost m0 = *self;
                self.declare_name(name, ct, false);
                insert_members(&mut self.classes, name, Vec::new());
                let ghost declared = *self;
                assert(self.env@.drop_last() =~= start.env@.drop_last());
                self.enter_scope();
                assert(self.env@.drop_last() =~= declared.env@);
                self.declare_type_params(type_params);
                proof {
                    lemma_stmts_interned_each(self.names_bound@, fields@);
                    lemma_stmts_interned_each(self.names_bound@, methods@);
                }
                let ghost s1 = *self;
                assert(s1.errors == start.errors);
                assert(Self::class_declared(start, name, s1)) by {
                    reveal(TypeChecker::class_declared);
                    assert(s1.env@ =~= with_declaration(m0.env@, name, Binding { ty: ct, is_mutable: false }).push(Seq::empty()));
                    assert(picked((m0, ct)));
                }
                let mut members: Vec<(Symbol, TypeId)> = Vec::new();
                let mut mutables: Vec<(Symbol, bool)> = Vec::new();
                let mut uninit: Vec<Symbol> = Vec::new();
                let mut i: usize = 0;
                while i < fields.len()
                    invariant
                        fields_collected(s1, fields@, i as nat, *self, members@, mutables@, uninit@),
                        self.expr_step(s1),
                        i <= fields@.len(),
                        forall|k: int| 0 <= k < fields@.len() ==> #[trigger] stmt_interned(self.names_bound@, fields@[k]),
                        keys_unique(members@),
                        keys_unique(mutables@),
                        forall|j: int| 0 <= j < members@.len() ==> ((#[trigger] members@[j]).1.0 as int) < self.session.types@.len(),
                        symbols_below(self.names_bound@, uninit@),
                    decreases fields@.len() - i,
                {
                    let field = &fields[i];
                    let ghost m = *self;
                    let ghost mem0 = members@;
                    let ghost mut0 = mutables@;
                    let ghost un0 = uninit@;
                    let (f, ann, init, is_weak, is_mutable) = match &field.kind {
                        StmtKind::Var { name: f, type_annotation, initializer, is_weak, .. } => (f, type_annotation, initializer, *is_weak, true),
                        StmtKind::Let { name: f, type_annotation, initializer, .. } => (f, type_annotation, initializer, false, false),
                        _ => {
                            proof {
                                assert(picked((m, mem0, mut0, un0, self.common.any)));
                                assert(fields_collected(s1, fields@, (i + 1) as nat, *self, members@, mutables@, uninit@));
                            }
                            i = i + 1;
                            continue;
                        },
                    };
                    assert(stmt_interned(self.names_bound@, fields@[i as int]));
                    if init.is_none() {
                        uninit.push(*f);
                    }
                    let t = self.field_type(ann, init, is_weak, field.span);
                    let ghost before = members@;
                    table_insert(&mut members, *f, t);
                    table_insert(&mut mutables, *f, is_mutable);
                    proof {
                        assert(picked((m, mem0, mut0, un0, t)));
                        assert(fields_collected(s1, fields@, (i + 1) as nat, *self, members@, mutables@, uninit@));
                    }
                    proof {
                        assert forall|j: int| 0 <= j < members@.len() implies ((#[trigger] members@[j]).1.0 as int) < self.session.types@.len() by {
                            if members@[j].0 == *f {
                                assert(members@[j] == (*f, t));
                            } else {
                                assert(members@[j] == before[j]);
                            }
                        }
                    }
                    i = i + 1;
                }
                let ghost md = *self;
                let ghost members0 = members@;
                let ghost before_uninit = self.uninitialized_class_properties@;
                let ghost uv = uninit;
                table_insert(&mut self.uninitialized_class_properties, name, uninit);
                proof {
                    let t = self.uninitialized_class_properties@;
                    assert forall|k: int| 0 <= k < t.len() implies symbols_below(self.names_bound@, (#[trigger] t[k]).1@) by {
                        if t[k].0 == name {
                            assert(t[k] == (name, uv));
                        } else {
                            assert(t[k] == before_uninit[k]);
                        }
                    }
                }
                let ghost s2 = *self;
                let mut i: usize = 0;
                while i < methods.len()
                    invariant
                        members_collected(s2, methods@, i as nat, members0, *self, members@),
                        self.expr_step(s2),
                        i <= methods@.len(),
                        forall|k: int| 0 <= k < methods@.len() ==> #[trigger] stmt_interned(self.names_bound@, methods@[k]),
                        keys_unique(members@),
                        forall|j: int| 0 <= j < members@.len() ==> ((#[trigger] members@[j]).1.0 as int) < self.session.types@.len(),
                    decreases methods@.len() - i,
                {
                    let ghost mm = *self;
                    let ghost memb = members@;
                    let sig = self.method_signature(&methods[i]);
                    match sig {
                        Some((m, t)) => {
                            let ghost before = members@;
                            table_insert(&mut members, m, t);
                            proof {
                                assert forall|j: int| 0 <= j < members@.len() implies ((#[trigger] members@[j]).1.0 as int) < self.session.types@.len() by {
                                    if members@[j].0 == m {
                                        assert(members@[j] == (m, t));
                                    } else {
                                        assert(members@[j] == before[j]);
                                    }
                                }
                            }
                        },
                        None => {},
                    }
                    proof {
                        assert(picked((mm, memb, sig)));
                        assert(members_collected(s2, methods@, (i + 1) as nat, members0, *self, members@));
                    }
                    i = i + 1;
                }
                let ghost me = *self;
                let recorded = copy_members(&members);
                let ghost rv = recorded;
                let ghost mv = mutables;
                insert_members(&mut self.classes, name, recorded);
                table_insert(&mut self.class_mutables, name, mutables);
                let iv = copy_symbols(implements);
                let ghost ivg = iv;
                table_insert(&mut self.class_implements, name, iv);
                assert(assoc(self.classes@, name) == Some(rv));
                assert(assoc(self.class_mutables@, name) == Some(mv));
                assert(assoc(self.class_implements@, name) == Some(ivg));
                proof {
                    assert forall|k: int| 0 <= k < implements@.len() implies ((#[trigger] implements@[k]).0 as int) < self.session.interner@.len() by {
                        assert(symbols_below(self.names_bound@, implements@));
                    }
                }
                let ghost mf = *self;
                self.check_implements(name, implements, &members, stmt.span);
                let ghost ma = *self;
                assert(self.env@.drop_last() == declared.env@);
                self.leave_scope();
                assert(self.env@.drop_last() =~= start.env@.drop_last());
                assert(picked((s1, md, members0, mutables@, uv@, s2, me, members@, mf, ma)));
            },
            _ => {},
        }
    }

    /// What `hoist_func` leaves behind: the function's type, from its
    /// parameter and return types, is declared under its name (as one more
    /// overload beside a function of that name); a generic function is
    /// registered.
    pub open spec fn func_hoisted(s0: TypeChecker, stmt: Stmt, s1: TypeChecker) -> bool {
        &&& s1.stmt_step(s0)
        &&& match stmt.kind {
            StmtKind::Func { name, type_params, params, return_type, .. } => if type_params@.len() > 0 {
                Self::generic_function_registered(s0, name, type_params@, params@, return_type, s1)
            } else {
                exists|m1: TypeChecker, ret: TypeId, m2: TypeChecker, ps: Seq<TypeId>, mi: TypeChecker, ft: TypeId|
                    #[trigger] picked((m1, ret, m2, ps, mi, ft))
                    && (match return_type {
                        Some(rt) => type_parsed(s0, rt, stmt.span, m1, ret),
                        None => m1 == s0 && ret == s0.common.void,
                    })
                    && types_parsed(m1, param_types(params@), stmt.span, m2, ps)
                    && interned_done(m2, TypeV::Function(Seq::empty(), ps, ret), mi, ft)
                    && function_declared(mi, name, ps, ft, s1)
            },
            _ => s1 == s0,
        }
    }

    /// Declares a function ahead of its use by the type of its signature.
    pub fn hoist_func(&mut self, stmt: &Stmt)
        requires
            old(self).wf(),
            stmt_interned(old(self).names_bound@, *stmt),
        ensures
            Self::func_hoisted(*old(self), *stmt, *final(self)),
    {
        match &stmt.kind {
            StmtKind::Func { name, type_params, params, return_type, .. } => {
                if type_params.len() > 0 {
                    self.register_generic_function(*name, type_params, params, return_type);
                    return;
                }
                let ghost start = *self;
                let ret = match return_type {
                    Some(rt) => self.parse_type(rt, stmt.span),
                    None => self.common.void,
                };
                let ghost m1 = *self;
                let ps = self.parse_param_types(params, stmt.span);
                let ghost m2 = *self;
                assert(type_params@ =~= Seq::<Symbol>::empty());
                let ft = self.intern_type(Type::Function(copy_symbols(type_params), crate::types::copy_ids(&ps), ret));
                let ghost mi = *self;
                self.declare_function(*name, &ps, ft);
                assert(picked((m1, ret, m2, ps@, mi, ft)));
            },
            _ => {},
        }
    }

    /// What hoisting one top-level declaration does: a class or function
    /// is declared by its signature, an interface, enum or foreign function
    /// as checking it would; anything else is left for checking.
    pub open spec fn stmt_hoisted(s0: TypeChecker, stmt: Stmt, s1: TypeChecker) -> bool {
        match stmt.kind {
            StmtKind::Class { .. } => Self::class_hoisted(s0, stmt, s1),
            StmtKind::Func { .. } => Self::func_hoisted(s0, stmt, s1),
            StmtKind::Interface { name, methods, .. } => Self::check_interface_decl_done(s0, name, methods, s1),
            StmtKind::Enum { name, type_params, variants, .. } =>
                Self::check_enum_decl_done(s0, name, type_params, variants, stmt.span, s1),
            StmtKind::ForeignFunc { name, type_params, params, return_type, .. } =>
                Self::check_foreign_decl_done(s0, name, type_params, params, return_type, stmt.span, s1),
            _ => s1 == s0,
        }
    }

    /// The declarations among `stmts`, hoisted in order.
    pub open spec fn stmts_hoisted(s0: TypeChecker, stmts: Seq<Stmt>, s1: TypeChecker) -> bool
        decreases stmts.len(),
    {
        if stmts.len() == 0 {
            s1 == s0
        } else {
            exists|m: TypeChecker| #[trigger] picked(m) && Self::stmts_hoisted(s0, stmts.drop_last(), m)
                && Self::stmt_hoisted(m, stmts.last(), s1)
        }
    }

    /// Declares the classes, functions, interfaces, enums and foreign
    /// functions among `statements` ahead of their use, in order; blocks
    /// and other statements are left for checking.
    pub fn collect_declarations(&mut self, statements: &[Stmt])
        requires
            old(self).wf(),
            stmts_interned(old(self).names_bound@, statements@),
        ensures
            final(self).wf(),
            final(self).names_bound == old(self).names_bound,
            Self::stmts_hoisted(*old(self), statements@, *final(self)),
    {
        proof { lemma_stmts_interned_each(self.names_bound@, statements@); }
        assert(statements@.take(0) =~= Seq::<Stmt>::empty());
        let mut i: usize = 0;
        while i < statements.len()
            invariant
                self.wf(),
                self.names_bound == old(self).names_bound,
                i <= statements@.len(),
                forall|k: int| 0 <= k < statements@.len() ==> #[trigger] stmt_interned(self.names_bound@, statements@[k]),
                Self::stmts_hoisted(*old(self), statements@.take(i as int), *self),
            decreases statements@.len() - i,
        {
            let stmt = &statements[i];
            let ghost m = *self;
            assert(stmt_interned(self.names_bound@, *stmt));
            match &stmt.kind {
                StmtKind::Class { .. } => self.hoist_class(stmt),
                StmtKind::Func { .. } => self.hoist_func(stmt),
                StmtKind::Interface { name, methods, .. } => self.check_interface_decl(*name, methods),
                StmtKind::Enum { name, type_params, variants, .. } => self.check_enum_decl(*name, type_params, variants, stmt.span),
                StmtKind::ForeignFunc { name, type_params, params, return_type, .. } =>
                    self.check_foreign_decl(*name, type_params, params, return_type, stmt.span),
                _ => {},
            }
            proof {
                let t = statements@.take(i + 1);
                assert(t.drop_last() =~= statements@.take(i as int));
                assert(t.last() == statements@[i as int]);
                assert(picked(m));
            }
            i = i + 1;
        }
        assert(statements@.take(statements@.len() as int) =~= statements@);
    }

    /// Checks a class declaration: declares the class, records the types
    /// and mutability of its fields and the types of its methods, which
    /// fields start uninitialized, and the interfaces it implements (each of
    /// whose methods it must provide with the same type); then checks the
    /// methods and the field initializers inside the class.  A generic class
    /// is kept until it is used.
    pub fn check_class_decl(&mut self, stmt: &Stmt)
        requires
            old(self).wf(),
            stmt_interned(old(self).names_bound@, *stmt),
        ensures
            Self::check_class_decl_done(*old(self), *stmt, *final(self)),
        decreases *stmt, 1nat,
    {
        let ghost start = *self;
        match &stmt.kind {
            StmtKind::Class { name, type_params, implements, methods, fields, .. } => {
                let name = *name;
                if type_params.len() > 0 {
                    self.register_generic_class(name, type_params, methods);
                    return;
                }
                let ct = self.intern_type(Type::Class(name, copy_symbols(type_params)));
                assert(type_params@ =~= Seq::<Symbol>::empty());
                let ghost m0 = *self;
                self.declare_name(name, ct, false);
                insert_members(&mut self.classes, name, Vec::new());
                let ghost declared = *self;
                assert(self.env@.drop_last() =~= start.env@.drop_last());
                self.enter_scope();
                assert(self.env@.drop_last() =~= declared.env@);
                self.declare_type_params(type_params);
                proof {
                    lemma_stmts_interned_each(self.names_bound@, fields@);
                    lemma_stmts_interned_each(self.names_bound@, methods@);
                }
                let ghost s1 = *self;
                assert(s1.errors == start.errors);
                assert(Self::class_declared(start, name, s1)) by {
                    reveal(TypeChecker::class_declared);
                    assert(s1.env@ =~= with_declaration(m0.env@, name, Binding { ty: ct, is_mutable: false }).push(Seq::empty()));
                    assert(picked((m0, ct)));
                }
                let mut members: Vec<(Symbol, TypeId)> = Vec::new();
                let mut mutables: Vec<(Symbol, bool)> = Vec::new();
                let mut uninit: Vec<Symbol> = Vec::new();
                let mut i: usize = 0;
                while i < fields.len()
                    invariant
                        fields_collected(s1, fields@, i as nat, *self, members@, mutables@, uninit@),
                        self.expr_step(s1),
                        i <= fields@.len(),
                        forall|k: int| 0 <= k < fields@.len() ==> #[trigger] stmt_interned(self.names_bound@, fields@[k]),
                        keys_unique(members@),
                        keys_unique(mutables@),
                        forall|j: int| 0 <= j < members@.len() ==> ((#[trigger] members@[j]).1.0 as int) < self.session.types@.len(),
                        symbols_below(self.names_bound@, uninit@),
                    decreases fields@.len() - i,
                {
                    let field = &fields[i];
                    let ghost m = *self;
                    let ghost mem0 = members@;
                    let ghost mut0 = mutables@;
                    let ghost un0 = uninit@;
                    let (f, ann, init, is_weak, is_mutable) = match &field.kind {
                        StmtKind::Var { name: f, type_annotation, initializer, is_weak, .. } => (f, type_annotation, initializer, *is_weak, true),
                        StmtKind::Let { name: f, type_annotation, initializer, .. } => (f, type_annotation, initializer, false, false),
                        _ => {
                            proof {
                                assert(picked((m, mem0, mut0, un0, self.common.any)));
                                assert(fields_collected(s1, fields@, (i + 1) as nat, *self, members@, mutables@, uninit@));
                            }
                            i = i + 1;
                            continue;
                        },
                    };
                    assert(stmt_interned(self.names_bound@, fields@[i as int]));
                    if init.is_none() {
                        uninit.push(*f);
                    }
                    let t = self.field_type(ann, init, is_weak, field.span);
                    let ghost before = members@;
                    table_insert(&mut members, *f, t);
                    table_insert(&mut mutables, *f, is_mutable);
                    proof {
                        assert(picked((m, mem0, mut0, un0, t)));
                        assert(fields_collected(s1, fields@, (i + 1) as nat, *self, members@, mutables@, uninit@));
                    }
                    proof {
                        assert forall|j: int| 0 <= j < members@.len() implies ((#[trigger] members@[j]).1.0 as int) < self.session.types@.len() by {
                            if members@[j].0 == *f {
                                assert(members@[j] == (*f, t));
                            } else {
                                assert(members@[j] == before[j]);
                            }
                        }
                    }
                    i = i + 1;
                }
                let ghost md = *self;
                let ghost members0 = members@;
                let ghost before_uninit = self.uninitialized_class_properties@;
                let ghost uv = uninit;
                table_insert(&mut self.uninitialized_class_properties, name, uninit);
                proof {
                    let t = self.uninitialized_class_properties@;
                    assert forall|k: int| 0 <= k < t.len() implies symbols_below(self.names_bound@, (#[trigger] t[k]).1@) by {
                        if t[k].0 == name {
                            assert(t[k] == (name, uv));
                        } else {
                            assert(t[k] == before_uninit[k]);
                        }
                    }
                }
                let ghost s2 = *self;
                let mut i: usize = 0;
                while i < methods.len()
                    invariant
                        members_collected(s2, methods@, i as nat, members0, *self, members@),
                        self.expr_step(s2),
                        i <= methods@.len(),
                        forall|k: int| 0 <= k < methods@.len() ==> #[trigger] stmt_interned(self.names_bound@, methods@[k]),
                        keys_unique(members@),
                        forall|j: int| 0 <= j < members@.len() ==> ((#[trigger] members@[j]).1.0 as int) < self.session.types@.len(),
                    decreases methods@.len() - i,
                {
                    let ghost mm = *self;
                    let ghost memb = members@;
                    let sig = self.method_signature(&methods[i]);
                    match sig {
                        Some((m, t)) => {
                            let ghost before = members@;
                            table_insert(&mut members, m, t);
                            proof {
                                assert forall|j: int| 0 <= j < members@.len() implies ((#[trigger] members@[j]).1.0 as int) < self.session.types@.len() by {
                                    if members@[j].0 == m {
                                        assert(members@[j] == (m, t));
                                    } else {
                                        assert(members@[j] == before[j]);
                                    }
                                }
                            }
                        },
                        None => {},
                    }
                    proof {
                        assert(picked((mm, memb, sig)));
                        assert(members_collected(s2, methods@, (i + 1) as nat, members0, *self, members@));
                    }
                    i = i + 1;
                }
                let ghost me = *self;
                let recorded = copy_members(&members);
                let ghost rv = recorded;
                let ghost mv = mutables;
                insert_members(&mut self.classes, name, recorded);
                table_insert(&mut self.class_mutables, name, mutables);
                let iv = copy_symbols(implements);
                let ghost ivg = iv;
                table_insert(&mut self.class_implements, name, iv);
                assert(assoc(self.classes@, name) == Some(rv));
                assert(assoc(self.class_mutables@, name) == Some(mv));
                assert(assoc(self.class_implements@, name) == Some(ivg));
                proof {
                    assert forall|k: int| 0 <= k < implements@.len() implies ((#[trigger] implements@[k]).0 as int) < self.session.interner@.len() by {
                        assert(symbols_below(self.names_bound@, implements@));
                    }
                }
                let ghost mf = *self;
                self.check_implements(name, implements, &members, stmt.span);
                let prev_class = self.current_class;
                self.current_class = Some(name);
                let ghost s3 = *self;
                assert(s3.env@.len() == start.env@.len() + 1);
                assert(reported(s3, mf, implements_errors(mf, name, implements@, members@, stmt.span, implements@.len())));
                assert(forall|k: int| 0 <= k < start.errors@.len() ==> s3.errors@[k] == #[trigger] start.errors@[k]);
                assert(assoc(s3.classes@, name) is Some);
                assert(methods@.take(0) =~= Seq::<Stmt>::empty());
                let mut i: usize = 0;
                while i < methods.len()
                    invariant
                        self.stmt_step(s3),
                        i <= methods@.len(),
                        forall|k: int| 0 <= k < methods@.len() ==> #[trigger] stmt_interned(self.names_bound@, methods@[k]),
                        stmt.kind is Class && stmt.kind->Class_methods == *methods,
                        methods_checked(s3, methods@.take(i as int), *self),
                    decreases methods@.len() - i,
                {
                    proof {
                        assert(decreases_to!(*stmt => methods@[i as int])) by {
                            assert(decreases_to!(*stmt => stmt.kind));
                            assert(decreases_to!(stmt.kind => stmt.kind->Class_methods));
                            assert(decreases_to!(*methods => methods@));
                            assert(decreases_to!(methods@ => methods@[i as int]));
                        }
                    }
                    let ghost m = *self;
                    let prev = self.is_checking_method;
                    self.is_checking_method = true;
                    let ghost ma = *self;
                    self.check_stmt(&methods[i]);
                    let ghost mb = *self;
                    self.is_checking_method = prev;
                    proof {
                        let t = methods@.take(i + 1);
                        assert(t.drop_last() =~= methods@.take(i as int));
                        assert(t.last() == methods@[i as int]);
                        assert(with_method_flag(m, true, ma));
                        assert(with_method_flag(mb, m.is_checking_method, *self));
                        assert(picked((m, ma, mb)));
                        assert(methods_checked(s3, t, *self));
                    }
                    i = i + 1;
                }
                assert(methods@.take(methods@.len() as int) =~= methods@);
                let ghost s4 = *self;
                assert(fields@.take(0) =~= Seq::<Stmt>::empty());
                let mut i: usize = 0;
                while i < fields.len()
                    invariant
                        self.stmt_step(s3),
                        i <= fields@.len(),
                        forall|k: int| 0 <= k < fields@.len() ==> #[trigger] stmt_interned(self.names_bound@, fields@[k]),
                        stmt.kind is Class && stmt.kind->Class_fields == *fields,
                        methods_checked(s3, methods@, s4),
                        stmts_checked(s4, fields@.take(i as int), *self),
                    decreases fields@.len() - i,
                {
                    proof {
                        assert(decreases_to!(*stmt => fields@[i as int])) by {
                            assert(decreases_to!(*stmt => stmt.kind));
                            assert(decreases_to!(stmt.kind => stmt.kind->Class_fields));
                            assert(decreases_to!(*fields => fields@));
                            assert(decreases_to!(fields@ => fields@[i as int]));
                        }
                    }
                    let ghost m = *self;
                    self.check_stmt(&fields[i]);
                    proof {
                        let t = fields@.take(i + 1);
                        assert(t.drop_last() =~= fields@.take(i as int));
                        assert(t.last() == fields@[i as int]);
                        assert(picked(m));
                        assert(stmts_checked(s4, t, *self));
                    }
                    i = i + 1;
                }
                assert(fields@.take(fields@.len() as int) =~= fields@);
                let ghost s5 = *self;
                assert(picked((s1, md, members0, mutables@, uv@, s2, me, members@, mf, s3, s4, s5)));
                assert(self.env@.drop_last() == declared.env@);
                self.leave_scope();
                self.current_class = prev_class;
                assert(self.env@.drop_last() =~= start.env@.drop_last());
                assert(self.errors == s5.errors);
            },
            _ => {},
        }
    }
}

} // verus!
