use vstd::prelude::*;
use crate::ast::{Stmt, StmtKind};
use crate::diagnostics::DiagnosticCode;
use crate::interner::Symbol;
use crate::resolver::{Resolver, ResolveCtx, ResolveState, close_scope, open_scope, resolve_stmts_spec,
    stmts_names_interned, with_error};
use crate::tables::{assoc, inserted, keys_unique, table_insert};

verus! {

/// A module of a program: its id and its statements.
pub struct Module {
    pub id: u32,
    pub ast: Vec<Stmt>,
}

/// Where an import path written in module `from` leads.
pub struct ImportEdge {
    pub from: u32,
    pub path: String,
    pub to: u32,
}

/// The modules of a program, in the order they are processed, and where
/// their import paths lead.
pub struct ModuleGraph {
    pub modules: Vec<Module>,
    pub imports: Vec<ImportEdge>,
}

/// The module that the import path `path` of module `from` leads to: the
/// first edge that matches.
pub open spec fn import_target(edges: Seq<ImportEdge>, from: u32, path: Seq<char>) -> Option<u32>
    decreases edges.len(),
{
    if edges.len() == 0 {
        None
    } else if edges[0].from == from && edges[0].path@ == path {
        Some(edges[0].to)
    } else {
        import_target(edges.subrange(1, edges.len() as int), from, path)
    }
}

/// The last module with id `id`.
pub open spec fn module_with(modules: Seq<Module>, id: u32) -> Option<Module>
    decreases modules.len(),
{
    if modules.len() == 0 {
        None
    } else if modules.last().id == id {
        Some(modules.last())
    } else {
        module_with(modules.drop_last(), id)
    }
}

/// `s` without the leading occurrences of `c`.
pub open spec fn trim_start(s: Seq<char>, c: char) -> Seq<char>
    decreases s.len(),
{
    if s.len() > 0 && s[0] == c {
        trim_start(s.subrange(1, s.len() as int), c)
    } else {
        s
    }
}

/// `s` without the trailing occurrences of `c`.
pub open spec fn trim_end(s: Seq<char>, c: char) -> Seq<char>
    decreases s.len(),
{
    if s.len() > 0 && s.last() == c {
        trim_end(s.drop_last(), c)
    } else {
        s
    }
}

/// An import path without the quotes around it.
pub open spec fn clean_path(s: Seq<char>) -> Seq<char> {
    let a = trim_end(trim_start(s, '"'), '"');
    trim_end(trim_start(a, '\''), '\'')
}

/// What a module exports: each name declared at its top level without
/// `private`, with the variants of an exported enum; a later declaration of
/// a name replaces an earlier one.
pub open spec fn exports_of(stmts: Seq<Stmt>) -> Seq<(Symbol, Seq<Symbol>)>
    decreases stmts.len(),
{
    if stmts.len() == 0 {
        Seq::empty()
    } else {
        let t = exports_of(stmts.drop_last());
        match stmts.last().kind {
            StmtKind::Let { name, is_private, .. } => if !is_private { inserted(t, name, Seq::empty()) } else { t },
            StmtKind::Var { name, is_private, .. } => if !is_private { inserted(t, name, Seq::empty()) } else { t },
            StmtKind::Class { name, is_private, .. } => if !is_private { inserted(t, name, Seq::empty()) } else { t },
            StmtKind::Interface { name, is_private, .. } => if !is_private { inserted(t, name, Seq::empty()) } else { t },
            StmtKind::ForeignFunc { name, is_private, .. } => if !is_private { inserted(t, name, Seq::empty()) } else { t },
            StmtKind::Func { name, is_private, .. } => if !is_private { inserted(t, name, Seq::empty()) } else { t },
            StmtKind::Enum { name, is_private, variants, .. } => if !is_private {
                inserted(t, name, variants@.map_values(|v: crate::ast::EnumVariant| v.name))
            } else {
                t
            },
            _ => t,
        }
    }
}

/// An export passes an import's filters: it is shown (when the import
/// lists what it shows) and not hidden.
pub open spec fn passes(name: Symbol, show: Seq<Symbol>, hide: Seq<Symbol>) -> bool {
    !((show.len() > 0 && !show.contains(name)) || hide.contains(name))
}

/// The names that an import of a module with exports `exports` brings in:
/// each export that passes the filters, with its variants.
pub open spec fn imported_names(exports: Seq<(Symbol, Seq<Symbol>)>, show: Seq<Symbol>, hide: Seq<Symbol>) -> Set<Symbol> {
    Set::new(|x: Symbol| exists|i: int| 0 <= i < exports.len() && passes(exports[i].0, show, hide)
        && (#[trigger] exports[i].0 == x || exports[i].1.contains(x)))
}

/// `names` added to the innermost scope.
pub open spec fn declared_all(st: ResolveState, names: Set<Symbol>) -> ResolveState {
    ResolveState { scopes: st.scopes.update(st.scopes.len() - 1, st.scopes.last().union(names)), errors: st.errors }
}

/// The effect of the imports among `stmts` of module `id` on the module
/// scope: the names each import brings in, or an error for a path that
/// leads nowhere.
pub open spec fn imports_spec(ctx: ResolveCtx, g: ModuleGraph, id: u32, st: ResolveState, stmts: Seq<Stmt>) -> ResolveState
    decreases stmts.len(),
{
    if stmts.len() == 0 {
        st
    } else {
        let st0 = imports_spec(ctx, g, id, st, stmts.drop_last());
        match stmts.last().kind {
            StmtKind::Import { path, alias, show, hide } => {
                let text = ctx.names[path.0 as int];
                match import_target(g.imports@, id, clean_path(text)) {
                    Some(target) => match module_with(g.modules@, target) {
                        Some(m) => match alias {
                            Some(a) => crate::resolver::declared(st0, a),
                            None => declared_all(st0, imported_names(exports_of(m.ast@), show@, hide@)),
                        },
                        None => st0,
                    },
                    None => with_error(st0, DiagnosticCode::UnknownIdentifier,
                        "Cannot resolve import '"@ + text + "'"@, stmts.last().span),
                }
            },
            _ => st0,
        }
    }
}

/// Resolution of one module: in a scope of its own, its imports, then its
/// statements.
pub open spec fn module_spec(ctx: ResolveCtx, g: ModuleGraph, st: ResolveState, m: Module) -> ResolveState {
    let st1 = imports_spec(ctx, g, m.id, open_scope(st), m.ast@);
    close_scope(resolve_stmts_spec(ctx, st1, m.ast@))
}

/// Resolution of the modules, in order.
pub open spec fn modules_spec(ctx: ResolveCtx, g: ModuleGraph, st: ResolveState, ms: Seq<Module>) -> ResolveState
    decreases ms.len(),
{
    if ms.len() == 0 {
        st
    } else {
        module_spec(ctx, g, modules_spec(ctx, g, st, ms.drop_last()), ms.last())
    }
}

/// The import paths at the top level of `stmts` are interned.
pub open spec fn import_paths_interned(n: nat, stmts: Seq<Stmt>) -> bool {
    forall|k: int| 0 <= k < stmts.len() ==> ((#[trigger] stmts[k]).kind matches StmtKind::Import { path, .. } ==> (path.0 as nat) < n)
}

/// Every module's names are interned.
pub open spec fn graph_interned(n: nat, g: ModuleGraph) -> bool {
    forall|k: int| 0 <= k < g.modules@.len() ==> stmts_names_interned(n, (#[trigger] g.modules@[k]).ast@)
        && import_paths_interned(n, g.modules@[k].ast@)
}

impl ModuleGraph {
    /// The module that the import path `path` of module `from` leads to.
    pub fn resolve_import(&self, from: u32, path: &str) -> (r: Option<u32>)
        ensures
            r == import_target(self.imports@, from, path@),
    {
        let wanted = String::from_str(path);
        let mut i: usize = 0;
        assert(self.imports@.subrange(0, self.imports@.len() as int) =~= self.imports@);
        while i < self.imports.len()
            invariant
                i <= self.imports@.len(),
                wanted@ == path@,
                import_target(self.imports@, from, path@)
                    == import_target(self.imports@.subrange(i as int, self.imports@.len() as int), from, path@),
            decreases self.imports@.len() - i,
        {
            let e = &self.imports[i];
            proof {
                let rest = self.imports@.subrange(i as int, self.imports@.len() as int);
                assert(rest[0] == self.imports@[i as int]);
                assert(rest.subrange(1, rest.len() as int) =~= self.imports@.subrange(i + 1, self.imports@.len() as int));
            }
            if e.from == from && e.path == wanted {
                return Some(e.to);
            }
            i = i + 1;
        }
        None
    }

    /// The last module with id `id`.
    pub fn module(&self, id: u32) -> (r: Option<&Module>)
        ensures
            r matches Some(m) ==> module_with(self.modules@, id) == Some(*m),
            r is None ==> module_with(self.modules@, id) is None,
    {
        let mut i = self.modules.len();
        assert(self.modules@.take(i as int) =~= self.modules@);
        while i > 0
            invariant
                i <= self.modules@.len(),
                module_with(self.modules@, id) == module_with(self.modules@.take(i as int), id),
            decreases i,
        {
            proof {
                let t = self.modules@.take(i as int);
                assert(t.drop_last() =~= self.modules@.take(i - 1));
            }
            if self.modules[i - 1].id == id {
                return Some(&self.modules[i - 1]);
            }
            i = i - 1;
        }
        None
    }
}

/// `s` without the leading and trailing occurrences of `c`.
pub fn trim_char(s: &str, c: char) -> (r: String)
    ensures
        r@ == trim_end(trim_start(s@, c), c),
{
    let n = s.unicode_len();
    let mut i: usize = 0;
    assert(s@.subrange(0, n as int) =~= s@);
    while i < n && s.get_char(i) == c
        invariant
            n == s@.len(),
            i <= n,
            trim_start(s@, c) == trim_start(s@.subrange(i as int, n as int), c),
        decreases n - i,
    {
        proof {
            let rest = s@.subrange(i as int, n as int);
            assert(rest[0] == c);
            assert(rest.subrange(1, rest.len() as int) =~= s@.subrange(i + 1, n as int));
        }
        i = i + 1;
    }
    let ghost front = s@.subrange(i as int, n as int);
    assert(trim_start(s@, c) == front);
    let mut j: usize = n;
    assert(front.subrange(0, (j - i) as int) =~= front);
    while j > i && s.get_char(j - 1) == c
        invariant
            n == s@.len(),
            i <= j <= n,
            front == s@.subrange(i as int, n as int),
            trim_end(front, c) == trim_end(front.subrange(0, (j - i) as int), c),
        decreases j,
    {
        proof {
            let part = front.subrange(0, (j - i) as int);
            assert(part.last() == c);
            assert(part.drop_last() =~= front.subrange(0, (j - 1 - i) as int));
        }
        j = j - 1;
    }
    proof {
        let part = front.subrange(0, (j - i) as int);
        assert(part =~= s@.subrange(i as int, j as int));
    }
    String::from_str(s.substring_char(i, j))
}

/// A copy of the symbols.
fn copy_syms(v: &Vec<Symbol>) -> (r: Vec<Symbol>)
    ensures
        r@ == v@,
{
    crate::types::copy_symbols(v)
}

/// What a module exports.
pub fn collect_exports(stmts: &Vec<Stmt>) -> (r: Vec<(Symbol, Vec<Symbol>)>)
    ensures
        r@.map_values(|e: (Symbol, Vec<Symbol>)| (e.0, e.1@)) == exports_of(stmts@),
        keys_unique(r@),
{
    let mut r: Vec<(Symbol, Vec<Symbol>)> = Vec::new();
    let mut i: usize = 0;
    while i < stmts.len()
        invariant
            i <= stmts@.len(),
            keys_unique(r@),
            r@.map_values(|e: (Symbol, Vec<Symbol>)| (e.0, e.1@)) == exports_of(stmts@.take(i as int)),
        decreases stmts@.len() - i,
    {
        let ghost before = r@;
        let entry: Option<(Symbol, Vec<Symbol>)> = match &stmts[i].kind {
            StmtKind::Let { name, is_private, .. } => if !*is_private { Some((*name, Vec::new())) } else { None },
            StmtKind::Var { name, is_private, .. } => if !*is_private { Some((*name, Vec::new())) } else { None },
            StmtKind::Class { name, is_private, .. } => if !*is_private { Some((*name, Vec::new())) } else { None },
            StmtKind::Interface { name, is_private, .. } => if !*is_private { Some((*name, Vec::new())) } else { None },
            StmtKind::ForeignFunc { name, is_private, .. } => if !*is_private { Some((*name, Vec::new())) } else { None },
            StmtKind::Func { name, is_private, .. } => if !*is_private { Some((*name, Vec::new())) } else { None },
            StmtKind::Enum { name, is_private, variants, .. } => if !*is_private {
                let mut subs: Vec<Symbol> = Vec::new();
                let mut k: usize = 0;
                while k < variants.len()
                    invariant
                        k <= variants@.len(),
                        subs@ == variants@.take(k as int).map_values(|v: crate::ast::EnumVariant| v.name),
                    decreases variants@.len() - k,
                {
                    subs.push(variants[k].name);
                    k = k + 1;
                    assert(subs@ =~= variants@.take(k as int).map_values(|v: crate::ast::EnumVariant| v.name));
                }
                assert(variants@.take(variants@.len() as int) =~= variants@);
                Some((*name, subs))
            } else {
                None
            },
            _ => None,
        };
        proof {
            let t = stmts@.take(i + 1);
            assert(t.drop_last() =~= stmts@.take(i as int));
            assert(t.last() == stmts@[i as int]);
        }
        match entry {
            Some((name, subs)) => {
                let ghost sv = subs@;
                table_insert(&mut r, name, subs);
                proof { lemma_view_inserted(before, name, subs); }
            },
            None => {},
        }
        i = i + 1;
    }
    assert(stmts@.take(stmts@.len() as int) =~= stmts@);
    r
}

/// The views of the entries commute with setting an entry.
proof fn lemma_view_inserted(t: Seq<(Symbol, Vec<Symbol>)>, key: Symbol, v: Vec<Symbol>)
    requires
        keys_unique(t),
    ensures
        inserted(t, key, v).map_values(|e: (Symbol, Vec<Symbol>)| (e.0, e.1@))
            == inserted(t.map_values(|e: (Symbol, Vec<Symbol>)| (e.0, e.1@)), key, v@),
{
    let f = |e: (Symbol, Vec<Symbol>)| (e.0, e.1@);
    let tv = t.map_values(f);
    assert forall|i: int| 0 <= i < t.len() implies (tv[i].0 == key <==> t[i].0 == key) by {}
    if exists|i: int| 0 <= i < t.len() && t[i].0 == key {
        let i = choose|i: int| 0 <= i < t.len() && t[i].0 == key;
        assert(tv[i].0 == key);
        let j = choose|j: int| 0 <= j < tv.len() && tv[j].0 == key;
        assert(t[j].0 == key);
        assert(inserted(t, key, v).map_values(f) =~= inserted(tv, key, v@)) by {
            let ti = choose|i: int| 0 <= i < t.len() && t[i].0 == key;
            let tj = choose|j: int| 0 <= j < tv.len() && tv[j].0 == key;
            assert(tv[ti].0 == key);
            assert(t[tj].0 == key);
            if ti < tj {
                assert(t[ti].0 != t[tj].0);
            } else if tj < ti {
                assert(t[tj].0 != t[ti].0);
            }
        }
    } else {
        assert(!(exists|i: int| 0 <= i < tv.len() && tv[i].0 == key)) by {
            if exists|i: int| 0 <= i < tv.len() && tv[i].0 == key {
                let i = choose|i: int| 0 <= i < tv.len() && tv[i].0 == key;
                assert(t[i].0 == key);
            }
        }
        assert(inserted(t, key, v).map_values(f) =~= inserted(tv, key, v@));
    }
}

impl Resolver {
    /// Resolves the names of every module of a program, in order: each in a
    /// scope of its own, where its imports bring in the names that the
    /// imported modules export.
    pub fn resolve_graph(&mut self, graph: &ModuleGraph)
        requires
            old(self).state().scopes.len() >= 1,
            graph_interned(old(self).ctx().names.len(), *graph),
        ensures
            final(self).session == old(self).session,
            final(self).ctx() == old(self).ctx(),
            final(self).state() == modules_spec(old(self).ctx(), *graph, old(self).state(), graph.modules@),
            final(self).state().scopes.len() == old(self).state().scopes.len(),
    {
        let mut i: usize = 0;
        while i < graph.modules.len()
            invariant
                i <= graph.modules@.len(),
                self.session == old(self).session,
                self.self_sym == old(self).self_sym,
                self.wildcard_sym == old(self).wildcard_sym,
                graph_interned(self.ctx().names.len(), *graph),
                self.state() == modules_spec(self.ctx(), *graph, old(self).state(), graph.modules@.take(i as int)),
                self.state().scopes.len() == old(self).state().scopes.len(),
                old(self).state().scopes.len() >= 1,
            decreases graph.modules@.len() - i,
        {
            proof {
                let t = graph.modules@.take(i + 1);
                assert(t.drop_last() =~= graph.modules@.take(i as int));
                assert(t.last() == graph.modules@[i as int]);
            }
            self.resolve_module(&graph.modules[i], graph);
            i = i + 1;
        }
        assert(graph.modules@.take(graph.modules@.len() as int) =~= graph.modules@);
    }

    /// Resolves one module in a scope of its own: first its imports, then
    /// its statements.
    pub fn resolve_module(&mut self, module: &Module, graph: &ModuleGraph)
        requires
            old(self).state().scopes.len() >= 1,
            stmts_names_interned(old(self).ctx().names.len(), module.ast@),
            import_paths_interned(old(self).ctx().names.len(), module.ast@),
        ensures
            final(self).session == old(self).session,
            final(self).self_sym == old(self).self_sym,
            final(self).wildcard_sym == old(self).wildcard_sym,
            final(self).state() == module_spec(old(self).ctx(), *graph, old(self).state(), *module),
            final(self).state().scopes.len() == old(self).state().scopes.len(),
    {
        self.push_scope();
        let ghost st1 = self.state();
        let mut k: usize = 0;
        while k < module.ast.len()
            invariant
                k <= module.ast@.len(),
                self.session == old(self).session,
                self.self_sym == old(self).self_sym,
                self.wildcard_sym == old(self).wildcard_sym,
                import_paths_interned(self.ctx().names.len(), module.ast@),
                self.state() == imports_spec(self.ctx(), *graph, module.id, st1, module.ast@.take(k as int)),
                self.state().scopes.len() == old(self).state().scopes.len() + 1,
                old(self).state().scopes.len() >= 1,
            decreases module.ast@.len() - k,
        {
            proof {
                let t = module.ast@.take(k + 1);
                assert(t.drop_last() =~= module.ast@.take(k as int));
                assert(t.last() == module.ast@[k as int]);
            }
            let stmt = &module.ast[k];
            match &stmt.kind {
                StmtKind::Import { path, alias, show, hide } => {
                    assert(import_paths_interned(self.ctx().names.len(), module.ast@));
                    assert((path.0 as nat) < self.ctx().names.len());
                    let text = self.session.interner.lookup(*path);
                    let unquoted = trim_char(text, '"');
                    let clean = trim_char(unquoted.as_str(), '\'');
                    match graph.resolve_import(module.id, clean.as_str()) {
                        Some(target) => match graph.module(target) {
                            Some(m) => match alias {
                                Some(a) => self.declare(*a),
                                None => {
                                    let exports = collect_exports(&m.ast);
                                    self.declare_exports(&exports, show, hide);
                                },
                            },
                            None => {},
                        },
                        None => {
                            let mut msg = String::from_str("Cannot resolve import '");
                            msg.append(text);
                            msg.append("'");
                            self.error(stmt.span, DiagnosticCode::UnknownIdentifier, msg);
                        },
                    }
                },
                _ => {},
            }
            k = k + 1;
        }
        assert(module.ast@.take(module.ast@.len() as int) =~= module.ast@);
        self.resolve(module.ast.as_slice());
        self.pop_scope();
    }

    /// Declares in the innermost scope each export that passes the import's
    /// filters, with its variants.
    fn declare_exports(&mut self, exports: &Vec<(Symbol, Vec<Symbol>)>, show: &Vec<Symbol>, hide: &Vec<Symbol>)
        requires
            old(self).state().scopes.len() >= 1,
        ensures
            final(self).session == old(self).session,
            final(self).self_sym == old(self).self_sym,
            final(self).wildcard_sym == old(self).wildcard_sym,
            final(self).state() == declared_all(old(self).state(),
                imported_names(exports@.map_values(|e: (Symbol, Vec<Symbol>)| (e.0, e.1@)), show@, hide@)),
    {
        let ghost ev = exports@.map_values(|e: (Symbol, Vec<Symbol>)| (e.0, e.1@));
        let ghost st0 = self.state();
        let mut i: usize = 0;
        proof {
            assert(imported_names(ev.take(0), show@, hide@) =~= Set::<Symbol>::empty());
            assert(st0.scopes.last().union(Set::<Symbol>::empty()) =~= st0.scopes.last());
            assert(st0.scopes.update(st0.scopes.len() - 1, st0.scopes.last()) =~= st0.scopes);
        }
        while i < exports.len()
            invariant
                i <= exports@.len(),
                ev == exports@.map_values(|e: (Symbol, Vec<Symbol>)| (e.0, e.1@)),
                self.session == old(self).session,
                self.self_sym == old(self).self_sym,
                self.wildcard_sym == old(self).wildcard_sym,
                st0 == old(self).state(),
                st0.scopes.len() >= 1,
                self.state() == declared_all(st0, imported_names(ev.take(i as int), show@, hide@)),
            decreases exports@.len() - i,
        {
            let ghost before = self.state();
            let name = exports[i].0;
            let shown = show.len() == 0 || crate::checker::contains_symbol(show, name);
            let hidden = crate::checker::contains_symbol(hide, name);
            if shown && !hidden {
                self.declare(name);
                let subs = &exports[i].1;
                let mut j: usize = 0;
                proof {
                    assert(subs@.take(0).to_set() =~= Set::<Symbol>::empty());
                    assert(before.scopes.last().insert(name).union(subs@.take(0).to_set())
                        =~= before.scopes.last().insert(name));
                }
                while j < subs.len()
                    invariant
                        j <= subs@.len(),
                        self.session == old(self).session,
                        self.self_sym == old(self).self_sym,
                        self.wildcard_sym == old(self).wildcard_sym,
                        before.scopes.len() >= 1,
                        self.state().errors == before.errors,
                        self.state().scopes == before.scopes.update(before.scopes.len() - 1,
                            before.scopes.last().insert(name).union(subs@.take(j as int).to_set())),
                    decreases subs@.len() - j,
                {
                    let ghost prev = self.state();
                    self.declare(subs[j]);
                    proof {
                        assert(subs@.take(j + 1).to_set() =~= subs@.take(j as int).to_set().insert(subs@[j as int])) by {
                            assert(subs@.take(j + 1) =~= subs@.take(j as int).push(subs@[j as int]));
                            crate::check_decl::lemma_push_contains(subs@.take(j as int), subs@[j as int], subs@[j as int]);
                            assert forall|x: Symbol| subs@.take(j + 1).to_set().contains(x)
                                <==> subs@.take(j as int).to_set().insert(subs@[j as int]).contains(x) by {
                                crate::check_decl::lemma_push_contains(subs@.take(j as int), subs@[j as int], x);
                            }
                        }
                        let sj = before.scopes.last().insert(name).union(subs@.take(j as int).to_set());
                        let sk = before.scopes.last().insert(name).union(subs@.take(j + 1).to_set());
                        assert(prev.scopes.last() == sj);
                        assert(sk =~= sj.insert(subs@[j as int]));
                        assert(self.state().scopes =~= before.scopes.update(before.scopes.len() - 1, sk));
                    }
                    j = j + 1;
                }
                proof {
                    assert(subs@.take(subs@.len() as int) =~= subs@);
                }
            }
            proof {
                let t = ev.take(i + 1);
                assert(t =~= ev.take(i as int).push(ev[i as int]));
                assert(ev[i as int] == (name, exports@[i as int].1@));
                assert(passes(name, show@, hide@) == (shown && !hidden));
                let old_names = imported_names(ev.take(i as int), show@, hide@);
                let new_names = imported_names(t, show@, hide@);
                if shown && !hidden {
                    assert(new_names =~= old_names.union(set![name]).union(exports@[i as int].1@.to_set())) by {
                        assert forall|x: Symbol| new_names.contains(x) <==> old_names.union(set![name]).union(exports@[i as int].1@.to_set()).contains(x) by {
                            if new_names.contains(x) {
                                let w = choose|w: int| 0 <= w < t.len() && passes(t[w].0, show@, hide@) && (#[trigger] t[w].0 == x || t[w].1.contains(x));
                                if w < i {
                                    assert(ev.take(i as int)[w] == t[w]);
                                }
                            }
                            if old_names.contains(x) {
                                let w = choose|w: int| 0 <= w < ev.take(i as int).len() && passes(ev.take(i as int)[w].0, show@, hide@)
                                    && (#[trigger] ev.take(i as int)[w].0 == x || ev.take(i as int)[w].1.contains(x));
                                assert(t[w] == ev.take(i as int)[w]);
                            }
                            if x == name || exports@[i as int].1@.contains(x) {
                                assert(t[i as int].0 == name);
                            }
                        }
                    }
                    assert(self.state() =~= declared_all(st0, new_names)) by {
                        assert(self.state().scopes =~= declared_all(st0, new_names).scopes) by {
                            assert(self.state().scopes.last() =~= st0.scopes.last().union(new_names));
                        }
                    }
                } else {
                    assert(new_names =~= old_names) by {
                        assert forall|x: Symbol| new_names.contains(x) <==> old_names.contains(x) by {
                            if new_names.contains(x) {
                                let w = choose|w: int| 0 <= w < t.len() && passes(t[w].0, show@, hide@) && (#[trigger] t[w].0 == x || t[w].1.contains(x));
                                assert(w != i);
                                assert(ev.take(i as int)[w] == t[w]);
                            }
                            if old_names.contains(x) {
                                let w = choose|w: int| 0 <= w < ev.take(i as int).len() && passes(ev.take(i as int)[w].0, show@, hide@)
                                    && (#[trigger] ev.take(i as int)[w].0 == x || ev.take(i as int)[w].1.contains(x));
                                assert(t[w] == ev.take(i as int)[w]);
                            }
                        }
                    }
                }
            }
            i = i + 1;
        }
        assert(ev.take(exports@.len() as int) =~= ev);
    }
}

} // verus!
