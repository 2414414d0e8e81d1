use vstd::prelude::*;
use crate::interner::Symbol;

verus! {

/// A position in a source file.
#[derive(Debug, Clone, Copy, PartialEq, Eq, Structural)]
pub struct Location {
    pub line: usize,
    pub column: usize,
}

impl Location {
    pub fn new(line: usize, column: usize) -> (res: Self)
        ensures
            res.line == line,
            res.column == column,
    {
        Location { line, column }
    }
}

/// A range of source text: byte offsets and the locations of both ends.
#[derive(Debug, Clone, Copy, PartialEq, Eq, Structural)]
pub struct Span {
    pub file_id: usize,
    pub start: usize,
    pub end: usize,
    pub start_loc: Location,
    pub end_loc: Location,
}

impl Span {
    pub fn new(file_id: usize, start: usize, end: usize, start_loc: Location, end_loc: Location) -> (res: Self)
        ensures
            res == (Span { file_id, start, end, start_loc, end_loc }),
    {
        Span { file_id, start, end, start_loc, end_loc }
    }
}

/// The span from the start of `first` to the end of `last`.
pub open spec fn span_between(first: Span, last: Span) -> Span {
    Span { file_id: first.file_id, start: first.start, end: last.end, start_loc: first.start_loc, end_loc: last.end_loc }
}

/// Joins the start of `first` and the end of `last`.
pub fn join_spans(first: Span, last: Span) -> (res: Span)
    ensures
        res == span_between(first, last),
{
    Span::new(first.file_id, first.start, last.end, first.start_loc, last.end_loc)
}

/// A type as written in source.
#[derive(Debug, PartialEq, Eq)]
pub enum TypeExpr {
    Named(Symbol),
    GenericInstance(Symbol, Vec<TypeExpr>),
    Optional(Box<TypeExpr>),
    Array(Box<TypeExpr>),
}

/// `a` is a copy of `b`: built the same way from the same names.
pub open spec fn copy_of(a: TypeExpr, b: TypeExpr) -> bool
    decreases b,
{
    match (a, b) {
        (TypeExpr::Named(x), TypeExpr::Named(y)) => x == y,
        (TypeExpr::GenericInstance(x, xs), TypeExpr::GenericInstance(y, ys)) => x == y && xs@.len() == ys@.len()
            && forall|k: int| 0 <= k < ys@.len() ==> copy_of(#[trigger] xs@[k], ys@[k]),
        (TypeExpr::Optional(x), TypeExpr::Optional(y)) => copy_of(*x, *y),
        (TypeExpr::Array(x), TypeExpr::Array(y)) => copy_of(*x, *y),
        _ => false,
    }
}

/// Each of `a` is a copy of the one of `b` at the same position.
pub open spec fn copies_of(a: Seq<TypeExpr>, b: Seq<TypeExpr>) -> bool {
    a.len() == b.len() && forall|k: int| 0 <= k < b.len() ==> copy_of(#[trigger] a[k], b[k])
}

impl TypeExpr {
    /// A deep copy of the type expression.
    pub fn copy(&self) -> (r: TypeExpr)
        ensures
            forall|n: nat| type_expr_interned(n, *self) ==> #[trigger] type_expr_interned(n, r),
            copy_of(r, *self),
        decreases self,
    {
        match self {
            TypeExpr::Named(s) => TypeExpr::Named(*s),
            TypeExpr::GenericInstance(s, args) => {
                let a = copy_type_exprs(args);
                let r = TypeExpr::GenericInstance(*s, a);
                assert forall|n: nat| type_expr_interned(n, *self) implies #[trigger] type_expr_interned(n, r) by {
                    assert(type_exprs_interned(n, a@));
                }
                r
            },
            TypeExpr::Optional(inner) => {
                let c = (**inner).copy();
                let r = TypeExpr::Optional(Box::new(c));
                assert forall|n: nat| type_expr_interned(n, *self) implies #[trigger] type_expr_interned(n, r) by {
                    assert(type_expr_interned(n, c));
                }
                r
            },
            TypeExpr::Array(inner) => {
                let c = (**inner).copy();
                let r = TypeExpr::Array(Box::new(c));
                assert forall|n: nat| type_expr_interned(n, *self) implies #[trigger] type_expr_interned(n, r) by {
                    assert(type_expr_interned(n, c));
                }
                r
            },
        }
    }
}

/// A deep copy of a list of type expressions.
pub fn copy_type_exprs(ts: &Vec<TypeExpr>) -> (r: Vec<TypeExpr>)
    ensures
        r@.len() == ts@.len(),
        forall|n: nat| type_exprs_interned(n, ts@) ==> #[trigger] type_exprs_interned(n, r@),
        copies_of(r@, ts@),
    decreases ts@,
{
    let mut r: Vec<TypeExpr> = Vec::new();
    let mut i: usize = 0;
    while i < ts.len()
        invariant
            i <= ts@.len(),
            r@.len() == i,
            forall|n: nat, k: int| 0 <= k < i && type_expr_interned(n, ts@[k]) ==> #[trigger] type_expr_interned(n, r@[k]),
            forall|k: int| 0 <= k < i ==> copy_of(#[trigger] r@[k], ts@[k]),
        decreases ts@.len() - i,
    {
        proof { assert(decreases_to!(ts@ => ts@[i as int])); }
        let c = ts[i].copy();
        r.push(c);
        i = i + 1;
    }
    proof {
        assert forall|n: nat| type_exprs_interned(n, ts@) implies #[trigger] type_exprs_interned(n, r@) by {
            lemma_type_exprs_interned(n, ts@);
            lemma_type_exprs_interned_from_all(n, r@);
        }
    }
    r
}

/// Each member of an interned list is interned.
pub proof fn lemma_type_exprs_interned(n: nat, ts: Seq<TypeExpr>)
    requires
        type_exprs_interned(n, ts),
    ensures
        forall|k: int| 0 <= k < ts.len() ==> #[trigger] type_expr_interned(n, ts[k]),
    decreases ts.len(),
{
    if ts.len() > 0 {
        lemma_type_exprs_interned(n, ts.drop_last());
        assert forall|k: int| 0 <= k < ts.len() implies #[trigger] type_expr_interned(n, ts[k]) by {
            if k < ts.len() - 1 {
                assert(ts[k] == ts.drop_last()[k]);
            }
        }
    }
}

/// A list whose members are interned is interned.
pub proof fn lemma_type_exprs_interned_from_all(n: nat, ts: Seq<TypeExpr>)
    requires
        forall|k: int| 0 <= k < ts.len() ==> #[trigger] type_expr_interned(n, ts[k]),
    ensures
        type_exprs_interned(n, ts),
    decreases ts.len(),
{
    if ts.len() > 0 {
        let t = ts.drop_last();
        assert forall|k: int| 0 <= k < t.len() implies #[trigger] type_expr_interned(n, t[k]) by {
            assert(t[k] == ts[k]);
        }
        lemma_type_exprs_interned_from_all(n, t);
        assert(type_expr_interned(n, ts[ts.len() - 1]));
    }
}

/// A type expression interned below `n` is interned below any larger bound.
pub proof fn lemma_type_expr_interned_mono(n: nat, m: nat, t: TypeExpr)
    requires
        type_expr_interned(n, t),
        n <= m,
    ensures
        type_expr_interned(m, t),
    decreases t,
{
    match t {
        TypeExpr::Named(_) => {},
        TypeExpr::GenericInstance(_, args) => {
            lemma_type_exprs_interned(n, args@);
            assert forall|k: int| 0 <= k < args@.len() implies #[trigger] type_expr_interned(m, args@[k]) by {
                assert(decreases_to!(args => args@));
                assert(decreases_to!(args@ => args@[k]));
                lemma_type_expr_interned_mono(n, m, args@[k]);
            }
            lemma_type_exprs_interned_from_all(m, args@);
        },
        TypeExpr::Optional(inner) => lemma_type_expr_interned_mono(n, m, *inner),
        TypeExpr::Array(inner) => lemma_type_expr_interned_mono(n, m, *inner),
    }
}

/// A list of type expressions interned below `n` is interned below any
/// larger bound.
pub proof fn lemma_type_exprs_interned_mono(n: nat, m: nat, ts: Seq<TypeExpr>)
    requires
        type_exprs_interned(n, ts),
        n <= m,
    ensures
        type_exprs_interned(m, ts),
{
    lemma_type_exprs_interned(n, ts);
    assert forall|k: int| 0 <= k < ts.len() implies #[trigger] type_expr_interned(m, ts[k]) by {
        lemma_type_expr_interned_mono(n, m, ts[k]);
    }
    lemma_type_exprs_interned_from_all(m, ts);
}

/// Each member of an interned list of expressions is interned.
pub proof fn lemma_exprs_interned_each(n: nat, es: Seq<Expr>)
    requires
        exprs_interned(n, es),
    ensures
        forall|k: int| 0 <= k < es.len() ==> #[trigger] expr_interned(n, es[k]),
    decreases es.len(),
{
    if es.len() > 0 {
        lemma_exprs_interned_each(n, es.drop_last());
        assert forall|k: int| 0 <= k < es.len() implies #[trigger] expr_interned(n, es[k]) by {
            if k < es.len() - 1 {
                assert(es[k] == es.drop_last()[k]);
            }
        }
    }
}

/// Each member of an interned list of statements is interned.
pub proof fn lemma_stmts_interned_each(n: nat, ss: Seq<Stmt>)
    requires
        stmts_interned(n, ss),
    ensures
        forall|k: int| 0 <= k < ss.len() ==> #[trigger] stmt_interned(n, ss[k]),
    decreases ss.len(),
{
    if ss.len() > 0 {
        lemma_stmts_interned_each(n, ss.drop_last());
        assert forall|k: int| 0 <= k < ss.len() implies #[trigger] stmt_interned(n, ss[k]) by {
            if k < ss.len() - 1 {
                assert(ss[k] == ss.drop_last()[k]);
            }
        }
    }
}

/// Each arm of an interned list of arms is interned.
pub proof fn lemma_arms_interned_each(n: nat, arms: Seq<MatchArm>)
    requires
        arms_interned(n, arms),
    ensures
        forall|k: int| 0 <= k < arms.len() ==> pattern_interned(n, (#[trigger] arms[k]).pattern)
            && expr_interned(n, *arms[k].body),
    decreases arms.len(),
{
    if arms.len() > 0 {
        lemma_arms_interned_each(n, arms.drop_last());
        assert forall|k: int| 0 <= k < arms.len() implies pattern_interned(n, (#[trigger] arms[k]).pattern)
            && expr_interned(n, *arms[k].body) by {
            if k < arms.len() - 1 {
                assert(arms[k] == arms.drop_last()[k]);
            }
        }
    }
}

/// Each parameter of an interned list is interned.
pub proof fn lemma_params_interned_each(n: nat, ps: Seq<(Symbol, TypeExpr)>)
    requires
        params_all_interned(n, ps),
    ensures
        forall|k: int| 0 <= k < ps.len() ==> ((#[trigger] ps[k]).0.0 as nat) < n && type_expr_interned(n, ps[k].1),
    decreases ps.len(),
{
    if ps.len() > 0 {
        lemma_params_interned_each(n, ps.drop_last());
        assert forall|k: int| 0 <= k < ps.len() implies ((#[trigger] ps[k]).0.0 as nat) < n && type_expr_interned(n, ps[k].1) by {
            if k < ps.len() - 1 {
                assert(ps[k] == ps.drop_last()[k]);
            }
        }
    }
}

/// Each variant of an interned list is interned.
pub proof fn lemma_variants_interned_each(n: nat, vs: Seq<EnumVariant>)
    requires
        variants_interned(n, vs),
    ensures
        forall|k: int| 0 <= k < vs.len() ==> ((#[trigger] vs[k]).name.0 as nat) < n
            && (vs[k].fields matches Some(fs) ==> fields_interned(n, fs@)),
    decreases vs.len(),
{
    if vs.len() > 0 {
        lemma_variants_interned_each(n, vs.drop_last());
        assert forall|k: int| 0 <= k < vs.len() implies ((#[trigger] vs[k]).name.0 as nat) < n
            && (vs[k].fields matches Some(fs) ==> fields_interned(n, fs@)) by {
            if k < vs.len() - 1 {
                assert(vs[k] == vs.drop_last()[k]);
            }
        }
    }
}

/// Each field of an interned list is interned.
pub proof fn lemma_fields_interned_each(n: nat, fs: Seq<EnumField>)
    requires
        fields_interned(n, fs),
    ensures
        forall|k: int| 0 <= k < fs.len() ==> #[trigger] type_expr_interned(n, fs[k].ty),
    decreases fs.len(),
{
    if fs.len() > 0 {
        lemma_fields_interned_each(n, fs.drop_last());
        assert forall|k: int| 0 <= k < fs.len() implies #[trigger] type_expr_interned(n, fs[k].ty) by {
            if k < fs.len() - 1 {
                assert(fs[k] == fs.drop_last()[k]);
            }
        }
    }
}

#[derive(Debug, Clone, Copy, PartialEq, Eq, Structural)]
pub enum BinaryOp {
    Add,
    Subtract,
    Multiply,
    Divide,
    Equal,
    NotEqual,
    Less,
    LessEqual,
    Greater,
    GreaterEqual,
}

#[derive(Debug, Clone, Copy, PartialEq, Eq, Structural)]
pub enum UnaryOp {
    Negate,
}

/// The pattern of a match arm.
#[derive(Debug)]
pub enum Pattern {
    Wildcard,
    Variant { path: Vec<Symbol>, bindings: Option<Vec<Symbol>> },
}

#[derive(Debug)]
pub struct MatchArm {
    pub pattern: Pattern,
    pub body: Box<Expr>,
}

#[derive(Debug)]
pub struct Expr {
    pub kind: ExprKind,
    pub span: Span,
}

/// The kinds of expressions.  A float literal is held as the bits of its
/// IEEE 754 double.
#[derive(Debug)]
pub enum ExprKind {
    Integer(i64),
    Float(u64),
    String(Symbol),
    Boolean(bool),
    Null,
    SelfRef,
    Variable(Symbol),
    InterpolatedString(Vec<Expr>),
    Range { start: Box<Expr>, end: Box<Expr> },
    Binary(Box<Expr>, BinaryOp, Box<Expr>),
    Unary(UnaryOp, Box<Expr>),
    Grouping(Box<Expr>),
    Call { callee: Box<Expr>, type_args: Vec<TypeExpr>, arguments: Vec<Expr> },
    Get { object: Box<Expr>, name: Symbol },
    SetProperty { object: Box<Expr>, name: Symbol, value: Box<Expr> },
    Assign { name: Symbol, value: Box<Expr> },
    Array(Vec<Expr>),
    ArrayRepeat { value: Box<Expr>, count: Box<Expr> },
    ListComprehension { expr: Box<Expr>, item_name: Symbol, iterator: Box<Expr> },
    IndexGet { object: Box<Expr>, index: Box<Expr> },
    IndexSet { object: Box<Expr>, index: Box<Expr>, value: Box<Expr> },
    ForceUnwrap(Box<Expr>),
    OptionalGet { object: Box<Expr>, name: Symbol },
    NullCoalesce { left: Box<Expr>, right: Box<Expr> },
    NullCoalesceAssign { left: Box<Expr>, right: Box<Expr> },
    Match { value: Box<Expr>, arms: Vec<MatchArm> },
}

impl Expr {
    pub fn new(kind: ExprKind, span: Span) -> (res: Self)
        ensures
            res.kind == kind,
            res.span == span,
    {
        Expr { kind, span }
    }
}

/// A field of an enum variant, named or positional.
#[derive(Debug)]
pub struct EnumField {
    pub name: Option<Symbol>,
    pub ty: TypeExpr,
}

#[derive(Debug)]
pub struct EnumVariant {
    pub name: Symbol,
    pub fields: Option<Vec<EnumField>>,
}

#[derive(Debug)]
pub struct Stmt {
    pub kind: StmtKind,
    pub span: Span,
}

#[derive(Debug)]
pub enum StmtKind {
    Block(Vec<Stmt>),
    Let { name: Symbol, type_annotation: Option<TypeExpr>, initializer: Option<Expr>, is_private: bool },
    Var { name: Symbol, type_annotation: Option<TypeExpr>, initializer: Option<Expr>, is_weak: bool, is_private: bool },
    Class {
        name: Symbol,
        type_params: Vec<Symbol>,
        implements: Vec<Symbol>,
        methods: Vec<Stmt>,
        fields: Vec<Stmt>,
        is_private: bool,
    },
    Interface { name: Symbol, methods: Vec<Stmt>, is_private: bool },
    Enum { name: Symbol, type_params: Vec<Symbol>, variants: Vec<EnumVariant>, is_private: bool },
    ForeignFunc {
        name: Symbol,
        type_params: Vec<Symbol>,
        params: Vec<(Symbol, TypeExpr)>,
        return_type: Option<TypeExpr>,
        is_private: bool,
    },
    Func {
        name: Symbol,
        type_params: Vec<Symbol>,
        params: Vec<(Symbol, TypeExpr)>,
        return_type: Option<TypeExpr>,
        body: Box<Stmt>,
        is_private: bool,
    },
    If { condition: Expr, then_branch: Box<Stmt>, else_branch: Option<Box<Stmt>> },
    While { condition: Expr, body: Box<Stmt> },
    For { item_name: Symbol, iterator: Expr, body: Box<Stmt> },
    Import { path: Symbol, alias: Option<Symbol>, show: Vec<Symbol>, hide: Vec<Symbol> },
    Export { path: Symbol },
    Expression(Expr),
    Return { value: Option<Expr> },
}

impl Stmt {
    pub fn new(kind: StmtKind, span: Span) -> (res: Self)
        ensures
            res.kind == kind,
            res.span == span,
    {
        Stmt { kind, span }
    }
}


/// Every symbol in the sequence is below `n`.
pub open spec fn symbols_below(n: nat, syms: Seq<Symbol>) -> bool {
    forall|k: int| 0 <= k < syms.len() ==> ((#[trigger] syms[k]).0 as nat) < n
}

/// Every symbol in a type expression is below `n`.
pub open spec fn type_expr_interned(n: nat, t: TypeExpr) -> bool
    decreases t,
{
    match t {
        TypeExpr::Named(s) => (s.0 as nat) < n,
        TypeExpr::GenericInstance(s, args) => (s.0 as nat) < n && type_exprs_interned(n, args@),
        TypeExpr::Optional(inner) => type_expr_interned(n, *inner),
        TypeExpr::Array(inner) => type_expr_interned(n, *inner),
    }
}

pub open spec fn type_exprs_interned(n: nat, ts: Seq<TypeExpr>) -> bool
    decreases ts,
{
    ts.len() == 0 || (type_exprs_interned(n, ts.drop_last()) && type_expr_interned(n, ts.last()))
}

pub open spec fn opt_type_expr_interned(n: nat, t: Option<TypeExpr>) -> bool {
    match t {
        Some(t) => type_expr_interned(n, t),
        None => true,
    }
}

pub open spec fn params_all_interned(n: nat, ps: Seq<(Symbol, TypeExpr)>) -> bool
    decreases ps.len(),
{
    ps.len() == 0 || (params_all_interned(n, ps.drop_last()) && (ps.last().0.0 as nat) < n
        && type_expr_interned(n, ps.last().1))
}

pub open spec fn fields_interned(n: nat, fs: Seq<EnumField>) -> bool
    decreases fs.len(),
{
    fs.len() == 0 || (fields_interned(n, fs.drop_last())
        && (fs.last().name matches Some(x) ==> (x.0 as nat) < n)
        && type_expr_interned(n, fs.last().ty))
}

pub open spec fn variants_interned(n: nat, vs: Seq<EnumVariant>) -> bool
    decreases vs.len(),
{
    vs.len() == 0 || (variants_interned(n, vs.drop_last()) && (vs.last().name.0 as nat) < n
        && (vs.last().fields matches Some(fs) ==> fields_interned(n, fs@)))
}

/// Every symbol in an expression is below `n`.
pub open spec fn expr_interned(n: nat, e: Expr) -> bool
    decreases e,
{
    match e.kind {
        ExprKind::String(s) => (s.0 as nat) < n,
        ExprKind::Variable(s) => (s.0 as nat) < n,
        ExprKind::InterpolatedString(pieces) => exprs_interned(n, pieces@),
        ExprKind::Range { start, end } => expr_interned(n, *start) && expr_interned(n, *end),
        ExprKind::Binary(l, _, r) => expr_interned(n, *l) && expr_interned(n, *r),
        ExprKind::Unary(_, r) => expr_interned(n, *r),
        ExprKind::Grouping(i) => expr_interned(n, *i),
        ExprKind::Call { callee, type_args, arguments } => expr_interned(n, *callee)
            && type_exprs_interned(n, type_args@) && exprs_interned(n, arguments@),
        ExprKind::Get { object, name } => expr_interned(n, *object) && (name.0 as nat) < n,
        ExprKind::SetProperty { object, name, value } => expr_interned(n, *object) && (name.0 as nat) < n
            && expr_interned(n, *value),
        ExprKind::Assign { name, value } => (name.0 as nat) < n && expr_interned(n, *value),
        ExprKind::Array(es) => exprs_interned(n, es@),
        ExprKind::ArrayRepeat { value, count } => expr_interned(n, *value) && expr_interned(n, *count),
        ExprKind::ListComprehension { expr, item_name, iterator } => expr_interned(n, *expr)
            && (item_name.0 as nat) < n && expr_interned(n, *iterator),
        ExprKind::IndexGet { object, index } => expr_interned(n, *object) && expr_interned(n, *index),
        ExprKind::IndexSet { object, index, value } => expr_interned(n, *object) && expr_interned(n, *index)
            && expr_interned(n, *value),
        ExprKind::ForceUnwrap(i) => expr_interned(n, *i),
        ExprKind::OptionalGet { object, name } => expr_interned(n, *object) && (name.0 as nat) < n,
        ExprKind::NullCoalesce { left, right } => expr_interned(n, *left) && expr_interned(n, *right),
        ExprKind::NullCoalesceAssign { left, right } => expr_interned(n, *left) && expr_interned(n, *right),
        ExprKind::Match { value, arms } => expr_interned(n, *value) && arms_interned(n, arms@),
        _ => true,
    }
}

pub open spec fn exprs_interned(n: nat, es: Seq<Expr>) -> bool
    decreases es,
{
    es.len() == 0 || (exprs_interned(n, es.drop_last()) && expr_interned(n, es.last()))
}

pub open spec fn pattern_interned(n: nat, p: Pattern) -> bool {
    match p {
        Pattern::Wildcard => true,
        Pattern::Variant { path, bindings } => symbols_below(n, path@)
            && (bindings matches Some(b) ==> symbols_below(n, b@)),
    }
}

pub open spec fn arms_interned(n: nat, arms: Seq<MatchArm>) -> bool
    decreases arms,
{
    arms.len() == 0 || (arms_interned(n, arms.drop_last()) && pattern_interned(n, arms.last().pattern)
        && expr_interned(n, *arms.last().body))
}

/// Every symbol in a statement is below `n`.
pub open spec fn stmt_interned(n: nat, s: Stmt) -> bool
    decreases s,
{
    match s.kind {
        StmtKind::Block(stmts) => stmts_interned(n, stmts@),
        StmtKind::Let { name, type_annotation, initializer, .. } => (name.0 as nat) < n
            && opt_type_expr_interned(n, type_annotation)
            && (initializer matches Some(e) ==> expr_interned(n, e)),
        StmtKind::Var { name, type_annotation, initializer, .. } => (name.0 as nat) < n
            && opt_type_expr_interned(n, type_annotation)
            && (initializer matches Some(e) ==> expr_interned(n, e)),
        StmtKind::Class { name, type_params, implements, methods, fields, .. } => (name.0 as nat) < n
            && symbols_below(n, type_params@) && symbols_below(n, implements@)
            && stmts_interned(n, methods@) && stmts_interned(n, fields@),
        StmtKind::Interface { name, methods, .. } => (name.0 as nat) < n && stmts_interned(n, methods@),
        StmtKind::Enum { name, type_params, variants, .. } => (name.0 as nat) < n
            && symbols_below(n, type_params@) && variants_interned(n, variants@),
        StmtKind::ForeignFunc { name, type_params, params, return_type, .. } => (name.0 as nat) < n
            && symbols_below(n, type_params@) && params_all_interned(n, params@)
            && opt_type_expr_interned(n, return_type),
        StmtKind::Func { name, type_params, params, return_type, body, .. } => (name.0 as nat) < n
            && symbols_below(n, type_params@) && params_all_interned(n, params@)
            && opt_type_expr_interned(n, return_type) && stmt_interned(n, *body),
        StmtKind::If { condition, then_branch, else_branch } => expr_interned(n, condition)
            && stmt_interned(n, *then_branch) && (else_branch matches Some(e) ==> stmt_interned(n, *e)),
        StmtKind::While { condition, body } => expr_interned(n, condition) && stmt_interned(n, *body),
        StmtKind::For { item_name, iterator, body } => (item_name.0 as nat) < n
            && expr_interned(n, iterator) && stmt_interned(n, *body),
        StmtKind::Import { .. } => true,
        StmtKind::Export { .. } => true,
        StmtKind::Expression(e) => expr_interned(n, e),
        StmtKind::Return { value } => value matches Some(v) ==> expr_interned(n, v),
    }
}

pub open spec fn stmts_interned(n: nat, ss: Seq<Stmt>) -> bool
    decreases ss,
{
    ss.len() == 0 || (stmts_interned(n, ss.drop_last()) && stmt_interned(n, ss.last()))
}

} // verus!
