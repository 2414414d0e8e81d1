use vstd::prelude::*;
use crate::ast::{BinaryOp, EnumField, EnumVariant, Expr, ExprKind, MatchArm, Pattern, Stmt, StmtKind, TypeExpr, UnaryOp};
use crate::check_expr::picked;
use crate::interner::Symbol;
use crate::parser::{names_tokens, type_expr_tokens, type_exprs_tokens};
use crate::token::TokenKindV;

verus! {

// How the tokens of the source spell an expression.  The parser's results
// are stated against these relations: the tokens that a successful parse
// consumed spell the expression that it gave.  They say nothing of
// precedence; they relate a tree to its tokens in order.

/// The names that the parser gives special meaning: the empty string,
/// `in` of a list comprehension, the wildcard binding `_`, and the name
/// `init` and return type `Void` of a constructor.
pub struct Words {
    pub empty: Symbol,
    pub in_word: Symbol,
    pub wildcard: Symbol,
    pub init_word: Symbol,
    pub void_word: Symbol,
}

/// The token that writes the binary operator `op`.
pub open spec fn binary_token(op: BinaryOp) -> TokenKindV {
    match op {
        BinaryOp::Add => TokenKindV::Plus,
        BinaryOp::Subtract => TokenKindV::Minus,
        BinaryOp::Multiply => TokenKindV::Star,
        BinaryOp::Divide => TokenKindV::Slash,
        BinaryOp::Equal => TokenKindV::EqualEqual,
        BinaryOp::NotEqual => TokenKindV::BangEqual,
        BinaryOp::Less => TokenKindV::Less,
        BinaryOp::LessEqual => TokenKindV::LessEqual,
        BinaryOp::Greater => TokenKindV::Greater,
        BinaryOp::GreaterEqual => TokenKindV::GreaterEqual,
    }
}

/// Names separated by dots.
pub open spec fn dotted_tokens(ns: Seq<Symbol>) -> Seq<TokenKindV>
    decreases ns.len(),
{
    if ns.len() == 0 {
        Seq::empty()
    } else if ns.len() == 1 {
        seq![TokenKindV::Identifier(ns[0])]
    } else {
        dotted_tokens(ns.drop_last()) + seq![TokenKindV::Dot, TokenKindV::Identifier(ns.last())]
    }
}

/// The token `t` writes the binding `b`: its name, or `_` for the
/// wildcard binding.
pub open spec fn binding_token(w: Words, b: Symbol, t: TokenKindV) -> bool {
    t == TokenKindV::Identifier(b) || (b == w.wildcard && t == TokenKindV::Underscore)
}

/// `t` spells the bindings `bs` separated by commas.
pub open spec fn bindings_spell(w: Words, bs: Seq<Symbol>, t: Seq<TokenKindV>) -> bool
    decreases bs.len(),
{
    if bs.len() == 0 {
        t.len() == 0
    } else if bs.len() == 1 {
        t.len() == 1 && binding_token(w, bs[0], t[0])
    } else {
        t.len() >= 3 && t[t.len() - 2] == TokenKindV::Comma && binding_token(w, bs.last(), t.last())
            && bindings_spell(w, bs.drop_last(), t.take(t.len() - 2))
    }
}

/// `t` spells the match pattern `pat`.
pub open spec fn pattern_spells(w: Words, pat: Pattern, t: Seq<TokenKindV>) -> bool {
    match pat {
        Pattern::Wildcard => t == seq![TokenKindV::Underscore],
        Pattern::Variant { path, bindings } => path@.len() >= 1 && match bindings {
            None => t == dotted_tokens(path@),
            Some(bs) => {
                let n = dotted_tokens(path@).len() as int;
                &&& t.len() >= n + 2
                &&& t.take(n) == dotted_tokens(path@)
                &&& t[n] == TokenKindV::LeftParen
                &&& t.last() == TokenKindV::RightParen
                &&& bindings_spell(w, bs@, t.subrange(n + 1, t.len() - 1))
            },
        },
    }
}

/// `t` spells the literal parts and interpolated expressions of a string,
/// between its quotes.
pub open spec fn pieces_spell(w: Words, ps: Seq<Expr>, t: Seq<TokenKindV>) -> bool
    decreases ps,
{
    if ps.len() == 0 {
        t.len() == 0
    } else {
        exists|k: int| #[trigger] picked(k) && 0 <= k <= t.len()
            && pieces_spell(w, ps.drop_last(), t.take(k))
            && ({
                let u = t.skip(k);
                ||| (ps.last().kind matches ExprKind::String(s) && u == seq![TokenKindV::StringPart(s)])
                ||| (u.len() >= 2 && u[0] == TokenKindV::InterpolationStart && u.last() == TokenKindV::InterpolationEnd
                    && spells(w, ps.last(), u.subrange(1, u.len() - 1)))
            })
    }
}

/// `t` spells a string literal that comes out as the plain string `s`: one
/// literal part, no part for the empty string, or the interpolation of
/// nothing but such a literal.
pub open spec fn string_spells(w: Words, s: Symbol, t: Seq<TokenKindV>) -> bool
    decreases t.len(),
{
    ||| t == seq![TokenKindV::StringStart, TokenKindV::StringPart(s), TokenKindV::StringEnd]
    ||| (s == w.empty && t == seq![TokenKindV::StringStart, TokenKindV::StringEnd])
    ||| (t.len() >= 4 && t[0] == TokenKindV::StringStart && t[1] == TokenKindV::InterpolationStart
        && t[t.len() - 2] == TokenKindV::InterpolationEnd && t.last() == TokenKindV::StringEnd
        && string_spells(w, s, t.subrange(2, t.len() - 2)))
}

/// `t` spells the expressions `es` separated by commas.
pub open spec fn spells_list(w: Words, es: Seq<Expr>, t: Seq<TokenKindV>) -> bool
    decreases es,
{
    if es.len() == 0 {
        t.len() == 0
    } else if es.len() == 1 {
        spells(w, es[0], t)
    } else {
        exists|k: int| #[trigger] picked(k) && 0 <= k < t.len()
            && spells_list(w, es.drop_last(), t.take(k)) && t[k] == TokenKindV::Comma
            && spells(w, es.last(), t.skip(k + 1))
    }
}

/// `t` spells the arms of a match, each a pattern, `=>`, a body and an
/// optional comma.
pub open spec fn arms_spell(w: Words, arms: Seq<MatchArm>, t: Seq<TokenKindV>) -> bool
    decreases arms,
{
    if arms.len() == 0 {
        t.len() == 0
    } else {
        exists|k: int, j: int| #[trigger] picked((k, j)) && 0 <= k <= j && j < t.len()
            && arms_spell(w, arms.drop_last(), t.take(k))
            && pattern_spells(w, arms.last().pattern, t.subrange(k, j))
            && t[j] == TokenKindV::FatArrow
            && (spells(w, *arms.last().body, t.skip(j + 1))
                || (t.last() == TokenKindV::Comma && spells(w, *arms.last().body, t.subrange(j + 1, t.len() - 1))))
    }
}

/// `t` spells the expression `e`: the tokens of its parts in order with
/// the operators and punctuation between them.
pub open spec fn spells(w: Words, e: Expr, t: Seq<TokenKindV>) -> bool
    decreases e,
{
    match e.kind {
        ExprKind::Integer(v) => t == seq![TokenKindV::Integer(v)],
        ExprKind::Float(v) => t == seq![TokenKindV::Float(v)],
        ExprKind::String(s) => string_spells(w, s, t),
        ExprKind::Boolean(b) => t == seq![if b { TokenKindV::True } else { TokenKindV::False }],
        ExprKind::Null => t == seq![TokenKindV::Null],
        ExprKind::SelfRef => t == seq![TokenKindV::SelfKeyword],
        ExprKind::Variable(x) => t == seq![TokenKindV::Identifier(x)],
        ExprKind::InterpolatedString(ps) => t.len() >= 2 && t[0] == TokenKindV::StringStart
            && t.last() == TokenKindV::StringEnd && pieces_spell(w, ps@, t.subrange(1, t.len() - 1)),
        ExprKind::Range { start, end } => exists|k: int| #[trigger] picked(k) && 0 <= k < t.len()
            && spells(w, *start, t.take(k)) && t[k] == TokenKindV::DotDot && spells(w, *end, t.skip(k + 1)),
        ExprKind::Binary(l, op, r) => exists|k: int| #[trigger] picked(k) && 0 <= k < t.len()
            && spells(w, *l, t.take(k)) && t[k] == binary_token(op) && spells(w, *r, t.skip(k + 1)),
        ExprKind::Unary(op, x) => t.len() >= 1 && t[0] == TokenKindV::Minus && op == UnaryOp::Negate
            && spells(w, *x, t.skip(1)),
        ExprKind::Grouping(x) => t.len() >= 2 && t[0] == TokenKindV::LeftParen && t.last() == TokenKindV::RightParen
            && spells(w, *x, t.subrange(1, t.len() - 1)),
        ExprKind::Call { callee, type_args, arguments } => exists|k: int| #[trigger] picked(k) && 0 <= k <= t.len()
            && spells(w, *callee, t.take(k)) && ({
                let u = t.skip(k);
                let ta = type_exprs_tokens(type_args@);
                let n = ta.len() as int;
                ||| (type_args@.len() == 0 && u.len() >= 2 && u[0] == TokenKindV::LeftParen
                    && u.last() == TokenKindV::RightParen && spells_list(w, arguments@, u.subrange(1, u.len() - 1)))
                ||| (u.len() >= n + 4 && u.take(n + 3) == seq![TokenKindV::Less] + ta
                    + seq![TokenKindV::Greater, TokenKindV::LeftParen]
                    && u.last() == TokenKindV::RightParen && spells_list(w, arguments@, u.subrange(n + 3, u.len() - 1)))
            }),
        ExprKind::Get { object, name } => t.len() >= 2 && t.skip(t.len() - 2) == seq![TokenKindV::Dot, TokenKindV::Identifier(name)]
            && spells(w, *object, t.take(t.len() - 2)),
        ExprKind::OptionalGet { object, name } => t.len() >= 2
            && t.skip(t.len() - 2) == seq![TokenKindV::QuestionDot, TokenKindV::Identifier(name)]
            && spells(w, *object, t.take(t.len() - 2)),
        ExprKind::ForceUnwrap(x) => t.len() >= 1 && t.last() == TokenKindV::Bang && spells(w, *x, t.drop_last()),
        ExprKind::IndexGet { object, index } => exists|k: int| #[trigger] picked(k) && 0 <= k < t.len() - 1
            && spells(w, *object, t.take(k)) && t[k] == TokenKindV::LeftBracket && t.last() == TokenKindV::RightBracket
            && spells(w, *index, t.subrange(k + 1, t.len() - 1)),
        ExprKind::Assign { name, value } => t.len() >= 2 && t[0] == TokenKindV::Identifier(name) && t[1] == TokenKindV::Equal
            && spells(w, *value, t.skip(2)),
        ExprKind::SetProperty { object, name, value } => exists|k: int| #[trigger] picked(k) && 0 <= k && k + 3 <= t.len()
            && spells(w, *object, t.take(k))
            && t.subrange(k, k + 3) == seq![TokenKindV::Dot, TokenKindV::Identifier(name), TokenKindV::Equal]
            && spells(w, *value, t.skip(k + 3)),
        ExprKind::IndexSet { object, index, value } => exists|k: int, j: int| #[trigger] picked((k, j)) && 0 <= k < j
            && j + 2 <= t.len() && spells(w, *object, t.take(k)) && t[k] == TokenKindV::LeftBracket
            && spells(w, *index, t.subrange(k + 1, j)) && t[j] == TokenKindV::RightBracket && t[j + 1] == TokenKindV::Equal
            && spells(w, *value, t.skip(j + 2)),
        ExprKind::NullCoalesce { left, right } => exists|k: int| #[trigger] picked(k) && 0 <= k < t.len()
            && spells(w, *left, t.take(k)) && t[k] == TokenKindV::QuestionQuestion && spells(w, *right, t.skip(k + 1)),
        ExprKind::NullCoalesceAssign { left, right } => exists|k: int| #[trigger] picked(k) && 0 <= k < t.len()
            && spells(w, *left, t.take(k)) && t[k] == TokenKindV::QuestionQuestionEqual && spells(w, *right, t.skip(k + 1)),
        ExprKind::Array(es) => t.len() >= 2 && t[0] == TokenKindV::LeftBracket && t.last() == TokenKindV::RightBracket && ({
            let m = t.subrange(1, t.len() - 1);
            spells_list(w, es@, m) || (es@.len() > 0 && m.len() >= 1 && m.last() == TokenKindV::Comma
                && spells_list(w, es@, m.drop_last()))
        }),
        ExprKind::ArrayRepeat { value, count } => exists|k: int| #[trigger] picked(k) && 1 <= k < t.len() - 1
            && t[0] == TokenKindV::LeftBracket && spells(w, *value, t.subrange(1, k)) && t[k] == TokenKindV::Semicolon
            && spells(w, *count, t.subrange(k + 1, t.len() - 1)) && t.last() == TokenKindV::RightBracket,
        ExprKind::ListComprehension { expr, item_name, iterator } => exists|k: int| #[trigger] picked(k) && 1 <= k
            && k + 3 < t.len() && t[0] == TokenKindV::LeftBracket && spells(w, *expr, t.subrange(1, k))
            && t.subrange(k, k + 3) == seq![TokenKindV::For, TokenKindV::Identifier(item_name), TokenKindV::Identifier(w.in_word)]
            && spells(w, *iterator, t.subrange(k + 3, t.len() - 1)) && t.last() == TokenKindV::RightBracket,
        ExprKind::Match { value, arms } => exists|k: int| #[trigger] picked(k) && 1 <= k < t.len() - 1
            && t[0] == TokenKindV::Match && spells(w, *value, t.subrange(1, k)) && t[k] == TokenKindV::LeftBrace
            && arms_spell(w, arms@, t.subrange(k + 1, t.len() - 1)) && t.last() == TokenKindV::RightBrace,
    }
}

/// Appending an expression after a comma to a spelled list of at least one
/// expression.
pub proof fn lemma_list_push(w: Words, es: Seq<Expr>, t: Seq<TokenKindV>, x: Expr, u: Seq<TokenKindV>)
    requires
        es.len() >= 1,
        spells_list(w, es, t),
        spells(w, x, u),
    ensures
        spells_list(w, es.push(x), t + seq![TokenKindV::Comma] + u),
{
    let all = t + seq![TokenKindV::Comma] + u;
    let k = t.len() as int;
    assert(es.push(x).drop_last() =~= es);
    assert(all.take(k) =~= t);
    assert(all.skip(k + 1) =~= u);
    assert(picked(k));
}

/// A type written after `lead` (`:` or `->`), or nothing.
pub open spec fn opt_type_tokens(lead: TokenKindV, ty: Option<TypeExpr>) -> Seq<TokenKindV> {
    match ty {
        Some(t) => seq![lead] + type_expr_tokens(t),
        None => Seq::empty(),
    }
}

/// One parameter `name: Type`.
pub open spec fn param_tokens(p: (Symbol, TypeExpr)) -> Seq<TokenKindV> {
    seq![TokenKindV::Identifier(p.0), TokenKindV::Colon] + type_expr_tokens(p.1)
}

/// Parameters separated by commas.
pub open spec fn params_tokens(ps: Seq<(Symbol, TypeExpr)>) -> Seq<TokenKindV>
    decreases ps.len(),
{
    if ps.len() == 0 {
        Seq::empty()
    } else if ps.len() == 1 {
        param_tokens(ps[0])
    } else {
        params_tokens(ps.drop_last()) + seq![TokenKindV::Comma] + param_tokens(ps.last())
    }
}

/// The type parameters `<A, B>`; none is written as nothing or as `<>`.
pub open spec fn type_params_spell(tps: Seq<Symbol>, t: Seq<TokenKindV>) -> bool {
    if tps.len() == 0 {
        t == Seq::<TokenKindV>::empty() || t == seq![TokenKindV::Less, TokenKindV::Greater]
    } else {
        t == seq![TokenKindV::Less] + names_tokens(tps) + seq![TokenKindV::Greater]
    }
}

/// A module path written as a string; the empty string is the symbol 0.
pub open spec fn path_spells(path: Symbol, t: Seq<TokenKindV>) -> bool {
    t == seq![TokenKindV::StringStart, TokenKindV::StringPart(path), TokenKindV::StringEnd]
        || (path == Symbol(0) && t == seq![TokenKindV::StringStart, TokenKindV::StringEnd])
}

/// `private`, `public` or nothing before a declaration.
pub open spec fn visibility_spells(is_private: bool, t: Seq<TokenKindV>) -> bool {
    if is_private {
        t == seq![TokenKindV::Private]
    } else {
        t == Seq::<TokenKindV>::empty() || t == seq![TokenKindV::Public]
    }
}

/// An optional expression `e` after `lead`, then an optional `;`.
pub open spec fn opt_value_spells(w: Words, lead: TokenKindV, e: Option<Expr>, t: Seq<TokenKindV>) -> bool {
    match e {
        None => t == Seq::<TokenKindV>::empty() || t == seq![TokenKindV::Semicolon],
        Some(v) => t.len() >= 1 && t[0] == lead && (spells(w, v, t.skip(1))
            || (t.last() == TokenKindV::Semicolon && spells(w, v, t.subrange(1, t.len() - 1)))),
    }
}

/// What follows `let` or `var`: the name, an optional type, an optional
/// initializer and an optional `;`.
pub open spec fn variable_spells(w: Words, name: Symbol, ann: Option<TypeExpr>, init: Option<Expr>, t: Seq<TokenKindV>) -> bool {
    let head = seq![TokenKindV::Identifier(name)] + opt_type_tokens(TokenKindV::Colon, ann);
    &&& t.len() >= head.len()
    &&& t.take(head.len() as int) == head
    &&& opt_value_spells(w, TokenKindV::Equal, init, t.skip(head.len() as int))
}

/// What follows the name of a method signature in an interface.
pub open spec fn signature_tokens(params: Seq<(Symbol, TypeExpr)>, ret: Option<TypeExpr>) -> Seq<TokenKindV> {
    seq![TokenKindV::LeftParen] + params_tokens(params) + seq![TokenKindV::RightParen]
        + opt_type_tokens(TokenKindV::Arrow, ret)
}

/// A method signature of an interface, after `func`: a function with no
/// type parameters and an empty body.
pub open spec fn method_sig_spells(k: StmtKind, t: Seq<TokenKindV>) -> bool {
    match k {
        StmtKind::Func { name, type_params, params, return_type, body, .. } => {
            &&& type_params@.len() == 0
            &&& body.kind matches StmtKind::Block(ss) && ss@.len() == 0
            &&& t == seq![TokenKindV::Identifier(name)] + signature_tokens(params@, return_type)
                + seq![TokenKindV::Semicolon]
        },
        _ => false,
    }
}

/// The privacy flag of a method.
pub open spec fn func_private(k: StmtKind) -> bool {
    match k {
        StmtKind::Func { is_private, .. } => is_private,
        _ => false,
    }
}

/// The method signatures of an interface body, each with its visibility
/// and `func`.
pub open spec fn interface_members_spell(ms: Seq<Stmt>, t: Seq<TokenKindV>) -> bool
    decreases ms.len(),
{
    if ms.len() == 0 {
        t.len() == 0
    } else {
        exists|k: int, j: int| #[trigger] picked((k, j)) && 0 <= k <= j < t.len()
            && interface_members_spell(ms.drop_last(), t.take(k))
            && visibility_spells(func_private(ms.last().kind), t.subrange(k, j))
            && t[j] == TokenKindV::Func
            && method_sig_spells(ms.last().kind, t.skip(j + 1))
    }
}

/// One field of an enum variant: `name: Type` or a bare type.
pub open spec fn enum_field_tokens(f: EnumField) -> Seq<TokenKindV> {
    match f.name {
        Some(n) => seq![TokenKindV::Identifier(n), TokenKindV::Colon] + type_expr_tokens(f.ty),
        None => type_expr_tokens(f.ty),
    }
}

/// Enum fields separated by commas.
pub open spec fn enum_fields_tokens(fs: Seq<EnumField>) -> Seq<TokenKindV>
    decreases fs.len(),
{
    if fs.len() == 0 {
        Seq::empty()
    } else if fs.len() == 1 {
        enum_field_tokens(fs[0])
    } else {
        enum_fields_tokens(fs.drop_last()) + seq![TokenKindV::Comma] + enum_field_tokens(fs.last())
    }
}

/// A variant: its name and, in parentheses, its fields.
pub open spec fn variant_tokens(v: EnumVariant) -> Seq<TokenKindV> {
    seq![TokenKindV::Identifier(v.name)] + match v.fields {
        Some(fs) => seq![TokenKindV::LeftParen] + enum_fields_tokens(fs@) + seq![TokenKindV::RightParen],
        None => Seq::empty(),
    }
}

/// The variants of an enum, each followed by an optional comma.
pub open spec fn variants_spell(vs: Seq<EnumVariant>, t: Seq<TokenKindV>) -> bool
    decreases vs.len(),
{
    if vs.len() == 0 {
        t.len() == 0
    } else {
        exists|k: int| #[trigger] picked(k) && 0 <= k <= t.len()
            && variants_spell(vs.drop_last(), t.take(k))
            && (t.skip(k) == variant_tokens(vs.last()) || t.skip(k) == variant_tokens(vs.last()) + seq![TokenKindV::Comma])
    }
}

/// Names after `lead` (`show` or `hide`); nothing when there are none.
pub open spec fn name_clause_tokens(lead: TokenKindV, ns: Seq<Symbol>) -> Seq<TokenKindV> {
    if ns.len() == 0 {
        Seq::empty()
    } else {
        seq![lead] + names_tokens(ns)
    }
}

/// What follows the path of an import: `as alias`, `show ...`, `hide ...`
/// and the closing `;`.
pub open spec fn import_tail_tokens(alias: Option<Symbol>, show: Seq<Symbol>, hide: Seq<Symbol>) -> Seq<TokenKindV> {
    (match alias {
        Some(a) => seq![TokenKindV::As, TokenKindV::Identifier(a)],
        None => Seq::empty(),
    }) + name_clause_tokens(TokenKindV::Show, show) + name_clause_tokens(TokenKindV::Hide, hide)
        + seq![TokenKindV::Semicolon]
}

/// The privacy flag of a declaration; false for what has none.
pub open spec fn stmt_private(k: StmtKind) -> bool {
    match k {
        StmtKind::Let { is_private, .. } => is_private,
        StmtKind::Var { is_private, .. } => is_private,
        StmtKind::Class { is_private, .. } => is_private,
        StmtKind::Interface { is_private, .. } => is_private,
        StmtKind::Enum { is_private, .. } => is_private,
        StmtKind::ForeignFunc { is_private, .. } => is_private,
        StmtKind::Func { is_private, .. } => is_private,
        _ => false,
    }
}

/// `t` spells the statement or declaration `st`, without its visibility.
pub open spec fn stmt_spells(w: Words, st: Stmt, t: Seq<TokenKindV>) -> bool
    decreases st, 1int, 0int,
{
    match st.kind {
        StmtKind::Block(ss) => t.len() >= 2 && t[0] == TokenKindV::LeftBrace && t.last() == TokenKindV::RightBrace
            && decls_spell(w, ss@, t.subrange(1, t.len() - 1)),
        StmtKind::Let { name, type_annotation, initializer, .. } => t.len() >= 1 && t[0] == TokenKindV::Let
            && variable_spells(w, name, type_annotation, initializer, t.skip(1)),
        StmtKind::Var { name, type_annotation, initializer, is_weak, .. } => if is_weak {
            t.len() >= 2 && t[0] == TokenKindV::Weak && t[1] == TokenKindV::Var
                && variable_spells(w, name, type_annotation, initializer, t.skip(2))
        } else {
            t.len() >= 1 && t[0] == TokenKindV::Var && variable_spells(w, name, type_annotation, initializer, t.skip(1))
        },
        StmtKind::Expression(e) => spells(w, e, t)
            || (t.len() >= 1 && t.last() == TokenKindV::Semicolon && spells(w, e, t.drop_last())),
        StmtKind::Return { value } => t.len() >= 2 && t[0] == TokenKindV::Return && t.last() == TokenKindV::Semicolon
            && match value {
                Some(e) => spells(w, e, t.subrange(1, t.len() - 1)),
                None => t.len() == 2,
            },
        StmtKind::If { condition, then_branch, else_branch } => exists|k: int, j: int| #[trigger] picked((k, j))
            && 1 <= k <= j <= t.len() && t[0] == TokenKindV::If && spells(w, condition, t.subrange(1, k))
            && then_branch.kind is Block && stmt_spells(w, *then_branch, t.subrange(k, j))
            && match else_branch {
                None => j == t.len(),
                Some(b) => j < t.len() && t[j] == TokenKindV::Else && (b.kind is If || b.kind is Block)
                    && stmt_spells(w, *b, t.skip(j + 1)),
            },
        StmtKind::While { condition, body } => exists|k: int| #[trigger] picked(k) && 1 <= k <= t.len()
            && t[0] == TokenKindV::While && spells(w, condition, t.subrange(1, k))
            && body.kind is Block && stmt_spells(w, *body, t.skip(k)),
        StmtKind::For { item_name, iterator, body } => exists|k: int| #[trigger] picked(k) && 3 <= k <= t.len()
            && t.take(3) == seq![TokenKindV::For, TokenKindV::Identifier(item_name), TokenKindV::Identifier(w.in_word)]
            && spells(w, iterator, t.subrange(3, k)) && body.kind is Block && stmt_spells(w, *body, t.skip(k)),
        StmtKind::Func { name, type_params, params, return_type, body, .. } => t.len() >= 2 && t[0] == TokenKindV::Func && ({
            let u = t.skip(1);
            ||| (exists|k: int, m: int| #[trigger] picked((k, m)) && 1 <= k <= m <= u.len()
                && u[0] == TokenKindV::Identifier(name) && type_params_spell(type_params@, u.subrange(1, k))
                && u.subrange(k, m) == signature_tokens(params@, return_type)
                && body.kind is Block && stmt_spells(w, *body, u.skip(m)))
            ||| (exists|m: int| #[trigger] picked(m) && 1 <= m <= u.len() && u[0] == TokenKindV::Init
                && name == w.init_word && type_params@.len() == 0
                && return_type == Some(TypeExpr::Named(w.void_word))
                && u.subrange(1, m) == signature_tokens(params@, None)
                && body.kind is Block && stmt_spells(w, *body, u.skip(m)))
        }),
        StmtKind::ForeignFunc { name, type_params, params, return_type, .. } => t.len() >= 3 && t[0] == TokenKindV::Foreign
            && exists|k: int| #[trigger] picked(k) && 3 <= k <= t.len()
                && t.subrange(1, 3) == seq![TokenKindV::Func, TokenKindV::Identifier(name)]
                && type_params_spell(type_params@, t.subrange(3, k))
                && t.skip(k) == signature_tokens(params@, return_type) + seq![TokenKindV::Semicolon],
        StmtKind::Interface { name, methods, .. } => t.len() >= 4 && t[0] == TokenKindV::Interface
            && t.subrange(1, 3) == seq![TokenKindV::Identifier(name), TokenKindV::LeftBrace]
            && t.last() == TokenKindV::RightBrace && interface_members_spell(methods@, t.subrange(3, t.len() - 1)),
        StmtKind::Enum { name, type_params, variants, .. } => exists|k: int| #[trigger] picked(k) && 2 <= k < t.len() - 1
            && t[0] == TokenKindV::Enum && t[1] == TokenKindV::Identifier(name)
            && type_params_spell(type_params@, t.subrange(2, k)) && t[k] == TokenKindV::LeftBrace
            && t.last() == TokenKindV::RightBrace && variants_spell(variants@, t.subrange(k + 1, t.len() - 1)),
        StmtKind::Class { name, type_params, implements, methods, fields, .. } => exists|k: int, m: int|
            #[trigger] picked((k, m)) && 2 <= k <= m < t.len() - 1
            && t[0] == TokenKindV::Class && t[1] == TokenKindV::Identifier(name)
            && type_params_spell(type_params@, t.subrange(2, k))
            && t.subrange(k, m) == name_clause_tokens(TokenKindV::Implements, implements@)
            && t[m] == TokenKindV::LeftBrace && t.last() == TokenKindV::RightBrace
            && class_members_spell(w, st, fields@.len(), methods@.len(), t.subrange(m + 1, t.len() - 1)),
        StmtKind::Import { path, alias, show, hide } => exists|k: int| #[trigger] picked(k) && 1 <= k <= t.len()
            && t[0] == TokenKindV::Import && path_spells(path, t.subrange(1, k))
            && t.skip(k) == import_tail_tokens(alias, show@, hide@),
        StmtKind::Export { path } => t.len() >= 2 && t[0] == TokenKindV::Export && t.last() == TokenKindV::Semicolon
            && path_spells(path, t.subrange(1, t.len() - 1)),
    }
}

/// `t` spells the declaration `st` with its visibility: `private` where
/// it is private, else `public` or nothing.
pub open spec fn decl_spells(w: Words, st: Stmt, t: Seq<TokenKindV>) -> bool
    decreases st, 2int, 0int,
{
    exists|v: int| #[trigger] picked(v) && 0 <= v <= 1 && v <= t.len()
        && visibility_spells(stmt_private(st.kind), t.take(v)) && stmt_spells(w, st, t.skip(v))
}

/// `t` spells the declarations `ss` one after another.
pub open spec fn decls_spell(w: Words, ss: Seq<Stmt>, t: Seq<TokenKindV>) -> bool
    decreases ss, 0int, 0int,
{
    if ss.len() == 0 {
        t.len() == 0
    } else {
        exists|k: int| #[trigger] picked(k) && 0 <= k <= t.len()
            && decls_spell(w, ss.drop_last(), t.take(k)) && decl_spells(w, ss.last(), t.skip(k))
    }
}

/// One step of a class body: the last of the first `nf` fields or of the
/// first `nm` methods of the class `c` is spelled from `k` on, and what
/// comes before it spells the rest.
pub open spec fn class_member_step(w: Words, c: Stmt, nf: nat, nm: nat, t: Seq<TokenKindV>, k: int) -> bool
    decreases c, 0int, 2 * (nf + nm),
{
    match c.kind {
        StmtKind::Class { fields, methods, .. } => if nf > fields@.len() || nm > methods@.len() || k < 0 || k > t.len() {
            false
        } else {
            let u = t.skip(k);
            ||| (nf > 0 && class_members_spell(w, c, (nf - 1) as nat, nm, t.take(k))
                && (fields@[nf - 1].kind is Let || fields@[nf - 1].kind is Var) && decl_spells(w, fields@[nf - 1], u))
            ||| (nm > 0 && class_members_spell(w, c, nf, (nm - 1) as nat, t.take(k))
                && methods@[nm - 1].kind is Func && decl_spells(w, methods@[nm - 1], u))
        },
        _ => false,
    }
}

/// `t` spells the body of the class `c` up to its first `nf` fields and
/// `nm` methods, in the order in which they are written: each member with
/// its visibility.
pub open spec fn class_members_spell(w: Words, c: Stmt, nf: nat, nm: nat, t: Seq<TokenKindV>) -> bool
    decreases c, 0int, 2 * (nf + nm) + 1,
{
    match c.kind {
        StmtKind::Class { fields, methods, .. } => if nf > fields@.len() || nm > methods@.len() {
            false
        } else if nf == 0 && nm == 0 {
            t.len() == 0
        } else {
            exists|k: int| #[trigger] picked(k) && 0 <= k <= t.len() && class_member_step(w, c, nf, nm, t, k)
        },
        _ => false,
    }
}

/// The spelling of a class body up to `nf` fields and `nm` methods depends
/// on those members alone.
pub proof fn lemma_class_members_prefix(w: Words, c1: Stmt, c2: Stmt, nf: nat, nm: nat)
    requires
        c1.kind is Class,
        c2.kind is Class,
        nf <= c1.kind->Class_fields@.len(),
        nf <= c2.kind->Class_fields@.len(),
        nm <= c1.kind->Class_methods@.len(),
        nm <= c2.kind->Class_methods@.len(),
        c1.kind->Class_fields@.take(nf as int) == c2.kind->Class_fields@.take(nf as int),
        c1.kind->Class_methods@.take(nm as int) == c2.kind->Class_methods@.take(nm as int),
    ensures
        forall|t: Seq<TokenKindV>| #[trigger] class_members_spell(w, c1, nf, nm, t) == class_members_spell(w, c2, nf, nm, t),
    decreases nf + nm,
{
    let f1 = c1.kind->Class_fields@;
    let f2 = c2.kind->Class_fields@;
    let m1 = c1.kind->Class_methods@;
    let m2 = c2.kind->Class_methods@;
    if nf > 0 {
        assert(f1[nf - 1] == f1.take(nf as int)[nf - 1]);
        assert(f2[nf - 1] == f2.take(nf as int)[nf - 1]);
        assert(f1.take(nf - 1) =~= f1.take(nf as int).take(nf - 1));
        assert(f2.take(nf - 1) =~= f2.take(nf as int).take(nf - 1));
        lemma_class_members_prefix(w, c1, c2, (nf - 1) as nat, nm);
    }
    if nm > 0 {
        assert(m1[nm - 1] == m1.take(nm as int)[nm - 1]);
        assert(m2[nm - 1] == m2.take(nm as int)[nm - 1]);
        assert(m1.take(nm - 1) =~= m1.take(nm as int).take(nm - 1));
        assert(m2.take(nm - 1) =~= m2.take(nm as int).take(nm - 1));
        lemma_class_members_prefix(w, c1, c2, nf, (nm - 1) as nat);
    }
    assert forall|t: Seq<TokenKindV>, k: int| #[trigger] class_member_step(w, c1, nf, nm, t, k)
        == class_member_step(w, c2, nf, nm, t, k) by {
        if nf > 0 {
            assert(class_members_spell(w, c1, (nf - 1) as nat, nm, t.take(k)) == class_members_spell(w, c2, (nf - 1) as nat, nm, t.take(k)));
        }
        if nm > 0 {
            assert(class_members_spell(w, c1, nf, (nm - 1) as nat, t.take(k)) == class_members_spell(w, c2, nf, (nm - 1) as nat, t.take(k)));
        }
    }
    assert forall|t: Seq<TokenKindV>| #[trigger] class_members_spell(w, c1, nf, nm, t) == class_members_spell(w, c2, nf, nm, t) by {
        if nf != 0 || nm != 0 {
            if class_members_spell(w, c1, nf, nm, t) {
                let k = choose|k: int| #[trigger] picked(k) && 0 <= k <= t.len() && class_member_step(w, c1, nf, nm, t, k);
                assert(class_member_step(w, c2, nf, nm, t, k));
            }
            if class_members_spell(w, c2, nf, nm, t) {
                let k = choose|k: int| #[trigger] picked(k) && 0 <= k <= t.len() && class_member_step(w, c2, nf, nm, t, k);
                assert(class_member_step(w, c1, nf, nm, t, k));
            }
        }
    }
}

} // verus!
