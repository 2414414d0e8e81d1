use vstd::prelude::*;
use crate::ast::{
    BinaryOp, EnumField, EnumVariant, Expr, ExprKind, MatchArm, Pattern, Span, Stmt, StmtKind, TypeExpr,
    UnaryOp, join_spans,
};
use crate::diagnostics::{Diagnostic, DiagnosticCode, DiagnosticV};
use crate::interner::Symbol;
use crate::session::CompilerSession;
use crate::token::{Token, TokenKind, TokenKindV};
use crate::spelling::{Words, class_member_step, lemma_class_members_prefix, stmt_spells, decl_spells, decls_spell, class_members_spell, stmt_private, enum_field_tokens, enum_fields_tokens, variant_tokens, variants_spell, visibility_spells, interface_members_spell, import_tail_tokens, name_clause_tokens, type_params_spell, signature_tokens, func_private, method_sig_spells, opt_type_tokens, variable_spells, path_spells, params_tokens, param_tokens, arms_spell, binary_token, bindings_spell, dotted_tokens, lemma_list_push, pattern_spells, pieces_spell,
    spells, spells_list, string_spells};
use crate::check_expr::picked;

verus! {

/// A recursive-descent parser from tokens to statements.  Errors are
/// collected; after an error the parser skips to the next likely start of a
/// statement and goes on.
pub struct Parser {
    pub tokens: Vec<Token>,
    pub current: usize,
    pub errors: Vec<Diagnostic>,
    pub session: CompilerSession,
    pub init_sym: Symbol,
    pub void_sym: Symbol,
    pub wildcard_sym: Symbol,
    pub empty_sym: Symbol,
    pub in_sym: Symbol,
}

/// The kinds of the tokens.
pub open spec fn token_kinds(tokens: Seq<Token>) -> Seq<TokenKindV> {
    tokens.map_values(|t: Token| t.kind@)
}

/// Position `i` is past the last token or at the end-of-file token.
pub open spec fn at_end(kinds: Seq<TokenKindV>, i: int) -> bool {
    i >= kinds.len() || kinds[i] == TokenKindV::Eof
}

/// The token at position `i` has kind `k` (and is not the end).
pub open spec fn checks(kinds: Seq<TokenKindV>, i: int, k: TokenKindV) -> bool {
    !at_end(kinds, i) && kinds[i] == k
}

/// The keywords at which error recovery resumes.
pub open spec fn is_sync_keyword(k: TokenKindV) -> bool {
    k == TokenKindV::Class || k == TokenKindV::Func || k == TokenKindV::Var || k == TokenKindV::For
        || k == TokenKindV::If || k == TokenKindV::While || k == TokenKindV::Return || k == TokenKindV::Let
}

/// Where error recovery stops, scanning from position `i`: at the end, after
/// a semicolon, or before a keyword that starts a statement.
pub open spec fn sync_stop(kinds: Seq<TokenKindV>, i: int) -> int
    decreases kinds.len() - i,
{
    if at_end(kinds, i) || i < 1 || i > kinds.len() {
        i
    } else if kinds[i - 1] == TokenKindV::Semicolon || is_sync_keyword(kinds[i]) {
        i
    } else {
        sync_stop(kinds, i + 1)
    }
}

proof fn lemma_sync_stop_at_least(kinds: Seq<TokenKindV>, i: int)
    ensures
        sync_stop(kinds, i) >= i,
    decreases kinds.len() - i,
{
    if !(at_end(kinds, i) || i < 1 || i > kinds.len()) && !(kinds[i - 1] == TokenKindV::Semicolon || is_sync_keyword(kinds[i])) {
        lemma_sync_stop_at_least(kinds, i + 1);
    }
}

/// Scanning from position `i` with `depth` unclosed `<`: the angle
/// brackets close before any `(`, `{`, `;` or `=`, and the `>` that closes
/// them is directly followed by `(`.
pub open spec fn generic_call_from(kinds: Seq<TokenKindV>, i: int, depth: int) -> bool
    decreases kinds.len() - i,
{
    if i < 0 || i >= kinds.len() {
        false
    } else if kinds[i] == TokenKindV::Less {
        generic_call_from(kinds, i + 1, depth + 1)
    } else if kinds[i] == TokenKindV::Greater {
        if depth - 1 == 0 {
            i + 1 < kinds.len() && kinds[i + 1] == TokenKindV::LeftParen
        } else {
            generic_call_from(kinds, i + 1, depth - 1)
        }
    } else if kinds[i] == TokenKindV::LeftParen || kinds[i] == TokenKindV::LeftBrace
        || kinds[i] == TokenKindV::Semicolon || kinds[i] == TokenKindV::Equal {
        false
    } else {
        generic_call_from(kinds, i + 1, depth)
    }
}

/// The position after one step forward from `i`.
pub open spec fn step(kinds: Seq<TokenKindV>, i: int) -> int {
    if at_end(kinds, i) { i } else { i + 1 }
}

/// The tokens that spell a type expression.
pub open spec fn type_expr_tokens(t: TypeExpr) -> Seq<TokenKindV>
    decreases t,
{
    match t {
        TypeExpr::Named(n) => seq![TokenKindV::Identifier(n)],
        TypeExpr::GenericInstance(n, args) => seq![TokenKindV::Identifier(n), TokenKindV::Less]
            + type_exprs_tokens(args@) + seq![TokenKindV::Greater],
        TypeExpr::Optional(inner) => type_expr_tokens(*inner) + seq![TokenKindV::Question],
        TypeExpr::Array(inner) => seq![TokenKindV::LeftBracket] + type_expr_tokens(*inner) + seq![TokenKindV::RightBracket],
    }
}

proof fn lemma_type_expr_tokens_nonempty(t: TypeExpr)
    ensures
        type_expr_tokens(t).len() >= 1,
{
    match t {
        TypeExpr::Named(_) => {},
        TypeExpr::GenericInstance(_, _) => {},
        TypeExpr::Optional(_) => {},
        TypeExpr::Array(_) => {},
    }
}

/// The tokens that spell a comma-separated list of type expressions.
pub open spec fn type_exprs_tokens(ts: Seq<TypeExpr>) -> Seq<TokenKindV>
    decreases ts,
{
    if ts.len() == 0 {
        Seq::empty()
    } else if ts.len() == 1 {
        type_expr_tokens(ts[0])
    } else {
        type_exprs_tokens(ts.drop_last()) + seq![TokenKindV::Comma] + type_expr_tokens(ts.last())
    }
}

/// The tokens that spell a comma-separated list of names.
pub open spec fn names_tokens(ns: Seq<Symbol>) -> Seq<TokenKindV>
    decreases ns.len(),
{
    if ns.len() == 0 {
        Seq::empty()
    } else if ns.len() == 1 {
        seq![TokenKindV::Identifier(ns[0])]
    } else {
        names_tokens(ns.drop_last()) + seq![TokenKindV::Comma, TokenKindV::Identifier(ns.last())]
    }
}

/// The expression that the single token `k` stands for, if it is a
/// literal, a name or `self`.
pub open spec fn atom_kind(k: TokenKindV) -> Option<ExprKind> {
    match k {
        TokenKindV::Integer(v) => Some(ExprKind::Integer(v)),
        TokenKindV::Float(v) => Some(ExprKind::Float(v)),
        TokenKindV::Identifier(x) => Some(ExprKind::Variable(x)),
        TokenKindV::True => Some(ExprKind::Boolean(true)),
        TokenKindV::False => Some(ExprKind::Boolean(false)),
        TokenKindV::Null => Some(ExprKind::Null),
        TokenKindV::SelfKeyword => Some(ExprKind::SelfRef),
        _ => None,
    }
}

/// The tokens that continue an expression after an operand: a call, type
/// arguments, a member access, `!`, an index, an assignment or a binary
/// operator.
pub open spec fn continues_expression(k: TokenKindV) -> bool {
    ||| k == TokenKindV::LeftParen || k == TokenKindV::Less || k == TokenKindV::Dot || k == TokenKindV::QuestionDot
    ||| k == TokenKindV::Bang || k == TokenKindV::LeftBracket || k == TokenKindV::Equal
    ||| k == TokenKindV::QuestionQuestionEqual || k == TokenKindV::QuestionQuestion || k == TokenKindV::DotDot
    ||| k == TokenKindV::EqualEqual || k == TokenKindV::BangEqual || k == TokenKindV::Greater
    ||| k == TokenKindV::GreaterEqual || k == TokenKindV::LessEqual || k == TokenKindV::Plus
    ||| k == TokenKindV::Minus || k == TokenKindV::Star || k == TokenKindV::Slash
}

/// At `i` stands a literal, a name or `self` that nothing after it
/// continues: the whole expression is that one token.
pub open spec fn lone_atom(kinds: Seq<TokenKindV>, i: int) -> bool {
    &&& 0 <= i < kinds.len()
    &&& atom_kind(kinds[i]) is Some
    &&& (i + 1 >= kinds.len() || !continues_expression(kinds[i + 1]))
}

/// From `j` on, just after an argument of a call: further single-token
/// arguments, each after a comma, then `)`: the position after the `)`.
pub open spec fn atom_args_rest(kinds: Seq<TokenKindV>, j: int) -> Option<int>
    decreases kinds.len() - j,
{
    if !(0 <= j < kinds.len()) {
        None
    } else if kinds[j] == TokenKindV::RightParen {
        Some(j + 1)
    } else if kinds[j] == TokenKindV::Comma && lone_atom(kinds, j + 1) {
        atom_args_rest(kinds, j + 2)
    } else {
        None
    }
}

/// From `i` on, just after the `(` of a call: `)` or single-token
/// arguments separated by commas and closed by `)`: the position after the
/// `)`.
pub open spec fn atom_args(kinds: Seq<TokenKindV>, i: int) -> Option<int> {
    if 0 <= i < kinds.len() && kinds[i] == TokenKindV::RightParen {
        Some(i + 1)
    } else if lone_atom(kinds, i) {
        atom_args_rest(kinds, i + 1)
    } else {
        None
    }
}

/// From `j` on, just after an operand: calls with single-token arguments,
/// `.name`, `?.name`, `!` and indexes by a single token, until a token
/// that continues none of them: the position of that token.  A `<` there
/// is left open (it may begin type arguments).
pub open spec fn postfix_end(kinds: Seq<TokenKindV>, j: int) -> Option<int>
    decreases kinds.len() - j, 1int,
{
    if !(0 <= j < kinds.len()) {
        None
    } else if kinds[j] == TokenKindV::LeftParen {
        match atom_args(kinds, j + 1) {
            Some(k) => if j < k <= kinds.len() { postfix_end(kinds, k) } else { None },
            None => None,
        }
    } else if kinds[j] == TokenKindV::Less {
        None
    } else if kinds[j] == TokenKindV::Dot || kinds[j] == TokenKindV::QuestionDot {
        if j + 1 < kinds.len() && kinds[j + 1] is Identifier { postfix_end(kinds, j + 2) } else { None }
    } else if kinds[j] == TokenKindV::Bang {
        postfix_end(kinds, j + 1)
    } else if kinds[j] == TokenKindV::LeftBracket {
        if lone_atom(kinds, j + 1) && j + 2 < kinds.len() && kinds[j + 2] == TokenKindV::RightBracket {
            postfix_end(kinds, j + 3)
        } else {
            None
        }
    } else {
        Some(j)
    }
}

/// From `i` on: a literal, a name, `self` or an array literal of such
/// (see `atom_array`), followed by a chain of postfix operations as
/// `postfix_end` describes: where the chain ends.
pub open spec fn atom_chain(kinds: Seq<TokenKindV>, i: int) -> Option<int> {
    if 0 <= i < kinds.len() && atom_kind(kinds[i]) is Some {
        postfix_end(kinds, i + 1)
    } else if 0 <= i < kinds.len() && kinds[i] == TokenKindV::LeftBracket {
        match atom_array(kinds, i + 1) {
            Some((ks, e)) => postfix_end(kinds, e + 1),
            None => None,
        }
    } else {
        None
    }
}

/// How tightly the binary operator `k` binds: `??` loosest, then `..`,
/// `==` `!=`, the comparisons, `+` `-`, and `*` `/` tightest; 0 for a
/// token that is no binary operator.
pub open spec fn binary_prec(k: TokenKindV) -> int {
    if k == TokenKindV::QuestionQuestion {
        1
    } else if k == TokenKindV::DotDot {
        2
    } else if k == TokenKindV::EqualEqual || k == TokenKindV::BangEqual {
        3
    } else if k == TokenKindV::Greater || k == TokenKindV::GreaterEqual || k == TokenKindV::Less
        || k == TokenKindV::LessEqual {
        4
    } else if k == TokenKindV::Plus || k == TokenKindV::Minus {
        5
    } else if k == TokenKindV::Star || k == TokenKindV::Slash {
        6
    } else {
        0
    }
}

/// From `i` on: operands as `atom_chain` describes joined by binary
/// operators, after which no token continues the expression: where the
/// expression ends.
pub open spec fn simple_expr_end(kinds: Seq<TokenKindV>, i: int) -> Option<int>
    decreases kinds.len() - i,
{
    match atom_chain(kinds, i) {
        Some(k) => if i < k < kinds.len() && binary_prec(kinds[k]) > 0 {
            simple_expr_end(kinds, k + 1)
        } else if k >= kinds.len() || !continues_expression(kinds[k]) {
            Some(k)
        } else {
            None
        },
        None => None,
    }
}

/// From the operand at `i` on, where a parser of the operators that bind at
/// least as tightly as precedence `p` stops: at the first operator that
/// binds more loosely, or at the end of the expression.
pub open spec fn prec_stop(kinds: Seq<TokenKindV>, i: int, p: int) -> int
    decreases kinds.len() - i,
{
    match atom_chain(kinds, i) {
        Some(k) => if i < k < kinds.len() && binary_prec(kinds[k]) >= p && binary_prec(kinds[k]) > 0 {
            prec_stop(kinds, k + 1, p)
        } else {
            k
        },
        None => i,
    }
}

/// Where such a parser stops when it stands at `s`, after an operand:
/// past `s` when an operator of precedence `p` or tighter stands there.
pub open spec fn prec_stop_from(kinds: Seq<TokenKindV>, s: int, p: int) -> int {
    if 0 <= s < kinds.len() && binary_prec(kinds[s]) >= p && binary_prec(kinds[s]) > 0 {
        prec_stop(kinds, s + 1, p)
    } else {
        s
    }
}

/// Stopping at precedence `p` passes through where a parser of precedence
/// `p + 1` stops; there stands at most an operator of precedence `p`,
/// followed by the rest of the expression.
proof fn lemma_prec_stop(kinds: Seq<TokenKindV>, q: int, p: int)
    requires
        simple_expr_end(kinds, q) is Some,
        p >= 1,
    ensures
        prec_stop(kinds, q, p) == prec_stop_from(kinds, prec_stop(kinds, q, p + 1), p),
        ({
            let s = prec_stop(kinds, q, p + 1);
            &&& (0 <= s < kinds.len() && binary_prec(kinds[s]) > 0) ==> (binary_prec(kinds[s]) <= p
                && simple_expr_end(kinds, s + 1) == simple_expr_end(kinds, q))
            &&& !(0 <= s < kinds.len() && binary_prec(kinds[s]) > 0) ==> simple_expr_end(kinds, q) == Some(s)
        }),
    decreases kinds.len() - q,
{
    let k = atom_chain(kinds, q)->Some_0;
    if q < k < kinds.len() && binary_prec(kinds[k]) >= p + 1 {
        lemma_prec_stop(kinds, k + 1, p);
    }
}

/// At precedence 1 the parser stops where the expression ends.
proof fn lemma_prec_stop_whole(kinds: Seq<TokenKindV>, q: int)
    requires
        simple_expr_end(kinds, q) is Some,
    ensures
        simple_expr_end(kinds, q) == Some(prec_stop(kinds, q, 1)),
        prec_stop(kinds, q, 1) >= kinds.len() || !continues_expression(kinds[prec_stop(kinds, q, 1)]),
    decreases kinds.len() - q,
{
    let k = atom_chain(kinds, q)->Some_0;
    if q < k < kinds.len() && binary_prec(kinds[k]) > 0 {
        lemma_prec_stop_whole(kinds, k + 1);
    }
}

/// From `i` on, just after `let` or `var`: a name, then `;` or `=`, an
/// expression as `simple_expr_end` describes and `;`: where the
/// declaration ends.
pub open spec fn simple_var_end(kinds: Seq<TokenKindV>, i: int) -> Option<int> {
    if 0 <= i && i + 1 < kinds.len() && kinds[i] is Identifier {
        if kinds[i + 1] == TokenKindV::Semicolon {
            Some(i + 2)
        } else if kinds[i + 1] == TokenKindV::Equal {
            match simple_expr_end(kinds, i + 2) {
                Some(k) => if 0 <= k < kinds.len() && kinds[k] == TokenKindV::Semicolon { Some(k + 1) } else { None },
                None => None,
            }
        } else {
            None
        }
    } else {
        None
    }
}

/// From `i` on: a plain enum declaration (see `plain_enum`) or a `let` or
/// `var` declaration (see `simple_var_end`), each optionally after
/// `private` or `public`, or an expression as `simple_expr_end` describes
/// followed by `;`: where the item ends.
pub open spec fn flat_item_end(kinds: Seq<TokenKindV>, i: int) -> Option<int> {
    let v = if 0 <= i < kinds.len() && (kinds[i] == TokenKindV::Private || kinds[i] == TokenKindV::Public) {
        i + 1
    } else {
        i
    };
    if 0 <= v < kinds.len() && kinds[v] == TokenKindV::Enum {
        match plain_enum(kinds, v + 1) {
            Some((n, ns, e)) => Some(e + 1),
            None => None,
        }
    } else if 0 <= v < kinds.len() && (kinds[v] == TokenKindV::Let || kinds[v] == TokenKindV::Var) {
        simple_var_end(kinds, v + 1)
    } else if v == i {
        match simple_expr_end(kinds, i) {
            Some(k) => if 0 <= k < kinds.len() && kinds[k] == TokenKindV::Semicolon { Some(k + 1) } else { None },
            None => None,
        }
    } else {
        None
    }
}

/// At `i` stands a type that is a bare name: no `<` and no `?` follow it.
pub open spec fn plain_type_at(kinds: Seq<TokenKindV>, i: int) -> bool {
    &&& 0 <= i < kinds.len()
    &&& kinds[i] is Identifier
    &&& !checks(kinds, i + 1, TokenKindV::Less)
    &&& !checks(kinds, i + 1, TokenKindV::Question)
}

/// From `i` on, at a parameter: `name: Type` with a bare type name, then
/// `,` and further parameters, or `)`: the position after the `)`.
pub open spec fn params_from(kinds: Seq<TokenKindV>, i: int) -> Option<int>
    decreases kinds.len() - i,
{
    if 0 <= i && i + 3 < kinds.len() && kinds[i] is Identifier && kinds[i + 1] == TokenKindV::Colon
        && plain_type_at(kinds, i + 2) {
        if kinds[i + 3] == TokenKindV::Comma {
            params_from(kinds, i + 4)
        } else if kinds[i + 3] == TokenKindV::RightParen {
            Some(i + 4)
        } else {
            None
        }
    } else {
        None
    }
}

/// From `i` on, just after `(`: `)` or parameters as `params_from`
/// describes: the position after the `)`.
pub open spec fn simple_params(kinds: Seq<TokenKindV>, i: int) -> Option<int> {
    if 0 <= i < kinds.len() && kinds[i] == TokenKindV::RightParen {
        Some(i + 1)
    } else {
        params_from(kinds, i)
    }
}

/// From `i` on, just after `return`: `;`, or an expression as
/// `simple_expr_end` describes and `;`: where the statement ends.
pub open spec fn simple_return_end(kinds: Seq<TokenKindV>, i: int) -> Option<int> {
    if 0 <= i < kinds.len() && kinds[i] == TokenKindV::Semicolon {
        Some(i + 1)
    } else {
        match simple_expr_end(kinds, i) {
            Some(k) => if 0 <= k < kinds.len() && kinds[k] == TokenKindV::Semicolon { Some(k + 1) } else { None },
            None => None,
        }
    }
}

/// From `i` on: a `return` statement as `simple_return_end` describes, or
/// an item as `flat_item_end` describes: where it ends.
pub open spec fn stmt_item_end(kinds: Seq<TokenKindV>, i: int) -> Option<int> {
    if 0 <= i < kinds.len() && kinds[i] == TokenKindV::Return {
        simple_return_end(kinds, i + 1)
    } else {
        flat_item_end(kinds, i)
    }
}

/// From `i` on, inside a block: items as `stmt_item_end` describes, then
/// `}`: the position of the `}`.
pub open spec fn block_items(kinds: Seq<TokenKindV>, i: int) -> Option<int>
    decreases kinds.len() - i,
{
    if !(0 <= i < kinds.len()) {
        None
    } else if kinds[i] == TokenKindV::RightBrace {
        Some(i)
    } else {
        match stmt_item_end(kinds, i) {
            Some(j) => if i < j <= kinds.len() { block_items(kinds, j) } else { None },
            None => None,
        }
    }
}

/// From `i` on, just after `func`: a name, `(`, parameters as
/// `simple_params` describes, optionally `->` and a bare type name, then a
/// body `{ ... }` whose items `block_items` describes: where the
/// declaration ends.
pub open spec fn simple_func_end(kinds: Seq<TokenKindV>, i: int) -> Option<int> {
    if 0 <= i && i + 1 < kinds.len() && kinds[i] is Identifier && kinds[i + 1] == TokenKindV::LeftParen {
        match simple_params(kinds, i + 2) {
            Some(j) => {
                let m = if 0 <= j < kinds.len() && kinds[j] == TokenKindV::Arrow && plain_type_at(kinds, j + 1) {
                    j + 2
                } else {
                    j
                };
                if 0 <= m < kinds.len() && kinds[m] == TokenKindV::LeftBrace {
                    match block_items(kinds, m + 1) {
                        Some(e) => Some(e + 1),
                        None => None,
                    }
                } else {
                    None
                }
            },
            None => None,
        }
    } else {
        None
    }
}

/// From `i` on, just after `class`: a name and an empty body `{}`.
pub open spec fn empty_class_at(kinds: Seq<TokenKindV>, i: int) -> bool {
    &&& 0 <= i && i + 2 < kinds.len()
    &&& kinds[i] is Identifier
    &&& kinds[i + 1] == TokenKindV::LeftBrace
    &&& kinds[i + 2] == TokenKindV::RightBrace
}

/// From `i` on, just after `if`: a condition as `simple_expr_end`
/// describes, a block whose items `block_items` describes, and optionally
/// `else` and another such block: where the statement ends.
pub open spec fn simple_if_end(kinds: Seq<TokenKindV>, i: int) -> Option<int> {
    match simple_expr_end(kinds, i) {
        Some(k) => if 0 <= k < kinds.len() && kinds[k] == TokenKindV::LeftBrace {
            match block_items(kinds, k + 1) {
                Some(e1) => if e1 + 1 < kinds.len() && kinds[e1 + 1] == TokenKindV::Else {
                    if e1 + 2 < kinds.len() && kinds[e1 + 2] == TokenKindV::LeftBrace {
                        match block_items(kinds, e1 + 3) {
                            Some(e2) => Some(e2 + 1),
                            None => None,
                        }
                    } else {
                        None
                    }
                } else {
                    Some(e1 + 1)
                },
                None => None,
            }
        } else {
            None
        },
        None => None,
    }
}

/// From `i` on: one item of a simple program: a function declaration as
/// `simple_func_end` describes or a class with an empty body, each
/// optionally after `private` or `public`; an `if` statement as
/// `simple_if_end` describes; or an item as `stmt_item_end` describes:
/// where the item ends.
pub open spec fn simple_item_end(kinds: Seq<TokenKindV>, i: int) -> Option<int> {
    let v = if 0 <= i < kinds.len() && (kinds[i] == TokenKindV::Private || kinds[i] == TokenKindV::Public) {
        i + 1
    } else {
        i
    };
    if 0 <= v < kinds.len() && kinds[v] == TokenKindV::Func {
        simple_func_end(kinds, v + 1)
    } else if 0 <= v < kinds.len() && kinds[v] == TokenKindV::Class {
        if empty_class_at(kinds, v + 1) { Some(v + 4) } else { None }
    } else if 0 <= i < kinds.len() && kinds[i] == TokenKindV::If {
        simple_if_end(kinds, i + 1)
    } else {
        stmt_item_end(kinds, i)
    }
}

/// From `i` on: simple items (see `simple_item_end`) up to the end of the
/// tokens: how many there are.
pub open spec fn simple_program(kinds: Seq<TokenKindV>, i: int) -> Option<nat>
    decreases kinds.len() - i,
{
    if at_end(kinds, i) {
        Some(0)
    } else {
        match simple_item_end(kinds, i) {
            Some(j) => if i < j <= kinds.len() {
                match simple_program(kinds, j) {
                    Some(n) => Some(n + 1),
                    None => None,
                }
            } else {
                None
            },
            None => None,
        }
    }
}

/// How loosely a binary operator binds: `==` `!=` loosest, then the
/// comparisons, `+` `-`, and `*` `/` tightest.
pub open spec fn binary_level(op: BinaryOp) -> int {
    match op {
        BinaryOp::Equal | BinaryOp::NotEqual => 3,
        BinaryOp::Less | BinaryOp::LessEqual | BinaryOp::Greater | BinaryOp::GreaterEqual => 4,
        BinaryOp::Add | BinaryOp::Subtract => 5,
        BinaryOp::Multiply | BinaryOp::Divide => 6,
    }
}

/// The precedence of the operator at the root of `e`: 1 for `??`, 2 for
/// `..`, that of a binary operator, and 7 for anything that binds tighter
/// than every infix operator.
pub open spec fn expr_level(e: Expr) -> int {
    match e.kind {
        ExprKind::NullCoalesce { .. } => 1,
        ExprKind::Range { .. } => 2,
        ExprKind::Binary(_, op, _) => binary_level(op),
        _ => 7,
    }
}

/// The operators of precedence `p` along the left spine of `e` associate
/// to the left: the right operand of each binds more tightly than `p`.
pub open spec fn left_assoc_at(e: Expr, p: int) -> bool
    decreases e,
{
    match e.kind {
        ExprKind::NullCoalesce { left, right } => p == 1 ==> (expr_level(*right) > 1 && left_assoc_at(*left, 1)),
        ExprKind::Range { start, end } => p == 2 ==> (expr_level(*end) > 2 && left_assoc_at(*start, 2)),
        ExprKind::Binary(l, op, r) => binary_level(op) == p ==> (expr_level(*r) > p && left_assoc_at(*l, p)),
        _ => true,
    }
}

/// The kinds of a list of expressions.
pub open spec fn expr_kinds(es: Seq<Expr>) -> Seq<ExprKind> {
    es.map_values(|x: Expr| x.kind)
}

/// From `i` on, just after an element of an array literal: further
/// single-token elements, each after a comma, an optional trailing comma,
/// then `]`: the elements and the position of the `]`.
pub open spec fn atoms_tail(kinds: Seq<TokenKindV>, i: int) -> Option<(Seq<ExprKind>, int)>
    decreases kinds.len() - i,
{
    if !(0 <= i < kinds.len()) {
        None
    } else if kinds[i] == TokenKindV::RightBracket {
        Some((Seq::empty(), i))
    } else if kinds[i] == TokenKindV::Comma && i + 1 < kinds.len() && kinds[i + 1] == TokenKindV::RightBracket {
        Some((Seq::empty(), i + 1))
    } else if kinds[i] == TokenKindV::Comma && lone_atom(kinds, i + 1) {
        match atoms_tail(kinds, i + 2) {
            Some((ks, e)) => Some((seq![atom_kind(kinds[i + 1])->Some_0] + ks, e)),
            None => None,
        }
    } else {
        None
    }
}

/// From `i` on, just after `[`: an array literal whose elements are single
/// tokens (literals, names, `self`), as `[]`, `[a, b]` or `[a, b,]`: the
/// elements and the position of the `]`.
pub open spec fn atom_array(kinds: Seq<TokenKindV>, i: int) -> Option<(Seq<ExprKind>, int)> {
    if 0 <= i < kinds.len() && kinds[i] == TokenKindV::RightBracket {
        Some((Seq::empty(), i))
    } else if lone_atom(kinds, i) && i + 1 < kinds.len()
        && (kinds[i + 1] == TokenKindV::Comma || kinds[i + 1] == TokenKindV::RightBracket) {
        match atoms_tail(kinds, i + 1) {
            Some((ks, e)) => Some((seq![atom_kind(kinds[i])->Some_0] + ks, e)),
            None => None,
        }
    } else {
        None
    }
}

/// The variant of an enum that has only a name.
pub open spec fn plain_variant(n: Symbol) -> EnumVariant {
    EnumVariant { name: n, fields: None }
}

/// From `i` on, names each followed by an optional comma and none by `(`,
/// then `}`: the names and the position of the `}`.
pub open spec fn plain_variants_from(kinds: Seq<TokenKindV>, i: int) -> Option<(Seq<Symbol>, int)>
    decreases kinds.len() - i,
{
    if !(0 <= i < kinds.len()) {
        None
    } else if kinds[i] == TokenKindV::RightBrace {
        Some((Seq::empty(), i))
    } else if kinds[i] is Identifier && !(i + 1 < kinds.len() && kinds[i + 1] == TokenKindV::LeftParen) {
        let j = if i + 1 < kinds.len() && kinds[i + 1] == TokenKindV::Comma { i + 2 } else { i + 1 };
        match plain_variants_from(kinds, j) {
            Some((ns, e)) => Some((seq![kinds[i]->Identifier_0] + ns, e)),
            None => None,
        }
    } else {
        None
    }
}

/// From `i` on (just after `enum`), a name, `{`, and plain variants up to
/// `}`: the name, the variant names and the position of the `}`.
pub open spec fn plain_enum(kinds: Seq<TokenKindV>, i: int) -> Option<(Symbol, Seq<Symbol>, int)> {
    if 0 <= i && i + 1 < kinds.len() && kinds[i] is Identifier && kinds[i + 1] == TokenKindV::LeftBrace {
        match plain_variants_from(kinds, i + 2) {
            Some((ns, e)) => Some((kinds[i]->Identifier_0, ns, e)),
            None => None,
        }
    } else {
        None
    }
}

/// A class declaration with the given parts.
pub open spec fn class_stmt(name: Symbol, tps: Vec<Symbol>, imps: Vec<Symbol>, methods: Vec<Stmt>, fields: Vec<Stmt>,
    is_private: bool, span: Span) -> Stmt {
    Stmt { kind: StmtKind::Class { name, type_params: tps, implements: imps, methods, fields, is_private }, span }
}

/// Names separated by commas and followed by one more comma; nothing for
/// no names.
pub open spec fn names_then_comma(ns: Seq<Symbol>) -> Seq<TokenKindV> {
    if ns.len() == 0 {
        Seq::empty()
    } else {
        names_tokens(ns) + seq![TokenKindV::Comma]
    }
}

impl Parser {
    pub open spec fn kinds(&self) -> Seq<TokenKindV> {
        token_kinds(self.tokens@)
    }

    /// The names with a special meaning, as the spelling relations use them.
    pub open spec fn words(&self) -> Words {
        Words {
            empty: self.empty_sym,
            in_word: self.in_sym,
            wildcard: self.wildcard_sym,
            init_word: self.init_sym,
            void_word: self.void_sym,
        }
    }

    /// No error was reported since `old`, and tokens remain.
    pub open spec fn clean_since(&self, old: Parser) -> bool {
        self.errors@.len() == old.errors@.len() && self.current < self.tokens@.len()
    }

    /// Since `old` an error was reported or the tokens ran out.
    pub open spec fn failed_since(&self, old: Parser) -> bool {
        self.errors@.len() > old.errors@.len() || self.current == self.tokens@.len()
    }

    /// The tokens consumed since `old` split at the operator token `tok` that
    /// `mid` had just consumed: `left` before it, `right` after it.
    proof fn lemma_infix(&self, old: Parser, mid: Parser, left: Expr, tok: TokenKindV, right: Expr)
        requires
            mid.follows(old),
            self.follows(mid),
            old.current < mid.current,
            mid.kinds()[mid.current - 1] == tok,
            mid.clean_since(old) ==> spells(old.words(), left, old.kinds().subrange(old.current as int, mid.current - 1)),
            self.clean_since(mid) ==> spells(mid.words(), right, self.consumed_since(mid)),
        ensures
            self.clean_since(old) ==> ({
                let t = self.consumed_since(old);
                let k = mid.current - 1 - old.current;
                &&& picked(k)
                &&& 0 <= k < t.len()
                &&& spells(old.words(), left, t.take(k))
                &&& t[k] == tok
                &&& spells(old.words(), right, t.skip(k + 1))
            }),
    {
        if self.clean_since(old) {
            let t = self.consumed_since(old);
            let k = mid.current - 1 - old.current;
            assert(t.take(k) =~= old.kinds().subrange(old.current as int, mid.current - 1));
            assert(t.skip(k + 1) =~= self.consumed_since(mid));
        }
    }

    /// While a string literal is read from `c0` on: the parts read so far
    /// spell the pieces, and once the literal is closed, its end follows.
    spec fn string_progress(&self, old: Parser, c0: int, closed: bool, pieces: Seq<Expr>) -> bool {
        self.clean_since(old) ==> (if closed {
            &&& self.current >= c0 + 1
            &&& self.kinds()[self.current - 1] == TokenKindV::StringEnd
            &&& pieces_spell(old.words(), pieces, self.kinds().subrange(c0, self.current - 1))
        } else {
            pieces_spell(old.words(), pieces, self.kinds().subrange(c0, self.current as int))
        })
    }

    /// A declaration spelled after its visibility is spelled with it.
    proof fn lemma_decl_spelled(&self, old: Parser, hv: Parser, is_private: bool, r: Option<Stmt>)
        requires
            hv.follows(old),
            self.follows(hv),
            hv.errors == old.errors,
            visibility_spells(is_private, hv.consumed_since(old)),
            r matches Some(st) ==> (self.clean_since(old) ==> stmt_spells(old.words(), st,
                self.kinds().subrange(hv.current as int, self.current as int)) && stmt_private(st.kind) == is_private),
        ensures
            r matches Some(st) ==> (self.clean_since(old) ==> decl_spells(old.words(), st, self.consumed_since(old))),
    {
        if r is Some && self.clean_since(old) {
            let t = self.consumed_since(old);
            let v = hv.current - old.current;
            assert(t.take(v) =~= hv.consumed_since(old));
            assert(t.skip(v) =~= self.kinds().subrange(hv.current as int, self.current as int));
            assert(picked(v));
        }
    }

    /// After one more member of a class was read from `h` on and added
    /// to `c_old` (giving `c_new`), the body read so far still spells it.
    proof fn lemma_member_pushed(&self, old: Parser, cb: int, h: Parser, c_old: Stmt, c_new: Stmt, is_field: bool, st: Stmt)
        requires
            c_old.kind is Class,
            c_new.kind is Class,
            is_field ==> c_new.kind->Class_fields@ == c_old.kind->Class_fields@.push(st)
                && c_new.kind->Class_methods@ == c_old.kind->Class_methods@,
            !is_field ==> c_new.kind->Class_methods@ == c_old.kind->Class_methods@.push(st)
                && c_new.kind->Class_fields@ == c_old.kind->Class_fields@,
            is_field ==> (st.kind is Let || st.kind is Var),
            !is_field ==> st.kind is Func,
            h.follows(old),
            self.follows(h),
            0 <= cb <= h.current,
            h.clean_since(old) ==> class_members_spell(old.words(), c_old, c_old.kind->Class_fields@.len(),
                c_old.kind->Class_methods@.len(), h.kinds().subrange(cb, h.current as int)),
            self.clean_since(old) ==> decl_spells(old.words(), st, self.consumed_since(h)),
        ensures
            self.clean_since(old) ==> class_members_spell(old.words(), c_new, c_new.kind->Class_fields@.len(),
                c_new.kind->Class_methods@.len(), self.kinds().subrange(cb, self.current as int)),
    {
        let w = old.words();
        let nf = c_old.kind->Class_fields@.len();
        let nm = c_old.kind->Class_methods@.len();
        if self.clean_since(old) {
            assert(h.clean_since(old));
            if is_field {
                assert(c_old.kind->Class_fields@.take(nf as int) =~= c_new.kind->Class_fields@.take(nf as int));
                assert(c_old.kind->Class_methods@.take(nm as int) =~= c_new.kind->Class_methods@.take(nm as int));
            } else {
                assert(c_old.kind->Class_fields@.take(nf as int) =~= c_new.kind->Class_fields@.take(nf as int));
                assert(c_old.kind->Class_methods@.take(nm as int) =~= c_new.kind->Class_methods@.take(nm as int));
            }
            lemma_class_members_prefix(w, c_old, c_new, nf, nm);
            let t = self.kinds().subrange(cb, self.current as int);
            let k = h.current - cb;
            assert(t.take(k) =~= h.kinds().subrange(cb, h.current as int));
            assert(t.skip(k) =~= self.consumed_since(h));
            assert(class_members_spell(w, c_new, nf, nm, t.take(k)));
            if is_field {
                assert(class_member_step(w, c_new, (nf + 1) as nat, nm, t, k));
            } else {
                assert(class_member_step(w, c_new, nf, (nm + 1) as nat, t, k));
            }
            assert(picked(k));
        }
    }

    /// The position is within the tokens.
    pub open spec fn wf(&self) -> bool {
        self.current <= self.tokens@.len()
    }

    /// The tokens from the old position to the current one.
    pub open spec fn consumed_since(&self, old: Parser) -> Seq<TokenKindV> {
        self.kinds().subrange(old.current as int, self.current as int)
    }

    /// What every parsing step keeps: the tokens, the session and the
    /// special symbols are unchanged, the position only moves forward, and
    /// errors are only added.
    pub open spec fn follows(&self, old: Parser) -> bool {
        &&& self.tokens == old.tokens
        &&& self.session == old.session
        &&& self.init_sym == old.init_sym
        &&& self.void_sym == old.void_sym
        &&& self.wildcard_sym == old.wildcard_sym
        &&& self.empty_sym == old.empty_sym
        &&& self.in_sym == old.in_sym
        &&& old.current <= self.current <= self.tokens@.len()
        &&& old.errors@.len() <= self.errors@.len()
        &&& forall|k: int| 0 <= k < old.errors@.len() ==> self.errors@[k] == #[trigger] old.errors@[k]
    }

    /// The error that reporting `message` at the current token adds, if
    /// there is a current token.
    pub open spec fn reported(&self, old: Parser, message: Seq<char>) -> bool {
        if (old.current as int) < old.tokens@.len() {
            self.errors@.map_values(|d: Diagnostic| d@) == old.errors@.map_values(|d: Diagnostic| d@).push(
                DiagnosticV { code: DiagnosticCode::UnexpectedToken, message, span: old.tokens@[old.current as int].span })
        } else {
            self.errors@.map_values(|d: Diagnostic| d@) == old.errors@.map_values(|d: Diagnostic| d@)
        }
    }

    /// A parser over `tokens`, starting at the first token.  The names that
    /// the parser produces itself are interned here.
    pub fn new(tokens: Vec<Token>, session: CompilerSession) -> (p: Self)
        requires
            session.interner@.len() + 5 < u32::MAX,
        ensures
            p.tokens@ == tokens@,
            p.current == 0,
            p.errors@.len() == 0,
            p.session.types@ == session.types@,
            p.session.interner@.len() >= session.interner@.len(),
            forall|k: int| 0 <= k < session.interner@.len() ==> p.session.interner@[k] == #[trigger] session.interner@[k],
            (p.init_sym.0 as int) < p.session.interner@.len(),
            p.session.interner@[p.init_sym.0 as int] == "init"@,
            (p.void_sym.0 as int) < p.session.interner@.len(),
            p.session.interner@[p.void_sym.0 as int] == "Void"@,
            (p.wildcard_sym.0 as int) < p.session.interner@.len(),
            p.session.interner@[p.wildcard_sym.0 as int] == "_"@,
            (p.empty_sym.0 as int) < p.session.interner@.len(),
            p.session.interner@[p.empty_sym.0 as int] == ""@,
            (p.in_sym.0 as int) < p.session.interner@.len(),
            p.session.interner@[p.in_sym.0 as int] == "in"@,
            crate::interner::no_duplicates(p.session.interner@),
    {
        let mut session = session;
        let init_sym = session.interner.intern("init");
        let void_sym = session.interner.intern("Void");
        let wildcard_sym = session.interner.intern("_");
        let empty_sym = session.interner.intern("");
        let in_sym = session.interner.intern("in");
        Parser { tokens, current: 0, errors: Vec::new(), session, init_sym, void_sym, wildcard_sym, empty_sym, in_sym }
    }

    pub fn is_at_end(&self) -> (r: bool)
        ensures
            r == at_end(self.kinds(), self.current as int),
    {
        if self.current < self.tokens.len() {
            match self.tokens[self.current].kind {
                TokenKind::Eof => true,
                _ => false,
            }
        } else {
            true
        }
    }

    pub fn check(&self, kind: &TokenKind) -> (r: bool)
        ensures
            r == checks(self.kinds(), self.current as int, kind@),
    {
        if self.is_at_end() {
            return false;
        }
        self.tokens[self.current].kind.same_as(kind)
    }

    /// Moves past the current token unless at the end.
    pub fn advance(&mut self)
        requires
            old(self).wf(),
        ensures
            final(self).follows(*old(self)),
            final(self).errors == old(self).errors,
            final(self).current == step(old(self).kinds(), old(self).current as int),
    {
        if self.current < self.tokens.len() && !self.is_at_end() {
            self.current = self.current + 1;
        }
    }

    /// Moves past the current token if it has one of the given kinds.
    pub fn match_token(&mut self, types: &[TokenKind]) -> (r: bool)
        requires
            old(self).wf(),
        ensures
            final(self).follows(*old(self)),
            final(self).errors == old(self).errors,
            r == exists|k: int| 0 <= k < types@.len() && checks(old(self).kinds(), old(self).current as int, #[trigger] types@[k]@),
            final(self).current == if r { old(self).current + 1 } else { old(self).current as int },
    {
        let mut i: usize = 0;
        while i < types.len()
            invariant
                i <= types@.len(),
                self == old(self),
                self.wf(),
                forall|k: int| 0 <= k < i ==> !checks(self.kinds(), self.current as int, #[trigger] types@[k]@),
            decreases types@.len() - i,
        {
            if self.check(&types[i]) {
                self.advance();
                return true;
            }
            i = i + 1;
        }
        false
    }

    /// The token at the current position, if there is one.
    pub fn peek(&self) -> (t: Option<&Token>)
        ensures
            (self.current as int) < self.tokens@.len() ==> t == Some(&self.tokens@[self.current as int]),
            (self.current as int) >= self.tokens@.len() ==> t is None,
    {
        if self.current < self.tokens.len() {
            Some(&self.tokens[self.current])
        } else {
            None
        }
    }

    /// The token just consumed.
    pub fn previous(&self) -> (t: &Token)
        requires
            1 <= self.current <= self.tokens@.len(),
        ensures
            *t == self.tokens@[self.current - 1],
    {
        &self.tokens[self.current - 1]
    }

    /// The span of the token just consumed.
    fn previous_span(&self) -> (s: Span)
        requires
            1 <= self.current <= self.tokens@.len(),
        ensures
            s == self.tokens@[self.current - 1].span,
    {
        self.previous().span
    }

    /// The name at the current position, if the current token is an
    /// identifier.
    fn peek_identifier(&self) -> (r: Option<Symbol>)
        ensures
            r == (if (self.current as int) < self.tokens@.len() && self.kinds()[self.current as int] is Identifier {
                Some(self.kinds()[self.current as int]->Identifier_0)
            } else {
                None::<Symbol>
            }),
    {
        if self.current < self.tokens.len() {
            match &self.tokens[self.current].kind {
                TokenKind::Identifier(n) => Some(*n),
                _ => None,
            }
        } else {
            None
        }
    }

    /// Reports `message` at the current token, if there is one.
    pub fn error_at_current(&mut self, message: &str)
        requires
            old(self).wf(),
        ensures
            final(self).follows(*old(self)),
            final(self).current == old(self).current,
            final(self).reported(*old(self), message@),
            final(self).failed_since(*old(self)),
    {
        if self.current < self.tokens.len() {
            let span = self.tokens[self.current].span;
            let diag = Diagnostic::error(DiagnosticCode::UnexpectedToken, String::from_str(message), span);
            self.errors.push(diag);
            assert(self.errors@.map_values(|d: Diagnostic| d@) =~= old(self).errors@.map_values(|d: Diagnostic| d@).push(
                DiagnosticV { code: DiagnosticCode::UnexpectedToken, message: message@, span }));
            assert(self.errors@.len() == old(self).errors@.len() + 1);
        } else {
            assert(self.errors@.map_values(|d: Diagnostic| d@) =~= old(self).errors@.map_values(|d: Diagnostic| d@));
        }
    }

    /// Moves past the current token if it has kind `kind`.
    fn match_one(&mut self, kind: TokenKind) -> (r: bool)
        requires
            old(self).wf(),
        ensures
            final(self).follows(*old(self)),
            final(self).errors == old(self).errors,
            r == checks(old(self).kinds(), old(self).current as int, kind@),
            final(self).current == if r { old(self).current + 1 } else { old(self).current as int },
    {
        if self.check(&kind) {
            self.advance();
            true
        } else {
            false
        }
    }

    /// Parses `<T, U>` type parameter names; none when there is no `<`.
    fn parse_type_params(&mut self) -> (r: Option<Vec<Symbol>>)
        requires
            old(self).wf(),
        ensures
            final(self).follows(*old(self)),
            r is None ==> final(self).failed_since(*old(self)),
            !checks(old(self).kinds(), old(self).current as int, TokenKindV::Less) ==> (r matches Some(tps)
                && tps@.len() == 0 && final(self).current == old(self).current),
            r matches Some(tps) ==> final(self).errors == old(self).errors && (
                if tps@.len() == 0 {
                    final(self).consumed_since(*old(self)) == Seq::<TokenKindV>::empty()
                        || final(self).consumed_since(*old(self)) == seq![TokenKindV::Less, TokenKindV::Greater]
                } else {
                    final(self).consumed_since(*old(self)) == seq![TokenKindV::Less] + names_tokens(tps@) + seq![TokenKindV::Greater]
                }),
    {
        let ghost c0 = self.current as int;
        let mut type_params: Vec<Symbol> = Vec::new();
        if self.match_one(TokenKind::Less) {
            if !self.check(&TokenKind::Greater) {
                match self.peek_identifier() {
                    Some(t) => {
                        self.advance();
                        type_params.push(t);
                    },
                    None => {
                        self.error_at_current("Expected generic parameter name.");
                        return None;
                    },
                }
                assert(self.kinds().subrange(c0 + 1, self.current as int) =~= names_tokens(type_params@));
                while self.match_one(TokenKind::Comma)
                    invariant
                        self.follows(*old(self)),
                        self.errors == old(self).errors,
                        c0 == old(self).current,
                        c0 + 1 < self.current,
                        self.kinds()[c0] == TokenKindV::Less,
                        type_params@.len() > 0,
                        self.kinds().subrange(c0 + 1, self.current as int) == names_tokens(type_params@),
                    decreases self.tokens@.len() - self.current,
                {
                    let ghost before = type_params@;
                    let ghost cm = self.current - 1;
                    match self.peek_identifier() {
                        Some(t) => {
                            self.advance();
                            type_params.push(t);
                        },
                        None => {
                            self.error_at_current("Expected generic parameter name.");
                            return None;
                        },
                    }
                    proof {
                        assert(type_params@.drop_last() =~= before);
                        assert(self.kinds().subrange(c0 + 1, self.current as int) =~= self.kinds().subrange(c0 + 1, cm)
                            + seq![TokenKindV::Comma, TokenKindV::Identifier(type_params@.last())]);
                    }
                }
            }
            if !self.match_one(TokenKind::Greater) {
                self.error_at_current("Expected '>' after generic parameters.");
                return None;
            }
            proof {
                if type_params@.len() == 0 {
                    assert(self.consumed_since(*old(self)) =~= seq![TokenKindV::Less, TokenKindV::Greater]);
                } else {
                    assert(self.consumed_since(*old(self)) =~= seq![TokenKindV::Less]
                        + self.kinds().subrange(c0 + 1, self.current - 1) + seq![TokenKindV::Greater]);
                }
            }
        } else {
            assert(self.consumed_since(*old(self)) =~= Seq::<TokenKindV>::empty());
        }
        Some(type_params)
    }

    /// Parses a type: a name, a generic instance `G<A, B>`, an array `[T]`,
    /// each optionally followed by `?`.
    fn parse_type_expr(&mut self) -> (r: Option<TypeExpr>)
        requires
            old(self).wf(),
        ensures
            final(self).follows(*old(self)),
            r is None ==> final(self).failed_since(*old(self)),
            r matches Some(t) ==> final(self).errors == old(self).errors
                && final(self).consumed_since(*old(self)) == type_expr_tokens(t),
            plain_type_at(old(self).kinds(), old(self).current as int) ==> (
                r == Some(TypeExpr::Named(old(self).kinds()[old(self).current as int]->Identifier_0))
                && final(self).errors == old(self).errors && final(self).current == old(self).current + 1),
        decreases old(self).tokens@.len() - old(self).current, 10int,
    {
        let ghost c0 = self.current as int;
        if self.match_one(TokenKind::LeftBracket) {
            let ghost c1 = self.current as int;
            let inner = self.parse_type_expr()?;
            let ghost c2 = self.current as int;
            if !self.match_one(TokenKind::RightBracket) {
                self.error_at_current("Expected ']' after array element type.");
                return None;
            }
            let ghost c3 = self.current as int;
            let mut ty = TypeExpr::Array(Box::new(inner));
            assert(self.kinds().subrange(c0, c3) =~= seq![TokenKindV::LeftBracket] + self.kinds().subrange(c1, c2)
                + seq![TokenKindV::RightBracket]);
            assert(self.kinds().subrange(c0, c3) == type_expr_tokens(ty));
            if self.match_one(TokenKind::Question) {
                assert(self.kinds().subrange(c0, self.current as int) =~= self.kinds().subrange(c0, c3)
                    + seq![TokenKindV::Question]);
                ty = TypeExpr::Optional(Box::new(ty));
            }
            return Some(ty);
        }
        match self.peek_identifier() {
            Some(base_type) => {
                self.advance();
                let ghost c1 = self.current as int;
                if self.match_one(TokenKind::Less) {
                    let mut type_args: Vec<TypeExpr> = Vec::new();
                    if !self.check(&TokenKind::Greater) {
                        let first = self.parse_type_expr()?;
                        proof { lemma_type_expr_tokens_nonempty(first); }
                        type_args.push(first);
                        assert(type_args@ =~= seq![first]);
                        while self.match_one(TokenKind::Comma)
                            invariant
                                self.follows(*old(self)),
                                self.errors == old(self).errors,
                                c0 == old(self).current,
                                c1 == c0 + 1,
                                c1 + 1 < self.current,
                                self.kinds()[c0] == TokenKindV::Identifier(base_type),
                                self.kinds()[c1] == TokenKindV::Less,
                                type_args@.len() > 0,
                                self.kinds().subrange(c1 + 1, self.current as int) == type_exprs_tokens(type_args@),
                            decreases self.tokens@.len() - self.current,
                        {
                            let ghost before = type_args@;
                            let ghost cm = self.current as int;
                            let ty = self.parse_type_expr()?;
                            type_args.push(ty);
                            proof {
                                assert(type_args@.drop_last() =~= before);
                                assert(self.kinds().subrange(c1 + 1, self.current as int) =~= self.kinds().subrange(c1 + 1, cm - 1)
                                    + seq![TokenKindV::Comma] + self.kinds().subrange(cm, self.current as int));
                            }
                        }
                    }
                    let ghost c2 = self.current as int;
                    if !self.match_one(TokenKind::Greater) {
                        self.error_at_current("Expected '>' after generic type arguments.");
                        return None;
                    }
                    let ghost c3 = self.current as int;
                    proof {
                        if type_args@.len() == 0 {
                            assert(type_exprs_tokens(type_args@) =~= Seq::<TokenKindV>::empty());
                        }
                        assert(self.kinds().subrange(c0, c3) =~= seq![TokenKindV::Identifier(base_type), TokenKindV::Less]
                            + self.kinds().subrange(c1 + 1, c2) + seq![TokenKindV::Greater]);
                    }
                    let mut ty = TypeExpr::GenericInstance(base_type, type_args);
                    assert(self.kinds().subrange(c0, c3) == type_expr_tokens(ty));
                    if self.match_one(TokenKind::Question) {
                        assert(self.kinds().subrange(c0, self.current as int) =~= self.kinds().subrange(c0, c3)
                            + seq![TokenKindV::Question]);
                        ty = TypeExpr::Optional(Box::new(ty));
                    }
                    return Some(ty);
                }
                let mut ty = TypeExpr::Named(base_type);
                assert(self.kinds().subrange(c0, c1) =~= seq![TokenKindV::Identifier(base_type)]);
                assert(self.kinds().subrange(c0, c1) == type_expr_tokens(ty));
                if self.match_one(TokenKind::Question) {
                    assert(self.kinds().subrange(c0, self.current as int) =~= self.kinds().subrange(c0, c1)
                        + seq![TokenKindV::Question]);
                    ty = TypeExpr::Optional(Box::new(ty));
                }
                Some(ty)
            },
            None => {
                self.error_at_current("Expected type name.");
                None
            },
        }
    }

    /// expression := assignment
    fn expression(&mut self) -> (r: Option<Expr>)
        requires
            old(self).wf(),
        ensures
            final(self).follows(*old(self)),
            r is None ==> final(self).failed_since(*old(self)),
            r matches Some(e) ==> (final(self).clean_since(*old(self)) ==> spells(old(self).words(), e, final(self).consumed_since(*old(self)))),
            r is Some ==> final(self).current > old(self).current,
            lone_atom(old(self).kinds(), old(self).current as int) ==> (r matches Some(e)
                && Some(e.kind) == atom_kind(old(self).kinds()[old(self).current as int])
                && final(self).errors == old(self).errors && final(self).current == old(self).current + 1),
            simple_expr_end(old(self).kinds(), old(self).current as int) matches Some(k) ==> (r is Some
                && final(self).errors == old(self).errors && final(self).current == k),
        decreases old(self).tokens@.len() - old(self).current, 25int,
    {
        self.assignment()
    }
    /// Assignments `x = v`, `o.f = v`, `a[i] = v` and `x ??= v`, right-associative.
    #[verifier::rlimit(60)]
    #[verifier::spinoff_prover]
    fn assignment(&mut self) -> (r: Option<Expr>)
        requires
            old(self).wf(),
        ensures
            final(self).follows(*old(self)),
            r is None ==> final(self).failed_since(*old(self)),
            r matches Some(e) ==> (final(self).clean_since(*old(self)) ==> spells(old(self).words(), e, final(self).consumed_since(*old(self)))),
            r is Some ==> final(self).current > old(self).current,
            lone_atom(old(self).kinds(), old(self).current as int) ==> (r matches Some(e)
                && Some(e.kind) == atom_kind(old(self).kinds()[old(self).current as int])
                && final(self).errors == old(self).errors && final(self).current == old(self).current + 1),
            simple_expr_end(old(self).kinds(), old(self).current as int) matches Some(k) ==> (r is Some
                && final(self).errors == old(self).errors && final(self).current == k),
        decreases old(self).tokens@.len() - old(self).current, 24int,
    {
        let expr = self.null_coalesce()?;
        proof {
            if simple_expr_end(old(self).kinds(), old(self).current as int) is Some {
                lemma_prec_stop_whole(old(self).kinds(), old(self).current as int);
            }
        }
        let ghost left = expr;
        if self.match_token(&[TokenKind::Equal, TokenKind::QuestionQuestionEqual]) {
            let ghost ck = self.current - 1;
            let ghost mid = *self;
            let is_coalesce = match self.previous().kind {
                TokenKind::QuestionQuestionEqual => true,
                _ => false,
            };
            let ghost tok = if is_coalesce { TokenKindV::QuestionQuestionEqual } else { TokenKindV::Equal };
            assert(self.kinds()[ck as int] == tok);
            let value = self.assignment()?;
            proof { self.lemma_infix(*old(self), mid, left, tok, value); }
            let ghost t = self.consumed_since(*old(self));
            let ghost k = ck - old(self).current;
            if is_coalesce {
                let is_target = match &expr.kind {
                    ExprKind::Variable(_) => true,
                    ExprKind::Get { .. } => true,
                    ExprKind::IndexGet { .. } => true,
                    _ => false,
                };
                if is_target {
                    let span = join_spans(expr.span, value.span);
                    return Some(Expr::new(ExprKind::NullCoalesceAssign { left: Box::new(expr), right: Box::new(value) }, span));
                } else {
                    self.error_at_current("Invalid assignment target for ??=.");
                }
            } else {
                let span = join_spans(expr.span, value.span);
                match expr.kind {
                    ExprKind::Variable(name) => {
                        proof {
                            if self.clean_since(*old(self)) {
                                assert(t.take(k).len() == 1);
                                assert(t[0] == t.take(k)[0]);
                                assert(t.skip(2) =~= t.skip(k + 1));
                            }
                        }
                        return Some(Expr::new(ExprKind::Assign { name, value: Box::new(value) }, span));
                    },
                    ExprKind::Get { object, name } => {
                        proof {
                            if self.clean_since(*old(self)) {
                                let a = t.take(k);
                                assert(spells(old(self).words(), left, a));
                                assert(a.len() >= 2);
                                assert(spells(old(self).words(), *object, a.take(a.len() - 2)));
                                assert(t.take(k - 2) =~= a.take(a.len() - 2));
                                assert(a.skip(a.len() - 2) == seq![TokenKindV::Dot, TokenKindV::Identifier(name)]);
                                assert(t[k] == TokenKindV::Equal);
                                assert(t.subrange(k - 2, k + 1) =~= seq![TokenKindV::Dot, TokenKindV::Identifier(name), TokenKindV::Equal]) by {
                                    assert(t[k - 2] == a.skip(a.len() - 2)[0]);
                                    assert(t[k - 1] == a.skip(a.len() - 2)[1]);
                                }
                                assert(t.skip(k - 2 + 3) =~= t.skip(k + 1));
                                assert(picked(k - 2));
                            }
                        }
                        return Some(Expr::new(ExprKind::SetProperty { object, name, value: Box::new(value) }, span));
                    },
                    ExprKind::IndexGet { object, index } => {
                        proof {
                            if self.clean_since(*old(self)) {
                                let a = t.take(k);
                                let k1 = choose|k1: int| #[trigger] picked(k1) && 0 <= k1 < a.len() - 1
                                    && spells(old(self).words(), *object, a.take(k1)) && a[k1] == TokenKindV::LeftBracket
                                    && a.last() == TokenKindV::RightBracket
                                    && spells(old(self).words(), *index, a.subrange(k1 + 1, a.len() - 1));
                                assert(t.take(k1) =~= a.take(k1));
                                assert(t.subrange(k1 + 1, k - 1) =~= a.subrange(k1 + 1, a.len() - 1));
                                assert(t[k - 1] == a.last());
                                assert(picked((k1, k - 1)));
                            }
                        }
                        return Some(Expr::new(ExprKind::IndexSet { object, index, value: Box::new(value) }, span));
                    },
                    _ => {
                        self.error_at_current("Invalid assignment target.");
                    },
                }
            }
        }
        Some(expr)
    }
    /// Left-associative `a ?? b`.
    fn null_coalesce(&mut self) -> (r: Option<Expr>)
        requires
            old(self).wf(),
        ensures
            final(self).follows(*old(self)),
            r is None ==> final(self).failed_since(*old(self)),
            r matches Some(e) ==> (final(self).clean_since(*old(self)) ==> spells(old(self).words(), e, final(self).consumed_since(*old(self)))),
            r is Some ==> final(self).current > old(self).current,
            lone_atom(old(self).kinds(), old(self).current as int) ==> (r matches Some(e)
                && Some(e.kind) == atom_kind(old(self).kinds()[old(self).current as int])
                && final(self).errors == old(self).errors && final(self).current == old(self).current + 1),
            simple_expr_end(old(self).kinds(), old(self).current as int) is Some ==> (r is Some
                && final(self).errors == old(self).errors && final(self).current == prec_stop(old(self).kinds(), old(self).current as int, 1)),
            r matches Some(e) ==> expr_level(e) >= 1 && left_assoc_at(e, 1),
        decreases old(self).tokens@.len() - old(self).current, 23int,
    {
        let mut expr = self.range()?;
        proof {
            if simple_expr_end(old(self).kinds(), old(self).current as int) is Some {
                lemma_prec_stop(old(self).kinds(), old(self).current as int, 1);
            }
        }
        while self.match_one(TokenKind::QuestionQuestion)
            invariant
                self.follows(*old(self)),
                self.current > old(self).current,
                lone_atom(old(self).kinds(), old(self).current as int) ==> (Some(expr.kind) == atom_kind(old(self).kinds()[old(self).current as int])
                    && self.errors == old(self).errors && self.current == old(self).current + 1),
                self.clean_since(*old(self)) ==> spells(old(self).words(), expr, self.consumed_since(*old(self))),
                expr_level(expr) >= 1 && left_assoc_at(expr, 1),
                simple_expr_end(old(self).kinds(), old(self).current as int) is Some ==> {
                    let kk = old(self).kinds();
                    &&& self.errors == old(self).errors
                    &&& prec_stop(kk, old(self).current as int, 1) == prec_stop_from(kk, self.current as int, 1)
                    &&& (0 <= self.current < kk.len() && binary_prec(kk[self.current as int]) > 0) ==> (
                        binary_prec(kk[self.current as int]) <= 1 && simple_expr_end(kk, self.current + 1) is Some)
                },
            decreases self.tokens@.len() - self.current,
        {
            let ghost left = expr;
            let ghost mid = *self;
            let ghost cop = mid.current - 1;
            proof {
                if simple_expr_end(old(self).kinds(), old(self).current as int) is Some {
                    assert(binary_prec(old(self).kinds()[cop]) == 1);
                }
            }
            let right = self.range()?;
            proof {
                if simple_expr_end(old(self).kinds(), old(self).current as int) is Some {
                    lemma_prec_stop(old(self).kinds(), cop + 1, 1);
                }
            }
            let span = join_spans(expr.span, right.span);
            expr = Expr::new(ExprKind::NullCoalesce { left: Box::new(expr), right: Box::new(right) }, span);
            proof { self.lemma_infix(*old(self), mid, left, TokenKindV::QuestionQuestion, right); }
        }
        proof {
            if simple_expr_end(old(self).kinds(), old(self).current as int) is Some {
                assert(!(0 <= self.current < self.kinds().len() && binary_prec(self.kinds()[self.current as int]) == 1));
            }
        }
        Some(expr)
    }
    /// Left-associative `a..b`.
    fn range(&mut self) -> (r: Option<Expr>)
        requires
            old(self).wf(),
        ensures
            final(self).follows(*old(self)),
            r is None ==> final(self).failed_since(*old(self)),
            r matches Some(e) ==> (final(self).clean_since(*old(self)) ==> spells(old(self).words(), e, final(self).consumed_since(*old(self)))),
            r is Some ==> final(self).current > old(self).current,
            lone_atom(old(self).kinds(), old(self).current as int) ==> (r matches Some(e)
                && Some(e.kind) == atom_kind(old(self).kinds()[old(self).current as int])
                && final(self).errors == old(self).errors && final(self).current == old(self).current + 1),
            simple_expr_end(old(self).kinds(), old(self).current as int) is Some ==> (r is Some
                && final(self).errors == old(self).errors && final(self).current == prec_stop(old(self).kinds(), old(self).current as int, 2)),
            r matches Some(e) ==> expr_level(e) >= 2 && left_assoc_at(e, 2),
        decreases old(self).tokens@.len() - old(self).current, 22int,
    {
        let mut expr = self.equality()?;
        proof {
            if simple_expr_end(old(self).kinds(), old(self).current as int) is Some {
                lemma_prec_stop(old(self).kinds(), old(self).current as int, 2);
            }
        }
        while self.match_one(TokenKind::DotDot)
            invariant
                self.follows(*old(self)),
                self.current > old(self).current,
                lone_atom(old(self).kinds(), old(self).current as int) ==> (Some(expr.kind) == atom_kind(old(self).kinds()[old(self).current as int])
                    && self.errors == old(self).errors && self.current == old(self).current + 1),
                self.clean_since(*old(self)) ==> spells(old(self).words(), expr, self.consumed_since(*old(self))),
                expr_level(expr) >= 2 && left_assoc_at(expr, 2),
                simple_expr_end(old(self).kinds(), old(self).current as int) is Some ==> {
                    let kk = old(self).kinds();
                    &&& self.errors == old(self).errors
                    &&& prec_stop(kk, old(self).current as int, 2) == prec_stop_from(kk, self.current as int, 2)
                    &&& (0 <= self.current < kk.len() && binary_prec(kk[self.current as int]) > 0) ==> (
                        binary_prec(kk[self.current as int]) <= 2 && simple_expr_end(kk, self.current + 1) is Some)
                },
            decreases self.tokens@.len() - self.current,
        {
            let ghost left = expr;
            let ghost mid = *self;
            let ghost cop = mid.current - 1;
            proof {
                if simple_expr_end(old(self).kinds(), old(self).current as int) is Some {
                    assert(binary_prec(old(self).kinds()[cop]) == 2);
                }
            }
            let right = self.equality()?;
            proof {
                if simple_expr_end(old(self).kinds(), old(self).current as int) is Some {
                    lemma_prec_stop(old(self).kinds(), cop + 1, 2);
                }
            }
            let span = join_spans(expr.span, right.span);
            expr = Expr::new(ExprKind::Range { start: Box::new(expr), end: Box::new(right) }, span);
            proof { self.lemma_infix(*old(self), mid, left, TokenKindV::DotDot, right); }
        }
        proof {
            if simple_expr_end(old(self).kinds(), old(self).current as int) is Some {
                assert(!(0 <= self.current < self.kinds().len() && binary_prec(self.kinds()[self.current as int]) == 2));
            }
        }
        Some(expr)
    }
    /// Left-associative `==` and `!=`.
    fn equality(&mut self) -> (r: Option<Expr>)
        requires
            old(self).wf(),
        ensures
            final(self).follows(*old(self)),
            r is None ==> final(self).failed_since(*old(self)),
            r matches Some(e) ==> (final(self).clean_since(*old(self)) ==> spells(old(self).words(), e, final(self).consumed_since(*old(self)))),
            r is Some ==> final(self).current > old(self).current,
            lone_atom(old(self).kinds(), old(self).current as int) ==> (r matches Some(e)
                && Some(e.kind) == atom_kind(old(self).kinds()[old(self).current as int])
                && final(self).errors == old(self).errors && final(self).current == old(self).current + 1),
            simple_expr_end(old(self).kinds(), old(self).current as int) is Some ==> (r is Some
                && final(self).errors == old(self).errors && final(self).current == prec_stop(old(self).kinds(), old(self).current as int, 3)),
            r matches Some(e) ==> expr_level(e) >= 3 && left_assoc_at(e, 3),
        decreases old(self).tokens@.len() - old(self).current, 21int,
    {
        let mut expr = self.comparison()?;
        proof {
            if simple_expr_end(old(self).kinds(), old(self).current as int) is Some {
                lemma_prec_stop(old(self).kinds(), old(self).current as int, 3);
            }
        }
        while self.match_token(&[TokenKind::EqualEqual, TokenKind::BangEqual])
            invariant
                self.follows(*old(self)),
                self.current > old(self).current,
                lone_atom(old(self).kinds(), old(self).current as int) ==> (Some(expr.kind) == atom_kind(old(self).kinds()[old(self).current as int])
                    && self.errors == old(self).errors && self.current == old(self).current + 1),
                self.clean_since(*old(self)) ==> spells(old(self).words(), expr, self.consumed_since(*old(self))),
                expr_level(expr) >= 3 && left_assoc_at(expr, 3),
                simple_expr_end(old(self).kinds(), old(self).current as int) is Some ==> {
                    let kk = old(self).kinds();
                    &&& self.errors == old(self).errors
                    &&& prec_stop(kk, old(self).current as int, 3) == prec_stop_from(kk, self.current as int, 3)
                    &&& (0 <= self.current < kk.len() && binary_prec(kk[self.current as int]) > 0) ==> (
                        binary_prec(kk[self.current as int]) <= 3 && simple_expr_end(kk, self.current + 1) is Some)
                },
            decreases self.tokens@.len() - self.current,
        {
            let ghost ck = self.current - 1;
            let operator = match self.previous().kind {
                TokenKind::EqualEqual => BinaryOp::Equal,
                _ => BinaryOp::NotEqual,
            };
            assert(self.kinds()[ck as int] == binary_token(operator));
            let ghost left = expr;
            let ghost mid = *self;
            let ghost cop = mid.current - 1;
            proof {
                if simple_expr_end(old(self).kinds(), old(self).current as int) is Some {
                    assert(binary_prec(old(self).kinds()[cop]) == 3);
                }
            }
            let right = self.comparison()?;
            proof {
                if simple_expr_end(old(self).kinds(), old(self).current as int) is Some {
                    lemma_prec_stop(old(self).kinds(), cop + 1, 3);
                }
            }
            let span = join_spans(expr.span, right.span);
            expr = Expr::new(ExprKind::Binary(Box::new(expr), operator, Box::new(right)), span);
            proof { self.lemma_infix(*old(self), mid, left, binary_token(operator), right); }
        }
        proof {
            if simple_expr_end(old(self).kinds(), old(self).current as int) is Some {
                assert(!(0 <= self.current < self.kinds().len() && binary_prec(self.kinds()[self.current as int]) == 3));
            }
        }
        Some(expr)
    }
    /// Left-associative `>`, `>=`, `<`, `<=`.
    fn comparison(&mut self) -> (r: Option<Expr>)
        requires
            old(self).wf(),
        ensures
            final(self).follows(*old(self)),
            r is None ==> final(self).failed_since(*old(self)),
            r matches Some(e) ==> (final(self).clean_since(*old(self)) ==> spells(old(self).words(), e, final(self).consumed_since(*old(self)))),
            r is Some ==> final(self).current > old(self).current,
            lone_atom(old(self).kinds(), old(self).current as int) ==> (r matches Some(e)
                && Some(e.kind) == atom_kind(old(self).kinds()[old(self).current as int])
                && final(self).errors == old(self).errors && final(self).current == old(self).current + 1),
            simple_expr_end(old(self).kinds(), old(self).current as int) is Some ==> (r is Some
                && final(self).errors == old(self).errors && final(self).current == prec_stop(old(self).kinds(), old(self).current as int, 4)),
            r matches Some(e) ==> expr_level(e) >= 4 && left_assoc_at(e, 4),
        decreases old(self).tokens@.len() - old(self).current, 20int,
    {
        let mut expr = self.term()?;
        proof {
            if simple_expr_end(old(self).kinds(), old(self).current as int) is Some {
                lemma_prec_stop(old(self).kinds(), old(self).current as int, 4);
            }
        }
        while self.match_token(&[TokenKind::Greater, TokenKind::GreaterEqual, TokenKind::Less, TokenKind::LessEqual])
            invariant
                self.follows(*old(self)),
                self.current > old(self).current,
                lone_atom(old(self).kinds(), old(self).current as int) ==> (Some(expr.kind) == atom_kind(old(self).kinds()[old(self).current as int])
                    && self.errors == old(self).errors && self.current == old(self).current + 1),
                self.clean_since(*old(self)) ==> spells(old(self).words(), expr, self.consumed_since(*old(self))),
                expr_level(expr) >= 4 && left_assoc_at(expr, 4),
                simple_expr_end(old(self).kinds(), old(self).current as int) is Some ==> {
                    let kk = old(self).kinds();
                    &&& self.errors == old(self).errors
                    &&& prec_stop(kk, old(self).current as int, 4) == prec_stop_from(kk, self.current as int, 4)
                    &&& (0 <= self.current < kk.len() && binary_prec(kk[self.current as int]) > 0) ==> (
                        binary_prec(kk[self.current as int]) <= 4 && simple_expr_end(kk, self.current + 1) is Some)
                },
            decreases self.tokens@.len() - self.current,
        {
            let ghost ck = self.current - 1;
            let operator = match self.previous().kind {
                TokenKind::Greater => BinaryOp::Greater,
                TokenKind::GreaterEqual => BinaryOp::GreaterEqual,
                TokenKind::Less => BinaryOp::Less,
                _ => BinaryOp::LessEqual,
            };
            assert(self.kinds()[ck as int] == binary_token(operator));
            let ghost left = expr;
            let ghost mid = *self;
            let ghost cop = mid.current - 1;
            proof {
                if simple_expr_end(old(self).kinds(), old(self).current as int) is Some {
                    assert(binary_prec(old(self).kinds()[cop]) == 4);
                }
            }
            let right = self.term()?;
            proof {
                if simple_expr_end(old(self).kinds(), old(self).current as int) is Some {
                    lemma_prec_stop(old(self).kinds(), cop + 1, 4);
                }
            }
            let span = join_spans(expr.span, right.span);
            expr = Expr::new(ExprKind::Binary(Box::new(expr), operator, Box::new(right)), span);
            proof { self.lemma_infix(*old(self), mid, left, binary_token(operator), right); }
        }
        proof {
            if simple_expr_end(old(self).kinds(), old(self).current as int) is Some {
                assert(!(0 <= self.current < self.kinds().len() && binary_prec(self.kinds()[self.current as int]) == 4));
            }
        }
        Some(expr)
    }
    /// Left-associative `+` and `-`.
    fn term(&mut self) -> (r: Option<Expr>)
        requires
            old(self).wf(),
        ensures
            final(self).follows(*old(self)),
            r is None ==> final(self).failed_since(*old(self)),
            r matches Some(e) ==> (final(self).clean_since(*old(self)) ==> spells(old(self).words(), e, final(self).consumed_since(*old(self)))),
            r is Some ==> final(self).current > old(self).current,
            lone_atom(old(self).kinds(), old(self).current as int) ==> (r matches Some(e)
                && Some(e.kind) == atom_kind(old(self).kinds()[old(self).current as int])
                && final(self).errors == old(self).errors && final(self).current == old(self).current + 1),
            simple_expr_end(old(self).kinds(), old(self).current as int) is Some ==> (r is Some
                && final(self).errors == old(self).errors && final(self).current == prec_stop(old(self).kinds(), old(self).current as int, 5)),
            r matches Some(e) ==> expr_level(e) >= 5 && left_assoc_at(e, 5),
        decreases old(self).tokens@.len() - old(self).current, 19int,
    {
        let mut expr = self.factor()?;
        proof {
            if simple_expr_end(old(self).kinds(), old(self).current as int) is Some {
                lemma_prec_stop(old(self).kinds(), old(self).current as int, 5);
            }
        }
        while self.match_token(&[TokenKind::Plus, TokenKind::Minus])
            invariant
                self.follows(*old(self)),
                self.current > old(self).current,
                lone_atom(old(self).kinds(), old(self).current as int) ==> (Some(expr.kind) == atom_kind(old(self).kinds()[old(self).current as int])
                    && self.errors == old(self).errors && self.current == old(self).current + 1),
                self.clean_since(*old(self)) ==> spells(old(self).words(), expr, self.consumed_since(*old(self))),
                expr_level(expr) >= 5 && left_assoc_at(expr, 5),
                simple_expr_end(old(self).kinds(), old(self).current as int) is Some ==> {
                    let kk = old(self).kinds();
                    &&& self.errors == old(self).errors
                    &&& prec_stop(kk, old(self).current as int, 5) == prec_stop_from(kk, self.current as int, 5)
                    &&& (0 <= self.current < kk.len() && binary_prec(kk[self.current as int]) > 0) ==> (
                        binary_prec(kk[self.current as int]) <= 5 && simple_expr_end(kk, self.current + 1) is Some)
                },
            decreases self.tokens@.len() - self.current,
        {
            let ghost ck = self.current - 1;
            let operator = match self.previous().kind {
                TokenKind::Plus => BinaryOp::Add,
                _ => BinaryOp::Subtract,
            };
            assert(self.kinds()[ck as int] == binary_token(operator));
            let ghost left = expr;
            let ghost mid = *self;
            let ghost cop = mid.current - 1;
            proof {
                if simple_expr_end(old(self).kinds(), old(self).current as int) is Some {
                    assert(binary_prec(old(self).kinds()[cop]) == 5);
                }
            }
            let right = self.factor()?;
            proof {
                if simple_expr_end(old(self).kinds(), old(self).current as int) is Some {
                    lemma_prec_stop(old(self).kinds(), cop + 1, 5);
                }
            }
            let span = join_spans(expr.span, right.span);
            expr = Expr::new(ExprKind::Binary(Box::new(expr), operator, Box::new(right)), span);
            proof { self.lemma_infix(*old(self), mid, left, binary_token(operator), right); }
        }
        proof {
            if simple_expr_end(old(self).kinds(), old(self).current as int) is Some {
                assert(!(0 <= self.current < self.kinds().len() && binary_prec(self.kinds()[self.current as int]) == 5));
            }
        }
        Some(expr)
    }
    /// Left-associative `*` and `/`.
    fn factor(&mut self) -> (r: Option<Expr>)
        requires
            old(self).wf(),
        ensures
            final(self).follows(*old(self)),
            r is None ==> final(self).failed_since(*old(self)),
            r matches Some(e) ==> (final(self).clean_since(*old(self)) ==> spells(old(self).words(), e, final(self).consumed_since(*old(self)))),
            r is Some ==> final(self).current > old(self).current,
            lone_atom(old(self).kinds(), old(self).current as int) ==> (r matches Some(e)
                && Some(e.kind) == atom_kind(old(self).kinds()[old(self).current as int])
                && final(self).errors == old(self).errors && final(self).current == old(self).current + 1),
            simple_expr_end(old(self).kinds(), old(self).current as int) is Some ==> (r is Some
                && final(self).errors == old(self).errors && final(self).current == prec_stop(old(self).kinds(), old(self).current as int, 6)),
            r matches Some(e) ==> expr_level(e) >= 6 && left_assoc_at(e, 6),
        decreases old(self).tokens@.len() - old(self).current, 18int,
    {
        let mut expr = self.unary()?;
        proof {
            if simple_expr_end(old(self).kinds(), old(self).current as int) is Some {
                lemma_prec_stop(old(self).kinds(), old(self).current as int, 6);
            }
        }
        while self.match_token(&[TokenKind::Star, TokenKind::Slash])
            invariant
                self.follows(*old(self)),
                self.current > old(self).current,
                lone_atom(old(self).kinds(), old(self).current as int) ==> (Some(expr.kind) == atom_kind(old(self).kinds()[old(self).current as int])
                    && self.errors == old(self).errors && self.current == old(self).current + 1),
                self.clean_since(*old(self)) ==> spells(old(self).words(), expr, self.consumed_since(*old(self))),
                expr_level(expr) >= 6 && left_assoc_at(expr, 6),
                simple_expr_end(old(self).kinds(), old(self).current as int) is Some ==> {
                    let kk = old(self).kinds();
                    &&& self.errors == old(self).errors
                    &&& prec_stop(kk, old(self).current as int, 6) == prec_stop_from(kk, self.current as int, 6)
                    &&& (0 <= self.current < kk.len() && binary_prec(kk[self.current as int]) > 0) ==> (
                        binary_prec(kk[self.current as int]) <= 6 && simple_expr_end(kk, self.current + 1) is Some)
                },
            decreases self.tokens@.len() - self.current,
        {
            let ghost ck = self.current - 1;
            let operator = match self.previous().kind {
                TokenKind::Star => BinaryOp::Multiply,
                _ => BinaryOp::Divide,
            };
            assert(self.kinds()[ck as int] == binary_token(operator));
            let ghost left = expr;
            let ghost mid = *self;
            let ghost cop = mid.current - 1;
            proof {
                if simple_expr_end(old(self).kinds(), old(self).current as int) is Some {
                    assert(binary_prec(old(self).kinds()[cop]) == 6);
                }
            }
            let right = self.unary()?;
            proof {
                if simple_expr_end(old(self).kinds(), old(self).current as int) is Some {
                    lemma_prec_stop(old(self).kinds(), cop + 1, 6);
                }
            }
            let span = join_spans(expr.span, right.span);
            expr = Expr::new(ExprKind::Binary(Box::new(expr), operator, Box::new(right)), span);
            proof { self.lemma_infix(*old(self), mid, left, binary_token(operator), right); }
        }
        proof {
            if simple_expr_end(old(self).kinds(), old(self).current as int) is Some {
                assert(!(0 <= self.current < self.kinds().len() && binary_prec(self.kinds()[self.current as int]) == 6));
            }
        }
        Some(expr)
    }
    /// Prefix negation.
    fn unary(&mut self) -> (r: Option<Expr>)
        requires
            old(self).wf(),
        ensures
            final(self).follows(*old(self)),
            r is None ==> final(self).failed_since(*old(self)),
            r matches Some(e) ==> (final(self).clean_since(*old(self)) ==> spells(old(self).words(), e, final(self).consumed_since(*old(self)))),
            r is Some ==> final(self).current > old(self).current,
            lone_atom(old(self).kinds(), old(self).current as int) ==> (r matches Some(e)
                && Some(e.kind) == atom_kind(old(self).kinds()[old(self).current as int])
                && final(self).errors == old(self).errors && final(self).current == old(self).current + 1),
            simple_expr_end(old(self).kinds(), old(self).current as int) is Some ==> (r is Some
                && final(self).errors == old(self).errors && final(self).current == prec_stop(old(self).kinds(), old(self).current as int, 7)),
            r matches Some(e) ==> expr_level(e) == 7,
        decreases old(self).tokens@.len() - old(self).current, 17int,
    {
        if self.match_one(TokenKind::Minus) {
            let ghost mid = *self;
            let start_span = self.previous_span();
            let right = self.unary()?;
            let span = join_spans(start_span, right.span);
            proof {
                if self.clean_since(*old(self)) {
                    assert(self.consumed_since(*old(self)).skip(1) =~= self.consumed_since(mid));
                }
            }
            return Some(Expr::new(ExprKind::Unary(UnaryOp::Negate, Box::new(right)), span));
        }
        self.call()
    }
    /// Postfix operations: calls, generic calls, `.name`, `?.name`, `!` and indexing.
    #[verifier::rlimit(60)]
    #[verifier::spinoff_prover]
    fn call(&mut self) -> (r: Option<Expr>)
        requires
            old(self).wf(),
        ensures
            final(self).follows(*old(self)),
            r is None ==> final(self).failed_since(*old(self)),
            r matches Some(e) ==> (final(self).clean_since(*old(self)) ==> spells(old(self).words(), e, final(self).consumed_since(*old(self)))),
            r is Some ==> final(self).current > old(self).current,
            lone_atom(old(self).kinds(), old(self).current as int) ==> (r matches Some(e)
                && Some(e.kind) == atom_kind(old(self).kinds()[old(self).current as int])
                && final(self).errors == old(self).errors && final(self).current == old(self).current + 1),
            atom_chain(old(self).kinds(), old(self).current as int) matches Some(k) ==> (r is Some
                && final(self).errors == old(self).errors && final(self).current == k),
            r matches Some(e) ==> expr_level(e) == 7,
        decreases old(self).tokens@.len() - old(self).current, 16int,
    {
        let mut expr = self.primary()?;
        loop
            invariant
                self.follows(*old(self)),
                self.current > old(self).current,
                lone_atom(old(self).kinds(), old(self).current as int) ==> (Some(expr.kind) == atom_kind(old(self).kinds()[old(self).current as int])
                    && self.errors == old(self).errors && self.current == old(self).current + 1),
                self.clean_since(*old(self)) ==> spells(old(self).words(), expr, self.consumed_since(*old(self))),
                expr_level(expr) == 7,
                atom_chain(old(self).kinds(), old(self).current as int) matches Some(k) ==> (self.errors == old(self).errors
                    && postfix_end(self.kinds(), self.current as int) == Some(k)),
            ensures
                self.follows(*old(self)),
                self.current > old(self).current,
                lone_atom(old(self).kinds(), old(self).current as int) ==> (Some(expr.kind) == atom_kind(old(self).kinds()[old(self).current as int])
                    && self.errors == old(self).errors && self.current == old(self).current + 1),
                self.clean_since(*old(self)) ==> spells(old(self).words(), expr, self.consumed_since(*old(self))),
                expr_level(expr) == 7,
                atom_chain(old(self).kinds(), old(self).current as int) matches Some(k) ==> (self.errors == old(self).errors
                    && self.current == k),
            decreases self.tokens@.len() - self.current,
        {
            let ghost c_iter = self.current;
            let ghost left = expr;
            let ghost pre = *self;
            let ghost t0 = self.consumed_since(*old(self));
            if self.match_one(TokenKind::LeftParen) {
                let ghost mid = *self;
                expr = self.finish_call(expr, Vec::new())?;
                proof {
                    if self.clean_since(*old(self)) {
                        let t = self.consumed_since(*old(self));
                        let u0 = self.consumed_since(mid);
                        let k = t0.len() as int;
                        assert(t.take(k) =~= t0);
                        assert(t.skip(k) =~= seq![TokenKindV::LeftParen] + u0);
                        assert(t.skip(k).subrange(1, t.skip(k).len() - 1) =~= u0.drop_last());
                        assert(picked(k));
                    }
                }
            } else if self.check_generic_call() {
                self.advance();
                let mut type_args: Vec<TypeExpr> = Vec::new();
                if !self.check(&TokenKind::Greater) {
                    let first = self.parse_type_expr()?;
                    proof { lemma_type_expr_tokens_nonempty(first); }
                    type_args.push(first);
                    assert(type_args@ =~= seq![first]);
                    while self.match_one(TokenKind::Comma)
                        invariant
                            self.follows(*old(self)),
                            self.current > old(self).current,
                            self.current > c_iter + 1,
                            self.errors == pre.errors,
                            !lone_atom(old(self).kinds(), old(self).current as int),
                            atom_chain(old(self).kinds(), old(self).current as int) is None,
                            type_args@.len() > 0,
                            self.kinds().subrange(c_iter + 1, self.current as int) == type_exprs_tokens(type_args@),
                        decreases self.tokens@.len() - self.current,
                    {
                        let ghost before = type_args@;
                        let ghost cm = self.current as int;
                        let ty = self.parse_type_expr()?;
                        type_args.push(ty);
                        proof {
                            assert(type_args@.drop_last() =~= before);
                            assert(self.kinds().subrange(c_iter + 1, self.current as int) =~= self.kinds().subrange(c_iter + 1, cm - 1)
                                + seq![TokenKindV::Comma] + self.kinds().subrange(cm, self.current as int));
                        }
                    }
                } else {
                    assert(self.kinds().subrange(c_iter + 1, self.current as int) =~= type_exprs_tokens(type_args@));
                }
                let ghost c2 = self.current as int;
                if !self.match_one(TokenKind::Greater) {
                    self.error_at_current("Expected '>' after generic type arguments.");
                    return None;
                }
                if !self.match_one(TokenKind::LeftParen) {
                    self.error_at_current("Expected '(' after generic type arguments.");
                    return None;
                }
                let ghost mid = *self;
                let ghost tav = type_args@;
                expr = self.finish_call(expr, type_args)?;
                proof {
                    if self.clean_since(*old(self)) {
                        let t = self.consumed_since(*old(self));
                        let u0 = self.consumed_since(mid);
                        let ta = type_exprs_tokens(tav);
                        let k = t0.len() as int;
                        let n = ta.len() as int;
                        assert(t.take(k) =~= t0);
                        assert(t.skip(k) =~= seq![TokenKindV::Less] + ta + seq![TokenKindV::Greater, TokenKindV::LeftParen] + u0);
                        assert(t.skip(k).take(n + 3) =~= seq![TokenKindV::Less] + ta + seq![TokenKindV::Greater, TokenKindV::LeftParen]);
                        assert(t.skip(k).subrange(n + 3, t.skip(k).len() - 1) =~= u0.drop_last());
                        assert(picked(k));
                    }
                }
            } else if self.match_one(TokenKind::Dot) {
                let name = match self.peek_identifier() {
                    Some(n) => {
                        self.advance();
                        n
                    },
                    None => {
                        self.error_at_current("Expected property name after '.'.");
                        return None;
                    },
                };
                let span = join_spans(expr.span, self.previous_span());
                expr = Expr::new(ExprKind::Get { object: Box::new(expr), name }, span);
                proof {
                    if self.clean_since(*old(self)) {
                        let t = self.consumed_since(*old(self));
                        assert(t.take(t.len() - 2) =~= t0);
                        assert(t.skip(t.len() - 2) =~= seq![TokenKindV::Dot, TokenKindV::Identifier(name)]);
                    }
                }
            } else if self.match_one(TokenKind::QuestionDot) {
                let name = match self.peek_identifier() {
                    Some(n) => {
                        self.advance();
                        n
                    },
                    None => {
                        self.error_at_current("Expected property name after '?.'.");
                        return None;
                    },
                };
                let span = join_spans(expr.span, self.previous_span());
                expr = Expr::new(ExprKind::OptionalGet { object: Box::new(expr), name }, span);
                proof {
                    if self.clean_since(*old(self)) {
                        let t = self.consumed_since(*old(self));
                        assert(t.take(t.len() - 2) =~= t0);
                        assert(t.skip(t.len() - 2) =~= seq![TokenKindV::QuestionDot, TokenKindV::Identifier(name)]);
                    }
                }
            } else if self.match_one(TokenKind::Bang) {
                let span = join_spans(expr.span, self.previous_span());
                expr = Expr::new(ExprKind::ForceUnwrap(Box::new(expr)), span);
                proof {
                    if self.clean_since(*old(self)) {
                        assert(self.consumed_since(*old(self)).drop_last() =~= t0);
                    }
                }
            } else if self.match_one(TokenKind::LeftBracket) {
                let ghost mid = *self;
                let index = self.expression()?;
                let ghost after = *self;
                if !self.match_one(TokenKind::RightBracket) {
                    self.error_at_current("Expected ']' after index.");
                    return None;
                }
                let span = join_spans(expr.span, self.previous_span());
                expr = Expr::new(ExprKind::IndexGet { object: Box::new(expr), index: Box::new(index) }, span);
                proof {
                    if self.clean_since(*old(self)) {
                        let t = self.consumed_since(*old(self));
                        let k = t0.len() as int;
                        assert(t.take(k) =~= t0);
                        assert(t.subrange(k + 1, t.len() - 1) =~= after.consumed_since(mid));
                        assert(picked(k));
                    }
                }
            } else {
                break;
            }
        }
        Some(expr)
    }

    /// The arguments of a call, after its `(`.
    fn finish_call(&mut self, callee: Expr, type_args: Vec<TypeExpr>) -> (r: Option<Expr>)
        requires
            old(self).wf(),
            old(self).current >= 1,
        ensures
            final(self).follows(*old(self)),
            r is None ==> final(self).failed_since(*old(self)),
            r matches Some(e) ==> (e.kind matches ExprKind::Call { callee: c, type_args: ta, arguments: args }
                && *c == callee && ta == type_args
                && (final(self).clean_since(*old(self)) ==> ({
                    let t = final(self).consumed_since(*old(self));
                    t.len() >= 1 && t.last() == TokenKindV::RightParen
                        && spells_list(old(self).words(), args@, t.drop_last())
                }))),
            r is Some ==> final(self).current > old(self).current,
            atom_args(old(self).kinds(), old(self).current as int) matches Some(k) ==> (r is Some
                && final(self).errors == old(self).errors && final(self).current == k),
        decreases old(self).tokens@.len() - old(self).current, 26int,
    {
        let mut arguments: Vec<Expr> = Vec::new();
        if !self.check(&TokenKind::RightParen) {
            let first = self.expression()?;
            arguments.push(first);
            assert(arguments@ =~= seq![first]);
            while self.match_one(TokenKind::Comma)
                invariant
                    self.follows(*old(self)),
                    self.current > old(self).current,
                    arguments@.len() >= 1,
                    self.clean_since(*old(self)) ==> spells_list(old(self).words(), arguments@, self.consumed_since(*old(self))),
                    atom_args(old(self).kinds(), old(self).current as int) matches Some(k) ==> (self.errors == old(self).errors
                        && atom_args_rest(self.kinds(), self.current as int) == Some(k)),
                decreases self.tokens@.len() - self.current,
            {
                let ghost mid = *self;
                let ghost before = arguments@;
                let arg = self.expression()?;
                arguments.push(arg);
                proof {
                    if self.clean_since(*old(self)) {
                        let t0 = old(self).kinds().subrange(old(self).current as int, mid.current - 1);
                        lemma_list_push(old(self).words(), before, t0, arg, self.consumed_since(mid));
                        assert(self.consumed_since(*old(self)) =~= t0 + seq![TokenKindV::Comma] + self.consumed_since(mid));
                    }
                }
            }
        } else {
            assert(self.consumed_since(*old(self)) =~= Seq::<TokenKindV>::empty());
        }
        let ghost before_rp = *self;
        if !self.match_one(TokenKind::RightParen) {
            self.error_at_current("Expected ')' after arguments.");
            return None;
        }
        assert(self.consumed_since(*old(self)).drop_last() =~= before_rp.consumed_since(*old(self)));
        let span = join_spans(callee.span, self.previous_span());
        Some(Expr::new(ExprKind::Call { callee: Box::new(callee), type_args, arguments }, span))
    }

    /// Whether a `<` at the current position opens type arguments of a
    /// call: a matching `>` comes before any `(`, `{`, `;` or `=`, and is
    /// directly followed by `(`.
    fn check_generic_call(&self) -> (r: bool)
        ensures
            r == (checks(self.kinds(), self.current as int, TokenKindV::Less)
                && generic_call_from(self.kinds(), self.current + 1, 1)),
    {
        if self.current >= self.tokens.len() || !self.check(&TokenKind::Less) {
            return false;
        }
        let mut i = self.current + 1;
        let mut depth: usize = 1;
        while i < self.tokens.len()
            invariant
                self.current < i <= self.tokens@.len(),
                depth >= 1,
                depth <= i - self.current,
                checks(self.kinds(), self.current as int, TokenKindV::Less),
                generic_call_from(self.kinds(), self.current + 1, 1) == generic_call_from(self.kinds(), i as int, depth as int),
            decreases self.tokens@.len() - i,
        {
            assert(self.kinds()[i as int] == self.tokens@[i as int].kind@);
            match self.tokens[i].kind {
                TokenKind::Less => {
                    depth = depth + 1;
                },
                TokenKind::Greater => {
                    depth = depth - 1;
                    if depth == 0 {
                        return i + 1 < self.tokens.len() && match self.tokens[i + 1].kind {
                            TokenKind::LeftParen => true,
                            _ => false,
                        };
                    }
                },
                TokenKind::LeftParen | TokenKind::LeftBrace | TokenKind::Semicolon | TokenKind::Equal => {
                    return false;
                },
                _ => {},
            }
            i = i + 1;
        }
        false
    }
    /// Literals, names, `self`, strings with interpolation, parenthesized
    /// expressions, array literals, array repetition, list comprehensions and
    /// `match` expressions.
    fn primary(&mut self) -> (r: Option<Expr>)
        requires
            old(self).wf(),
        ensures
            final(self).follows(*old(self)),
            r is None ==> final(self).failed_since(*old(self)),
            r matches Some(e) ==> (final(self).clean_since(*old(self)) ==> spells(old(self).words(), e, final(self).consumed_since(*old(self)))),
            r is Some ==> final(self).current > old(self).current,
            (0 <= old(self).current < old(self).kinds().len() && atom_kind(old(self).kinds()[old(self).current as int]) is Some) ==> (r matches Some(e)
                && Some(e.kind) == atom_kind(old(self).kinds()[old(self).current as int])
                && final(self).errors == old(self).errors && final(self).current == old(self).current + 1),
            checks(old(self).kinds(), old(self).current as int, TokenKindV::LeftBracket) ==> (
                atom_array(old(self).kinds(), old(self).current + 1) matches Some((ks, e)) ==> {
                    &&& final(self).errors == old(self).errors
                    &&& final(self).current == e + 1
                    &&& r matches Some(x)
                    &&& x.kind matches ExprKind::Array(els)
                    &&& expr_kinds(els@) == ks
                }),
            r matches Some(e) ==> expr_level(e) == 7,
        decreases old(self).tokens@.len() - old(self).current, 15int,
    {
        if self.match_one(TokenKind::False) {
            assert(self.consumed_since(*old(self)) =~= seq![TokenKindV::False]);
            return Some(Expr::new(ExprKind::Boolean(false), self.previous_span()));
        }
        if self.match_one(TokenKind::True) {
            assert(self.consumed_since(*old(self)) =~= seq![TokenKindV::True]);
            return Some(Expr::new(ExprKind::Boolean(true), self.previous_span()));
        }
        if self.match_one(TokenKind::Null) {
            assert(self.consumed_since(*old(self)) =~= seq![TokenKindV::Null]);
            return Some(Expr::new(ExprKind::Null, self.previous_span()));
        }
        if self.match_one(TokenKind::SelfKeyword) {
            assert(self.consumed_since(*old(self)) =~= seq![TokenKindV::SelfKeyword]);
            return Some(Expr::new(ExprKind::SelfRef, self.previous_span()));
        }
        if self.current < self.tokens.len() {
            let token_span = self.tokens[self.current].span;
            match &self.tokens[self.current].kind {
                TokenKind::Match => {
                    self.advance();
                    return self.match_expression(token_span);
                },
                TokenKind::Integer(i) => {
                    let v = *i;
                    self.advance();
                    assert(self.consumed_since(*old(self)) =~= seq![TokenKindV::Integer(v)]);
                    return Some(Expr::new(ExprKind::Integer(v), token_span));
                },
                TokenKind::Float(f) => {
                    let v = *f;
                    self.advance();
                    assert(self.consumed_since(*old(self)) =~= seq![TokenKindV::Float(v)]);
                    return Some(Expr::new(ExprKind::Float(v), token_span));
                },
                TokenKind::Identifier(i) => {
                    let v = *i;
                    self.advance();
                    assert(self.consumed_since(*old(self)) =~= seq![TokenKindV::Identifier(v)]);
                    return Some(Expr::new(ExprKind::Variable(v), token_span));
                },
                TokenKind::StringStart => {
                    self.advance();
                    return Some(self.string_literal(token_span));
                },
                TokenKind::LeftParen => {
                    self.advance();
                    let ghost mid = *self;
                    let expr = self.expression()?;
                    let ghost after = *self;
                    if !self.match_one(TokenKind::RightParen) {
                        self.error_at_current("Expected ')' after expression.");
                        return None;
                    }
                    proof {
                        if self.clean_since(*old(self)) {
                            let t = self.consumed_since(*old(self));
                            assert(t.subrange(1, t.len() - 1) =~= after.consumed_since(mid));
                        }
                    }
                    let span = join_spans(token_span, self.previous_span());
                    return Some(Expr::new(ExprKind::Grouping(Box::new(expr)), span));
                },
                TokenKind::LeftBracket => {
                    self.advance();
                    return self.array_literal(token_span);
                },
                _ => {},
            }
        }
        self.error_at_current("Expected expression.");
        None
    }

    /// The rest of a string literal after its opening token: literal parts
    /// and interpolated expressions.  One literal part is a plain string; no
    /// part at all is the empty string.
    #[verifier::rlimit(100)]
    #[verifier::spinoff_prover]
    fn string_literal(&mut self, start_span: Span) -> (r: Expr)
        requires
            old(self).wf(),
            old(self).current >= 1,
            old(self).kinds()[old(self).current - 1] == TokenKindV::StringStart,
        ensures
            final(self).follows(*old(self)),
            final(self).clean_since(*old(self)) ==> spells(old(self).words(), r,
                old(self).kinds().subrange(old(self).current - 1, final(self).current as int)),
            expr_level(r) == 7,
        decreases old(self).tokens@.len() - old(self).current, 26int,
    {
        let ghost c0 = self.current as int;
        let ghost w = old(self).words();
        let ghost mut closed: bool = false;
        let mut pieces: Vec<Expr> = Vec::new();
        let mut done = false;
        while !done && self.current < self.tokens.len()
            invariant
                self.follows(*old(self)),
                self.current >= 1,
                c0 == old(self).current,
                c0 <= self.current,
                done && !closed ==> self.errors@.len() > old(self).errors@.len(),
                closed ==> done,
                self.string_progress(*old(self), c0, closed, pieces@),
            decreases self.tokens@.len() - self.current, if done { 0int } else { 1int },
        {
            let ghost before = pieces@;
            let ghost cb = self.current as int;
            let tok_span = self.tokens[self.current].span;
            match &self.tokens[self.current].kind {
                TokenKind::StringPart(s) => {
                    let v = *s;
                    pieces.push(Expr::new(ExprKind::String(v), tok_span));
                    self.advance();
                    proof {
                        if self.clean_since(*old(self)) {
                            let t = self.kinds().subrange(c0, self.current as int);
                            let k = cb - c0;
                            assert(pieces@.drop_last() =~= before);
                            assert(t.take(k) =~= self.kinds().subrange(c0, cb));
                            assert(t.skip(k) =~= seq![TokenKindV::StringPart(v)]);
                            assert(picked(k));
                        }
                    }
                    assert(self.string_progress(*old(self), c0, closed, pieces@));
                },
                TokenKind::InterpolationStart => {
                    self.advance();
                    let ghost mid = *self;
                    match self.expression() {
                        Some(expr) => {
                            pieces.push(expr);
                            let ghost after = *self;
                            if !self.match_one(TokenKind::InterpolationEnd) {
                                self.error_at_current("Expected '}' after string interpolation expression.");
                            }
                            proof {
                                if self.clean_since(*old(self)) {
                                    let t = self.kinds().subrange(c0, self.current as int);
                                    let k = cb - c0;
                                    let u = t.skip(k);
                                    assert(pieces@.drop_last() =~= before);
                                    assert(t.take(k) =~= self.kinds().subrange(c0, cb));
                                    assert(u.subrange(1, u.len() - 1) =~= after.consumed_since(mid));
                                    assert(picked(k));
                                }
                            }
                            assert(self.string_progress(*old(self), c0, closed, pieces@));
                        },
                        None => {
                            if !self.match_one(TokenKind::InterpolationEnd) {
                                self.error_at_current("Expected '}' after string interpolation expression.");
                            }
                            assert(self.string_progress(*old(self), c0, closed, pieces@));
                        },
                    }
                },
                TokenKind::StringEnd => {
                    self.advance();
                    proof { closed = true; }
                    done = true;
                    assert(self.string_progress(*old(self), c0, closed, pieces@));
                },
                TokenKind::Error(e) => {
                    let message = e.clone();
                    self.error_at_current(message.as_str());
                    self.advance();
                    done = true;
                },
                TokenKind::Eof => {
                    self.error_at_current("Unterminated string.");
                    done = true;
                },
                _ => {
                    self.error_at_current("Unexpected token in string.");
                    self.advance();
                    done = true;
                },
            }
        }
        let ghost p = self.kinds().subrange(c0, self.current - 1);
        let span = join_spans(start_span, self.previous_span());
        if pieces.len() == 1 {
            match &pieces[0].kind {
                ExprKind::String(s) => {
                    proof {
                        if self.clean_since(*old(self)) {
                            let t = old(self).kinds().subrange(c0 - 1, self.current as int);
                            let k = choose|k: int| #[trigger] picked(k) && 0 <= k <= p.len()
                                && pieces_spell(w, pieces@.drop_last(), p.take(k))
                                && ({
                                    let u = p.skip(k);
                                    ||| (pieces@.last().kind matches ExprKind::String(s) && u == seq![TokenKindV::StringPart(s)])
                                    ||| (u.len() >= 2 && u[0] == TokenKindV::InterpolationStart && u.last() == TokenKindV::InterpolationEnd
                                        && spells(w, pieces@.last(), u.subrange(1, u.len() - 1)))
                                });
                            assert(pieces@.drop_last().len() == 0);
                            assert(k == 0);
                            assert(p.skip(0) =~= p);
                            assert(pieces@.last() == pieces@[0]);
                            assert(pieces@[0].kind == ExprKind::String(*s));
                            assert(t =~= seq![TokenKindV::StringStart] + p + seq![TokenKindV::StringEnd]);
                            if p == seq![TokenKindV::StringPart(*s)] {
                                assert(t =~= seq![TokenKindV::StringStart, TokenKindV::StringPart(*s), TokenKindV::StringEnd]);
                            } else {
                                assert(p.len() >= 2 && p[0] == TokenKindV::InterpolationStart && p.last() == TokenKindV::InterpolationEnd
                                    && spells(w, pieces@[0], p.subrange(1, p.len() - 1)));
                                assert(string_spells(w, *s, p.subrange(1, p.len() - 1)));
                                assert(t.subrange(2, t.len() - 2) =~= p.subrange(1, p.len() - 1));
                                assert(t[1] == p[0]);
                                assert(t[t.len() - 2] == p.last());
                            }
                            assert(string_spells(w, *s, t));
                        }
                    }
                    return Expr::new(ExprKind::String(*s), span);
                },
                _ => {},
            }
        } else if pieces.len() == 0 {
            proof {
                if self.clean_since(*old(self)) {
                    assert(old(self).kinds().subrange(c0 - 1, self.current as int)
                        =~= seq![TokenKindV::StringStart, TokenKindV::StringEnd]);
                }
            }
            return Expr::new(ExprKind::String(self.empty_sym), span);
        }
        proof {
            if self.clean_since(*old(self)) {
                let t = old(self).kinds().subrange(c0 - 1, self.current as int);
                assert(t.subrange(1, t.len() - 1) =~= p);
            }
        }
        Expr::new(ExprKind::InterpolatedString(pieces), span)
    }

    /// The rest of an array literal after its `[`: `[]`, `[a, b, ...]`,
    /// `[v; n]` or `[e for x in it]`.
    #[verifier::rlimit(80)]
    #[verifier::spinoff_prover]
    fn array_literal(&mut self, start_span: Span) -> (r: Option<Expr>)
        requires
            old(self).wf(),
            old(self).current >= 1,
            old(self).kinds()[old(self).current - 1] == TokenKindV::LeftBracket,
        ensures
            final(self).follows(*old(self)),
            r is None ==> final(self).failed_since(*old(self)),
            r matches Some(e) ==> (final(self).clean_since(*old(self)) ==> spells(old(self).words(), e,
                old(self).kinds().subrange(old(self).current - 1, final(self).current as int))),
            r is Some ==> final(self).current > old(self).current,
            atom_array(old(self).kinds(), old(self).current as int) matches Some((ks, e)) ==> {
                &&& final(self).errors == old(self).errors
                &&& final(self).current == e + 1
                &&& r matches Some(x)
                &&& x.kind matches ExprKind::Array(els)
                &&& expr_kinds(els@) == ks
            },
            r matches Some(e) ==> expr_level(e) == 7,
        decreases old(self).tokens@.len() - old(self).current, 26int,
    {
        let ghost c0 = self.current as int;
        let ghost w = old(self).words();
        if self.match_one(TokenKind::RightBracket) {
            let ghost t = old(self).kinds().subrange(c0 - 1, self.current as int);
            assert(t =~= seq![TokenKindV::LeftBracket, TokenKindV::RightBracket]);
            let span = join_spans(start_span, self.previous_span());
            let empty: Vec<Expr> = Vec::new();
            assert(spells_list(w, empty@, t.subrange(1, t.len() - 1)));
            return Some(Expr::new(ExprKind::Array(empty), span));
        }
        let first_expr = self.expression()?;
        let ghost a1 = *self;
        let ghost fe = first_expr;
        if self.match_one(TokenKind::Semicolon) {
            let ghost m2 = *self;
            let count = self.expression()?;
            let ghost a2 = *self;
            if !self.match_one(TokenKind::RightBracket) {
                self.error_at_current("Expected ']' after array repeat count.");
                return None;
            }
            proof {
                if self.clean_since(*old(self)) {
                    let t = old(self).kinds().subrange(c0 - 1, self.current as int);
                    let k = a1.current - (c0 - 1);
                    assert(t.subrange(1, k) =~= a1.consumed_since(*old(self)));
                    assert(t.subrange(k + 1, t.len() - 1) =~= a2.consumed_since(m2));
                    assert(picked(k));
                }
            }
            let span = join_spans(start_span, self.previous_span());
            Some(Expr::new(ExprKind::ArrayRepeat { value: Box::new(first_expr), count: Box::new(count) }, span))
        } else if self.match_one(TokenKind::For) {
            let item_name = match self.peek_identifier() {
                Some(n) => {
                    self.advance();
                    n
                },
                None => {
                    self.error_at_current("Expected item name after 'for' in list comprehension.");
                    return None;
                },
            };
            let is_in = match self.peek_identifier() {
                Some(s) => s == self.in_sym,
                None => false,
            };
            if is_in {
                self.advance();
            } else {
                self.error_at_current("Expected 'in' after item name in list comprehension.");
                return None;
            }
            let ghost m3 = *self;
            let iterator = self.expression()?;
            let ghost a3 = *self;
            if !self.match_one(TokenKind::RightBracket) {
                self.error_at_current("Expected ']' after list comprehension.");
                return None;
            }
            proof {
                if self.clean_since(*old(self)) {
                    let t = old(self).kinds().subrange(c0 - 1, self.current as int);
                    let k = a1.current - (c0 - 1);
                    assert(t.subrange(1, k) =~= a1.consumed_since(*old(self)));
                    assert(t.subrange(k, k + 3) =~= seq![TokenKindV::For, TokenKindV::Identifier(item_name), TokenKindV::Identifier(w.in_word)]);
                    assert(t.subrange(k + 3, t.len() - 1) =~= a3.consumed_since(m3));
                    assert(picked(k));
                }
            }
            let span = join_spans(start_span, self.previous_span());
            Some(Expr::new(ExprKind::ListComprehension {
                expr: Box::new(first_expr),
                item_name,
                iterator: Box::new(iterator),
            }, span))
        } else {
            let mut elements: Vec<Expr> = Vec::new();
            elements.push(first_expr);
            assert(elements@ =~= seq![fe]);
            proof {
                if let Some((ks, e)) = atom_array(old(self).kinds(), c0) {
                    assert(expr_kinds(elements@) =~= ks.take(1));
                    assert(ks.skip(1) =~= atoms_tail(self.kinds(), self.current as int)->Some_0.0);
                }
            }
            let ghost mut trailing: bool = false;
            loop
                invariant_except_break
                    !trailing,
                    self.clean_since(*old(self)) ==> spells_list(w, elements@, self.kinds().subrange(c0, self.current as int)),
                invariant
                    self.follows(*old(self)),
                    self.current > old(self).current,
                    c0 == old(self).current,
                    w == old(self).words(),
                    elements@.len() >= 1,
                    atom_array(old(self).kinds(), c0) matches Some((ks, e)) ==> {
                        &&& self.errors == old(self).errors
                        &&& elements@.len() <= ks.len()
                        &&& expr_kinds(elements@) == ks.take(elements@.len() as int)
                        &&& atoms_tail(self.kinds(), self.current as int) == Some((ks.skip(elements@.len() as int), e))
                    },
                ensures
                    atom_array(old(self).kinds(), c0) is Some ==> checks(self.kinds(), self.current as int, TokenKindV::RightBracket),
                    self.clean_since(*old(self)) ==> (if trailing {
                        &&& self.current >= c0 + 1
                        &&& self.kinds()[self.current - 1] == TokenKindV::Comma
                        &&& spells_list(w, elements@, self.kinds().subrange(c0, self.current - 1))
                    } else {
                        spells_list(w, elements@, self.kinds().subrange(c0, self.current as int))
                    }),
                decreases self.tokens@.len() - self.current,
            {
                let ghost head = *self;
                if !self.match_one(TokenKind::Comma) {
                    break;
                }
                if self.check(&TokenKind::RightBracket) {
                    proof {
                        if let Some((ks, e)) = atom_array(old(self).kinds(), c0) {
                            assert(atoms_tail(self.kinds(), head.current as int) == Some((Seq::<ExprKind>::empty(), head.current + 1)));
                            assert(ks.skip(elements@.len() as int).len() == 0);
                        }
                        trailing = true;
                        if self.clean_since(*old(self)) {
                            assert(head.clean_since(*old(self)));
                            assert(self.kinds().subrange(c0, self.current - 1) =~= head.kinds().subrange(c0, head.current as int));
                        }
                    }
                    break;
                }
                let ghost mid = *self;
                let ghost before = elements@;
                let element = self.expression()?;
                elements.push(element);
                proof {
                    if let Some((ks, e)) = atom_array(old(self).kinds(), c0) {
                        let rest = ks.skip(before.len() as int);
                        assert(atoms_tail(self.kinds(), head.current as int) == Some((rest, e)));
                        let rest2 = atoms_tail(self.kinds(), self.current as int)->Some_0.0;
                        assert(seq![element.kind] + rest2 == rest);
                        assert(rest2.len() == rest.len() - 1);
                        assert forall|k: int| 0 <= k < rest2.len() implies rest2[k] == #[trigger] ks.skip(elements@.len() as int)[k] by {
                            assert(rest2[k] == (seq![element.kind] + rest2)[k + 1]);
                            assert(rest[k + 1] == ks[before.len() + k + 1]);
                        }
                        assert(rest2 =~= ks.skip(elements@.len() as int));
                        assert(ks[before.len() as int] == element.kind) by {
                            assert((seq![element.kind] + rest2)[0] == element.kind);
                            assert(rest[0] == ks[before.len() as int]);
                        }
                        assert(expr_kinds(elements@) =~= ks.take(elements@.len() as int));
                    }
                    if self.clean_since(*old(self)) {
                        let t0 = self.kinds().subrange(c0, mid.current - 1);
                        assert(head.clean_since(*old(self)));
                        assert(t0 =~= head.kinds().subrange(c0, head.current as int));
                        assert(self.clean_since(mid));
                        lemma_list_push(w, before, t0, element, self.consumed_since(mid));
                        assert(self.kinds().subrange(c0, self.current as int) =~= t0 + seq![TokenKindV::Comma] + self.consumed_since(mid));
                    }
                }
            }
            let ghost br = *self;
            if !self.match_one(TokenKind::RightBracket) {
                self.error_at_current("Expected ']' after array elements.");
                return None;
            }
            proof {
                if let Some((ks, e)) = atom_array(old(self).kinds(), c0) {
                    assert(ks.skip(elements@.len() as int).len() == 0);
                    assert(ks.take(ks.len() as int) =~= ks);
                }
            }
            proof {
                if self.clean_since(*old(self)) {
                    let t = old(self).kinds().subrange(c0 - 1, self.current as int);
                    let m = t.subrange(1, t.len() - 1);
                    assert(m =~= self.kinds().subrange(c0, br.current as int));
                    if trailing {
                        assert(m.drop_last() =~= self.kinds().subrange(c0, br.current - 1));
                    }
                }
            }
            let span = join_spans(start_span, self.previous_span());
            Some(Expr::new(ExprKind::Array(elements), span))
        }
    }

    /// A match pattern: `_`, or a dotted variant path with optional
    /// bindings `(a, _, c)`.
    fn match_pattern(&mut self) -> (r: Option<Pattern>)
        requires
            old(self).wf(),
        ensures
            final(self).follows(*old(self)),
            r is None ==> final(self).failed_since(*old(self)),
            r matches Some(pat) ==> final(self).errors == old(self).errors && final(self).current > old(self).current
                && pattern_spells(old(self).words(), pat, final(self).consumed_since(*old(self))),
    {
        let ghost w = old(self).words();
        if self.match_one(TokenKind::Underscore) {
            assert(self.consumed_since(*old(self)) =~= seq![TokenKindV::Underscore]);
            return Some(Pattern::Wildcard);
        }
        let mut path: Vec<Symbol> = Vec::new();
        match self.peek_identifier() {
            Some(first) => {
                self.advance();
                path.push(first);
                assert(self.consumed_since(*old(self)) =~= dotted_tokens(path@));
                loop
                    invariant
                        self.follows(*old(self)),
                        self.errors == old(self).errors,
                        self.current > old(self).current,
                        path@.len() >= 1,
                        self.kinds().subrange(old(self).current as int, self.current as int) == dotted_tokens(path@),
                    decreases self.tokens@.len() - self.current,
                {
                    let ghost head = *self;
                    if !self.match_one(TokenKind::Dot) {
                        break;
                    }
                    let ghost before = path@;
                    let ghost cd = self.current as int;
                    assert(self.kinds().subrange(old(self).current as int, cd - 1) == head.kinds().subrange(old(self).current as int, head.current as int));
                    match self.peek_identifier() {
                        Some(next) => {
                            self.advance();
                            path.push(next);
                            proof {
                                assert(path@.drop_last() =~= before);
                                assert(self.kinds().subrange(old(self).current as int, self.current as int)
                                    =~= self.kinds().subrange(old(self).current as int, cd - 1)
                                    + seq![TokenKindV::Dot, TokenKindV::Identifier(next)]);
                            }
                        },
                        None => {
                            self.error_at_current("Expected identifier after '.'.");
                            return None;
                        },
                    }
                }
            },
            None => {
                self.error_at_current("Expected pattern.");
                return None;
            },
        }
        let ghost cp = self.current as int;
        let ghost n = dotted_tokens(path@).len() as int;
        assert(self.consumed_since(*old(self)) == dotted_tokens(path@));
        let bindings = if self.match_one(TokenKind::LeftParen) {
            let mut b: Vec<Symbol> = Vec::new();
            if !self.check(&TokenKind::RightParen) {
                let first = if self.match_one(TokenKind::Underscore) {
                    self.wildcard_sym
                } else {
                    match self.peek_identifier() {
                        Some(id) => {
                            self.advance();
                            id
                        },
                        None => {
                            self.error_at_current("Expected binding name or '_' in pattern.");
                            return None;
                        },
                    }
                };
                b.push(first);
                assert(self.kinds().subrange(cp + 1, self.current as int) =~= seq![self.kinds()[cp + 1]]);
                loop
                    invariant
                        self.follows(*old(self)),
                        self.errors == old(self).errors,
                        self.current >= cp + 2,
                        cp >= old(self).current,
                        w == old(self).words(),
                        b@.len() >= 1,
                        bindings_spell(w, b@, self.kinds().subrange(cp + 1, self.current as int)),
                    decreases self.tokens@.len() - self.current,
                {
                    let ghost head = *self;
                    if !self.match_one(TokenKind::Comma) {
                        break;
                    }
                    let ghost before = b@;
                    let ghost cc = self.current as int;
                    assert(self.kinds().subrange(cp + 1, cc - 1) == head.kinds().subrange(cp + 1, head.current as int));
                    let next = if self.match_one(TokenKind::Underscore) {
                        self.wildcard_sym
                    } else {
                        match self.peek_identifier() {
                            Some(id) => {
                                self.advance();
                                id
                            },
                            None => {
                                self.error_at_current("Expected binding name or '_' in pattern.");
                                return None;
                            },
                        }
                    };
                    b.push(next);
                    proof {
                        let t = self.kinds().subrange(cp + 1, self.current as int);
                        assert(b@.drop_last() =~= before);
                        assert(t.take(t.len() - 2) =~= self.kinds().subrange(cp + 1, cc - 1));
                        assert(t[t.len() - 2] == self.kinds()[cc - 1]);
                    }
                }
            } else {
                assert(self.kinds().subrange(cp + 1, self.current as int) =~= Seq::<TokenKindV>::empty());
            }
            let ghost cr = self.current as int;
            if !self.match_one(TokenKind::RightParen) {
                self.error_at_current("Expected ')' after pattern bindings.");
                return None;
            }
            proof {
                let t = self.consumed_since(*old(self));
                assert(t.take(n) =~= self.kinds().subrange(old(self).current as int, cp));
                assert(t.subrange(n + 1, t.len() - 1) =~= self.kinds().subrange(cp + 1, cr));
            }
            Some(b)
        } else {
            None
        };
        Some(Pattern::Variant { path, bindings })
    }

    /// The rest of a `match` expression after the keyword.
    #[verifier::rlimit(60)]
    #[verifier::spinoff_prover]
    fn match_expression(&mut self, start_span: Span) -> (r: Option<Expr>)
        requires
            old(self).wf(),
            old(self).current >= 1,
            old(self).kinds()[old(self).current - 1] == TokenKindV::Match,
        ensures
            final(self).follows(*old(self)),
            r is None ==> final(self).failed_since(*old(self)),
            r matches Some(e) ==> (final(self).clean_since(*old(self)) ==> spells(old(self).words(), e,
                old(self).kinds().subrange(old(self).current - 1, final(self).current as int))),
            r is Some ==> final(self).current > old(self).current,
            r matches Some(e) ==> expr_level(e) == 7,
        decreases old(self).tokens@.len() - old(self).current, 26int,
    {
        let ghost c0 = self.current as int;
        let ghost w = old(self).words();
        let value = self.expression()?;
        let ghost a1 = *self;
        let ghost vv = value;
        if !self.match_one(TokenKind::LeftBrace) {
            self.error_at_current("Expected '{' before match arms.");
            return None;
        }
        let ghost cb = self.current as int;
        let mut arms: Vec<MatchArm> = Vec::new();
        assert(self.kinds().subrange(cb, cb) =~= Seq::<TokenKindV>::empty());
        while !self.check(&TokenKind::RightBrace) && !self.is_at_end()
            invariant
                self.follows(*old(self)),
                self.current > old(self).current,
                0 <= cb <= self.current,
                cb == a1.current + 1,
                a1.follows(*old(self)),
                self.follows(a1),
                a1.current >= old(self).current,
                a1.kinds()[a1.current as int] == TokenKindV::LeftBrace,
                w == old(self).words(),
                self.clean_since(*old(self)) ==> arms_spell(w, arms@, self.kinds().subrange(cb, self.current as int)),
            decreases self.tokens@.len() - self.current,
        {
            let ghost h = *self;
            let ghost before = arms@;
            let pattern = self.match_pattern()?;
            let ghost pj = *self;
            if !self.match_one(TokenKind::FatArrow) {
                self.error_at_current("Expected '=>' after match pattern.");
                return None;
            }
            let ghost mb = *self;
            let body = self.expression()?;
            let ghost ab = *self;
            let _ = self.match_one(TokenKind::Comma);
            let ghost arm_pattern = pattern;
            let ghost arm_body = body;
            arms.push(MatchArm { pattern, body: Box::new(body) });
            proof {
                if self.clean_since(*old(self)) {
                    assert(self.tokens == h.tokens);
                    assert(h.current >= cb);
                    assert(pj.current >= h.current);
                    assert(mb.current >= pj.current);
                    assert(self.current >= ab.current && ab.current >= mb.current);
                    let t = self.kinds().subrange(cb, self.current as int);
                    let k = h.current - cb;
                    let j = pj.current - cb;
                    assert(arms@.drop_last() =~= before);
                    assert(arms@.last().pattern == arm_pattern);
                    assert(*arms@.last().body == arm_body);
                    assert(h.clean_since(*old(self)));
                    assert(t.take(k) =~= self.kinds().subrange(cb, h.current as int));
                    assert(t.subrange(k, j) =~= pj.consumed_since(h));
                    assert(ab.clean_since(mb));
                    if self.current == ab.current {
                        assert(t.skip(j + 1) =~= ab.consumed_since(mb));
                    } else {
                        assert(t.subrange(j + 1, t.len() - 1) =~= ab.consumed_since(mb));
                    }
                    assert(picked((k, j)));
                }
            }
        }
        let ghost ce = self.current as int;
        if !self.match_one(TokenKind::RightBrace) {
            self.error_at_current("Expected '}' after match arms.");
            return None;
        }
        proof {
            if self.clean_since(*old(self)) {
                let t = old(self).kinds().subrange(c0 - 1, self.current as int);
                let k = a1.current - (c0 - 1);
                assert(a1.clean_since(*old(self)));
                assert(spells(w, vv, a1.consumed_since(*old(self))));
                assert(t.subrange(1, k) =~= a1.consumed_since(*old(self)));
                assert(t[k] == TokenKindV::LeftBrace);
                assert(t.subrange(k + 1, t.len() - 1) =~= self.kinds().subrange(cb, ce));
                assert(arms_spell(w, arms@, self.kinds().subrange(cb, ce)));
                assert(picked(k));
            }
        }
        let span = join_spans(start_span, self.previous_span());
        Some(Expr::new(ExprKind::Match { value: Box::new(value), arms }, span))
    }

    /// `private` makes a declaration private; `public` is allowed and is
    /// the default.
    fn parse_visibility(&mut self) -> (is_private: bool)
        requires
            old(self).wf(),
        ensures
            final(self).follows(*old(self)),
            final(self).errors == old(self).errors,
            is_private == checks(old(self).kinds(), old(self).current as int, TokenKindV::Private),
            is_private ==> final(self).current == old(self).current + 1,
            visibility_spells(is_private, final(self).consumed_since(*old(self))),
            !is_private ==> final(self).current == (if checks(old(self).kinds(), old(self).current as int, TokenKindV::Public) {
                old(self).current + 1
            } else {
                old(self).current as int
            }),
    {
        if self.match_one(TokenKind::Private) {
            assert(self.consumed_since(*old(self)) =~= seq![TokenKindV::Private]);
            true
        } else {
            let _ = self.match_one(TokenKind::Public);
            proof {
                if self.current > old(self).current {
                    assert(self.consumed_since(*old(self)) =~= seq![TokenKindV::Public]);
                } else {
                    assert(self.consumed_since(*old(self)) =~= Seq::<TokenKindV>::empty());
                }
            }
            false
        }
    }

    /// A declaration or statement.  On failure the parser reports an error
    /// and skips ahead; either way it moves forward unless at the end.
    fn declaration(&mut self) -> (r: Option<Stmt>)
        requires
            old(self).wf(),
        ensures
            final(self).follows(*old(self)),
            !at_end(old(self).kinds(), old(self).current as int) ==> final(self).current > old(self).current,
            r is None ==> final(self).failed_since(*old(self)),
            r matches Some(st) ==> (final(self).clean_since(*old(self)) ==> decl_spells(old(self).words(), st,
                final(self).consumed_since(*old(self)))),
            simple_item_end(old(self).kinds(), old(self).current as int) matches Some(j) ==> (r is Some
                && final(self).errors == old(self).errors && final(self).current == j),
        decreases old(self).tokens@.len() - old(self).current, 40int,
    {
        let ghost c0 = self.current;
        let is_private = self.parse_visibility();
        let ghost hv = *self;
        let res = if self.match_one(TokenKind::Interface) {
            let r = self.interface_declaration(is_private);
            proof { self.lemma_decl_spelled(*old(self), hv, is_private, r); }
            r
        } else if self.match_one(TokenKind::Class) {
            let r = self.class_declaration(is_private);
            proof { self.lemma_decl_spelled(*old(self), hv, is_private, r); }
            r
        } else if self.match_one(TokenKind::Enum) {
            let r = self.enum_declaration(is_private);
            proof { self.lemma_decl_spelled(*old(self), hv, is_private, r); }
            r
        } else if self.match_one(TokenKind::Func) {
            let r = self.function_declaration(is_private);
            proof { self.lemma_decl_spelled(*old(self), hv, is_private, r); }
            r
        } else if self.match_one(TokenKind::Let) {
            let r = self.variable_declaration(false, false, is_private);
            proof { self.lemma_decl_spelled(*old(self), hv, is_private, r); }
            r
        } else if self.match_one(TokenKind::Var) {
            let r = self.variable_declaration(true, false, is_private);
            proof { self.lemma_decl_spelled(*old(self), hv, is_private, r); }
            r
        } else if self.match_one(TokenKind::Weak) {
            if self.match_one(TokenKind::Var) {
                let r = self.variable_declaration(true, true, is_private);
                proof { self.lemma_decl_spelled(*old(self), hv, is_private, r); }
                r
            } else {
                self.error_at_current("Expected 'var' after 'weak'.");
                None
            }
        } else if self.match_one(TokenKind::Foreign) {
            let r = self.foreign_declaration(is_private);
            proof { self.lemma_decl_spelled(*old(self), hv, is_private, r); }
            r
        } else if self.match_one(TokenKind::Import) {
            if is_private {
                self.error_at_current("Visibility modifiers are not allowed on imports.");
            }
            let r = self.import_declaration();
            proof { self.lemma_decl_spelled(*old(self), hv, is_private, r); }
            r
        } else if self.match_one(TokenKind::Export) {
            if is_private {
                self.error_at_current("Visibility modifiers are not allowed on exports.");
            }
            let r = self.export_declaration();
            proof { self.lemma_decl_spelled(*old(self), hv, is_private, r); }
            r
        } else {
            if is_private {
                self.error_at_current("Visibility modifiers are only allowed on declarations.");
            }
            let r = self.statement();
            proof { self.lemma_decl_spelled(*old(self), hv, is_private, r); }
            r
        };
        if res.is_none() {
            let ghost before = self.current;
            self.synchronize();
            proof {
                lemma_sync_stop_at_least(self.kinds(), step(self.kinds(), before as int));
            }
        }
        res
    }

    /// `if`, `while`, `for`, `return`, a block, or an expression statement.
    fn statement(&mut self) -> (r: Option<Stmt>)
        requires
            old(self).wf(),
        ensures
            final(self).follows(*old(self)),
            r is None ==> final(self).failed_since(*old(self)),
            r is Some ==> final(self).current > old(self).current,
            r matches Some(st) ==> !stmt_private(st.kind),
            r matches Some(st) ==> (final(self).clean_since(*old(self)) ==> stmt_spells(old(self).words(), st,
                final(self).consumed_since(*old(self)))),
            simple_expr_end(old(self).kinds(), old(self).current as int) matches Some(k) ==> (
                (0 <= k < old(self).kinds().len() && old(self).kinds()[k] == TokenKindV::Semicolon) ==> (r is Some
                    && final(self).errors == old(self).errors && final(self).current == k + 1)),
            checks(old(self).kinds(), old(self).current as int, TokenKindV::Return) ==> (
                simple_return_end(old(self).kinds(), old(self).current + 1) matches Some(j) ==> (r is Some
                    && final(self).errors == old(self).errors && final(self).current == j)),
            checks(old(self).kinds(), old(self).current as int, TokenKindV::If) ==> (
                simple_if_end(old(self).kinds(), old(self).current + 1) matches Some(j) ==> (r is Some
                    && final(self).errors == old(self).errors && final(self).current == j)),
        decreases old(self).tokens@.len() - old(self).current, 38int,
    {
        if self.match_one(TokenKind::If) {
            self.if_statement()
        } else if self.match_one(TokenKind::While) {
            self.while_statement()
        } else if self.match_one(TokenKind::For) {
            self.for_statement()
        } else if self.match_one(TokenKind::Return) {
            self.return_statement()
        } else if self.match_one(TokenKind::LeftBrace) {
            self.block()
        } else {
            self.expression_statement()
        }
    }

    /// The rest of an `if` statement, with `else` or `else if`.
    #[verifier::rlimit(80)]
    #[verifier::spinoff_prover]
    fn if_statement(&mut self) -> (r: Option<Stmt>)
        requires
            old(self).wf(),
            old(self).current >= 1,
            old(self).kinds()[old(self).current - 1] == TokenKindV::If,
        ensures
            final(self).follows(*old(self)),
            r is None ==> final(self).failed_since(*old(self)),
            r is Some ==> final(self).current > old(self).current,
            r matches Some(st) ==> (final(self).clean_since(*old(self)) ==> stmt_spells(old(self).words(), st,
                old(self).kinds().subrange(old(self).current - 1, final(self).current as int))),
            r matches Some(st) ==> st.kind is If,
            simple_if_end(old(self).kinds(), old(self).current as int) matches Some(j) ==> (r is Some
                && final(self).errors == old(self).errors && final(self).current == j),
        decreases old(self).tokens@.len() - old(self).current, 30int,
    {
        let start_span = self.previous_span();
        let condition = self.expression()?;
        let ghost a1 = *self;
        if !self.match_one(TokenKind::LeftBrace) {
            self.error_at_current("Expected '{' after if condition.");
            return None;
        }
        let ghost mb = *self;
        let then_branch = self.block()?;
        let ghost a2 = *self;
        let ghost tb = then_branch;
        let mut else_branch: Option<Box<Stmt>> = None;
        let mut end_span = then_branch.span;
        let ghost mut me = *self;
        if self.match_one(TokenKind::Else) {
            if self.match_one(TokenKind::If) {
                proof { me = *self; }
                let e_branch = self.if_statement()?;
                end_span = e_branch.span;
                else_branch = Some(Box::new(e_branch));
            } else if self.match_one(TokenKind::LeftBrace) {
                proof { me = *self; }
                let e_branch = self.block()?;
                end_span = e_branch.span;
                else_branch = Some(Box::new(e_branch));
            } else {
                self.error_at_current("Expected '{' or 'if' after else.");
                return None;
            }
        }
        proof {
            if self.clean_since(*old(self)) {
                let tt = old(self).kinds().subrange(old(self).current - 1, self.current as int);
                let k = a1.current - (old(self).current - 1);
                let j = a2.current - (old(self).current - 1);
                assert(a1.clean_since(*old(self)));
                assert(a2.clean_since(*old(self)));
                assert(tt.subrange(1, k) =~= a1.consumed_since(*old(self)));
                assert(tt.subrange(k, j) =~= self.kinds().subrange(mb.current - 1, a2.current as int));
                if else_branch is Some {
                    assert(tt.skip(j + 1) =~= self.kinds().subrange(me.current - 1, self.current as int));
                }
                assert(picked((k, j)));
            }
        }
        let span = join_spans(start_span, end_span);
        Some(Stmt::new(StmtKind::If { condition, then_branch: Box::new(then_branch), else_branch }, span))
    }

    /// The rest of a `while` statement.
    fn while_statement(&mut self) -> (r: Option<Stmt>)
        requires
            old(self).wf(),
            old(self).current >= 1,
            old(self).kinds()[old(self).current - 1] == TokenKindV::While,
        ensures
            final(self).follows(*old(self)),
            r is None ==> final(self).failed_since(*old(self)),
            r is Some ==> final(self).current > old(self).current,
            r matches Some(st) ==> st.kind is While,
            r matches Some(st) ==> (final(self).clean_since(*old(self)) ==> stmt_spells(old(self).words(), st,
                old(self).kinds().subrange(old(self).current - 1, final(self).current as int))),
        decreases old(self).tokens@.len() - old(self).current, 30int,
    {
        let start_span = self.previous_span();
        let condition = self.expression()?;
        let ghost a1 = *self;
        if !self.match_one(TokenKind::LeftBrace) {
            self.error_at_current("Expected '{' after while condition.");
            return None;
        }
        let ghost mb = *self;
        let body = self.block()?;
        proof {
            if self.clean_since(*old(self)) {
                let tt = old(self).kinds().subrange(old(self).current - 1, self.current as int);
                let k = a1.current - (old(self).current - 1);
                assert(a1.clean_since(*old(self)));
                assert(tt.subrange(1, k) =~= a1.consumed_since(*old(self)));
                assert(tt.skip(k) =~= self.kinds().subrange(mb.current - 1, self.current as int));
                assert(picked(k));
            }
        }
        let span = join_spans(start_span, body.span);
        Some(Stmt::new(StmtKind::While { condition, body: Box::new(body) }, span))
    }

    /// The rest of a `for x in it { ... }` statement.
    fn for_statement(&mut self) -> (r: Option<Stmt>)
        requires
            old(self).wf(),
            old(self).current >= 1,
            old(self).kinds()[old(self).current - 1] == TokenKindV::For,
        ensures
            final(self).follows(*old(self)),
            r is None ==> final(self).failed_since(*old(self)),
            r is Some ==> final(self).current > old(self).current,
            r matches Some(st) ==> st.kind is For,
            r matches Some(st) ==> (final(self).clean_since(*old(self)) ==> stmt_spells(old(self).words(), st,
                old(self).kinds().subrange(old(self).current - 1, final(self).current as int))),
        decreases old(self).tokens@.len() - old(self).current, 30int,
    {
        let start_span = self.previous_span();
        let item_name = match self.peek_identifier() {
            Some(n) => {
                self.advance();
                n
            },
            None => {
                self.error_at_current("Expected item name after 'for'.");
                return None;
            },
        };
        let is_in = match self.peek_identifier() {
            Some(s) => s == self.in_sym,
            None => false,
        };
        if is_in {
            self.advance();
        } else {
            self.error_at_current("Expected 'in' after for item name.");
            return None;
        }
        let ghost m3 = *self;
        let iterator = self.expression()?;
        let ghost a1 = *self;
        if !self.match_one(TokenKind::LeftBrace) {
            self.error_at_current("Expected '{' after for iterator.");
            return None;
        }
        let ghost mb = *self;
        let body = self.block()?;
        proof {
            if self.clean_since(*old(self)) {
                let tt = old(self).kinds().subrange(old(self).current - 1, self.current as int);
                let k = a1.current - (old(self).current - 1);
                assert(a1.clean_since(*old(self)));
                assert(tt.take(3) =~= seq![TokenKindV::For, TokenKindV::Identifier(item_name), TokenKindV::Identifier(old(self).in_sym)]);
                assert(tt.subrange(3, k) =~= a1.consumed_since(m3));
                assert(tt.skip(k) =~= self.kinds().subrange(mb.current - 1, self.current as int));
                assert(picked(k));
            }
        }
        let span = join_spans(start_span, body.span);
        Some(Stmt::new(StmtKind::For { item_name, iterator, body: Box::new(body) }, span))
    }

    /// The rest of a `return` statement, with an optional value.
    fn return_statement(&mut self) -> (r: Option<Stmt>)
        requires
            old(self).wf(),
            old(self).current >= 1,
            old(self).kinds()[old(self).current - 1] == TokenKindV::Return,
        ensures
            final(self).follows(*old(self)),
            r is None ==> final(self).failed_since(*old(self)),
            r is Some ==> final(self).current > old(self).current,
            r matches Some(st) ==> st.kind is Return,
            r matches Some(st) ==> (final(self).clean_since(*old(self)) ==> stmt_spells(old(self).words(), st,
                old(self).kinds().subrange(old(self).current - 1, final(self).current as int))),
            r matches Some(st) ==> (final(self).clean_since(*old(self)) ==> (st.kind matches StmtKind::Return { value } && ({
                let t = final(self).consumed_since(*old(self));
                &&& t.len() >= 1
                &&& t.last() == TokenKindV::Semicolon
                &&& match value {
                    Some(e) => spells(old(self).words(), e, t.drop_last()),
                    None => t.len() == 1,
                }
            }))),
            simple_return_end(old(self).kinds(), old(self).current as int) matches Some(j) ==> (r is Some
                && final(self).errors == old(self).errors && final(self).current == j),
        decreases old(self).tokens@.len() - old(self).current, 30int,
    {
        let start_span = self.previous_span();
        let value = if !self.check(&TokenKind::Semicolon) {
            Some(self.expression()?)
        } else {
            assert(self.consumed_since(*old(self)) =~= Seq::<TokenKindV>::empty());
            None
        };
        let ghost mid = *self;
        if !self.match_one(TokenKind::Semicolon) {
            self.error_at_current("Expected ';' after return value.");
            return None;
        }
        assert(self.consumed_since(*old(self)).drop_last() =~= mid.consumed_since(*old(self)));
        proof {
            let t = self.consumed_since(*old(self));
            let tt = old(self).kinds().subrange(old(self).current - 1, self.current as int);
            assert(tt.subrange(1, tt.len() - 1) =~= t.drop_last());
        }
        let span = join_spans(start_span, self.previous_span());
        Some(Stmt::new(StmtKind::Return { value }, span))
    }

    /// The rest of a block after its `{`.
    fn block(&mut self) -> (r: Option<Stmt>)
        requires
            old(self).wf(),
            old(self).current >= 1,
            old(self).kinds()[old(self).current - 1] == TokenKindV::LeftBrace,
        ensures
            final(self).follows(*old(self)),
            r is None ==> final(self).failed_since(*old(self)),
            r is Some ==> final(self).current > old(self).current,
            r matches Some(st) ==> (final(self).clean_since(*old(self)) ==> stmt_spells(old(self).words(), st,
                old(self).kinds().subrange(old(self).current - 1, final(self).current as int))),
            r matches Some(st) ==> st.kind is Block,
            block_items(old(self).kinds(), old(self).current as int) matches Some(e) ==> (r is Some
                && final(self).errors == old(self).errors && final(self).current == e + 1),
        decreases old(self).tokens@.len() - old(self).current, 45int,
    {
        let start_span = self.previous_span();
        let ghost cb = self.current as int;
        let ghost w = old(self).words();
        let mut statements: Vec<Stmt> = Vec::new();
        assert(self.kinds().subrange(cb, cb) =~= Seq::<TokenKindV>::empty());
        while !self.check(&TokenKind::RightBrace) && !self.is_at_end()
            invariant
                self.follows(*old(self)),
                cb == old(self).current,
                w == old(self).words(),
                self.clean_since(*old(self)) ==> decls_spell(w, statements@, self.kinds().subrange(cb, self.current as int)),
                block_items(old(self).kinds(), old(self).current as int) matches Some(e) ==> (self.errors == old(self).errors
                    && block_items(self.kinds(), self.current as int) == Some(e)),
            decreases self.tokens@.len() - self.current,
        {
            let ghost h = *self;
            let ghost before = statements@;
            match self.declaration() {
                Some(stmt) => {
                    let ghost sv = stmt;
                    statements.push(stmt);
                    proof {
                        if self.clean_since(*old(self)) {
                            let t = self.kinds().subrange(cb, self.current as int);
                            let k = h.current - cb;
                            assert(h.clean_since(*old(self)));
                            assert(statements@.drop_last() =~= before);
                            assert(statements@.last() == sv);
                            assert(t.take(k) =~= self.kinds().subrange(cb, h.current as int));
                            assert(t.skip(k) =~= self.consumed_since(h));
                            assert(picked(k));
                        }
                    }
                },
                None => {},
            }
        }
        let ghost ce = self.current as int;
        if !self.match_one(TokenKind::RightBrace) {
            self.error_at_current("Expected '}' after block.");
            return None;
        }
        proof {
            if self.clean_since(*old(self)) {
                let tt = old(self).kinds().subrange(cb - 1, self.current as int);
                assert(tt.subrange(1, tt.len() - 1) =~= self.kinds().subrange(cb, ce));
            }
        }
        let span = join_spans(start_span, self.previous_span());
        Some(Stmt::new(StmtKind::Block(statements), span))
    }

    /// An expression followed by an optional `;`.
    fn expression_statement(&mut self) -> (r: Option<Stmt>)
        requires
            old(self).wf(),
        ensures
            final(self).follows(*old(self)),
            r is None ==> final(self).failed_since(*old(self)),
            r is Some ==> final(self).current > old(self).current,
            r matches Some(st) ==> st.kind is Expression,
            r matches Some(st) ==> (final(self).clean_since(*old(self)) ==> (st.kind matches StmtKind::Expression(e) && ({
                let t = final(self).consumed_since(*old(self));
                spells(old(self).words(), e, t)
                    || (t.len() >= 1 && t.last() == TokenKindV::Semicolon && spells(old(self).words(), e, t.drop_last()))
            }))),
            simple_expr_end(old(self).kinds(), old(self).current as int) matches Some(k) ==> (
                (0 <= k < old(self).kinds().len() && old(self).kinds()[k] == TokenKindV::Semicolon) ==> (r is Some
                    && final(self).errors == old(self).errors && final(self).current == k + 1)),
        decreases old(self).tokens@.len() - old(self).current, 37int,
    {
        let expr = self.expression()?;
        let ghost mid = *self;
        let _ = self.match_one(TokenKind::Semicolon);
        proof {
            if self.current > mid.current {
                assert(self.consumed_since(*old(self)).drop_last() =~= mid.consumed_since(*old(self)));
            }
        }
        let span = expr.span;
        Some(Stmt::new(StmtKind::Expression(expr), span))
    }

    /// The rest of `let`/`var`/`weak var`: a name, an optional type and an optional initializer.
    #[verifier::rlimit(100)]
    #[verifier::spinoff_prover]
    fn variable_declaration(&mut self, is_var: bool, is_weak: bool, is_private: bool) -> (r: Option<Stmt>)
        requires
            old(self).wf(),
            old(self).current >= 1,
            is_weak ==> is_var,
            if is_weak {
                old(self).current >= 2 && old(self).kinds()[old(self).current - 2] == TokenKindV::Weak
                    && old(self).kinds()[old(self).current - 1] == TokenKindV::Var
            } else if is_var {
                old(self).kinds()[old(self).current - 1] == TokenKindV::Var
            } else {
                old(self).kinds()[old(self).current - 1] == TokenKindV::Let
            },
        ensures
            final(self).follows(*old(self)),
            r is None ==> final(self).failed_since(*old(self)),
            r is Some ==> final(self).current > old(self).current,
            r matches Some(st) ==> (st.kind is Let || st.kind is Var),
            r matches Some(st) ==> (final(self).clean_since(*old(self)) ==> stmt_spells(old(self).words(), st,
                old(self).kinds().subrange(old(self).current - (if is_weak { 2int } else { 1int }), final(self).current as int))),
            r matches Some(st) ==> (final(self).clean_since(*old(self)) ==> match st.kind {
                StmtKind::Var { name, type_annotation, initializer, is_weak: iw, is_private: ip } => is_var && iw == is_weak
                    && ip == is_private
                    && variable_spells(old(self).words(), name, type_annotation, initializer, final(self).consumed_since(*old(self))),
                StmtKind::Let { name, type_annotation, initializer, is_private: ip } => !is_var && ip == is_private
                    && variable_spells(old(self).words(), name, type_annotation, initializer, final(self).consumed_since(*old(self))),
                _ => false,
            }),
            simple_var_end(old(self).kinds(), old(self).current as int) matches Some(j) ==> (r is Some
                && final(self).errors == old(self).errors && final(self).current == j),
        decreases old(self).tokens@.len() - old(self).current, 35int,
    {
        let start_span = self.previous_span();
        let name = match self.peek_identifier() {
            Some(n) => {
                self.advance();
                n
            },
            None => {
                self.error_at_current("Expected variable name.");
                return None;
            },
        };
        let ghost c1 = self.current as int;
        let type_annotation = if self.match_one(TokenKind::Colon) {
            Some(self.parse_type_expr()?)
        } else {
            None
        };
        let ghost ca = self.current as int;
        assert(self.kinds().subrange(old(self).current as int, ca)
            =~= seq![TokenKindV::Identifier(name)] + opt_type_tokens(TokenKindV::Colon, type_annotation));
        let initializer = if self.match_one(TokenKind::Equal) {
            let ghost mid = *self;
            let e = self.expression()?;
            proof {
                if self.clean_since(*old(self)) {
                    assert(self.kinds().subrange(ca + 1, self.current as int) =~= self.consumed_since(mid));
                }
            }
            Some(e)
        } else {
            None
        };
        let ghost ce = self.current as int;
        let _ = self.match_one(TokenKind::Semicolon);
        proof {
            if self.clean_since(*old(self)) {
                let t = self.consumed_since(*old(self));
                let hl = ca - old(self).current;
                let u = t.skip(hl);
                assert(t.take(hl) =~= self.kinds().subrange(old(self).current as int, ca));
                assert(u =~= self.kinds().subrange(ca, self.current as int));
                match &initializer {
                    Some(v) => {
                        assert(u.skip(1) =~= self.kinds().subrange(ca + 1, self.current as int));
                        if self.current as int > ce {
                            assert(u.subrange(1, u.len() - 1) =~= self.kinds().subrange(ca + 1, ce));
                        }
                    },
                    None => {
                        if self.current as int > ce {
                            assert(u =~= seq![TokenKindV::Semicolon]);
                        } else {
                            assert(u =~= Seq::<TokenKindV>::empty());
                        }
                    },
                }
            }
        }
        proof {
            if self.clean_since(*old(self)) {
                let t = self.consumed_since(*old(self));
                let d: int = if is_weak { 2 } else { 1 };
                let tt = old(self).kinds().subrange(old(self).current - d, self.current as int);
                assert(tt.skip(d) =~= t);
            }
        }
        let span = join_spans(start_span, self.previous_span());
        let kind = if is_var {
            StmtKind::Var { name, type_annotation, initializer, is_weak, is_private }
        } else {
            StmtKind::Let { name, type_annotation, initializer, is_private }
        };
        Some(Stmt::new(kind, span))
    }

    /// `(name: Type, ...)` parameter list, after the `(` and up to and
    /// including the `)`.
    fn parse_params(&mut self) -> (r: Option<Vec<(Symbol, TypeExpr)>>)
        requires
            old(self).wf(),
        ensures
            final(self).follows(*old(self)),
            r is None ==> final(self).failed_since(*old(self)),
            r is Some ==> final(self).current > old(self).current,
            r matches Some(ps) ==> final(self).errors == old(self).errors
                && final(self).consumed_since(*old(self)) == params_tokens(ps@) + seq![TokenKindV::RightParen],
            simple_params(old(self).kinds(), old(self).current as int) matches Some(j) ==> (r is Some
                && final(self).errors == old(self).errors && final(self).current == j),
        decreases old(self).tokens@.len() - old(self).current, 12int,
    {
        let mut params: Vec<(Symbol, TypeExpr)> = Vec::new();
        assert(self.consumed_since(*old(self)) =~= Seq::<TokenKindV>::empty());
        if !self.check(&TokenKind::RightParen) {
            loop
                invariant_except_break
                    self.consumed_since(*old(self)) == (if params@.len() == 0 { Seq::<TokenKindV>::empty() } else {
                        params_tokens(params@) + seq![TokenKindV::Comma] }),
                    simple_params(old(self).kinds(), old(self).current as int) matches Some(j) ==>
                        params_from(self.kinds(), self.current as int) == Some(j),
                invariant
                    self.follows(*old(self)),
                    self.errors == old(self).errors,
                ensures
                    self.follows(*old(self)),
                    self.errors == old(self).errors,
                    self.consumed_since(*old(self)) == params_tokens(params@),
                    simple_params(old(self).kinds(), old(self).current as int) matches Some(j) ==>
                        (checks(self.kinds(), self.current as int, TokenKindV::RightParen) && j == self.current + 1),
                decreases self.tokens@.len() - self.current,
            {
                let ghost c_iter = self.current;
                let ghost before = params@;
                let param_name = match self.peek_identifier() {
                    Some(n) => {
                        self.advance();
                        n
                    },
                    None => {
                        self.error_at_current("Expected parameter name.");
                        return None;
                    },
                };
                if !self.match_one(TokenKind::Colon) {
                    self.error_at_current("Expected ':' after parameter name.");
                    return None;
                }
                let ghost mt = *self;
                let param_type = self.parse_type_expr()?;
                params.push((param_name, param_type));
                proof {
                    assert(params@.drop_last() =~= before);
                    assert(self.kinds().subrange(c_iter as int, self.current as int) =~= param_tokens((param_name, param_type)));
                    assert(self.consumed_since(*old(self)) =~= self.kinds().subrange(old(self).current as int, c_iter as int)
                        + self.kinds().subrange(c_iter as int, self.current as int));
                    if before.len() >= 1 {
                        assert(params_tokens(params@) =~= params_tokens(before) + seq![TokenKindV::Comma]
                            + param_tokens((param_name, param_type)));
                    }
                }
                if !self.match_one(TokenKind::Comma) {
                    break;
                }
                assert(self.consumed_since(*old(self)) =~= params_tokens(params@) + seq![TokenKindV::Comma]);
            }
        }
        let ghost br = *self;
        if !self.match_one(TokenKind::RightParen) {
            self.error_at_current("Expected ')' after parameters.");
            return None;
        }
        assert(self.consumed_since(*old(self)) =~= br.consumed_since(*old(self)) + seq![TokenKindV::RightParen]);
        Some(params)
    }

    /// The rest of a function declaration after `func`.
    #[verifier::rlimit(80)]
    #[verifier::spinoff_prover]
    fn function_declaration(&mut self, is_private: bool) -> (r: Option<Stmt>)
        requires
            old(self).wf(),
            old(self).current >= 1,
            old(self).kinds()[old(self).current - 1] == TokenKindV::Func,
        ensures
            final(self).follows(*old(self)),
            r is None ==> final(self).failed_since(*old(self)),
            r is Some ==> final(self).current > old(self).current,
            r matches Some(st) ==> (final(self).clean_since(*old(self)) ==> stmt_spells(old(self).words(), st,
                old(self).kinds().subrange(old(self).current - 1, final(self).current as int))),
            r matches Some(st) ==> st.kind is Func && stmt_private(st.kind) == is_private,
            simple_func_end(old(self).kinds(), old(self).current as int) matches Some(j) ==> (r is Some
                && final(self).errors == old(self).errors && final(self).current == j),
        decreases old(self).tokens@.len() - old(self).current, 35int,
    {
        let start_span = self.previous_span();
        let name = match self.peek_identifier() {
            Some(n) => {
                self.advance();
                n
            },
            None => {
                self.error_at_current("Expected function name.");
                return None;
            },
        };
        let ghost c1 = self.current as int;
        let type_params = self.parse_type_params()?;
        let ghost ck = self.current as int;
        if !self.match_one(TokenKind::LeftParen) {
            self.error_at_current("Expected '(' after function name.");
            return None;
        }
        let ghost cp = self.current as int;
        let params = self.parse_params()?;
        let ghost cr = self.current as int;
        let return_type = if self.match_one(TokenKind::Arrow) {
            Some(self.parse_type_expr()?)
        } else {
            None
        };
        let ghost cm = self.current as int;
        if !self.match_one(TokenKind::LeftBrace) {
            self.error_at_current("Expected '{' before function body.");
            return None;
        }
        let body = self.block()?;
        proof {
            if self.clean_since(*old(self)) {
                let tt = old(self).kinds().subrange(old(self).current - 1, self.current as int);
                let u = tt.skip(1);
                let k = ck - old(self).current;
                let m = cm - old(self).current;
                assert(self.kinds().subrange(cr, cm) =~= opt_type_tokens(TokenKindV::Arrow, return_type));
                assert(u.subrange(1, k) =~= self.kinds().subrange(c1, ck));
                assert(u.subrange(k, m) =~= seq![TokenKindV::LeftParen] + self.kinds().subrange(cp, cr) + self.kinds().subrange(cr, cm));
                assert(u.subrange(k, m) =~= signature_tokens(params@, return_type));
                assert(u.skip(m) =~= self.kinds().subrange(cm, self.current as int));
                assert(picked((k, m)));
            }
        }
        let span = join_spans(start_span, body.span);
        Some(Stmt::new(StmtKind::Func { name, type_params, params, return_type, body: Box::new(body), is_private }, span))
    }

    /// The rest of a constructor after `init`: a function named `init` returning `Void`.
    fn init_declaration(&mut self, is_private: bool) -> (r: Option<Stmt>)
        requires
            old(self).wf(),
            old(self).current >= 1,
            old(self).kinds()[old(self).current - 1] == TokenKindV::Init,
        ensures
            final(self).follows(*old(self)),
            r is None ==> final(self).failed_since(*old(self)),
            r is Some ==> final(self).current > old(self).current,
            r matches Some(st) ==> (final(self).clean_since(*old(self)) ==> stmt_spells(old(self).words(), st,
                seq![TokenKindV::Func] + old(self).kinds().subrange(old(self).current - 1, final(self).current as int))),
            r matches Some(st) ==> st.kind is Func && stmt_private(st.kind) == is_private,
        decreases old(self).tokens@.len() - old(self).current, 35int,
    {
        let start_span = self.previous_span();
        let name = self.init_sym;
        if !self.match_one(TokenKind::LeftParen) {
            self.error_at_current("Expected '(' after init.");
            return None;
        }
        let ghost cp = self.current as int;
        let params = self.parse_params()?;
        let return_type = Some(TypeExpr::Named(self.void_sym));
        let ghost cm = self.current as int;
        if !self.match_one(TokenKind::LeftBrace) {
            self.error_at_current("Expected '{' before init body.");
            return None;
        }
        let body = self.block()?;
        proof {
            if self.clean_since(*old(self)) {
                let tt = seq![TokenKindV::Func] + old(self).kinds().subrange(old(self).current - 1, self.current as int);
                let u = tt.skip(1);
                let m = cm - old(self).current + 1;
                assert(u =~= old(self).kinds().subrange(old(self).current - 1, self.current as int));
                assert(u.subrange(1, m) =~= seq![TokenKindV::LeftParen] + self.kinds().subrange(cp, cm));
                assert(u.subrange(1, m) =~= signature_tokens(params@, None));
                assert(u.skip(m) =~= self.kinds().subrange(cm, self.current as int));
                assert(picked(m));
            }
        }
        let no_type_params: Vec<Symbol> = Vec::new();
        let span = join_spans(start_span, body.span);
        Some(Stmt::new(StmtKind::Func {
            name,
            type_params: no_type_params,
            params,
            return_type,
            body: Box::new(body),
            is_private,
        }, span))
    }

    /// The rest of `foreign func name<T>(params) -> Type;`.
    fn foreign_declaration(&mut self, is_private: bool) -> (r: Option<Stmt>)
        requires
            old(self).wf(),
            old(self).current >= 1,
            old(self).kinds()[old(self).current - 1] == TokenKindV::Foreign,
        ensures
            final(self).follows(*old(self)),
            r is None ==> final(self).failed_since(*old(self)),
            r is Some ==> final(self).current > old(self).current,
            r matches Some(st) ==> (final(self).clean_since(*old(self)) ==> stmt_spells(old(self).words(), st,
                old(self).kinds().subrange(old(self).current - 1, final(self).current as int))),
            r matches Some(st) ==> (final(self).errors == old(self).errors
                && (st.kind matches StmtKind::ForeignFunc { name, type_params, params, return_type, is_private: ip }
                && ip == is_private && ({
                    let t = final(self).consumed_since(*old(self));
                    exists|k: int| #[trigger] picked(k) && 2 <= k <= t.len()
                        && t.take(2) == seq![TokenKindV::Func, TokenKindV::Identifier(name)]
                        && type_params_spell(type_params@, t.subrange(2, k))
                        && t.skip(k) == signature_tokens(params@, return_type) + seq![TokenKindV::Semicolon]
                }))),
        decreases old(self).tokens@.len() - old(self).current, 35int,
    {
        let start_span = self.previous_span();
        if !self.match_one(TokenKind::Func) {
            self.error_at_current("Expected 'func' after 'foreign'.");
            return None;
        }
        let name = match self.peek_identifier() {
            Some(n) => {
                self.advance();
                n
            },
            None => {
                self.error_at_current("Expected foreign function name.");
                return None;
            },
        };
        let ghost c2 = self.current as int;
        let type_params = self.parse_type_params()?;
        let ghost ck = self.current as int;
        if !self.match_one(TokenKind::LeftParen) {
            self.error_at_current("Expected '(' after foreign function name.");
            return None;
        }
        let ghost cp = self.current as int;
        let params = self.parse_params()?;
        let ghost cr = self.current as int;
        let return_type = if self.match_one(TokenKind::Arrow) {
            Some(self.parse_type_expr()?)
        } else {
            None
        };
        let ghost cs = self.current as int;
        if !self.match_one(TokenKind::Semicolon) {
            self.error_at_current("Expected ';' after foreign function declaration.");
            return None;
        }
        proof {
            let t = self.consumed_since(*old(self));
            let k = ck - old(self).current;
            assert(self.kinds().subrange(cr, cs) =~= opt_type_tokens(TokenKindV::Arrow, return_type));
            assert(t.take(2) =~= seq![TokenKindV::Func, TokenKindV::Identifier(name)]);
            assert(t.subrange(2, k) =~= self.kinds().subrange(c2, ck));
            assert(t.skip(k) =~= seq![TokenKindV::LeftParen] + self.kinds().subrange(cp, cr) + self.kinds().subrange(cr, cs)
                + seq![TokenKindV::Semicolon]);
            assert(t.skip(k) =~= signature_tokens(params@, return_type) + seq![TokenKindV::Semicolon]);
            assert(picked(k));
            let tt = old(self).kinds().subrange(old(self).current - 1, self.current as int);
            assert(tt.subrange(1, 3) =~= t.take(2));
            assert(tt.subrange(3, k + 1) =~= t.subrange(2, k));
            assert(tt.skip(k + 1) =~= t.skip(k));
            assert(picked(k + 1));
        }
        let span = join_spans(start_span, self.previous_span());
        Some(Stmt::new(StmtKind::ForeignFunc { name, type_params, params, return_type, is_private }, span))
    }

    /// A method signature inside an interface: a function with an empty body.
    fn interface_method_declaration(&mut self, is_private: bool) -> (r: Option<Stmt>)
        requires
            old(self).wf(),
            old(self).current >= 1,
        ensures
            final(self).follows(*old(self)),
            r is None ==> final(self).failed_since(*old(self)),
            r is Some ==> final(self).current > old(self).current,
            r matches Some(st) ==> final(self).errors == old(self).errors && func_private(st.kind) == is_private
                && method_sig_spells(st.kind, final(self).consumed_since(*old(self))),
        decreases old(self).tokens@.len() - old(self).current, 35int,
    {
        let start_span = self.previous_span();
        let name = match self.peek_identifier() {
            Some(n) => {
                self.advance();
                n
            },
            None => {
                self.error_at_current("Expected method name.");
                return None;
            },
        };
        if !self.match_one(TokenKind::LeftParen) {
            self.error_at_current("Expected '(' after method name.");
            return None;
        }
        let ghost cp = self.current as int;
        let params = self.parse_params()?;
        let ghost cr = self.current as int;
        let return_type = if self.match_one(TokenKind::Arrow) {
            Some(self.parse_type_expr()?)
        } else {
            None
        };
        let ghost cs = self.current as int;
        if !self.match_one(TokenKind::Semicolon) {
            self.error_at_current("Expected ';' after interface method declaration.");
            return None;
        }
        assert(self.kinds().subrange(cr, cs) =~= opt_type_tokens(TokenKindV::Arrow, return_type));
        assert(self.consumed_since(*old(self)) =~= seq![TokenKindV::Identifier(name), TokenKindV::LeftParen]
            + self.kinds().subrange(cp, cr) + self.kinds().subrange(cr, cs) + seq![TokenKindV::Semicolon]);
        assert(self.consumed_since(*old(self)) =~= seq![TokenKindV::Identifier(name)] + signature_tokens(params@, return_type)
            + seq![TokenKindV::Semicolon]);
        let span = join_spans(start_span, self.previous_span());
        let no_statements: Vec<Stmt> = Vec::new();
        let empty_body = Box::new(Stmt::new(StmtKind::Block(no_statements), span));
        let no_type_params: Vec<Symbol> = Vec::new();
        Some(Stmt::new(StmtKind::Func {
            name,
            type_params: no_type_params,
            params,
            return_type,
            body: empty_body,
            is_private,
        }, span))
    }

    /// The rest of an interface declaration: a name and method signatures.
    fn interface_declaration(&mut self, is_private: bool) -> (r: Option<Stmt>)
        requires
            old(self).wf(),
            old(self).current >= 1,
            old(self).kinds()[old(self).current - 1] == TokenKindV::Interface,
        ensures
            final(self).follows(*old(self)),
            r is None ==> final(self).failed_since(*old(self)),
            r is Some ==> final(self).current > old(self).current,
            r matches Some(st) ==> (final(self).clean_since(*old(self)) ==> stmt_spells(old(self).words(), st,
                old(self).kinds().subrange(old(self).current - 1, final(self).current as int))),
            r matches Some(st) ==> (final(self).clean_since(*old(self)) ==> (st.kind matches StmtKind::Interface { name, methods, is_private: ip }
                && ip == is_private && ({
                    let t = final(self).consumed_since(*old(self));
                    &&& t.len() >= 3
                    &&& t.take(2) == seq![TokenKindV::Identifier(name), TokenKindV::LeftBrace]
                    &&& t.last() == TokenKindV::RightBrace
                    &&& interface_members_spell(methods@, t.subrange(2, t.len() - 1))
                }))),
        decreases old(self).tokens@.len() - old(self).current, 36int,
    {
        let start_span = self.previous_span();
        let name = match self.peek_identifier() {
            Some(n) => {
                self.advance();
                n
            },
            None => {
                self.error_at_current("Expected interface name.");
                return None;
            },
        };
        if !self.match_one(TokenKind::LeftBrace) {
            self.error_at_current("Expected '{' before interface body.");
            return None;
        }
        let ghost cb = self.current as int;
        let ghost before_body = *self;
        let mut methods: Vec<Stmt> = Vec::new();
        assert(self.kinds().subrange(cb, cb) =~= Seq::<TokenKindV>::empty());
        while !self.check(&TokenKind::RightBrace) && !self.is_at_end()
            invariant
                self.follows(*old(self)),
                self.follows(before_body),
                self.current > old(self).current,
                0 <= cb <= self.current,
                cb == before_body.current,
                self.clean_since(*old(self)) ==> interface_members_spell(methods@, self.kinds().subrange(cb, self.current as int)),
            decreases self.tokens@.len() - self.current,
        {
            let ghost h = *self;
            let ghost before = methods@;
            let item_is_private = self.parse_visibility();
            let ghost hv = *self;
            if self.match_one(TokenKind::Func) {
                let ghost hf = *self;
                match self.interface_method_declaration(item_is_private) {
                    Some(method) => {
                        let ghost mk = method.kind;
                        methods.push(method);
                        proof {
                            if self.clean_since(*old(self)) {
                                let t = self.kinds().subrange(cb, self.current as int);
                                let k = h.current - cb;
                                let j = hv.current - cb;
                                assert(h.clean_since(*old(self)));
                                assert(methods@.drop_last() =~= before);
                                assert(methods@.last().kind == mk);
                                assert(t.take(k) =~= self.kinds().subrange(cb, h.current as int));
                                assert(t.subrange(k, j) =~= hv.consumed_since(h));
                                assert(t.skip(j + 1) =~= self.consumed_since(hf));
                                assert(picked((k, j)));
                            }
                        }
                    },
                    None => {},
                }
            } else {
                self.error_at_current("Expected method signature inside interface.");
                self.advance();
            }
        }
        let ghost ce = self.current as int;
        if !self.match_one(TokenKind::RightBrace) {
            self.error_at_current("Expected '}' after interface body.");
            return None;
        }
        proof {
            if self.clean_since(*old(self)) {
                let t = self.consumed_since(*old(self));
                assert(t.take(2) =~= seq![TokenKindV::Identifier(name), TokenKindV::LeftBrace]);
                assert(t.subrange(2, t.len() - 1) =~= self.kinds().subrange(cb, ce));
                let tt = old(self).kinds().subrange(old(self).current - 1, self.current as int);
                assert(tt.subrange(1, 3) =~= t.take(2));
                assert(tt.subrange(3, tt.len() - 1) =~= t.subrange(2, t.len() - 1));
            }
        }
        let span = join_spans(start_span, self.previous_span());
        Some(Stmt::new(StmtKind::Interface { name, methods, is_private }, span))
    }

    /// The rest of a class declaration: name, type parameters, implemented interfaces, fields and methods.
    fn class_declaration(&mut self, is_private: bool) -> (r: Option<Stmt>)
        requires
            old(self).wf(),
            old(self).current >= 1,
            old(self).kinds()[old(self).current - 1] == TokenKindV::Class,
        ensures
            final(self).follows(*old(self)),
            r is None ==> final(self).failed_since(*old(self)),
            r is Some ==> final(self).current > old(self).current,
            r matches Some(st) ==> (final(self).clean_since(*old(self)) ==> stmt_spells(old(self).words(), st,
                old(self).kinds().subrange(old(self).current - 1, final(self).current as int))),
            r matches Some(st) ==> stmt_private(st.kind) == is_private,
            empty_class_at(old(self).kinds(), old(self).current as int) ==> (r is Some
                && final(self).errors == old(self).errors && final(self).current == old(self).current + 3),
        decreases old(self).tokens@.len() - old(self).current, 36int,
    {
        let start_span = self.previous_span();
        let name = match self.peek_identifier() {
            Some(n) => {
                self.advance();
                n
            },
            None => {
                self.error_at_current("Expected class name.");
                return None;
            },
        };
        let ghost c1 = self.current as int;
        let type_params = self.parse_type_params()?;
        let ghost ck = self.current as int;
        let mut implements: Vec<Symbol> = Vec::new();
        if self.match_one(TokenKind::Implements) {
            let ghost ci = self.current as int;
            assert(self.kinds().subrange(ci, ci) =~= Seq::<TokenKindV>::empty());
            loop
                invariant_except_break
                    self.kinds().subrange(ci, self.current as int) == names_then_comma(implements@),
                invariant
                    self.follows(*old(self)),
                    self.errors == old(self).errors,
                    self.current > old(self).current,
                    0 <= ci <= self.current,
                    !empty_class_at(old(self).kinds(), old(self).current as int),
                ensures
                    self.follows(*old(self)),
                    self.errors == old(self).errors,
                    self.current > old(self).current,
                    implements@.len() >= 1,
                    0 <= ci <= self.current,
                    self.kinds().subrange(ci, self.current as int) == names_tokens(implements@),
                decreases self.tokens@.len() - self.current,
            {
                let ghost before = implements@;
                match self.peek_identifier() {
                    Some(i) => {
                        self.advance();
                        implements.push(i);
                        proof {
                            if before.len() >= 1 {
                                assert(implements@.drop_last() =~= before);
                            }
                            assert(self.kinds().subrange(ci, self.current as int) =~= names_then_comma(before)
                                + seq![TokenKindV::Identifier(i)]);
                            assert(names_tokens(implements@) =~= names_then_comma(before) + seq![TokenKindV::Identifier(i)]);
                        }
                    },
                    None => {
                        self.error_at_current("Expected interface name.");
                        return None;
                    },
                }
                if !self.match_one(TokenKind::Comma) {
                    break;
                }
                assert(self.kinds().subrange(ci, self.current as int) =~= names_tokens(implements@) + seq![TokenKindV::Comma]);
            }
            assert(self.kinds().subrange(ck, self.current as int) =~= name_clause_tokens(TokenKindV::Implements, implements@));
        } else {
            assert(self.kinds().subrange(ck, self.current as int) =~= name_clause_tokens(TokenKindV::Implements, implements@));
        }
        let ghost cm = self.current as int;
        let ghost header = *self;
        if !self.match_one(TokenKind::LeftBrace) {
            self.error_at_current("Expected '{' before class body.");
            return None;
        }
        let ghost cb = self.current as int;
        let ghost w = old(self).words();
        let ghost tpv = type_params;
        let ghost impv = implements;
        let mut fields: Vec<Stmt> = Vec::new();
        let mut methods: Vec<Stmt> = Vec::new();
        assert(self.kinds().subrange(cb, cb) =~= Seq::<TokenKindV>::empty());
        while !self.check(&TokenKind::RightBrace) && !self.is_at_end()
            invariant
                self.follows(*old(self)),
                self.current > old(self).current,
                0 <= cb <= self.current,
                w == old(self).words(),
                self.clean_since(*old(self)) ==> class_members_spell(w,
                    class_stmt(name, tpv, impv, methods, fields, is_private, start_span),
                    fields@.len(), methods@.len(), self.kinds().subrange(cb, self.current as int)),
                empty_class_at(old(self).kinds(), old(self).current as int) ==> (self.current == cb
                    && cb == old(self).current + 2 && self.errors == old(self).errors),
            decreases self.tokens@.len() - self.current,
        {
            let ghost h = *self;
            let ghost c_old = class_stmt(name, tpv, impv, methods, fields, is_private, start_span);
            let item_is_private = self.parse_visibility();
            let ghost hv = *self;
            if self.match_one(TokenKind::Let) {
                let r = self.variable_declaration(false, false, item_is_private);
                proof { self.lemma_decl_spelled(h, hv, item_is_private, r); }
                match r {
                    Some(field) => {
                        let ghost fv = field;
                        fields.push(field);
                        proof {
                            self.lemma_member_pushed(*old(self), cb, h, c_old,
                                class_stmt(name, tpv, impv, methods, fields, is_private, start_span), true, fv);
                        }
                    },
                    None => {},
                }
            } else if self.match_one(TokenKind::Var) {
                let r = self.variable_declaration(true, false, item_is_private);
                proof { self.lemma_decl_spelled(h, hv, item_is_private, r); }
                match r {
                    Some(field) => {
                        let ghost fv = field;
                        fields.push(field);
                        proof {
                            self.lemma_member_pushed(*old(self), cb, h, c_old,
                                class_stmt(name, tpv, impv, methods, fields, is_private, start_span), true, fv);
                        }
                    },
                    None => {},
                }
            } else if self.match_one(TokenKind::Weak) {
                if self.match_one(TokenKind::Var) {
                    let r = self.variable_declaration(true, true, item_is_private);
                    proof { self.lemma_decl_spelled(h, hv, item_is_private, r); }
                    match r {
                        Some(field) => {
                            let ghost fv = field;
                            fields.push(field);
                            proof {
                                self.lemma_member_pushed(*old(self), cb, h, c_old,
                                    class_stmt(name, tpv, impv, methods, fields, is_private, start_span), true, fv);
                            }
                        },
                        None => {},
                    }
                } else {
                    self.error_at_current("Expected 'var' after 'weak'.");
                }
            } else if self.match_one(TokenKind::Func) {
                if self.match_one(TokenKind::Init) {
                    let ghost mi = *self;
                    let r = self.init_declaration(item_is_private);
                    proof {
                        if r is Some && self.clean_since(h) {
                            assert(seq![TokenKindV::Func] + mi.kinds().subrange(mi.current - 1, self.current as int)
                                =~= self.kinds().subrange(hv.current as int, self.current as int));
                        }
                        self.lemma_decl_spelled(h, hv, item_is_private, r);
                    }
                    match r {
                        Some(init_method) => {
                            let ghost mv = init_method;
                            methods.push(init_method);
                            proof {
                                self.lemma_member_pushed(*old(self), cb, h, c_old,
                                    class_stmt(name, tpv, impv, methods, fields, is_private, start_span), false, mv);
                            }
                        },
                        None => {},
                    }
                } else {
                    let r = self.function_declaration(item_is_private);
                    proof { self.lemma_decl_spelled(h, hv, item_is_private, r); }
                    match r {
                        Some(method) => {
                            let ghost mv = method;
                            methods.push(method);
                            proof {
                                self.lemma_member_pushed(*old(self), cb, h, c_old,
                                    class_stmt(name, tpv, impv, methods, fields, is_private, start_span), false, mv);
                            }
                        },
                        None => {},
                    }
                }
            } else if self.match_one(TokenKind::Init) {
                self.error_at_current("Constructors must be declared with 'func init'.");
                match self.init_declaration(false) {
                    Some(init_method) => methods.push(init_method),
                    None => {},
                }
            } else {
                self.error_at_current("Expected property or method inside class.");
                self.advance();
            }
        }
        let ghost ce = self.current as int;
        if !self.match_one(TokenKind::RightBrace) {
            self.error_at_current("Expected '}' after class body.");
            return None;
        }
        let span = join_spans(start_span, self.previous_span());
        let ghost cg = class_stmt(name, tpv, impv, methods, fields, is_private, start_span);
        let ghost fl = fields@.len();
        let ghost ml = methods@.len();
        let result = Stmt::new(StmtKind::Class { name, type_params, implements, methods, fields, is_private }, span);
        proof {
            if self.clean_since(*old(self)) {
                assert(header.clean_since(*old(self)));
                lemma_class_members_prefix(w, cg, result, fl, ml);
                let tt = old(self).kinds().subrange(old(self).current - 1, self.current as int);
                let k = ck - old(self).current + 1;
                let m = cm - old(self).current + 1;
                assert(tt.subrange(2, k) =~= self.kinds().subrange(c1, ck));
                assert(tt.subrange(k, m) =~= self.kinds().subrange(ck, cm));
                assert(tt.subrange(m + 1, tt.len() - 1) =~= self.kinds().subrange(cb, ce));
                assert(picked((k, m)));
            }
        }
        Some(result)
    }

    /// The rest of an enum declaration: name, type parameters and variants, each with optional fields `(name: Type, Type)`.
    fn enum_declaration(&mut self, is_private: bool) -> (r: Option<Stmt>)
        requires
            old(self).wf(),
            old(self).current >= 1,
            old(self).kinds()[old(self).current - 1] == TokenKindV::Enum,
        ensures
            final(self).follows(*old(self)),
            r is None ==> final(self).failed_since(*old(self)),
            r is Some ==> final(self).current > old(self).current,
            r matches Some(st) ==> (final(self).clean_since(*old(self)) ==> stmt_spells(old(self).words(), st,
                old(self).kinds().subrange(old(self).current - 1, final(self).current as int))),
            r matches Some(st) ==> (final(self).errors == old(self).errors
                && (st.kind matches StmtKind::Enum { name, type_params, variants, is_private: ip } && ip == is_private && ({
                    let t = final(self).consumed_since(*old(self));
                    exists|k: int| #[trigger] picked(k) && 1 <= k < t.len() - 1
                        && t[0] == TokenKindV::Identifier(name)
                        && type_params_spell(type_params@, t.subrange(1, k))
                        && t[k] == TokenKindV::LeftBrace
                        && t.last() == TokenKindV::RightBrace
                        && variants_spell(variants@, t.subrange(k + 1, t.len() - 1))
                }))),
            plain_enum(old(self).kinds(), old(self).current as int) matches Some((name, ns, e)) ==> {
                &&& final(self).errors == old(self).errors
                &&& final(self).current == e + 1
                &&& r matches Some(st)
                &&& st.kind matches StmtKind::Enum { name: n, type_params, variants, is_private: ip }
                &&& n == name && type_params@.len() == 0 && ip == is_private
                &&& variants@ == ns.map_values(|x: Symbol| plain_variant(x))
            },
        decreases old(self).tokens@.len() - old(self).current, 36int,
    {
        let start_span = self.previous_span();
        let name = match self.peek_identifier() {
            Some(n) => {
                self.advance();
                n
            },
            None => {
                self.error_at_current("Expected enum name.");
                return None;
            },
        };
        let ghost c1 = self.current as int;
        let type_params = self.parse_type_params()?;
        let ghost ck = self.current as int;
        if !self.match_one(TokenKind::LeftBrace) {
            self.error_at_current("Expected '{' before enum body.");
            return None;
        }
        let ghost cb = self.current as int;
        let ghost before_body = *self;
        let mut variants: Vec<EnumVariant> = Vec::new();
        assert(self.kinds().subrange(cb, cb) =~= Seq::<TokenKindV>::empty());
        proof {
            if let Some((nm, ns, e)) = plain_enum(old(self).kinds(), old(self).current as int) {
                assert(ns.skip(0) =~= ns);
                assert(ns.take(0).map_values(|x: Symbol| plain_variant(x)) =~= variants@);
            }
        }
        while !self.check(&TokenKind::RightBrace) && !self.is_at_end()
            invariant
                self.follows(*old(self)),
                self.follows(before_body),
                self.errors == old(self).errors,
                self.current > old(self).current,
                0 <= cb <= self.current,
                cb == before_body.current,
                variants_spell(variants@, self.kinds().subrange(cb, self.current as int)),
                plain_enum(old(self).kinds(), old(self).current as int) matches Some((nm, ns, e)) ==> (
                    plain_variants_from(self.kinds(), cb) == Some((ns, e))
                    && plain_variants_from(self.kinds(), self.current as int) == Some((ns.skip(variants@.len() as int), e))
                    && variants@.len() <= ns.len()
                    && variants@ == ns.take(variants@.len() as int).map_values(|x: Symbol| plain_variant(x))),
            decreases self.tokens@.len() - self.current,
        {
            let ghost c_iter = self.current;
            let ghost before = variants@;
            match self.peek_identifier() {
                Some(variant_name) => {
                    self.advance();
                    let ghost cv = self.current as int;
                    let fields = if self.match_one(TokenKind::LeftParen) {
                        assert(plain_enum(old(self).kinds(), old(self).current as int) is None);
                        let ghost cf = self.current as int;
                        let mut variant_fields: Vec<EnumField> = Vec::new();
                        assert(self.kinds().subrange(cf, cf) =~= Seq::<TokenKindV>::empty());
                        if !self.check(&TokenKind::RightParen) {
                            loop
                                invariant_except_break
                                    self.kinds().subrange(cf, self.current as int) == (if variant_fields@.len() == 0 {
                                        Seq::<TokenKindV>::empty()
                                    } else {
                                        enum_fields_tokens(variant_fields@) + seq![TokenKindV::Comma]
                                    }),
                                invariant
                                    self.follows(*old(self)),
                                    self.errors == old(self).errors,
                                    self.current > c_iter,
                                    cf <= self.current,
                                    cf >= 0,
                                    plain_enum(old(self).kinds(), old(self).current as int) is None,
                                ensures
                                    self.follows(*old(self)),
                                    self.errors == old(self).errors,
                                    self.current > c_iter,
                                    cf <= self.current,
                                    self.kinds().subrange(cf, self.current as int) == enum_fields_tokens(variant_fields@),
                                decreases self.tokens@.len() - self.current,
                            {
                                let ghost c_field = self.current as int;
                                let ghost fbefore = variant_fields@;
                                let next_is_colon = self.tokens.len() > 1 && self.current < self.tokens.len() - 1 && match self.tokens[self.current + 1].kind {
                                    TokenKind::Colon => true,
                                    _ => false,
                                };
                                let field_name = match self.peek_identifier() {
                                    Some(fname) => {
                                        if next_is_colon {
                                            self.advance();
                                            self.advance();
                                            assert(self.kinds().subrange(c_field, self.current as int)
                                                =~= seq![TokenKindV::Identifier(fname), TokenKindV::Colon]);
                                            Some(fname)
                                        } else {
                                            None
                                        }
                                    },
                                    None => None,
                                };
                                let ghost cty = self.current as int;
                                let ty = self.parse_type_expr()?;
                                let ghost fv = EnumField { name: field_name, ty };
                                variant_fields.push(EnumField { name: field_name, ty });
                                proof {
                                    assert(variant_fields@.drop_last() =~= fbefore);
                                    assert(variant_fields@.last() == fv);
                                    assert(self.kinds().subrange(c_field, self.current as int) =~= enum_field_tokens(fv)) by {
                                        if field_name is Some {
                                            assert(self.kinds().subrange(c_field, self.current as int)
                                                =~= self.kinds().subrange(c_field, cty) + self.kinds().subrange(cty, self.current as int));
                                        } else {
                                            assert(cty == c_field);
                                        }
                                    }
                                    assert(self.kinds().subrange(cf, self.current as int)
                                        =~= self.kinds().subrange(cf, c_field) + self.kinds().subrange(c_field, self.current as int));
                                    if fbefore.len() >= 1 {
                                        assert(enum_fields_tokens(variant_fields@) =~= enum_fields_tokens(fbefore)
                                            + seq![TokenKindV::Comma] + enum_field_tokens(fv));
                                    }
                                }
                                if !self.match_one(TokenKind::Comma) {
                                    break;
                                }
                                assert(self.kinds().subrange(cf, self.current as int)
                                    =~= enum_fields_tokens(variant_fields@) + seq![TokenKindV::Comma]);
                            }
                        }
                        let ghost cr = self.current as int;
                        if !self.match_one(TokenKind::RightParen) {
                            self.error_at_current("Expected ')' after enum variant fields.");
                            return None;
                        }
                        assert(self.kinds().subrange(cv, self.current as int) =~= seq![TokenKindV::LeftParen]
                            + self.kinds().subrange(cf, cr) + seq![TokenKindV::RightParen]);
                        Some(variant_fields)
                    } else {
                        assert(self.kinds().subrange(cv, self.current as int) =~= Seq::<TokenKindV>::empty());
                        None
                    };
                    let ghost vv = EnumVariant { name: variant_name, fields };
                    assert(self.kinds().subrange(c_iter as int, self.current as int) =~= variant_tokens(vv)) by {
                        assert(self.kinds().subrange(c_iter as int, self.current as int)
                            =~= seq![TokenKindV::Identifier(variant_name)] + self.kinds().subrange(cv, self.current as int));
                    }
                    let ghost cvend = self.current as int;
                    variants.push(EnumVariant { name: variant_name, fields });
                    let _ = self.match_one(TokenKind::Comma);
                    proof {
                        if let Some((nm, ns, e)) = plain_enum(old(self).kinds(), old(self).current as int) {
                            let rest = ns.skip(before.len() as int);
                            assert(plain_variants_from(self.kinds(), c_iter as int) == Some((rest, e)));
                            let nxt = plain_variants_from(self.kinds(), self.current as int);
                            assert(nxt is Some);
                            let rest2 = nxt->Some_0.0;
                            assert(seq![variant_name] + rest2 == rest);
                            assert(variants@.len() == before.len() + 1);
                            assert(rest2.len() == rest.len() - 1);
                            assert forall|k: int| 0 <= k < rest2.len() implies rest2[k] == #[trigger] ns.skip(variants@.len() as int)[k] by {
                                assert(rest2[k] == (seq![variant_name] + rest2)[k + 1]);
                                assert(rest[k + 1] == ns[before.len() + k + 1]);
                            }
                            assert(rest2 =~= ns.skip(variants@.len() as int));
                            assert(ns[before.len() as int] == variant_name) by {
                                assert((seq![variant_name] + rest2)[0] == variant_name);
                                assert(rest[0] == ns[before.len() as int]);
                            }
                            assert(variants@ =~= ns.take(variants@.len() as int).map_values(|x: Symbol| plain_variant(x)));
                        }
                    }
                    proof {
                        let t = self.kinds().subrange(cb, self.current as int);
                        let k = c_iter - cb;
                        assert(variants@.drop_last() =~= before);
                        assert(variants@.last() == vv);
                        assert(t.take(k) =~= self.kinds().subrange(cb, c_iter as int));
                        if self.current as int > cvend {
                            assert(t.skip(k) =~= variant_tokens(vv) + seq![TokenKindV::Comma]);
                        } else {
                            assert(t.skip(k) =~= variant_tokens(vv));
                        }
                        assert(picked(k));
                    }
                },
                None => {
                    self.error_at_current("Expected enum variant name.");
                    return None;
                },
            }
        }
        let ghost ce = self.current as int;
        if !self.match_one(TokenKind::RightBrace) {
            self.error_at_current("Expected '}' after enum body.");
            return None;
        }
        proof {
            if let Some((nm, ns, e)) = plain_enum(old(self).kinds(), old(self).current as int) {
                assert(ns.skip(variants@.len() as int).len() == 0);
                assert(ns.take(ns.len() as int) =~= ns);
            }
        }
        proof {
            let t = self.consumed_since(*old(self));
            let k = ck - old(self).current;
            assert(t.subrange(1, k) =~= self.kinds().subrange(c1, ck));
            assert(t.subrange(k + 1, t.len() - 1) =~= self.kinds().subrange(cb, ce));
            assert(picked(k));
            let tt = old(self).kinds().subrange(old(self).current - 1, self.current as int);
            assert(tt.subrange(2, k + 1) =~= t.subrange(1, k));
            assert(tt.subrange(k + 2, tt.len() - 1) =~= t.subrange(k + 1, t.len() - 1));
            assert(picked(k + 1));
        }
        let span = join_spans(start_span, self.previous_span());
        Some(Stmt::new(StmtKind::Enum { name, type_params, variants, is_private }, span))
    }

    /// The rest of `import "path" as alias show a, b hide c;`.
    #[verifier::rlimit(60)]
    #[verifier::spinoff_prover]
    fn import_declaration(&mut self) -> (r: Option<Stmt>)
        requires
            old(self).wf(),
            old(self).current >= 1,
            old(self).kinds()[old(self).current - 1] == TokenKindV::Import,
        ensures
            final(self).follows(*old(self)),
            r is None ==> final(self).failed_since(*old(self)),
            r is Some ==> final(self).current > old(self).current,
            r matches Some(st) ==> (final(self).clean_since(*old(self)) ==> stmt_spells(old(self).words(), st,
                old(self).kinds().subrange(old(self).current - 1, final(self).current as int))),
            r matches Some(st) ==> (final(self).clean_since(*old(self)) ==> (st.kind matches StmtKind::Import { path, alias, show, hide }
                && ({
                    let t = final(self).consumed_since(*old(self));
                    exists|k: int| #[trigger] picked(k) && 0 <= k <= t.len() && path_spells(path, t.take(k))
                        && t.skip(k) == import_tail_tokens(alias, show@, hide@)
                }))),
        decreases old(self).tokens@.len() - old(self).current, 35int,
    {
        let start_span = self.previous_span();
        let path = self.string_path("Expected string after 'import'.")?;
        let ghost c1 = self.current as int;
        let mut alias: Option<Symbol> = None;
        if self.match_one(TokenKind::As) {
            match self.peek_identifier() {
                Some(a) => {
                    self.advance();
                    alias = Some(a);
                },
                None => {
                    self.error_at_current("Expected identifier after 'as'.");
                },
            }
        }
        let ghost ca = self.current as int;
        let ghost after_alias = *self;
        let mut show: Vec<Symbol> = Vec::new();
        if self.match_one(TokenKind::Show) {
            let ghost m = *self;
            self.name_list(&mut show, "Expected identifier after 'show'.");
            proof {
                assert(show@.skip(0) =~= show@);
                if self.clean_since(*old(self)) {
                    assert(self.errors@.map_values(|d: Diagnostic| d@).len() == self.errors@.len());
                    assert(m.errors@.map_values(|d: Diagnostic| d@).len() == m.errors@.len());
                    assert(self.kinds().subrange(ca, self.current as int) =~= seq![TokenKindV::Show] + self.consumed_since(m));
                    assert(self.kinds().subrange(ca, self.current as int) =~= name_clause_tokens(TokenKindV::Show, show@));
                }
            }
        } else {
            assert(self.kinds().subrange(ca, self.current as int) =~= Seq::<TokenKindV>::empty());
        }
        let ghost cs = self.current as int;
        let ghost after_show = *self;
        let mut hide: Vec<Symbol> = Vec::new();
        if self.match_one(TokenKind::Hide) {
            let ghost m = *self;
            self.name_list(&mut hide, "Expected identifier after 'hide'.");
            proof {
                assert(hide@.skip(0) =~= hide@);
                if self.clean_since(*old(self)) {
                    assert(self.errors@.map_values(|d: Diagnostic| d@).len() == self.errors@.len());
                    assert(m.errors@.map_values(|d: Diagnostic| d@).len() == m.errors@.len());
                    assert(self.kinds().subrange(cs, self.current as int) =~= seq![TokenKindV::Hide] + self.consumed_since(m));
                    assert(self.kinds().subrange(cs, self.current as int) =~= name_clause_tokens(TokenKindV::Hide, hide@));
                }
            }
        } else {
            assert(self.kinds().subrange(cs, self.current as int) =~= Seq::<TokenKindV>::empty());
        }
        let ghost ch = self.current as int;
        let ghost after_hide = *self;
        if !self.match_one(TokenKind::Semicolon) {
            self.error_at_current("Expected ';' after import declaration.");
            return None;
        }
        proof {
            if self.clean_since(*old(self)) {
                let t = self.consumed_since(*old(self));
                let k = c1 - old(self).current;
                assert(after_alias.clean_since(*old(self)));
                assert(after_show.clean_since(*old(self)));
                assert(after_hide.clean_since(*old(self)));
                assert(self.kinds().subrange(c1, ca) =~= match alias {
                    Some(a) => seq![TokenKindV::As, TokenKindV::Identifier(a)],
                    None => Seq::<TokenKindV>::empty(),
                });
                assert(self.kinds().subrange(ca, cs) =~= name_clause_tokens(TokenKindV::Show, show@));
                assert(self.kinds().subrange(cs, ch) =~= name_clause_tokens(TokenKindV::Hide, hide@));
                assert(t.take(k) =~= self.kinds().subrange(old(self).current as int, c1));
                assert(t.skip(k) =~= self.kinds().subrange(c1, ca) + self.kinds().subrange(ca, cs) + self.kinds().subrange(cs, ch)
                    + seq![TokenKindV::Semicolon]);
                assert(picked(k));
                let tt = old(self).kinds().subrange(old(self).current - 1, self.current as int);
                assert(tt.subrange(1, k + 1) =~= t.take(k));
                assert(tt.skip(k + 1) =~= t.skip(k));
                assert(picked(k + 1));
            }
        }
        let span = join_spans(start_span, self.previous_span());
        Some(Stmt::new(StmtKind::Import { path, alias, show, hide }, span))
    }

    /// The rest of `export "path";`.
    fn export_declaration(&mut self) -> (r: Option<Stmt>)
        requires
            old(self).wf(),
            old(self).current >= 1,
            old(self).kinds()[old(self).current - 1] == TokenKindV::Export,
        ensures
            final(self).follows(*old(self)),
            r is None ==> final(self).failed_since(*old(self)),
            r is Some ==> final(self).current > old(self).current,
            r matches Some(st) ==> (final(self).clean_since(*old(self)) ==> stmt_spells(old(self).words(), st,
                old(self).kinds().subrange(old(self).current - 1, final(self).current as int))),
            r matches Some(st) ==> (final(self).errors == old(self).errors && (st.kind matches StmtKind::Export { path } && ({
                let t = final(self).consumed_since(*old(self));
                t.len() >= 1 && t.last() == TokenKindV::Semicolon && path_spells(path, t.drop_last())
            }))),
        decreases old(self).tokens@.len() - old(self).current, 35int,
    {
        let start_span = self.previous_span();
        let path = self.string_path("Expected string after 'export'.")?;
        let ghost mid = *self;
        if !self.match_one(TokenKind::Semicolon) {
            self.error_at_current("Expected ';' after export declaration.");
            return None;
        }
        assert(self.consumed_since(*old(self)).drop_last() =~= mid.consumed_since(*old(self)));
        proof {
            let t = self.consumed_since(*old(self));
            let tt = old(self).kinds().subrange(old(self).current - 1, self.current as int);
            assert(tt.subrange(1, tt.len() - 1) =~= t.drop_last());
        }
        let span = join_spans(start_span, self.previous_span());
        Some(Stmt::new(StmtKind::Export { path }, span))
    }

    /// A module path written as a string; the symbol of its text, or symbol
    /// 0 for an empty string.
    fn string_path(&mut self, missing: &str) -> (r: Option<Symbol>)
        requires
            old(self).wf(),
        ensures
            final(self).follows(*old(self)),
            r is None ==> final(self).failed_since(*old(self)),
            r is Some ==> final(self).current > old(self).current,
            r matches Some(p) ==> final(self).errors == old(self).errors
                && path_spells(p, final(self).consumed_since(*old(self))),
    {
        let mut path = Symbol(0);
        if self.match_one(TokenKind::StringStart) {
            let ghost c1 = self.current as int;
            if self.current < self.tokens.len() {
                let part = match &self.tokens[self.current].kind {
                    TokenKind::StringPart(p) => Some(*p),
                    _ => None,
                };
                match part {
                    Some(p) => {
                        self.advance();
                        path = p;
                    },
                    None => {},
                }
            }
            let ghost c2 = self.current as int;
            if !self.match_one(TokenKind::StringEnd) {
                self.error_at_current("Expected '\"' after string.");
                return None;
            }
            proof {
                let t = self.consumed_since(*old(self));
                if c2 == c1 {
                    assert(t =~= seq![TokenKindV::StringStart, TokenKindV::StringEnd]);
                } else {
                    assert(t =~= seq![TokenKindV::StringStart, TokenKindV::StringPart(path), TokenKindV::StringEnd]);
                }
            }
        } else {
            self.error_at_current(missing);
            return None;
        }
        Some(path)
    }

    /// Comma-separated names; stops at the first position without a name.
    fn name_list(&mut self, names: &mut Vec<Symbol>, missing: &str)
        requires
            old(self).wf(),
        ensures
            final(self).follows(*old(self)),
            final(names)@.len() >= old(names)@.len(),
            final(names)@.take(old(names)@.len() as int) == old(names)@,
            ({
                let ns = final(names)@.skip(old(names)@.len() as int);
                let t = final(self).consumed_since(*old(self));
                ||| (ns.len() >= 1 && final(self).errors == old(self).errors && t == names_tokens(ns)
                    && !checks(final(self).kinds(), final(self).current as int, TokenKindV::Comma))
                ||| (t == names_then_comma(ns)
                    && !((final(self).current as int) < final(self).tokens@.len()
                        && final(self).kinds()[final(self).current as int] is Identifier)
                    && final(self).reported(Parser { current: final(self).current, ..*old(self) }, missing@))
            }),
    {
        let ghost n0 = names@.len() as int;
        assert(names@.skip(n0) =~= Seq::<Symbol>::empty());
        assert(self.consumed_since(*old(self)) =~= Seq::<TokenKindV>::empty());
        loop
            invariant_except_break
                self.errors == old(self).errors,
                self.consumed_since(*old(self)) == names_then_comma(names@.skip(n0)),
            invariant
                self.follows(*old(self)),
                n0 == old(names)@.len(),
                names@.len() >= n0,
                names@.take(n0) == old(names)@,
            ensures
                self.follows(*old(self)),
                names@.len() >= n0,
                names@.take(n0) == old(names)@,
                ({
                    let ns = names@.skip(n0);
                    let t = self.consumed_since(*old(self));
                    ||| (ns.len() >= 1 && self.errors == old(self).errors && t == names_tokens(ns)
                        && !checks(self.kinds(), self.current as int, TokenKindV::Comma))
                    ||| (t == names_then_comma(ns)
                        && !((self.current as int) < self.tokens@.len() && self.kinds()[self.current as int] is Identifier)
                        && self.reported(Parser { current: self.current, ..*old(self) }, missing@))
                }),
            decreases self.tokens@.len() - self.current,
        {
            let ghost head = *self;
            let ghost before = names@.skip(n0);
            match self.peek_identifier() {
                Some(i) => {
                    self.advance();
                    names.push(i);
                    proof {
                        let ns = names@.skip(n0);
                        assert(ns =~= before.push(i));
                        assert(names@.take(n0) =~= old(names)@);
                        if before.len() >= 1 {
                            assert(ns.drop_last() =~= before);
                        }
                        assert(self.consumed_since(*old(self)) =~= names_then_comma(before) + seq![TokenKindV::Identifier(i)]);
                        assert(names_tokens(ns) =~= names_then_comma(before) + seq![TokenKindV::Identifier(i)]);
                    }
                },
                None => {
                    assert(Parser { current: head.current, ..*old(self) } == head);
                    self.error_at_current(missing);
                    break;
                },
            }
            if !self.match_one(TokenKind::Comma) {
                break;
            }
            assert(self.consumed_since(*old(self)) =~= names_tokens(names@.skip(n0)) + seq![TokenKindV::Comma]);
        }
    }

    /// Parses the whole token stream: the statements that parsed and all
    /// errors reported.
    pub fn parse(&mut self) -> (r: (Vec<Stmt>, Vec<Diagnostic>))
        requires
            old(self).wf(),
        ensures
            final(self).follows(*old(self)),
            at_end(final(self).kinds(), final(self).current as int),
            r.1@.map_values(|d: Diagnostic| d@) == final(self).errors@.map_values(|d: Diagnostic| d@),
            final(self).clean_since(*old(self)) ==> decls_spell(old(self).words(), r.0@, final(self).consumed_since(*old(self))),
            simple_program(old(self).kinds(), old(self).current as int) matches Some(n) ==> (
                final(self).errors == old(self).errors && r.0@.len() == n),
    {
        let ghost w = old(self).words();
        let mut statements: Vec<Stmt> = Vec::new();
        assert(self.consumed_since(*old(self)) =~= Seq::<TokenKindV>::empty());
        while !self.is_at_end()
            invariant
                self.follows(*old(self)),
                w == old(self).words(),
                self.clean_since(*old(self)) ==> decls_spell(w, statements@, self.consumed_since(*old(self))),
                simple_program(old(self).kinds(), old(self).current as int) matches Some(n) ==> {
                    &&& self.errors == old(self).errors
                    &&& simple_program(self.kinds(), self.current as int) matches Some(m)
                    &&& statements@.len() + m == n
                },
            decreases self.tokens@.len() - self.current,
        {
            let ghost h = *self;
            let ghost before = statements@;
            match self.declaration() {
                Some(stmt) => {
                    let ghost sv = stmt;
                    statements.push(stmt);
                    proof {
                        if self.clean_since(*old(self)) {
                            let t = self.consumed_since(*old(self));
                            let k = h.current - old(self).current;
                            assert(h.clean_since(*old(self)));
                            assert(statements@.drop_last() =~= before);
                            assert(statements@.last() == sv);
                            assert(t.take(k) =~= h.consumed_since(*old(self)));
                            assert(t.skip(k) =~= self.consumed_since(h));
                            assert(picked(k));
                        }
                    }
                },
                None => {},
            }
        }
        let errors = self.copy_errors();
        (statements, errors)
    }

    fn copy_errors(&self) -> (r: Vec<Diagnostic>)
        ensures
            r@.map_values(|d: Diagnostic| d@) == self.errors@.map_values(|d: Diagnostic| d@),
    {
        let mut r: Vec<Diagnostic> = Vec::new();
        let mut i: usize = 0;
        while i < self.errors.len()
            invariant
                i <= self.errors@.len(),
                r@.map_values(|d: Diagnostic| d@) == self.errors@.take(i as int).map_values(|d: Diagnostic| d@),
            decreases self.errors@.len() - i,
        {
            let d = &self.errors[i];
            let copy = Diagnostic::error(d.code, d.message.clone(), d.span);
            assert(copy@ == self.errors@[i as int]@);
            let ghost before = r@;
            r.push(copy);
            assert(self.errors@.take(i as int + 1).map_values(|d: Diagnostic| d@)
                =~= self.errors@.take(i as int).map_values(|d: Diagnostic| d@).push(self.errors@[i as int]@));
            assert(r@.map_values(|d: Diagnostic| d@) =~= before.map_values(|d: Diagnostic| d@).push(copy@));
            i = i + 1;
            assert(r@.map_values(|d: Diagnostic| d@) =~= self.errors@.take(i as int).map_values(|d: Diagnostic| d@));
        }
        assert(self.errors@.take(i as int) =~= self.errors@);
        r
    }

    /// Skips tokens after an error until a likely statement boundary.
    pub fn synchronize(&mut self)
        requires
            old(self).wf(),
        ensures
            final(self).follows(*old(self)),
            final(self).errors == old(self).errors,
            final(self).current == sync_stop(old(self).kinds(), step(old(self).kinds(), old(self).current as int)),
    {
        self.advance();
        while !self.is_at_end()
            invariant
                self.follows(*old(self)),
                self.errors == old(self).errors,
                self.current >= 1 || at_end(self.kinds(), self.current as int),
                sync_stop(old(self).kinds(), step(old(self).kinds(), old(self).current as int))
                    == sync_stop(self.kinds(), self.current as int),
            decreases self.tokens@.len() - self.current,
        {
            let is_semi = match self.previous().kind {
                TokenKind::Semicolon => true,
                _ => false,
            };
            if is_semi {
                return;
            }
            let stop = match self.tokens[self.current].kind {
                TokenKind::Class | TokenKind::Func | TokenKind::Var | TokenKind::For | TokenKind::If
                | TokenKind::While | TokenKind::Return | TokenKind::Let => true,
                _ => false,
            };
            if stop {
                return;
            }
            self.advance();
        }
    }
}

} // verus!
