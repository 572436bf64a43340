//! Expressions: the layers of the grammar from conditional expressions down
//! to primary terms and their postfix chains.
pub mod binop;
mod call;
mod closure;
mod eval;
mod inclusion;
mod list;
pub mod literal;
mod match_expr;
mod new;
mod parens;
mod print;
mod variable;
mod yield_like;

use crate::ast::{BinOpKind, CastKind, ClassNameRef, Expr, Ident, QualifiedName, UnOpKind};
use crate::diagnostics::ParseDiagnosticCode;
use crate::parser::expr::binop::{
    chain_len, chain_op, expr_chain, expr_chain_alone, expr_chain_valid, lemma_term_alone_chain, lemma_term_stop_chain, min_prec_free, expr_chain_read, expr_chain_whole, flat_ops,
    grouped, lemma_ops_read_join, lemma_ops_read_none, lemma_ops_read_widen, ops_read, pos_after,
    simple_chain, spec_below_conditional, spec_is_operand, spec_op_text, spec_precedence, spec_token_to_binop,
    stops_below,
};
use crate::parser::expr::literal::spec_int_literal_value;
use crate::parser::{
    ascii_lower_seq, following_token, next_position, nth_kind_from, spec_is_ident_like_kw, token_at,
    Parser,
};
use vstd::string::StringSliceAdditionalSpecFns;
use crate::span::Span;
use crate::token::{spec_compound_assign_stem, spec_operator_spelling, Token, TokenKind};
use vstd::prelude::*;

verus! {

/// A prefix operator or cast that is waiting for its operand.
enum Prefix {
    Unary(UnOpKind, u32),
    Cast(CastKind, Span),
}

/// Tokens at which recovery inside a postfix chain stops.
pub fn sync_postfix() -> (v: Vec<TokenKind>)
    ensures
        v@ == seq![
            TokenKind::Semicolon,
            TokenKind::Comma,
            TokenKind::RParen,
            TokenKind::RBracket,
            TokenKind::RBrace,
        ],
{
    vec![
        TokenKind::Semicolon,
        TokenKind::Comma,
        TokenKind::RParen,
        TokenKind::RBracket,
        TokenKind::RBrace,
    ]
}

/// The assignment operator `op=` that a token stands for, if any.
pub open spec fn spec_compound_assign_op(k: TokenKind) -> Option<BinOpKind> {
    match k {
        TokenKind::PlusEq => Some(BinOpKind::Add),
        TokenKind::MinusEq => Some(BinOpKind::Sub),
        TokenKind::MulEq => Some(BinOpKind::Mul),
        TokenKind::DivEq => Some(BinOpKind::Div),
        TokenKind::ModEq => Some(BinOpKind::Mod),
        TokenKind::DotEq => Some(BinOpKind::Concat),
        TokenKind::AmpEq => Some(BinOpKind::BitAnd),
        TokenKind::PipeEq => Some(BinOpKind::BitOr),
        TokenKind::CaretEq => Some(BinOpKind::BitXor),
        TokenKind::ShlEq => Some(BinOpKind::Shl),
        TokenKind::ShrEq => Some(BinOpKind::Shr),
        TokenKind::PowEq => Some(BinOpKind::Pow),
        _ => None,
    }
}

/// A compound assignment token applies the operator written before its
/// `=`: `+=` adds, `**=` raises to a power.
pub proof fn lemma_compound_assign_read_as_written(k: TokenKind)
    requires
        spec_compound_assign_op(k) is Some,
    ensures
        spec_compound_assign_stem(k) == Some(spec_op_text(spec_compound_assign_op(k)->0)),
{
}

/// How a prefix operator is written.
pub open spec fn spec_unop_text(op: UnOpKind) -> Seq<char> {
    match op {
        UnOpKind::Suppress => "@"@,
        UnOpKind::Not => "!"@,
        UnOpKind::Neg => "-"@,
        UnOpKind::Plus => "+"@,
        UnOpKind::Ref => "&"@,
        UnOpKind::BitNot => "~"@,
    }
}

/// A prefix operator token stands for the operator written as it is
/// spelled: `-` negates, `!` is logical not.
pub proof fn lemma_unary_prefix_read_as_written(k: TokenKind)
    requires
        spec_unary_prefix_op(k) is Some,
    ensures
        spec_operator_spelling(k) == Some(spec_unop_text(spec_unary_prefix_op(k)->0)),
{
}

/// Different prefix operator tokens stand for different operators.
pub proof fn lemma_unary_prefix_ops_distinct(k1: TokenKind, k2: TokenKind)
    requires
        spec_unary_prefix_op(k1) is Some,
        spec_unary_prefix_op(k1) == spec_unary_prefix_op(k2),
    ensures
        k1 == k2,
{
}

/// The binary operator of a compound assignment token such as `+=`.
pub fn compound_assign_op(k: TokenKind) -> (r: Option<BinOpKind>)
    ensures
        r == spec_compound_assign_op(k),
        r matches Some(op) ==> spec_compound_assign_stem(k) == Some(spec_op_text(op)),
{
    match k {
        TokenKind::PlusEq => Some(BinOpKind::Add),
        TokenKind::MinusEq => Some(BinOpKind::Sub),
        TokenKind::MulEq => Some(BinOpKind::Mul),
        TokenKind::DivEq => Some(BinOpKind::Div),
        TokenKind::ModEq => Some(BinOpKind::Mod),
        TokenKind::DotEq => Some(BinOpKind::Concat),
        TokenKind::AmpEq => Some(BinOpKind::BitAnd),
        TokenKind::PipeEq => Some(BinOpKind::BitOr),
        TokenKind::CaretEq => Some(BinOpKind::BitXor),
        TokenKind::ShlEq => Some(BinOpKind::Shl),
        TokenKind::ShrEq => Some(BinOpKind::Shr),
        TokenKind::PowEq => Some(BinOpKind::Pow),
        _ => None,
    }
}

/// The unary operator that a prefix token stands for, if any.
pub open spec fn spec_unary_prefix_op(k: TokenKind) -> Option<UnOpKind> {
    match k {
        TokenKind::Silence => Some(UnOpKind::Suppress),
        TokenKind::Bang => Some(UnOpKind::Not),
        TokenKind::Minus => Some(UnOpKind::Neg),
        TokenKind::Plus => Some(UnOpKind::Plus),
        TokenKind::Amp => Some(UnOpKind::Ref),
        TokenKind::Tilde => Some(UnOpKind::BitNot),
        _ => None,
    }
}

/// Tokens that continue a term with a postfix operation: a call, a member
/// access, a subscript, `++`, `--` or `::`.
pub open spec fn spec_starts_postfix(k: TokenKind) -> bool {
    ||| k == TokenKind::LParen
    ||| k == TokenKind::Arrow
    ||| k == TokenKind::NullsafeArrow
    ||| k == TokenKind::LBracket
    ||| k == TokenKind::PlusPlus
    ||| k == TokenKind::MinusMinus
    ||| k == TokenKind::ColCol
}

/// The expression that the token `t` of the source `bytes` makes on its
/// own, when it is an integer literal or a variable `$name`.
pub open spec fn token_term(t: Token, bytes: Seq<u8>) -> Option<Expr> {
    if t.kind == TokenKind::Int {
        let value = spec_int_literal_value(bytes.subrange(t.span.start as int, t.span.end as int));
        Some(
            Expr::IntLiteral {
                value: match value {
                    Some(v) => v,
                    None => 0,
                },
                span: t.span,
            },
        )
    } else if t.kind == TokenKind::VarIdent {
        Some(
            Expr::VarRef {
                name: Ident {
                    span: Span {
                        start: if t.span.start == u32::MAX {
                            u32::MAX
                        } else {
                            (t.span.start + 1) as u32
                        },
                        end: t.span.end,
                    },
                },
                span: t.span,
            },
        )
    } else {
        None
    }
}

/// The token `t` is a variable, or an integer literal whose value fits, so
/// that reading it as a term reports nothing.
pub open spec fn token_term_clean(t: Token, bytes: Seq<u8>) -> bool {
    ||| t.kind == TokenKind::VarIdent
    ||| t.kind == TokenKind::Int && spec_int_literal_value(
        bytes.subrange(t.span.start as int, t.span.end as int),
    ) is Some
}

/// The expression that the current token of `p` makes on its own, when it
/// is an integer literal or a variable `$name`.
pub open spec fn single_token_term(p: &Parser) -> Option<Expr> {
    token_term(p.cur_token(), p.src_bytes())
}

/// The current token of `p` is a prefix operator, such as `-`, applied to
/// the integer or variable that follows it, which no postfix operation
/// continues.
pub open spec fn prefix_then_term(p: &Parser) -> bool {
    let toks = p.toks();
    &&& spec_unary_prefix_op(p.cur_kind()) is Some
    &&& token_term(following_token(p), p.src_bytes()) is Some
    &&& !spec_starts_postfix(
        token_at(toks, next_position(toks, next_position(toks, p.position()) as nat)).kind,
    )
}

/// The position after the prefix operator at the cursor of `p` and the
/// term that follows it.
pub open spec fn prefix_term_end(p: &Parser) -> int {
    next_position(p.toks(), next_position(p.toks(), p.position()) as nat)
}

/// The expression made of the prefix operator at the cursor of `p` and the
/// term that follows it.
pub open spec fn unary_term(p: &Parser) -> Expr {
    let t = token_term(following_token(p), p.src_bytes())->0;
    Expr::UnaryOp {
        op: spec_unary_prefix_op(p.cur_kind())->0,
        expr: Box::new(t),
        span: Span { start: p.cur_token().span.start, end: t.spec_span().end },
    }
}

/// A run of prefix operators from position `q` of `toks` applied to an
/// integer or a variable that no postfix operation continues, such as
/// `-!$a`, as the expression it makes: each operator applies to all that
/// follows it.
pub open spec fn unary_run(toks: Seq<Token>, bytes: Seq<u8>, q: nat) -> Option<Expr>
    decreases toks.len() - q,
{
    let t = token_at(toks, q as int);
    let q2 = next_position(toks, q);
    if spec_unary_prefix_op(t.kind) is Some {
        if q < q2 && q2 <= toks.len() {
            match unary_run(toks, bytes, q2 as nat) {
                Some(e) => Some(
                    Expr::UnaryOp {
                        op: spec_unary_prefix_op(t.kind)->0,
                        expr: Box::new(e),
                        span: Span { start: t.span.start, end: e.spec_span().end },
                    },
                ),
                None => None,
            }
        } else {
            None
        }
    } else if !spec_starts_postfix(token_at(toks, q2).kind) {
        token_term(t, bytes)
    } else {
        None
    }
}

/// `pr` applied to `e`.
spec fn apply_prefix(pr: Prefix, e: Expr) -> Expr {
    match pr {
        Prefix::Unary(op, pos) => Expr::UnaryOp {
            op,
            expr: Box::new(e),
            span: Span { start: pos, end: e.spec_span().end },
        },
        Prefix::Cast(ck, sp) => Expr::Cast {
            kind: ck,
            expr: Box::new(e),
            span: Span { start: sp.start, end: e.spec_span().end },
        },
    }
}

/// The prefixes `ps`, read in order, applied to `e`: the last one first.
spec fn wrap_prefixes(ps: Seq<Prefix>, e: Expr) -> Expr
    decreases ps.len(),
{
    if ps.len() == 0 {
        e
    } else {
        wrap_prefixes(ps.drop_last(), apply_prefix(ps.last(), e))
    }
}

/// A prefix operator and the term that follows it are a whole expression:
/// the token after them continues no expression.
pub open spec fn unary_alone(p: &Parser) -> bool {
    let k = token_at(p.toks(), prefix_term_end(p)).kind;
    &&& prefix_then_term(p)
    &&& spec_token_to_binop(k) is None
    &&& k != TokenKind::Question
    &&& k != TokenKind::Eq
    &&& k != TokenKind::NullCoalesceAssign
    &&& spec_compound_assign_op(k) is None
}

/// At the cursor of `p` stand a term, an assignment operator (`=`, `??=`
/// or a compound one such as `+=`) and a term that the next token ends:
/// `$a += 1;`.
pub open spec fn assign_of_terms(p: &Parser) -> bool {
    let toks = p.toks();
    let p2 = next_position(toks, next_position(toks, p.position()) as nat);
    let k = following_token(p).kind;
    &&& single_token_term(p) is Some
    &&& k == TokenKind::Eq || k == TokenKind::NullCoalesceAssign || spec_compound_assign_op(k) is Some
    &&& token_term(token_at(toks, p2), p.src_bytes()) is Some
    &&& spec_ends_expr(token_at(toks, next_position(toks, p2 as nat)).kind)
}

/// The position after the assignment that `assign_of_terms` describes.
pub open spec fn assign_of_terms_end(p: &Parser) -> int {
    let toks = p.toks();
    next_position(toks, next_position(toks, next_position(toks, p.position()) as nat) as nat)
}

/// The expression that `assign_of_terms` describes.
pub open spec fn assign_of_terms_expr(p: &Parser) -> Expr {
    let toks = p.toks();
    let p2 = next_position(toks, next_position(toks, p.position()) as nat);
    let l = single_token_term(p)->0;
    let v = token_term(token_at(toks, p2), p.src_bytes())->0;
    let span = Span { start: l.spec_span().start, end: v.spec_span().end };
    let k = following_token(p).kind;
    if k == TokenKind::Eq {
        Expr::Assign { target: Box::new(l), value: Box::new(v), span }
    } else if k == TokenKind::NullCoalesceAssign {
        Expr::CoalesceAssign { target: Box::new(l), value: Box::new(v), span }
    } else {
        Expr::CompoundAssign {
            op: spec_compound_assign_op(k)->0,
            target: Box::new(l),
            value: Box::new(v),
            span,
        }
    }
}

/// The current token of `p` is a whole expression: it makes one on its own,
/// and the token after it continues no expression (no postfix operation,
/// binary operator, `?`, or assignment follows).
pub open spec fn term_alone(p: &Parser) -> bool {
    let k = following_token(p).kind;
    &&& single_token_term(p) is Some
    &&& !spec_starts_postfix(k)
    &&& spec_token_to_binop(k) is None
    &&& k != TokenKind::Question
    &&& k != TokenKind::Eq
    &&& k != TokenKind::NullCoalesceAssign
    &&& spec_compound_assign_op(k) is None
}

/// An integer literal or a variable at the cursor of `p` that nothing
/// below a conditional continues: no postfix operation, binary operator or
/// assignment follows it (a `?` or `:` may).
pub open spec fn term_below_conditional(p: &Parser) -> bool {
    let k = following_token(p).kind;
    &&& single_token_term(p) is Some
    &&& !spec_starts_postfix(k)
    &&& spec_token_to_binop(k) is None
    &&& k != TokenKind::Eq
    &&& k != TokenKind::NullCoalesceAssign
    &&& spec_compound_assign_op(k) is None
}

/// The position of the `:` of a conditional of terms at the cursor of
/// `p`: right after the `?` in the short form `a ?: b`, after the middle
/// term otherwise.
pub open spec fn cond_colon_pos(p: &Parser) -> nat {
    let toks = p.toks();
    let q2 = next_position(toks, next_position(toks, p.position()) as nat) as nat;
    if token_at(toks, q2 as int).kind == TokenKind::Colon {
        q2
    } else {
        next_position(toks, q2) as nat
    }
}

/// The position of the last term of a conditional of terms at the cursor
/// of `p`.
pub open spec fn cond_else_pos(p: &Parser) -> nat {
    next_position(p.toks(), cond_colon_pos(p)) as nat
}

/// At the cursor of `p` stands a conditional of integers or variables,
/// `a ? b : c` or `a ?: c`, and then a token that closes or separates
/// expressions.
pub open spec fn ternary_terms(p: &Parser) -> bool {
    let toks = p.toks();
    let bytes = p.src_bytes();
    let q1 = next_position(toks, p.position()) as nat;
    let q2 = next_position(toks, q1) as nat;
    let qe = cond_else_pos(p);
    &&& single_token_term(p) is Some
    &&& token_at(toks, q1 as int).kind == TokenKind::Question
    &&& (token_at(toks, q2 as int).kind == TokenKind::Colon || (token_term(token_at(toks, q2 as int), bytes)
        is Some && token_at(toks, cond_colon_pos(p) as int).kind == TokenKind::Colon))
    &&& token_term(token_at(toks, qe as int), bytes) is Some
    &&& spec_ends_expr(token_at(toks, next_position(toks, qe)).kind)
}

/// At position `q` of `toks` stands a full conditional of integers or
/// variables, `a ? b : c`, and then a token that closes or separates
/// expressions.
pub open spec fn full_ternary_terms_at(toks: Seq<Token>, bytes: Seq<u8>, q: nat) -> bool {
    let q1 = next_position(toks, q) as nat;
    let q2 = next_position(toks, q1) as nat;
    let qc = next_position(toks, q2) as nat;
    let qe = next_position(toks, qc) as nat;
    &&& token_term(token_at(toks, q as int), bytes) is Some
    &&& token_at(toks, q1 as int).kind == TokenKind::Question
    &&& token_term(token_at(toks, q2 as int), bytes) is Some
    &&& token_at(toks, qc as int).kind == TokenKind::Colon
    &&& token_term(token_at(toks, qe as int), bytes) is Some
    &&& spec_ends_expr(token_at(toks, next_position(toks, qe)).kind)
}

/// At the cursor of `p` stands `a ? b : c ? d : e` of integers or
/// variables, a full conditional as the else branch of another one,
/// followed by a token that closes or separates expressions.
pub open spec fn nested_full_ternary(p: &Parser) -> bool {
    let toks = p.toks();
    let bytes = p.src_bytes();
    let q1 = next_position(toks, p.position()) as nat;
    let q2 = next_position(toks, q1) as nat;
    &&& single_token_term(p) is Some
    &&& token_at(toks, q1 as int).kind == TokenKind::Question
    &&& token_term(token_at(toks, q2 as int), bytes) is Some
    &&& token_at(toks, cond_colon_pos(p) as int).kind == TokenKind::Colon
    &&& full_ternary_terms_at(toks, bytes, cond_else_pos(p))
}

/// The conditional that `ternary_terms` describes.
pub open spec fn ternary_terms_expr(p: &Parser) -> Expr {
    let toks = p.toks();
    let bytes = p.src_bytes();
    let q2 = next_position(toks, next_position(toks, p.position()) as nat);
    let c = single_token_term(p)->0;
    let e = token_term(token_at(toks, cond_else_pos(p) as int), bytes)->0;
    Expr::Ternary {
        condition: Box::new(c),
        then_expr: if token_at(toks, q2).kind == TokenKind::Colon {
            None
        } else {
            Some(Box::new(token_term(token_at(toks, q2), bytes)->0))
        },
        else_expr: Box::new(e),
        span: Span { start: c.spec_span().start, end: e.spec_span().end },
    }
}

/// Every term of the conditional of terms at the cursor of `p` reads
/// without a diagnostic.
pub open spec fn ternary_terms_clean(p: &Parser) -> bool {
    let toks = p.toks();
    let bytes = p.src_bytes();
    let q2 = next_position(toks, next_position(toks, p.position()) as nat);
    &&& token_term_clean(p.cur_token(), bytes)
    &&& token_at(toks, q2).kind != TokenKind::Colon ==> token_term_clean(token_at(toks, q2), bytes)
    &&& token_term_clean(token_at(toks, cond_else_pos(p) as int), bytes)
}

/// Tokens that close or separate expressions: `;`, `,`, `)`, `]`, `}`,
/// `:`, `=>`, `?>` and the end of the input.
pub open spec fn spec_ends_expr(k: TokenKind) -> bool {
    ||| k == TokenKind::Semicolon
    ||| k == TokenKind::Comma
    ||| k == TokenKind::RParen
    ||| k == TokenKind::RBracket
    ||| k == TokenKind::RBrace
    ||| k == TokenKind::Colon
    ||| k == TokenKind::FatArrow
    ||| k == TokenKind::PhpClose
    ||| k == TokenKind::Eof
}

/// An integer literal or a variable followed by a token that closes or
/// separates expressions is a whole expression on its own, so that
/// `parse_expr` returns exactly it.
pub proof fn lemma_term_before_end(p: &Parser)
    requires
        single_token_term(p) is Some,
        spec_ends_expr(following_token(p).kind),
    ensures
        term_alone(p),
{
}

/// The cast that the type word spelled `t` names, in any letter case:
/// `int`/`integer`, `float`/`double`/`real`, `string`, `bool`/`boolean`,
/// `array` or `object`.
pub open spec fn spec_cast_kind(t: Seq<u8>) -> Option<CastKind> {
    let l = ascii_lower_seq(t);
    if l == "int".spec_bytes() || l == "integer".spec_bytes() {
        Some(CastKind::Int)
    } else if l == "float".spec_bytes() || l == "double".spec_bytes() || l == "real".spec_bytes() {
        Some(CastKind::Float)
    } else if l == "string".spec_bytes() {
        Some(CastKind::String)
    } else if l == "bool".spec_bytes() || l == "boolean".spec_bytes() {
        Some(CastKind::Bool)
    } else if l == "array".spec_bytes() {
        Some(CastKind::Array)
    } else if l == "object".spec_bytes() {
        Some(CastKind::Object)
    } else {
        None
    }
}

/// The source text of token `t` of `p`.
pub open spec fn token_text(p: &Parser, t: Token) -> Seq<u8> {
    p.src_bytes().subrange(t.span.start as int, t.span.end as int)
}

/// Tokens with which a term always starts in `parse_primary_keyword`:
/// `new`, `yield`, `match`, `isset`, `empty`, `print`, `list`, `[`, a name
/// and `(`.
pub open spec fn spec_keyword_term_start(k: TokenKind) -> bool {
    ||| k == TokenKind::KwNew
    ||| k == TokenKind::KwYield
    ||| k == TokenKind::KwMatch
    ||| k == TokenKind::KwIsset
    ||| k == TokenKind::KwEmpty
    ||| k == TokenKind::KwPrint
    ||| k == TokenKind::KwList
    ||| k == TokenKind::LBracket
    ||| k == TokenKind::Ident
    ||| k == TokenKind::LParen
}

/// `r`, read from `p` on to `q`, is the dynamic member `dyn_expr` of
/// `base`: a call of it when `(` is at the cursor, otherwise a fetch of it
/// with nothing consumed.
pub open spec fn dynamic_member_of(p: &Parser, q: &Parser, r: Expr, base: Expr, dyn_expr: Expr) -> bool {
    if p.cur_kind() == TokenKind::LParen {
        r matches Expr::DynamicMethodCall { target, method_expr, span, .. } && *target == base
            && *method_expr == dyn_expr && span.start == base.spec_span().start
    } else {
        &&& r matches Expr::DynamicPropertyFetch { target, property_expr, span } && *target == base
            && *property_expr == dyn_expr && span == Span {
            start: base.spec_span().start,
            end: dyn_expr.spec_span().end,
        }
        &&& *q == *p
    }
}

/// `r`, read from `p` on to `q`, is the static member of `class_ref` named
/// at `member`: a call when `(` is at the cursor, otherwise a constant
/// fetch with nothing consumed. Its span starts one byte before the name.
pub open spec fn static_member_of(p: &Parser, q: &Parser, r: Expr, class_ref: ClassNameRef, member: Span) -> bool {
    let start: u32 = if member.start == 0 {
        0
    } else {
        (member.start - 1) as u32
    };
    if p.cur_kind() == TokenKind::LParen {
        r matches Expr::StaticCall { class, method, span, .. } && class == class_ref && method
            == Ident { span: member } && span.start == start
    } else {
        &&& r == Expr::ClassConstFetch {
            class_name: class_ref,
            constant: Ident { span: member },
            span: Span { start, end: member.end },
        }
        &&& *q == *p
    }
}

/// `e` is a member access of `base`: a method call or property fetch, named
/// or dynamic.
pub open spec fn member_of_base(e: Expr, base: Expr) -> bool {
    match e {
        Expr::MethodCall { target, .. } => *target == base,
        Expr::PropertyFetch { target, .. } => *target == base,
        Expr::DynamicMethodCall { target, .. } => *target == base,
        Expr::DynamicPropertyFetch { target, .. } => *target == base,
        _ => false,
    }
}

/// The tokens of `sync_postfix`.
pub open spec fn sync_postfix_spec() -> Seq<TokenKind> {
    seq![
        TokenKind::Semicolon,
        TokenKind::Comma,
        TokenKind::RParen,
        TokenKind::RBracket,
        TokenKind::RBrace,
    ]
}

/// `e` is `base` extended by postfix operations applied in turn: calls,
/// member accesses, subscripts, `++` and `--`. A `::` access builds its
/// class name out of the term before it and so starts the chain afresh:
/// any `::` node counts as extending `base`.
pub open spec fn postfix_of(e: Expr, base: Expr) -> bool
    decreases e,
{
    e == base || match e {
        Expr::FunctionCall { callee, .. } => postfix_of(*callee, base),
        Expr::MethodCall { target, .. } => postfix_of(*target, base),
        Expr::PropertyFetch { target, .. } => postfix_of(*target, base),
        Expr::DynamicMethodCall { target, .. } => postfix_of(*target, base),
        Expr::DynamicPropertyFetch { target, .. } => postfix_of(*target, base),
        Expr::ArrayAppend { array, .. } => postfix_of(*array, base),
        Expr::ArrayIndex { array, .. } => postfix_of(*array, base),
        Expr::PostfixInc { target, .. } => postfix_of(*target, base),
        Expr::PostfixDec { target, .. } => postfix_of(*target, base),
        Expr::StaticPropertyFetch { .. } => true,
        Expr::StaticCall { .. } => true,
        Expr::ClassConstFetch { .. } => true,
        _ => false,
    }
}

/// At the cursor of `p` stand `->` (or `?->`) and a name.
pub open spec fn arrow_member(p: &Parser) -> bool {
    let k = following_token(p).kind;
    &&& p.cur_kind() == TokenKind::Arrow || p.cur_kind() == TokenKind::NullsafeArrow
    &&& k == TokenKind::Ident || spec_is_ident_like_kw(k)
}

/// The token after the name that follows `->` at the cursor of `p`.
pub open spec fn after_arrow_member(p: &Parser) -> Token {
    token_at(p.toks(), next_position(p.toks(), next_position(p.toks(), p.position()) as nat))
}

/// `f` is the first postfix operation applied to `base` at the cursor of
/// `p`: a call of it for `(`, `base++` for `++` and `base--` for `--`, and
/// for `->name` a method call or a property fetch of that name on it.
pub open spec fn first_postfix_step(p: &Parser, f: Expr, base: Expr) -> bool {
    let t = p.cur_token();
    let name = following_token(p);
    &&& arrow_member(p) && after_arrow_member(p).kind == TokenKind::LParen ==> (f matches Expr::MethodCall {
        target,
        method,
        ..
    } && *target == base && method == Ident { span: name.span })
    &&& arrow_member(p) && after_arrow_member(p).kind != TokenKind::LParen ==> f == Expr::PropertyFetch {
        target: Box::new(base),
        property: Ident { span: name.span },
        span: Span { start: base.spec_span().start, end: name.span.end },
    }
    &&& t.kind == TokenKind::LParen ==> (f matches Expr::FunctionCall { callee, span, .. }
        && *callee == base && span.start == base.spec_span().start)
    &&& t.kind == TokenKind::PlusPlus ==> (f matches Expr::PostfixInc { target, span }
        && *target == base && span == Span { start: base.spec_span().start, end: t.span.end })
    &&& t.kind == TokenKind::MinusMinus ==> (f matches Expr::PostfixDec { target, span }
        && *target == base && span == Span { start: base.spec_span().start, end: t.span.end })
}

/// A conditional with both branches, `c ? a : b`.
pub open spec fn full_conditional(e: Expr) -> bool {
    e matches Expr::Ternary { then_expr: Some(_), .. }
}

/// The expression is grouped as the grammar says: each operand of a
/// conditional and each side of an assignment is grouped, the operator
/// expressions by precedence and associativity (see `grouped`), and no
/// full conditional has a full conditional without parentheses as its
/// else branch.
pub open spec fn expr_grouped(e: Expr) -> bool
    decreases e,
{
    match e {
        Expr::Ternary { condition, then_expr, else_expr, .. } => {
            &&& expr_grouped(*condition)
            &&& match then_expr {
                Some(t) => expr_grouped(*t),
                None => true,
            }
            &&& expr_grouped(*else_expr)
            &&& !(then_expr is Some && full_conditional(*else_expr))
        },
        Expr::Assign { target, value, .. } => grouped(*target) && expr_grouped(*value),
        Expr::CoalesceAssign { target, value, .. } => grouped(*target) && expr_grouped(*value),
        Expr::CompoundAssign { target, value, .. } => grouped(*target) && expr_grouped(*value),
        _ => grouped(e),
    }
}

fn max_u32(a: u32, b: u32) -> (r: u32)
    ensures
        r == if a >= b {
            a
        } else {
            b
        },
{
    if a >= b {
        a
    } else {
        b
    }
}

impl<'src> Parser<'src> {
    /// A primary term: a literal, variable, name, or a construct that starts
    /// with a keyword or bracket.
    fn parse_primary(&mut self) -> (r: Option<Expr>)
        requires
            old(self).wf(),
        ensures
            r is Some ==> spec_is_operand(r->0),
            final(self).wf(),
            old(self).evolves_to(final(self)),
            r is Some ==> old(self).advances_to(final(self)),
            single_token_term(old(self)) is Some ==> r == single_token_term(old(self))
                && final(self).position() == next_position(old(self).toks(), old(self).position()),
            token_term_clean(old(self).cur_token(), old(self).src_bytes()) ==> final(self).diags()
                == old(self).diags(),
        decreases old(self).rem(), 510nat,
    {
        if self.at(TokenKind::Int) {
            return Some(self.parse_int_literal());
        }
        if self.at(TokenKind::Float) {
            return Some(self.parse_float_literal());
        }
        if self.at(TokenKind::StrSq) || self.at(TokenKind::StrDq) || self.at(TokenKind::StrBt) {
            return self.parse_string_like_literal();
        }
        if self.at_variable_start() {
            return Some(self.parse_variable_expr());
        }
        let k0 = self.kind();
        if let Some(kind) = self.keyword_to_include_kind(k0) {
            return Some(self.parse_include_expr(kind));
        }
        if self.at_closure_start() {
            return self.parse_closure_expr();
        }
        let ghost s0 = *self;
        if self.at(TokenKind::AttrOpen) {
            let _attrs = self.parse_attribute_group_list();
            if self.at_closure_start() {
                let ghost s1 = *self;
                let r = self.parse_closure_expr();
                proof {
                    Self::lemma_evolves_trans(&s0, &s1, self);
                }
                return r;
            }
        }
        let ghost s1 = *self;
        let r = self.parse_primary_keyword();
        proof {
            Self::lemma_evolves_trans(&s0, &s1, self);
            if s1 != s0 {
                assert(s0.advances_to(&s1));
            }
        }
        r
    }

    /// The part of `parse_primary` for terms that start with a keyword,
    /// bracket or name.
    fn parse_primary_keyword(&mut self) -> (r: Option<Expr>)
        requires
            old(self).wf(),
        ensures
            r is Some ==> spec_is_operand(r->0),
            final(self).wf(),
            old(self).evolves_to(final(self)),
            r is Some ==> old(self).advances_to(final(self)),
            spec_keyword_term_start(old(self).cur_kind()) || (old(self).cur_kind() == TokenKind::KwStatic
                && nth_kind_from(old(self).toks(), old(self).position() as int, 1) == TokenKind::ColCol)
                ==> r is Some,
            old(self).cur_kind() == TokenKind::KwArray ==> (r is Some <==> following_token(
                old(self),
            ).kind == TokenKind::LParen),
            old(self).cur_kind() == TokenKind::KwNew ==> (r matches Some(e) && (e is New || e is Error)),
            old(self).cur_kind() == TokenKind::LParen ==> (r matches Some(e) && e is Parenthesized),
            old(self).cur_kind() == TokenKind::KwList ==> (r matches Some(e) && (e is ListDestructure
                || e is Error)),
            !spec_keyword_term_start(old(self).cur_kind()) && old(self).cur_kind() != TokenKind::KwArray
                && old(self).cur_kind() != TokenKind::KwEval && old(self).cur_kind()
                != TokenKind::Backslash && old(self).cur_kind() != TokenKind::KwStatic ==> r is None
                && *final(self) == *old(self),
        decreases old(self).rem(), 505nat,
    {
        if self.at(TokenKind::KwNew) {
            return Some(self.parse_new_expr());
        }
        if self.at(TokenKind::KwYield) {
            return Some(self.parse_yield_like_expr());
        }
        if self.at(TokenKind::KwMatch) {
            return Some(self.parse_match_expr());
        }
        if self.at(TokenKind::KwIsset) {
            return Some(self.parse_isset_expr());
        }
        if self.at(TokenKind::KwEmpty) {
            return Some(self.parse_empty_expr());
        }
        if self.at(TokenKind::KwEval) {
            return self.parse_eval_expr();
        }
        if self.at(TokenKind::KwPrint) {
            return Some(self.parse_print_expr());
        }
        if self.at(TokenKind::KwList) {
            return Some(self.parse_list_destructure_expr());
        }
        if self.at(TokenKind::LBracket) {
            let lb_span = self.current_span();
            self.bump();
            return self.parse_array_literal(true, Some(lb_span));
        }
        if self.at(TokenKind::KwArray) {
            return self.parse_array_construct();
        }
        if self.at(TokenKind::Backslash) {
            return self.parse_qualified_expr();
        }
        if self.at(TokenKind::KwStatic) && self.at_nth(1, TokenKind::ColCol) {
            let tok = self.bump();
            let span = tok.span;
            let ident = Ident { span };
            let qn = QualifiedName { absolute: false, parts: vec![ident], span };
            return Some(Expr::ConstFetch { name: qn, span });
        }
        if self.at(TokenKind::Ident) {
            return Some(self.parse_identifier_expr());
        }
        if self.at(TokenKind::LParen) {
            let lp = self.bump();
            let lp_span = lp.span;
            return Some(self.parse_paren_expr(lp_span));
        }
        None
    }

    /// Whether a closure starts here: `fn`, `function`, or `static` followed
    /// by one of them.
    fn at_closure_start(&self) -> (b: bool)
        requires
            self.wf(),
        ensures
            b ==> self.cur_kind() == TokenKind::KwStatic || self.cur_kind() == TokenKind::KwFn
                || self.cur_kind() == TokenKind::KwFunction,
            b == ((self.cur_kind() == TokenKind::KwStatic && (nth_kind_from(
                self.toks(),
                self.position() as int,
                1,
            ) == TokenKind::KwFn || nth_kind_from(self.toks(), self.position() as int, 1)
                == TokenKind::KwFunction)) || self.cur_kind() == TokenKind::KwFn || self.cur_kind()
                == TokenKind::KwFunction),
    {
        (self.at(TokenKind::KwStatic) && (self.nth_kind(1) == TokenKind::KwFn || self.nth_kind(1)
            == TokenKind::KwFunction)) || self.at(TokenKind::KwFn) || self.at(TokenKind::KwFunction)
    }

    /// An expression.
    pub fn parse_expr(&mut self) -> (r: Option<Expr>)
        requires
            old(self).wf(),
        ensures
            final(self).wf(),
            old(self).evolves_to(final(self)),
            r is Some ==> old(self).advances_to(final(self)),
            r is Some && final(self).diags().len() == old(self).diags().len() ==> expr_grouped(
                r->0,
            ),
            r is Some ==> ops_read(
                old(self).toks(),
                old(self).position() as int,
                final(self).position() as int,
                flat_ops(r->0),
            ),
            term_alone(old(self)) ==> r == single_token_term(old(self)) && final(self).position()
                == next_position(old(self).toks(), old(self).position()),
            unary_alone(old(self)) ==> r == Some(unary_term(old(self))) && final(self).position()
                == prefix_term_end(old(self)),
            expr_chain_alone(old(self)) && final(self).diags().len() == old(self).diags().len() ==> r is Some
                && expr_chain_whole(old(self), r->0, final(self).position()),
            expr_chain_alone(old(self)) && expr_chain_valid(old(self)) ==> final(self).diags()
                == old(self).diags(),
            assign_of_terms(old(self)) ==> r == Some(assign_of_terms_expr(old(self)))
                && final(self).position() == assign_of_terms_end(old(self)),
            ternary_terms(old(self)) ==> r == Some(ternary_terms_expr(old(self)))
                && final(self).position() == next_position(old(self).toks(), cond_else_pos(old(self)))
                && (ternary_terms_clean(old(self)) ==> final(self).diags() == old(self).diags()),
            nested_full_ternary(old(self)) ==> final(self).diags().len() > old(self).diags().len()
                && final(self).diags().last().message@
                == "nested ternary expressions without parentheses are non-associative"@,
        decreases old(self).rem(), 600nat,
    {
        self.parse_conditional_expr()
    }

    /// An expression, or an error node at `last_end` after reporting that
    /// one was expected; on success `last_end` becomes the end of the
    /// expression.
    pub fn parse_expr_or_err(&mut self, last_end: &mut u32) -> (r: Expr)
        requires
            old(self).wf(),
        ensures
            final(self).wf(),
            old(self).evolves_to(final(self)),
            (*final(last_end) == r.spec_span().end && old(self).advances_to(final(self))) || (r
                == Expr::Error { span: Span::at_spec(*old(last_end)) } && *final(last_end) == *old(
                last_end,
            ) && final(self).last_error_is(
                ParseDiagnosticCode::ExpectedExpression,
                Span::at_spec(*old(last_end)),
            )),
            term_alone(old(self)) ==> r == single_token_term(old(self))->0 && *final(last_end)
                == r.spec_span().end && final(self).position() == next_position(
                old(self).toks(),
                old(self).position(),
            ),
            unary_alone(old(self)) ==> r == unary_term(old(self)) && *final(last_end)
                == r.spec_span().end && final(self).position() == prefix_term_end(old(self)),
        decreases old(self).rem(), 620nat,
    {
        let ghost s0 = *self;
        let res = self.parse_expr();
        let ghost s1 = *self;
        match self.parse_or_err(ParseDiagnosticCode::ExpectedExpression, Span::at(*last_end), res) {
            Ok(e) => {
                *last_end = e.span().end;
                proof {
                    Self::lemma_evolves_trans(&s0, &s1, self);
                }
                e
            },
            Err(s) => {
                proof {
                    Self::lemma_evolves_trans(&s0, &s1, self);
                }
                Expr::Error { span: s }
            },
        }
    }

    /// `cond ? then : else` and `cond ?: else`, which associate to the left.
    #[verifier::spinoff_prover]
    #[verifier::rlimit(80)]
    fn parse_conditional_expr(&mut self) -> (r: Option<Expr>)
        requires
            old(self).wf(),
        ensures
            final(self).wf(),
            old(self).evolves_to(final(self)),
            r is Some ==> old(self).advances_to(final(self)),
            r is Some && final(self).diags().len() == old(self).diags().len() ==> expr_grouped(
                r->0,
            ) && spec_token_to_binop(final(self).cur_kind()) is None && final(self).cur_kind() != TokenKind::Question,
            r is Some ==> ops_read(
                old(self).toks(),
                old(self).position() as int,
                final(self).position() as int,
                flat_ops(r->0),
            ),
            term_alone(old(self)) ==> r == single_token_term(old(self)) && final(self).position()
                == next_position(old(self).toks(), old(self).position()),
            unary_alone(old(self)) ==> r == Some(unary_term(old(self))) && final(self).position()
                == prefix_term_end(old(self)),
            expr_chain_alone(old(self)) && final(self).diags().len() == old(self).diags().len() ==> r is Some
                && expr_chain_whole(old(self), r->0, final(self).position()),
            expr_chain_alone(old(self)) && expr_chain_valid(old(self)) ==> final(self).diags()
                == old(self).diags(),
            assign_of_terms(old(self)) ==> r == Some(assign_of_terms_expr(old(self)))
                && final(self).position() == assign_of_terms_end(old(self)),
            ternary_terms(old(self)) ==> r == Some(ternary_terms_expr(old(self)))
                && final(self).position() == next_position(old(self).toks(), cond_else_pos(old(self)))
                && (ternary_terms_clean(old(self)) ==> final(self).diags() == old(self).diags()),
            nested_full_ternary(old(self)) ==> final(self).diags().len() > old(self).diags().len()
                && final(self).diags().last().message@
                == "nested ternary expressions without parentheses are non-associative"@,
        decreases old(self).rem(), 590nat,
    {
        proof {
            old(self).lemma_cur_token_at();
            if ternary_terms(old(self)) || nested_full_ternary(old(self)) {
                assert(term_below_conditional(old(self)));
            }
        }
        let mut cond = match self.parse_coalesce_expr() {
            Some(c) => c,
            None => return None,
        };
        let ghost cond0 = cond;
        let ghost s1 = *self;
        proof {
            self.lemma_cur_token_at();
            if expr_chain_alone(old(self)) && s1.diags().len() == old(self).diags().len() {
                let toks = old(self).toks();
                let bytes = old(self).src_bytes();
                let q1 = next_position(toks, old(self).position()) as nat;
                let n = chain_len(toks, bytes, q1);
                assert(expr_chain_whole(old(self), cond0, s1.position()));
                assert(simple_chain(toks, bytes, q1, n));
                assert(s1.position() == pos_after(toks, q1, 2 * n));
                assert(s1.cur_token() == token_at(toks, pos_after(toks, q1, 2 * n) as int));
                assert(spec_token_to_binop(s1.cur_kind()) is None);
                assert(s1.cur_kind() != TokenKind::Question);
            }
        }
        loop
            invariant
                self.wf(),
                old(self).advances_to(self),
                ops_read(
                    old(self).toks(),
                    old(self).position() as int,
                    self.position() as int,
                    flat_ops(cond),
                ),
                self.diags().len() == old(self).diags().len() ==> expr_grouped(cond)
                    && spec_token_to_binop(self.cur_kind()) is None,
                term_alone(old(self)) ==> cond == cond0 && *self == s1 && s1.cur_token()
                    == following_token(old(self)),
                unary_alone(old(self)) ==> cond == cond0 && *self == s1 && s1.cur_token()
                    == token_at(old(self).toks(), prefix_term_end(old(self))),
                assign_of_terms(old(self)) ==> cond == cond0 && *self == s1 && s1.cur_token()
                    == token_at(old(self).toks(), assign_of_terms_end(old(self))),
                expr_chain_alone(old(self)) && s1.diags().len() == old(self).diags().len() ==> cond
                    == cond0 && *self == s1 && s1.cur_kind() != TokenKind::Question,
                expr_chain_alone(old(self)) && expr_chain_valid(old(self)) ==> s1.diags() == old(
                    self,
                ).diags(),
                s1.diags().len() <= self.diags().len(),
                nested_full_ternary(old(self)) ==> cond0 == single_token_term(old(self))->0
                    && s1.position() == next_position(old(self).toks(), old(self).position())
                    && s1.cur_kind() == TokenKind::Question,
                nested_full_ternary(old(self)) ==> (cond == cond0 && *self == s1) || (self.diags().len()
                    > old(self).diags().len() && self.diags().last().message@
                    == "nested ternary expressions without parentheses are non-associative"@
                    && spec_ends_expr(self.cur_kind())),
                ternary_terms(old(self)) ==> cond0 == single_token_term(old(self))->0 && s1.position()
                    == next_position(old(self).toks(), old(self).position()) && s1.cur_kind()
                    == TokenKind::Question && (ternary_terms_clean(old(self)) ==> s1.diags() == old(
                    self,
                ).diags()),
                ternary_terms(old(self)) ==> (cond == cond0 && *self == s1) || (cond
                    == ternary_terms_expr(old(self)) && self.position() == next_position(
                    old(self).toks(),
                    cond_else_pos(old(self)),
                ) && spec_ends_expr(self.cur_kind()) && (ternary_terms_clean(old(self))
                    ==> self.diags() == old(self).diags())),
            ensures
                self.wf(),
                old(self).advances_to(self),
                ops_read(
                    old(self).toks(),
                    old(self).position() as int,
                    self.position() as int,
                    flat_ops(cond),
                ),
                term_alone(old(self)) ==> cond == cond0 && *self == s1,
                unary_alone(old(self)) ==> cond == cond0 && *self == s1,
                assign_of_terms(old(self)) ==> cond == cond0 && *self == s1,
                expr_chain_alone(old(self)) && s1.diags().len() == old(self).diags().len() ==> cond
                    == cond0 && *self == s1,
                s1.diags().len() <= self.diags().len(),
                self.diags().len() == old(self).diags().len() ==> expr_grouped(cond)
                    && spec_token_to_binop(self.cur_kind()) is None && self.cur_kind()
                    != TokenKind::Question,
                nested_full_ternary(old(self)) ==> self.diags().len() > old(self).diags().len()
                    && self.diags().last().message@
                    == "nested ternary expressions without parentheses are non-associative"@,
                ternary_terms(old(self)) ==> cond == ternary_terms_expr(old(self)) && self.position()
                    == next_position(old(self).toks(), cond_else_pos(old(self))) && (ternary_terms_clean(
                    old(self),
                ) ==> self.diags() == old(self).diags()),
            decreases self.rem(),
        {
            let ghost it = *self;
            proof {
                it.lemma_cur_token_at();
            }
            let q = self.current_span();
            if !self.eat(TokenKind::Question) {
                break;
            }
            let q_span = q;
            let ghost first = ternary_terms(old(self)) && it == s1;
            let ghost nested = nested_full_ternary(old(self)) && it == s1;
            proof {
                if nested_full_ternary(old(self)) {
                    assert(it == s1);
                    self.lemma_cur_token_at();
                    Self::lemma_same_source_bytes(old(self), self);
                    assert(self.cur_kind() != TokenKind::Colon);
                    assert(term_below_conditional(self));
                }
                if ternary_terms(old(self)) {
                    assert(it == s1);
                    self.lemma_cur_token_at();
                    Self::lemma_same_source_bytes(old(self), self);
                    if self.cur_kind() != TokenKind::Colon {
                        assert(term_below_conditional(self));
                    }
                }
            }
            let then_opt: Option<Expr> = if self.at(TokenKind::Colon) {
                None
            } else {
                match self.parse_coalesce_expr() {
                    Some(expr) => Some(expr),
                    None => {
                        let sync = vec![
                            TokenKind::Colon,
                            TokenKind::Semicolon,
                            TokenKind::Comma,
                            TokenKind::RParen,
                            TokenKind::RBracket,
                        ];
                        self.error_msg_and_recover("expected expression after '?'", &sync);
                        None
                    },
                }
            };
            if !self.eat(TokenKind::Colon) {
                let sync = vec![
                    TokenKind::Colon,
                    TokenKind::Semicolon,
                    TokenKind::Comma,
                    TokenKind::RParen,
                    TokenKind::RBracket,
                ];
                self.error_msg_and_recover("expected ':' in ternary expression", &sync);
                let fake = match self.prev_span() {
                    Some(s) => s,
                    None => q_span,
                };
                proof {
                    lemma_ops_read_none(
                        self.toks(),
                        old(self).position() as int,
                        self.position() as int,
                    );
                }
                return Some(Expr::Error { span: fake });
            }
            proof {
                if first {
                    self.lemma_cur_token_at();
                    Self::lemma_same_source_bytes(old(self), self);
                    assert(self.position() == cond_else_pos(old(self)));
                    lemma_term_before_end(self);
                    if ternary_terms_clean(old(self)) {
                        lemma_term_alone_chain(self);
                    }
                }
            }
            proof {
                if nested {
                    self.lemma_cur_token_at();
                    Self::lemma_same_source_bytes(old(self), self);
                    assert(self.position() == cond_else_pos(old(self)));
                    assert(ternary_terms(self));
                }
            }
            let else_expr = match self.parse_conditional_expr() {
                Some(expr) => expr,
                None => {
                    let sync = vec![
                        TokenKind::Semicolon,
                        TokenKind::Comma,
                        TokenKind::RParen,
                        TokenKind::RBracket,
                    ];
                    self.error_msg_and_recover(
                        "expected expression after ':' in ternary expression",
                        &sync,
                    );
                    let fake = match self.prev_span() {
                        Some(s) => s,
                        None => q_span,
                    };
                    Expr::Error { span: fake }
                },
            };
            if then_opt.is_some() {
                if let Expr::Ternary { then_expr: Some(_), .. } = &else_expr {
                    let sp = else_expr.span();
                    self.error_span(
                        ParseDiagnosticCode::UnexpectedToken,
                        sp,
                        "nested ternary expressions without parentheses are non-associative",
                    );
                }
            }
            let span = Span { start: cond.span().start, end: else_expr.span().end };
            let ghost old_cond = cond;
            let ghost then_g = then_opt;
            let ghost else_g = else_expr;
            cond = Expr::Ternary {
                condition: Box::new(cond),
                then_expr: match then_opt {
                    Some(e) => Some(Box::new(e)),
                    None => None,
                },
                else_expr: Box::new(else_expr),
                span,
            };
            proof {
                if first {
                    self.lemma_cur_token_at();
                    assert(cond == ternary_terms_expr(old(self)));
                }
            }
            proof {
                lemma_ops_read_none(self.toks(), old(self).position() as int, self.position() as int);
                if self.diags().len() == old(self).diags().len() {
                    assert(it.diags().len() == old(self).diags().len());
                    assert(expr_grouped(old_cond));
                    assert(expr_grouped(else_g));
                    assert(then_g matches Some(t) ==> expr_grouped(t));
                    assert(!(then_g is Some && full_conditional(else_g)));
                    assert(expr_grouped(cond));
                }
            }
        }
        let ghost cond_g = cond;
        let res = Some(cond);
        proof {
            assert(res->0 == cond_g);
        }
        res
    }

    /// `left ?? right`, associating to the left at this layer.
    #[verifier::spinoff_prover]
    fn parse_coalesce_expr(&mut self) -> (r: Option<Expr>)
        requires
            old(self).wf(),
        ensures
            final(self).wf(),
            old(self).evolves_to(final(self)),
            r is Some ==> old(self).advances_to(final(self)),
            r is Some && final(self).diags().len() == old(self).diags().len() ==> expr_grouped(
                r->0,
            ) && spec_token_to_binop(final(self).cur_kind()) is None,
            r is Some ==> ops_read(
                old(self).toks(),
                old(self).position() as int,
                final(self).position() as int,
                flat_ops(r->0),
            ),
            term_alone(old(self)) ==> r == single_token_term(old(self)) && final(self).position()
                == next_position(old(self).toks(), old(self).position()),
            unary_alone(old(self)) ==> r == Some(unary_term(old(self))) && final(self).position()
                == prefix_term_end(old(self)),
            expr_chain_alone(old(self)) && final(self).diags().len() == old(self).diags().len() ==> r is Some
                && expr_chain_whole(old(self), r->0, final(self).position()),
            expr_chain_alone(old(self)) && expr_chain_valid(old(self)) ==> final(self).diags()
                == old(self).diags(),
            assign_of_terms(old(self)) ==> r == Some(assign_of_terms_expr(old(self)))
                && final(self).position() == assign_of_terms_end(old(self)),
            term_below_conditional(old(self)) ==> r == single_token_term(old(self)) && final(self).position()
                == next_position(old(self).toks(), old(self).position()) && (token_term_clean(
                old(self).cur_token(),
                old(self).src_bytes(),
            ) ==> final(self).diags() == old(self).diags()),
        decreases old(self).rem(), 580nat,
    {
        let mut left = match self.parse_assignment_expr() {
            Some(l) => l,
            None => return None,
        };
        let ghost left0 = left;
        let ghost s1 = *self;
        proof {
            self.lemma_cur_token_at();
            if expr_chain_alone(old(self)) && s1.diags().len() == old(self).diags().len() {
                let toks = old(self).toks();
                let bytes = old(self).src_bytes();
                let q1 = next_position(toks, old(self).position()) as nat;
                let n = chain_len(toks, bytes, q1);
                assert(expr_chain_whole(old(self), left0, s1.position()));
                assert(simple_chain(toks, bytes, q1, n));
                assert(s1.position() == pos_after(toks, q1, 2 * n));
                assert(s1.cur_token() == token_at(toks, pos_after(toks, q1, 2 * n) as int));
                assert(spec_token_to_binop(s1.cur_kind()) is None);
                assert(s1.cur_kind() != TokenKind::Question);
            }
        }
        loop
            invariant
                self.wf(),
                old(self).advances_to(self),
                ops_read(
                    old(self).toks(),
                    old(self).position() as int,
                    self.position() as int,
                    flat_ops(left),
                ),
                term_alone(old(self)) ==> left == left0 && *self == s1 && s1.cur_token()
                    == following_token(old(self)),
                term_below_conditional(old(self)) ==> left == left0 && *self == s1 && s1.cur_token()
                    == following_token(old(self)),
                unary_alone(old(self)) ==> left == left0 && *self == s1 && s1.cur_token()
                    == token_at(old(self).toks(), prefix_term_end(old(self))),
                assign_of_terms(old(self)) ==> left == left0 && *self == s1 && s1.cur_token()
                    == token_at(old(self).toks(), assign_of_terms_end(old(self))),
                expr_chain_alone(old(self)) && s1.diags().len() == old(self).diags().len() ==> left
                    == left0 && *self == s1 && spec_token_to_binop(s1.cur_kind()) is None,
                s1.diags().len() <= self.diags().len(),
                self.diags().len() == old(self).diags().len() ==> expr_grouped(left)
                    && spec_token_to_binop(self.cur_kind()) is None,
            decreases self.rem(),
        {
            let ghost it = *self;
            proof {
                it.lemma_cur_token_at();
                if it.cur_kind() == TokenKind::NullCoalesce {
                    it.lemma_not_eof_room();
                }
            }
            if self.eat(TokenKind::NullCoalesce) {
                proof {
                    Self::lemma_advances_moves(&it, self);
                }
                let ghost s2 = *self;
                let right = match self.parse_assignment_expr() {
                    Some(expr) => expr,
                    None => {
                        let sync = vec![
                            TokenKind::Comma,
                            TokenKind::Semicolon,
                            TokenKind::RParen,
                            TokenKind::RBracket,
                        ];
                        self.error_msg_and_recover("expected expression after '??'", &sync);
                        proof {
                            lemma_ops_read_widen(
                                self.toks(),
                                old(self).position() as int,
                                it.position() as int,
                                old(self).position() as int,
                                self.position() as int,
                                flat_ops(left),
                            );
                        }
                        break;
                    },
                };
                let span = Span { start: left.span().start, end: right.span().end };
                let ghost left_before = left;
                left = Expr::NullCoalesce { left: Box::new(left), right: Box::new(right), span };
                proof {
                    lemma_ops_read_join(
                        self.toks(),
                        old(self).position() as int,
                        it.position() as int,
                        flat_ops(left_before),
                        it.position() as int,
                        BinOpKind::NullCoalesce,
                        s2.position() as int,
                        self.position() as int,
                        flat_ops(right),
                    );
                }
                continue;
            }
            break;
        }
        let ghost left_g = left;
        let res = Some(left);
        proof {
            assert(res->0 == left_g);
        }
        res
    }

    /// The right-hand side of an assignment: a whole expression, so that
    /// `$a = $b ? $c : $d` assigns the conditional and `$a = $b = $c`
    /// groups to the right.
    fn parse_assignment_rhs(&mut self) -> (r: Option<Expr>)
        requires
            old(self).wf(),
        ensures
            final(self).wf(),
            old(self).evolves_to(final(self)),
            r is Some ==> old(self).advances_to(final(self)),
            r is Some && final(self).diags().len() == old(self).diags().len() ==> expr_grouped(
                r->0,
            ) && spec_token_to_binop(final(self).cur_kind()) is None,
            r is Some ==> ops_read(
                old(self).toks(),
                old(self).position() as int,
                final(self).position() as int,
                flat_ops(r->0),
            ),
            term_alone(old(self)) ==> r == single_token_term(old(self)) && final(self).position()
                == next_position(old(self).toks(), old(self).position()),
        decreases old(self).rem(), 595nat,
    {
        self.parse_conditional_expr()
    }

    /// `target = value`, `target ??= value` and `target op= value`, which
    /// associate to the right.
    #[verifier::spinoff_prover]
    fn parse_assignment_expr(&mut self) -> (r: Option<Expr>)
        requires
            old(self).wf(),
        ensures
            final(self).wf(),
            old(self).evolves_to(final(self)),
            r is Some ==> old(self).advances_to(final(self)),
            r is Some && final(self).diags().len() == old(self).diags().len() ==> expr_grouped(
                r->0,
            ) && spec_token_to_binop(final(self).cur_kind()) is None,
            r is Some ==> ops_read(
                old(self).toks(),
                old(self).position() as int,
                final(self).position() as int,
                flat_ops(r->0),
            ),
            term_alone(old(self)) ==> r == single_token_term(old(self)) && final(self).position()
                == next_position(old(self).toks(), old(self).position()),
            unary_alone(old(self)) ==> r == Some(unary_term(old(self))) && final(self).position()
                == prefix_term_end(old(self)),
            expr_chain_alone(old(self)) && final(self).diags().len() == old(self).diags().len() ==> r is Some
                && expr_chain_whole(old(self), r->0, final(self).position()),
            expr_chain_alone(old(self)) && expr_chain_valid(old(self)) ==> final(self).diags()
                == old(self).diags(),
            assign_of_terms(old(self)) ==> r == Some(assign_of_terms_expr(old(self)))
                && final(self).position() == assign_of_terms_end(old(self)),
            term_below_conditional(old(self)) ==> r == single_token_term(old(self)) && final(self).position()
                == next_position(old(self).toks(), old(self).position()) && (token_term_clean(
                old(self).cur_token(),
                old(self).src_bytes(),
            ) ==> final(self).diags() == old(self).diags()),
        decreases old(self).rem(), 570nat,
    {
        proof {
            if term_below_conditional(old(self)) {
                lemma_term_stop_chain(old(self));
            }
        }
        let left = match self.parse_binop_prec(0) {
            Some(l) => l,
            None => return None,
        };
        proof {
            self.lemma_cur_token_at();
            self.lemma_next_kind_is_cur();
            if expr_chain_alone(old(self)) && self.diags().len() == old(self).diags().len() {
                let toks = old(self).toks();
                let bytes = old(self).src_bytes();
                let q1 = next_position(toks, old(self).position()) as nat;
                let n = chain_len(toks, bytes, q1);
                let k = choose|k: nat| #[trigger]
                    expr_chain_read(old(self), k, left, self.position()) && (k < n
                        ==> self.diags().len() > old(self).diags().len() || (spec_precedence(
                        chain_op(toks, q1, k)->0,
                    ) as int) < 0int);
                assert(k == n);
                assert(expr_chain_whole(old(self), left, self.position()));
                assert(simple_chain(toks, bytes, q1, n));
                assert(self.cur_token() == token_at(toks, pos_after(toks, q1, 2 * n) as int));
            }
        }
        if self.eat(TokenKind::Eq) {
            let rhs = match self.parse_assignment_rhs() {
                Some(r) => r,
                None => return None,
            };
            let span = Span { start: left.span().start, end: rhs.span().end };
            proof {
                lemma_ops_read_none(self.toks(), old(self).position() as int, self.position() as int);
            }
            return Some(Expr::Assign { target: Box::new(left), value: Box::new(rhs), span });
        }
        if self.eat(TokenKind::NullCoalesceAssign) {
            let rhs = match self.parse_assignment_rhs() {
                Some(r) => r,
                None => return None,
            };
            let span = Span { start: left.span().start, end: rhs.span().end };
            proof {
                lemma_ops_read_none(self.toks(), old(self).position() as int, self.position() as int);
            }
            return Some(
                Expr::CoalesceAssign { target: Box::new(left), value: Box::new(rhs), span },
            );
        }
        let op = compound_assign_op(self.nth_kind(0));
        if let Some(bin) = op {
            self.bump();
            let rhs = match self.parse_assignment_rhs() {
                Some(r) => r,
                None => return None,
            };
            let span = Span { start: left.span().start, end: rhs.span().end };
            proof {
                lemma_ops_read_none(self.toks(), old(self).position() as int, self.position() as int);
            }
            return Some(
                Expr::CompoundAssign { op: bin, target: Box::new(left), value: Box::new(rhs), span },
            );
        }
        proof {
            self.lemma_next_kind_is_cur();
        }
        Some(left)
    }

    /// Binary operators of precedence at least `min_prec`.
    fn parse_binop_prec(&mut self, min_prec: u8) -> (r: Option<Expr>)
        requires
            old(self).wf(),
        ensures
            r is Some ==> spec_below_conditional(r->0),
            r is Some && final(self).diags().len() == old(self).diags().len() ==> grouped(r->0)
                && stops_below(final(self), min_prec as int),
            r is Some ==> ops_read(
                old(self).toks(),
                old(self).position() as int,
                final(self).position() as int,
                flat_ops(r->0),
            ),
            final(self).wf(),
            old(self).evolves_to(final(self)),
            r is Some ==> old(self).advances_to(final(self)),
            term_alone(old(self)) ==> r == single_token_term(old(self)) && final(self).position()
                == next_position(old(self).toks(), old(self).position()),
            unary_alone(old(self)) ==> r == Some(unary_term(old(self))) && final(self).position()
                == prefix_term_end(old(self)),
            expr_chain(old(self)) ==> r is Some && exists|k: nat|
                #[trigger] expr_chain_read(old(self), k, r->0, final(self).position()) && (k
                    < chain_len(
                    old(self).toks(),
                    old(self).src_bytes(),
                    next_position(old(self).toks(), old(self).position()) as nat,
                ) ==> final(self).diags().len() > old(self).diags().len() || (spec_precedence(
                    chain_op(
                        old(self).toks(),
                        next_position(old(self).toks(), old(self).position()) as nat,
                        k,
                    )->0,
                ) as int) < min_prec as int),
            expr_chain_valid(old(self)) && min_prec_free(min_prec as int) ==> final(self).diags()
                == old(self).diags(),
            single_token_term(old(self)) is Some && !spec_starts_postfix(
                following_token(old(self)).kind,
            ) && spec_token_to_binop(following_token(old(self)).kind) is None ==> r
                == single_token_term(old(self)) && final(self).position() == next_position(
                old(self).toks(),
                old(self).position(),
            ),
        decreases old(self).rem(), 560nat,
    {
        self.parse_binop_prec_impl(min_prec)
    }

    /// A term with its prefix operators, casts and postfix chain.
    fn parse_prefix_term(&mut self) -> (r: Option<Expr>)
        requires
            old(self).wf(),
        ensures
            r is Some ==> spec_is_operand(r->0),
            final(self).wf(),
            old(self).evolves_to(final(self)),
            r is Some ==> old(self).advances_to(final(self)),
            spec_unary_prefix_op(old(self).cur_kind()) is Some && r is Some ==> (r->0 matches Expr::UnaryOp {
                op,
                span,
                ..
            } && Some(op) == spec_unary_prefix_op(old(self).cur_kind()) && span.start
                == old(self).cur_token().span.start),
            single_token_term(old(self)) is Some && !spec_starts_postfix(
                following_token(old(self)).kind,
            ) ==> r == single_token_term(old(self)) && final(self).position() == next_position(
                old(self).toks(),
                old(self).position(),
            ),
            prefix_then_term(old(self)) ==> r == Some(unary_term(old(self))) && final(self).position()
                == prefix_term_end(old(self)),
            token_term_clean(old(self).cur_token(), old(self).src_bytes()) && !spec_starts_postfix(
                following_token(old(self)).kind,
            ) ==> final(self).diags() == old(self).diags(),
            unary_run(old(self).toks(), old(self).src_bytes(), old(self).position()) is Some ==> r
                == unary_run(old(self).toks(), old(self).src_bytes(), old(self).position()),
        decreases old(self).rem(), 540nat,
    {
        if self.at(TokenKind::PlusPlus) || self.at(TokenKind::MinusMinus) {
            let is_inc = self.at(TokenKind::PlusPlus);
            let op_tok = self.bump();
            let op_span = op_tok.span;
            let inner = match self.parse_prefix_term() {
                Some(e) => e,
                None => {
                    if is_inc {
                        self.error_here("expected expression after '++'");
                    } else {
                        self.error_here("expected expression after '--'");
                    }
                    return Some(Expr::Error { span: op_span });
                },
            };
            let span = Span { start: op_span.start, end: inner.span().end };
            if is_inc {
                return Some(Expr::PrefixInc { target: Box::new(inner), span });
            } else {
                return Some(Expr::PrefixDec { target: Box::new(inner), span });
            }
        }
        if self.at(TokenKind::KwThrow) {
            let throw_token = self.bump();
            let rhs = match self.parse_prefix_term() {
                Some(e) => e,
                None => {
                    self.error_here("expected expression after 'throw'");
                    return Some(Expr::Error { span: throw_token.span });
                },
            };
            let span = Span { start: throw_token.span.start, end: rhs.span().end };
            return Some(Expr::Throw { expr: Box::new(rhs), span });
        }
        if self.at(TokenKind::KwClone) {
            let clone_token = self.bump();
            let inner = match self.parse_prefix_term() {
                Some(e) => e,
                None => return None,
            };
            let span = Span { start: clone_token.span.start, end: inner.span().end };
            return Some(Expr::Clone { expr: Box::new(inner), span });
        }
        if self.at(TokenKind::KwExit) || self.at(TokenKind::KwDie) {
            return Some(self.parse_exit_expr());
        }
        let ghost s0 = *self;
        let ghost first_op = spec_unary_prefix_op(old(self).cur_kind());
        let mut prefixes: Vec<Prefix> = Vec::new();
        loop
            invariant
                self.wf(),
                s0.evolves_to(self),
                prefixes@.len() > 0 ==> s0.advances_to(self),
                s0 == *old(self),
                first_op == spec_unary_prefix_op(old(self).cur_kind()),
                prefixes@.len() == 0 ==> self.cur_token() == old(self).cur_token(),
                prefixes@.len() == 0 && old(self).cur_kind() != TokenKind::LParen ==> *self == *old(
                    self,
                ),
                single_token_term(old(self)) is Some ==> prefixes@.len() == 0,
                first_op is Some ==> prefixes@.len() > 0 ==> prefixes@[0] == Prefix::Unary(
                    first_op->0,
                    old(self).cur_token().span.start,
                ),
                prefix_then_term(old(self)) ==> (prefixes@.len() == 0 && *self == *old(self)) || (
                prefixes@ == seq![Prefix::Unary(first_op->0, old(self).cur_token().span.start)]
                    && self.position() == next_position(old(self).toks(), old(self).position())
                    && self.cur_token() == following_token(old(self))),
                unary_run(old(self).toks(), old(self).src_bytes(), old(self).position()) is Some ==> unary_run(
                    old(self).toks(),
                    old(self).src_bytes(),
                    self.position(),
                ) is Some && unary_run(old(self).toks(), old(self).src_bytes(), old(self).position())
                    == Some(
                    wrap_prefixes(
                        prefixes@,
                        unary_run(old(self).toks(), old(self).src_bytes(), self.position())->0,
                    ),
                ),
            ensures
                self.wf(),
                s0.evolves_to(self),
                unary_run(old(self).toks(), old(self).src_bytes(), old(self).position()) is Some ==> unary_run(
                    old(self).toks(),
                    old(self).src_bytes(),
                    self.position(),
                ) is Some && unary_run(old(self).toks(), old(self).src_bytes(), old(self).position())
                    == Some(
                    wrap_prefixes(
                        prefixes@,
                        unary_run(old(self).toks(), old(self).src_bytes(), self.position())->0,
                    ),
                ),
                spec_unary_prefix_op(self.cur_kind()) is None,
                prefix_then_term(old(self)) ==> prefixes@ == seq![
                    Prefix::Unary(first_op->0, old(self).cur_token().span.start),
                ] && self.position() == next_position(old(self).toks(), old(self).position())
                    && self.cur_token() == following_token(old(self)),
                prefixes@.len() > 0 ==> s0.advances_to(self),
                first_op is Some ==> prefixes@.len() > 0 && prefixes@[0] == Prefix::Unary(
                    first_op->0,
                    old(self).cur_token().span.start,
                ),
                single_token_term(old(self)) is Some ==> prefixes@.len() == 0 && *self == *old(
                    self,
                ),
            decreases self.rem(),
        {
            let ghost before = *self;
            proof {
                before.lemma_cur_token_at();
            }
            let cast = self.try_parse_cast_prefix();
            proof {
                self.lemma_cur_token_at();
            }
            if let Some((ck, sp)) = cast {
                prefixes.push(Prefix::Cast(ck, sp));
                continue;
            }
            let ghost b2 = *self;
            if let Some((op, pos)) = self.try_parse_unary_prefix() {
                let ghost ps0 = prefixes@;
                prefixes.push(Prefix::Unary(op, pos));
                proof {
                    self.lemma_cur_token_at();
                    Self::lemma_advances_moves(&b2, self);
                    let toks = old(self).toks();
                    let bytes = old(self).src_bytes();
                    if unary_run(toks, bytes, old(self).position()) is Some {
                        assert(b2.position() == before.position());
                        assert(prefixes@.drop_last() =~= ps0);
                        let x = unary_run(toks, bytes, self.position())->0;
                        assert(unary_run(toks, bytes, b2.position()) == Some(apply_prefix(Prefix::Unary(op, pos), x)));
                        assert(wrap_prefixes(prefixes@, x) == wrap_prefixes(ps0, apply_prefix(Prefix::Unary(op, pos), x)));
                    }
                }
                continue;
            }
            break;
        }
        let ghost s1 = *self;
        proof {
            Self::lemma_same_source_bytes(old(self), &s1);
        }
        let expr0 = match self.parse_primary() {
            Some(e) => e,
            None => return None,
        };
        let ghost s2 = *self;
        proof {
            s2.lemma_cur_token_at();
            s1.lemma_cur_token_at();
        }
        let mut expr = match self.parse_postfix_chain(expr0) {
            Some(e) => e,
            None => return None,
        };
        proof {
            Self::lemma_evolves_trans(&s1, &s2, self);
            Self::lemma_evolves_trans(&s0, &s1, self);
        }
        let ghost had_prefix = prefixes@.len() > 0;
        let ghost e3 = expr;
        let ghost s3 = *self;
        while prefixes.len() > 0
            invariant
                self.wf(),
                old(self).advances_to(self),
                spec_is_operand(expr),
                !had_prefix ==> prefixes@.len() == 0 && expr == e3 && *self == s3,
                first_op == spec_unary_prefix_op(old(self).cur_kind()),
                first_op is Some ==> had_prefix,
                first_op is Some ==> prefixes@.len() > 0 ==> prefixes@[0] == Prefix::Unary(
                    first_op->0,
                    old(self).cur_token().span.start,
                ),
                first_op is Some && prefixes@.len() == 0 ==> (expr matches Expr::UnaryOp {
                    op,
                    span,
                    ..
                } && Some(op) == first_op && span.start == old(self).cur_token().span.start),
                prefix_then_term(old(self)) ==> (prefixes@ == seq![
                    Prefix::Unary(first_op->0, old(self).cur_token().span.start),
                ] && expr == token_term(following_token(old(self)), old(self).src_bytes())->0) || (
                prefixes@.len() == 0 && expr == Expr::UnaryOp {
                    op: first_op->0,
                    expr: Box::new(token_term(following_token(old(self)), old(self).src_bytes())->0),
                    span: Span {
                        start: old(self).cur_token().span.start,
                        end: token_term(
                            following_token(old(self)),
                            old(self).src_bytes(),
                        )->0.spec_span().end,
                    },
                }),
                unary_run(old(self).toks(), old(self).src_bytes(), old(self).position()) is Some ==> Some(
                    wrap_prefixes(prefixes@, expr),
                ) == unary_run(old(self).toks(), old(self).src_bytes(), old(self).position()),
            decreases prefixes@.len(),
        {
            let ghost ps0 = prefixes@;
            let ghost e0 = expr;
            let prefix = prefixes.pop().unwrap();
            proof {
                assert(ps0.drop_last() =~= prefixes@);
                assert(ps0.last() == prefix);
            }
            match prefix {
                Prefix::Unary(op, start_pos) => {
                    let span = Span { start: start_pos, end: expr.span().end };
                    expr = Expr::UnaryOp { op, expr: Box::new(expr), span };
                },
                Prefix::Cast(ck, sp) => {
                    let span = Span { start: sp.start, end: expr.span().end };
                    expr = Expr::Cast { kind: ck, expr: Box::new(expr), span };
                },
            }
        }
        Some(expr)
    }

    /// `exit` or `die`, with an optional argument.
    fn parse_exit_expr(&mut self) -> (r: Expr)
        requires
            old(self).wf(),
            old(self).cur_kind() == TokenKind::KwExit || old(self).cur_kind() == TokenKind::KwDie,
        ensures
            spec_is_operand(r),
            final(self).wf(),
            old(self).advances_to(final(self)),
        decreases old(self).rem(), 100nat,
    {
        let kw = self.bump();
        let start = kw.span.start;
        let stop = vec![
            TokenKind::Semicolon,
            TokenKind::Comma,
            TokenKind::Colon,
            TokenKind::RParen,
            TokenKind::RBracket,
            TokenKind::RBrace,
            TokenKind::Eof,
        ];
        let arg_opt: Option<Expr> = if self.eat(TokenKind::LParen) {
            if self.eat(TokenKind::RParen) {
                None
            } else {
                let expr = self.parse_expr();
                let _ = self.expect_msg(TokenKind::RParen, "expected ')' after exit/die argument");
                expr
            }
        } else if self.at_any(&stop) {
            None
        } else {
            self.parse_expr()
        };
        let end = match &arg_opt {
            Some(e) => e.span().end,
            None => kw.span.end,
        };
        Expr::Exit {
            arg: match arg_opt {
                Some(e) => Some(Box::new(e)),
                None => None,
            },
            span: Span { start, end },
        }
    }

    /// A cast such as `(int)`; the cursor is left where it was when none is
    /// here.
    fn try_parse_cast_prefix(&mut self) -> (r: Option<(CastKind, Span)>)
        requires
            old(self).wf(),
        ensures
            final(self).wf(),
            old(self).same_but_cursor(final(self)),
            r is Some ==> old(self).advances_to(final(self)),
            r is None ==> old(self).evolves_to(final(self)) && final(self).position() == old(
                self,
            ).position(),
            r is Some ==> old(self).cur_kind() == TokenKind::LParen && (r->0).1.start
                == old(self).cur_token().span.start,
            old(self).cur_kind() != TokenKind::LParen ==> r is None && *final(self) == *old(self),
            ({
                let toks = old(self).toks();
                let word = following_token(old(self));
                let close = token_at(
                    toks,
                    next_position(toks, next_position(toks, old(self).position()) as nat),
                );
                &&& r is Some <==> (old(self).cur_kind() == TokenKind::LParen && (word.kind
                    == TokenKind::Ident || word.kind == TokenKind::KwArray) && close.kind
                    == TokenKind::RParen && spec_cast_kind(token_text(old(self), word)) is Some)
                &&& r is Some ==> (r->0).0 == spec_cast_kind(token_text(old(self), word))->0
                &&& r is None ==> final(self).diags() == old(self).diags()
            }),
    {
        let save = self.cursor();
        let ghost s0 = *self;
        let lp_tok = match self.expect(TokenKind::LParen) {
            Some(t) => t,
            None => return None,
        };
        proof {
            self.lemma_cur_token_at();
        }
        let lp = lp_tok.span;
        let is_type_word = match self.peek() {
            Some(token) => token.kind == TokenKind::Ident || token.kind == TokenKind::KwArray,
            None => false,
        };
        if !is_type_word || !(self.at(TokenKind::Ident) || self.at(TokenKind::KwArray)) {
            let ghost mid = *self;
            proof {
                Self::lemma_can_reset(&s0, self);
            }
            self.rewind(save);
            proof {
                Self::lemma_rewound(&s0, &mid, self);
            }
            return None;
        }
        proof {
            self.lemma_cur_span_in_bounds();
        }
        let ident_span = self.current_span();
        self.bump();
        proof {
            self.lemma_cur_token_at();
        }
        if !self.eat(TokenKind::RParen) {
            let ghost mid = *self;
            proof {
                Self::lemma_can_reset(&s0, self);
            }
            self.rewind(save);
            proof {
                Self::lemma_rewound(&s0, &mid, self);
            }
            return None;
        }
        let rp = match self.prev_span() {
            Some(s) => s,
            None => ident_span,
        };
        let kind = if self.text_eq_ignore_ascii_case(ident_span, "int")
            || self.text_eq_ignore_ascii_case(ident_span, "integer") {
            CastKind::Int
        } else if self.text_eq_ignore_ascii_case(ident_span, "float")
            || self.text_eq_ignore_ascii_case(ident_span, "double")
            || self.text_eq_ignore_ascii_case(ident_span, "real") {
            CastKind::Float
        } else if self.text_eq_ignore_ascii_case(ident_span, "string") {
            CastKind::String
        } else if self.text_eq_ignore_ascii_case(ident_span, "bool")
            || self.text_eq_ignore_ascii_case(ident_span, "boolean") {
            CastKind::Bool
        } else if self.text_eq_ignore_ascii_case(ident_span, "array") {
            CastKind::Array
        } else if self.text_eq_ignore_ascii_case(ident_span, "object") {
            CastKind::Object
        } else {
            let ghost mid = *self;
            proof {
                Self::lemma_can_reset(&s0, self);
            }
            self.rewind(save);
            proof {
                Self::lemma_rewound(&s0, &mid, self);
            }
            return None;
        };
        Some((kind, Span { start: lp.start, end: rp.end }))
    }

    /// A prefix operator: `@`, `!`, `-`, `+`, `&` or `~`, with the offset
    /// where it starts.
    fn try_parse_unary_prefix(&mut self) -> (r: Option<(UnOpKind, u32)>)
        requires
            old(self).wf(),
        ensures
            final(self).wf(),
            old(self).same_but_cursor(final(self)),
            old(self).evolves_to(final(self)),
            r is Some ==> old(self).advances_to(final(self)) && spec_unary_prefix_op(old(self).cur_kind())
                == Some((r->0).0) && (r->0).1 == old(self).cur_token().span.start,
            r is Some ==> final(self).position() == next_position(old(self).toks(), old(self).position()),
            r is None ==> *final(self) == *old(self) && spec_unary_prefix_op(old(self).cur_kind())
                is None,
    {
        let sp = self.current_span();
        if self.eat(TokenKind::Silence) {
            return Some((UnOpKind::Suppress, sp.start));
        }
        if self.eat(TokenKind::Bang) {
            return Some((UnOpKind::Not, sp.start));
        }
        if self.eat(TokenKind::Minus) {
            return Some((UnOpKind::Neg, sp.start));
        }
        if self.eat(TokenKind::Plus) {
            return Some((UnOpKind::Plus, sp.start));
        }
        if self.eat(TokenKind::Amp) {
            return Some((UnOpKind::Ref, sp.start));
        }
        if self.eat(TokenKind::Tilde) {
            return Some((UnOpKind::BitNot, sp.start));
        }
        None
    }

    /// Calls, member accesses, subscripts, `::` accesses and `++`/`--`
    /// applied to `base`, as long as they follow.
    fn parse_postfix_chain(&mut self, start: Expr) -> (r: Option<Expr>)
        requires
            old(self).wf(),
            spec_is_operand(start),
        ensures
            r matches Some(e) && spec_is_operand(e),
            final(self).wf(),
            old(self).evolves_to(final(self)),
            r is Some,
            !spec_starts_postfix(old(self).cur_kind()) ==> r == Some(start) && *final(self) == *old(
                self,
            ),
            r matches Some(e) && postfix_of(e, start),
            spec_starts_postfix(old(self).cur_kind()) ==> old(self).advances_to(final(self)),
            old(self).cur_kind() == TokenKind::LParen || old(self).cur_kind() == TokenKind::PlusPlus
                || old(self).cur_kind() == TokenKind::MinusMinus || arrow_member(old(self))
                ==> exists|f: Expr| first_postfix_step(old(self), f, start) && postfix_of(#[trigger] r->0, f),
        decreases old(self).rem(), 500nat,
    {
        let ghost base0 = start;
        let ghost mut first = start;
        let mut base = start;
        loop
            invariant
                self.wf(),
                old(self).evolves_to(self),
                spec_is_operand(base),
                !spec_starts_postfix(old(self).cur_kind()) ==> base == base0 && *self == *old(self),
                base0 == start,
                postfix_of(base, base0),
                postfix_of(base, first),
                self.position() == old(self).position() ==> base == base0 && *self == *old(self),
                self.position() != old(self).position() ==> first_postfix_step(old(self), first, base0),
                self.position() != old(self).position() ==> old(self).advances_to(self),
            ensures
                self.wf(),
                old(self).evolves_to(self),
                spec_is_operand(base),
                !spec_starts_postfix(old(self).cur_kind()) ==> base == base0 && *self == *old(self),
                postfix_of(base, base0),
                postfix_of(base, first),
                spec_starts_postfix(old(self).cur_kind()) ==> old(self).advances_to(self),
                old(self).cur_kind() == TokenKind::LParen || old(self).cur_kind() == TokenKind::PlusPlus
                    || old(self).cur_kind() == TokenKind::MinusMinus || arrow_member(old(self))
                    ==> first_postfix_step(old(self), first, base0),
            decreases self.rem(),
        {
            let ghost it = *self;
            if self.at(TokenKind::LParen) {
                let lp = self.bump();
                let lparen_span = lp.span;
                let (args, rparen_span) = self.parse_call_arguments(lparen_span);
                let call_span = Span { start: base.span().start, end: rparen_span.end };
                base = Expr::FunctionCall { callee: Box::new(base), args, span: call_span };
                proof {
                    if it.position() == old(self).position() {
                        first = base;
                    }
                }
                continue;
            }
            if self.at(TokenKind::Arrow) || self.at(TokenKind::NullsafeArrow) {
                self.bump();
                proof {
                    self.lemma_cur_token_at();
                    it.lemma_cur_token_at();
                }
                let res = self.parse_object_member(base);
                match res {
                    Ok(b) => {
                        base = b;
                    },
                    Err(b) => {
                        proof {
                            assert(postfix_of(b, first));
                            assert(postfix_of(b, base0));
                            assert(old(self).cur_kind() == TokenKind::LParen || old(self).cur_kind()
                                == TokenKind::PlusPlus || old(self).cur_kind() == TokenKind::MinusMinus
                                || arrow_member(old(self)) ==> first_postfix_step(old(self), first, base0));
                        }
                        return Some(b);
                    },
                }
                proof {
                    if it.position() == old(self).position() {
                        first = base;
                    }
                }
                continue;
            }
            if self.at(TokenKind::LBracket) {
                self.bump();
                let res = self.parse_subscript(base);
                match res {
                    Ok(b) => {
                        base = b;
                    },
                    Err(b) => {
                        proof {
                            assert(postfix_of(b, first));
                            assert(postfix_of(b, base0));
                            assert(old(self).cur_kind() == TokenKind::LParen || old(self).cur_kind()
                                == TokenKind::PlusPlus || old(self).cur_kind() == TokenKind::MinusMinus
                                || arrow_member(old(self)) ==> first_postfix_step(old(self), first, base0));
                        }
                        return Some(b);
                    },
                }
                proof {
                    if it.position() == old(self).position() {
                        first = base;
                    }
                }
                continue;
            }
            if self.at(TokenKind::PlusPlus) {
                let t = self.bump();
                let span = Span { start: base.span().start, end: t.span.end };
                base = Expr::PostfixInc { target: Box::new(base), span };
                proof {
                    if it.position() == old(self).position() {
                        first = base;
                    }
                }
                continue;
            }
            if self.at(TokenKind::MinusMinus) {
                let t = self.bump();
                let span = Span { start: base.span().start, end: t.span.end };
                base = Expr::PostfixDec { target: Box::new(base), span };
                proof {
                    if it.position() == old(self).position() {
                        first = base;
                    }
                }
                continue;
            }
            if self.at(TokenKind::ColCol) {
                self.bump();
                let res = self.parse_static_member(base);
                match res {
                    Ok(b) => {
                        base = b;
                    },
                    Err(b) => {
                        proof {
                            assert(postfix_of(b, first));
                            assert(postfix_of(b, base0));
                            assert(old(self).cur_kind() == TokenKind::LParen || old(self).cur_kind()
                                == TokenKind::PlusPlus || old(self).cur_kind() == TokenKind::MinusMinus
                                || arrow_member(old(self)) ==> first_postfix_step(old(self), first, base0));
                        }
                        return Some(b);
                    },
                }
                proof {
                    if it.position() == old(self).position() {
                        first = base;
                    }
                }
                continue;
            }
            break;
        }
        proof {
            assert(postfix_of(base, first));
        }
        Some(base)
    }

    /// The member after `->` or `?->`: a variable, a braced expression, or a
    /// name, possibly called. `Err` with `base` when no member follows
    /// (after recovering).
    fn parse_object_member(&mut self, base: Expr) -> (r: Result<Expr, Expr>)
        requires
            old(self).wf(),
        ensures
            r matches Ok(e) ==> spec_is_operand(e),
            r matches Err(b) ==> b == base,
            final(self).wf(),
            old(self).evolves_to(final(self)),
            r matches Ok(e) ==> member_of_base(e, base),
            old(self).cur_kind() == TokenKind::VarIdent || old(self).cur_kind() == TokenKind::Dollar
                || old(self).cur_kind() == TokenKind::LBrace ==> (r matches Ok(e) && (e is DynamicMethodCall
                || e is DynamicPropertyFetch)),
            (old(self).cur_kind() == TokenKind::Ident || spec_is_ident_like_kw(old(self).cur_kind()))
                && following_token(old(self)).kind == TokenKind::LParen ==> (r matches Ok(e) && e matches Expr::MethodCall {
                target,
                method,
                ..
            } && *target == base && method == Ident { span: old(self).cur_token().span }),
            (old(self).cur_kind() == TokenKind::Ident || spec_is_ident_like_kw(old(self).cur_kind()))
                && following_token(old(self)).kind != TokenKind::LParen ==> r == Ok::<Expr, Expr>(
                Expr::PropertyFetch {
                    target: Box::new(base),
                    property: Ident { span: old(self).cur_token().span },
                    span: Span {
                        start: base.spec_span().start,
                        end: old(self).cur_token().span.end,
                    },
                },
            ),
            (old(self).cur_kind() == TokenKind::Ident || spec_is_ident_like_kw(old(self).cur_kind())) ==> (r matches Ok(e) && match e {
                Expr::MethodCall { method, .. } => method == Ident { span: old(self).cur_token().span },
                Expr::PropertyFetch { property, .. } => property == Ident {
                    span: old(self).cur_token().span,
                },
                _ => false,
            }),
            !(old(self).cur_kind() == TokenKind::VarIdent || old(self).cur_kind() == TokenKind::Dollar
                || old(self).cur_kind() == TokenKind::LBrace || (old(self).cur_kind() == TokenKind::Ident || spec_is_ident_like_kw(old(self).cur_kind()))) ==> r == Err::<Expr, Expr>(
                base,
            ) && old(self).same_but_cursor(final(self)) && (final(self).cur_kind() == TokenKind::Eof
                || sync_postfix_spec().contains(final(self).cur_kind())),
        decreases old(self).rem(), 490nat,
    {
        if self.at_variable_start() {
            let prop_expr = self.parse_variable_expr();
            return Ok(self.finish_dynamic_object_member(base, prop_expr));
        }
        if self.at(TokenKind::LBrace) {
            self.bump();
            let inner = match self.parse_expr() {
                Some(e) => e,
                None => {
                    let sync = vec![TokenKind::RBrace];
                    self.error_msg_and_recover("expected expression after '{' in '->{...}'", &sync);
                    let fake = match self.prev_span() {
                        Some(s) => s,
                        None => base.span(),
                    };
                    Expr::Error { span: fake }
                },
            };
            let _rb = self.expect_msg(TokenKind::RBrace, "expected '}' after '->{expr}'");
            return Ok(self.finish_dynamic_object_member(base, inner));
        }
        let sync = sync_postfix();
        let member_token = match self.expect_member_after_op_or_sync(false, &sync) {
            Some(t) => t,
            None => return Err(base),
        };
        proof {
            self.lemma_cur_token_at();
        }
        let name_ident = Ident { span: member_token.span };
        Ok(self.finish_named_member(base, name_ident))
    }

    /// The rest of `base[...]` after the `[`: `Err` with the expression built
    /// so far when the subscript could not be completed.
    fn parse_subscript(&mut self, base: Expr) -> (r: Result<Expr, Expr>)
        requires
            old(self).wf(),
        ensures
            r matches Ok(e) ==> spec_is_operand(e),
            r matches Err(b) ==> b == base,
            final(self).wf(),
            old(self).evolves_to(final(self)),
            r matches Ok(e) ==> (e matches Expr::ArrayAppend { array, .. } && *array == base) || (
            e matches Expr::ArrayIndex { array, .. } && *array == base),
            old(self).cur_kind() == TokenKind::RBracket ==> (r matches Ok(e) && e
                matches Expr::ArrayAppend { array, span } && *array == base && span == Span {
                start: base.spec_span().start,
                end: old(self).cur_token().span.end,
            }) && final(self).position() == next_position(old(self).toks(), old(self).position())
                && final(self).diags() == old(self).diags(),
        decreases old(self).rem(), 610nat,
    {
        if self.at(TokenKind::RBracket) {
            let rb = self.bump();
            let span = Span { start: base.span().start, end: rb.span.end };
            return Ok(Expr::ArrayAppend { array: Box::new(base), span });
        }
        let index_expr = match self.parse_expr() {
            Some(expr) => expr,
            None => {
                let sync = vec![TokenKind::RBracket];
                self.error_msg_and_recover("expected expression inside []", &sync);
                if !self.at(TokenKind::RBracket) {
                    let sync2 = sync_postfix();
                    self.recover_to_any(&sync2);
                    return Err(base);
                }
                let span = match self.prev_span() {
                    Some(s) => s,
                    None => Span::empty(),
                };
                Expr::Error { span }
            },
        };
        let rb_token = match self.expect_msg(TokenKind::RBracket, "expected ']' after subscript") {
            Some(t) => t,
            None => {
                let sync = sync_postfix();
                self.recover_to_any(&sync);
                return Err(base);
            },
        };
        let span = Span { start: base.span().start, end: rb_token.span.end };
        Ok(Expr::ArrayIndex { array: Box::new(base), index: Box::new(index_expr), span })
    }

    /// The rest of `base::...` after the `::`: `Err` with the expression
    /// built so far when no member could be read.
    fn parse_static_member(&mut self, base: Expr) -> (r: Result<Expr, Expr>)
        requires
            old(self).wf(),
        ensures
            r matches Ok(e) ==> spec_is_operand(e),
            r matches Err(b) ==> b == base,
            final(self).wf(),
            old(self).evolves_to(final(self)),
            r matches Ok(e) ==> (e is StaticPropertyFetch || e is StaticCall || e is ClassConstFetch),
            !(base is VarRef || base is ConstFetch) ==> r == Err::<Expr, Expr>(base) && old(
                self,
            ).pushed_error(
                final(self),
                ParseDiagnosticCode::UnexpectedToken,
                old(self).cur_token().span,
            ),
            (base is VarRef || base is ConstFetch) && old(self).cur_kind() == TokenKind::VarIdent ==> (
            r matches Ok(e) && e matches Expr::StaticPropertyFetch { property, span, .. } && property
                == Ident { span: old(self).cur_token().span } && span == Span {
                start: base.spec_span().start,
                end: old(self).cur_token().span.end,
            }),
        decreases old(self).rem(), 490nat,
    {
        let class_ref = match self.make_class_name_ref(&base) {
            Some(c) => c,
            None => {
                let sync = sync_postfix();
                self.error_msg_and_recover("expected class name before '::'", &sync);
                return Err(base);
            },
        };
        if self.at(TokenKind::VarIdent) {
            let var_ident_token = self.bump();
            let prop_ident = Ident { span: var_ident_token.span };
            let full_span = Span { start: base.span().start, end: var_ident_token.span.end };
            return Ok(
                Expr::StaticPropertyFetch {
                    class_name: class_ref,
                    property: prop_ident,
                    span: full_span,
                },
            );
        }
        if self.eat(TokenKind::Dollar) {
            let sync = sync_postfix();
            let name_token = match self.expect_ident_or_sync(
                "expected property name after '::$'",
                &sync,
            ) {
                Some(t) => t,
                None => return Err(base),
            };
            let prop_ident = Ident { span: name_token.span };
            let full_span = Span { start: base.span().start, end: name_token.span.end };
            return Ok(
                Expr::StaticPropertyFetch {
                    class_name: class_ref,
                    property: prop_ident,
                    span: full_span,
                },
            );
        }
        if self.eat(TokenKind::LBrace) {
            let inner = match self.parse_expr() {
                Some(e) => e,
                None => {
                    let sync = vec![TokenKind::RBrace];
                    self.error_msg_and_recover("expected expression after '{' in '::{...}'", &sync);
                    let fake = match self.prev_span() {
                        Some(s) => s,
                        None => base.span(),
                    };
                    Expr::Error { span: fake }
                },
            };
            let _rbrace = self.expect_msg(TokenKind::RBrace, "expected '}' after '::{expr}'");
            return Ok(self.finish_dynamic_static_member(class_ref, inner));
        }
        let sync = sync_postfix();
        let member_token = match self.expect_member_after_op_or_sync(true, &sync) {
            Some(t) => t,
            None => return Err(base),
        };
        let member_ident = Ident { span: member_token.span };
        Ok(self.finish_named_static_member(class_ref, member_ident))
    }

    /// The class that `expr` names when it stands before `::`.
    fn make_class_name_ref(&self, expr: &Expr) -> (r: Option<ClassNameRef>)
        ensures
            r is Some <==> (expr is VarRef || expr is ConstFetch),
    {
        match expr {
            Expr::VarRef { name, span } => {
                let class_ident = Ident { span: name.span };
                let qn = QualifiedName { absolute: false, parts: vec![class_ident], span: *span };
                Some(ClassNameRef::Qualified(qn))
            },
            Expr::ConstFetch { name, span } => {
                let mut parts: Vec<Ident> = Vec::new();
                let mut i: usize = 0;
                while i < name.parts.len()
                    invariant
                        i <= name.parts@.len(),
                        parts@ == name.parts@.subrange(0, i as int),
                    decreases name.parts.len() - i,
                {
                    parts.push(Ident { span: name.parts[i].span });
                    proof {
                        assert(parts@ =~= name.parts@.subrange(0, i + 1));
                    }
                    i = i + 1;
                }
                Some(
                    ClassNameRef::Qualified(
                        QualifiedName { absolute: name.absolute, parts, span: *span },
                    ),
                )
            },
            _ => None,
        }
    }

    /// A name, or after reporting `msg`, a skip to a token in `sync`.
    fn expect_ident_or_sync(&mut self, msg: &str, sync: &[TokenKind]) -> (r: Option<&'src Token>)
        requires
            old(self).wf(),
        ensures
            final(self).wf(),
            old(self).evolves_to(final(self)),
            r is Some == (old(self).cur_kind() == TokenKind::Ident || spec_is_ident_like_kw(old(self).cur_kind())),
            r is Some ==> *r->0 == old(self).cur_token() && old(self).same_but_cursor(final(self))
                && final(self).position() == next_position(old(self).toks(), old(self).position()),
            r is None ==> old(self).pushed_error(
                final(self),
                ParseDiagnosticCode::UnexpectedToken,
                old(self).cur_token().span,
            ) && final(self).diags().last().message@ == msg@ && (final(self).cur_kind()
                == TokenKind::Eof || sync@.contains(final(self).cur_kind())),
    {
        if let Some(token) = self.expect_ident_msg(msg) {
            Some(token)
        } else {
            let ghost mid = *self;
            self.recover_to_any(sync);
            proof {
                Self::lemma_evolves_trans(old(self), &mid, self);
            }
            None
        }
    }

    /// A name that starts with `\`, as a constant fetch.
    fn parse_qualified_expr(&mut self) -> (r: Option<Expr>)
        requires
            old(self).wf(),
            old(self).cur_kind() == TokenKind::Backslash,
        ensures
            r is Some ==> spec_is_operand(r->0),
            final(self).wf(),
            old(self).advances_to(final(self)),
    {
        let qn = match self.parse_qualified_name() {
            Some(q) => q,
            None => return None,
        };
        let span = qn.span;
        Some(Expr::ConstFetch { name: qn, span })
    }

    /// The member name after `->` or `::`: a name, or `class` when
    /// `allow_class_keyword`; otherwise skips to a token in `sync`.
    fn expect_member_after_op_or_sync(&mut self, allow_class_keyword: bool, sync: &[TokenKind]) -> (r:
        Option<&'src Token>)
        requires
            old(self).wf(),
        ensures
            final(self).wf(),
            old(self).evolves_to(final(self)),
            old(self).same_but_cursor(final(self)),
            r is Some == ((allow_class_keyword && old(self).cur_kind() == TokenKind::KwClass)
                || (old(self).cur_kind() == TokenKind::Ident || spec_is_ident_like_kw(old(self).cur_kind()))),
            r is Some ==> *r->0 == old(self).cur_token() && final(self).position() == next_position(
                old(self).toks(),
                old(self).position(),
            ),
            r is None ==> (final(self).cur_kind() == TokenKind::Eof || sync@.contains(
                final(self).cur_kind(),
            )),
    {
        if allow_class_keyword && self.at(TokenKind::KwClass) {
            return Some(self.bump());
        }
        if let Some(token) = self.bump_ident_like() {
            return Some(token);
        }
        self.recover_to_any(sync);
        None
    }

    /// Consumes a name or a keyword that may serve as one.
    fn bump_ident_like(&mut self) -> (r: Option<&'src Token>)
        requires
            old(self).wf(),
        ensures
            final(self).wf(),
            old(self).same_but_cursor(final(self)),
            old(self).evolves_to(final(self)),
            r is Some == (old(self).cur_kind() == TokenKind::Ident || spec_is_ident_like_kw(
                old(self).cur_kind(),
            )),
            r is None ==> *final(self) == *old(self),
            r is Some ==> *r->0 == old(self).cur_token() && final(self).position() == next_position(
                old(self).toks(),
                old(self).position(),
            ),
    {
        self.expect_ident()
    }

    /// `base->{expr}` or `base->$var`, called when `(` follows.
    fn finish_dynamic_object_member(&mut self, base: Expr, member_expr: Expr) -> (r: Expr)
        requires
            old(self).wf(),
        ensures
            spec_is_operand(r),
            final(self).wf(),
            old(self).evolves_to(final(self)),
            dynamic_member_of(old(self), final(self), r, base, member_expr),
        decreases old(self).rem(), 480nat,
    {
        self.finish_dynamic_member(base, member_expr)
    }

    /// `base->name` or, when `(` follows, `base->name(...)`.
    fn finish_named_member(&mut self, base: Expr, member_ident: Ident) -> (r: Expr)
        requires
            old(self).wf(),
        ensures
            spec_is_operand(r),
            final(self).wf(),
            old(self).evolves_to(final(self)),
            old(self).cur_kind() == TokenKind::LParen ==> (r matches Expr::MethodCall {
                target,
                method,
                span,
                ..
            } && *target == base && method == member_ident && span.start == base.spec_span().start),
            old(self).cur_kind() != TokenKind::LParen ==> (r matches Expr::PropertyFetch {
                target,
                property,
                span,
            } && *target == base && property == member_ident && span == Span {
                start: base.spec_span().start,
                end: member_ident.span.end,
            }) && *final(self) == *old(self),
        decreases old(self).rem(), 480nat,
    {
        if self.at(TokenKind::LParen) {
            let lp = self.bump();
            let (args, rp) = self.parse_call_arguments(lp.span);
            let span = Span { start: base.span().start, end: rp.end };
            Expr::MethodCall { target: Box::new(base), method: member_ident, args, span }
        } else {
            let span = Span { start: base.span().start, end: member_ident.span.end };
            Expr::PropertyFetch { target: Box::new(base), property: member_ident, span }
        }
    }

    /// A dynamic member of `base`, called when `(` follows.
    fn finish_dynamic_member(&mut self, base: Expr, dyn_expr: Expr) -> (r: Expr)
        requires
            old(self).wf(),
        ensures
            spec_is_operand(r),
            final(self).wf(),
            old(self).evolves_to(final(self)),
            dynamic_member_of(old(self), final(self), r, base, dyn_expr),
        decreases old(self).rem(), 470nat,
    {
        if self.at(TokenKind::LParen) {
            let lp = self.bump();
            let (args, rp) = self.parse_call_arguments(lp.span);
            let span = Span { start: base.span().start, end: rp.end };
            Expr::DynamicMethodCall {
                target: Box::new(base),
                method_expr: Box::new(dyn_expr),
                args,
                span,
            }
        } else {
            let span = Span { start: base.span().start, end: dyn_expr.span().end };
            Expr::DynamicPropertyFetch {
                target: Box::new(base),
                property_expr: Box::new(dyn_expr),
                span,
            }
        }
    }

    /// `Class::name` or, when `(` follows, `Class::name(...)`. The span
    /// starts one byte before the member name, at the `::`.
    fn finish_named_static_member(&mut self, class_ref: ClassNameRef, member_ident: Ident) -> (r:
        Expr)
        requires
            old(self).wf(),
        ensures
            spec_is_operand(r),
            final(self).wf(),
            old(self).evolves_to(final(self)),
            static_member_of(old(self), final(self), r, class_ref, member_ident.span),
        decreases old(self).rem(), 480nat,
    {
        let start = member_ident.span.start.saturating_sub(1);
        if self.at(TokenKind::LParen) {
            let lp = self.bump();
            let (args, rp) = self.parse_call_arguments(lp.span);
            let span = Span { start, end: rp.end };
            Expr::StaticCall { class: class_ref, method: member_ident, args, span }
        } else {
            let span = Span { start, end: member_ident.span.end };
            Expr::ClassConstFetch { class_name: class_ref, constant: member_ident, span }
        }
    }

    /// `Class::{expr}` or, when `(` follows, `Class::{expr}(...)`.
    fn finish_dynamic_static_member(&mut self, class_ref: ClassNameRef, dyn_expr: Expr) -> (r: Expr)
        requires
            old(self).wf(),
        ensures
            spec_is_operand(r),
            final(self).wf(),
            old(self).evolves_to(final(self)),
            static_member_of(old(self), final(self), r, class_ref, dyn_expr.spec_span()),
        decreases old(self).rem(), 480nat,
    {
        let dyn_span = dyn_expr.span();
        let start = dyn_span.start.saturating_sub(1);
        if self.at(TokenKind::LParen) {
            let lp = self.bump();
            let (args, rp) = self.parse_call_arguments(lp.span);
            let span = Span { start, end: rp.end };
            Expr::StaticCall { class: class_ref, method: Ident { span: dyn_span }, args, span }
        } else {
            let span = Span { start, end: dyn_span.end };
            Expr::ClassConstFetch { class_name: class_ref, constant: Ident { span: dyn_span }, span }
        }
    }
}

} // verus!
