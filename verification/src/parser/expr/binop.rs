//! Binary operators: the precedence table and precedence climbing.
use crate::ast::{BinOpKind, ClassNameRef, Expr, QualifiedName, SpecialClassName};
use crate::diagnostics::{Diagnostic, ParseDiagnosticCode};
use crate::parser::expr::{
    prefix_term_end, single_token_term, spec_compound_assign_op, spec_starts_postfix, term_alone,
    token_term, token_term_clean, unary_alone, unary_term,
};
use crate::parser::{
    following_token, lemma_nth_kind_in_range, lemma_skip_trivia_bounds, next_position, nth_kind_from,
    token_at, Parser,
};
use crate::span::Span;
use crate::token::{spec_operator_spelling, Token, TokenKind};
use vstd::prelude::*;
use vstd::string::StringExecFns;

verus! {

/// The binary operator that a token stands for, if any.
pub open spec fn spec_token_to_binop(kind: TokenKind) -> Option<BinOpKind> {
    match kind {
        TokenKind::Plus => Some(BinOpKind::Add),
        TokenKind::Minus => Some(BinOpKind::Sub),
        TokenKind::Star => Some(BinOpKind::Mul),
        TokenKind::Slash => Some(BinOpKind::Div),
        TokenKind::Percent => Some(BinOpKind::Mod),
        TokenKind::Pow => Some(BinOpKind::Pow),
        TokenKind::Dot => Some(BinOpKind::Concat),
        TokenKind::AndAnd => Some(BinOpKind::AndAnd),
        TokenKind::OrOr => Some(BinOpKind::OrOr),
        TokenKind::NullCoalesce => Some(BinOpKind::NullCoalesce),
        TokenKind::KwOr => Some(BinOpKind::Or),
        TokenKind::KwXor => Some(BinOpKind::Xor),
        TokenKind::KwAnd => Some(BinOpKind::And),
        TokenKind::Amp => Some(BinOpKind::BitAnd),
        TokenKind::Pipe => Some(BinOpKind::BitOr),
        TokenKind::Caret => Some(BinOpKind::BitXor),
        TokenKind::Shl => Some(BinOpKind::Shl),
        TokenKind::Shr => Some(BinOpKind::Shr),
        TokenKind::StrictEq => Some(BinOpKind::CmpEqStrict),
        TokenKind::StrictNe => Some(BinOpKind::CmpNeStrict),
        TokenKind::EqEq => Some(BinOpKind::CmpEq),
        TokenKind::NotEq => Some(BinOpKind::CmpNe),
        TokenKind::NotEqAlt => Some(BinOpKind::CmpNe),
        TokenKind::Lt => Some(BinOpKind::CmpLt),
        TokenKind::Gt => Some(BinOpKind::CmpGt),
        TokenKind::Le => Some(BinOpKind::CmpLe),
        TokenKind::Ge => Some(BinOpKind::CmpGe),
        TokenKind::Spaceship => Some(BinOpKind::CmpSpaceship),
        TokenKind::KwInstanceof => Some(BinOpKind::InstanceOf),
        _ => None,
    }
}

/// How tightly an operator binds: a higher number binds tighter.
pub open spec fn spec_precedence(op: BinOpKind) -> u8 {
    match op {
        BinOpKind::Pow => 100,
        BinOpKind::InstanceOf => 90,
        BinOpKind::Mul | BinOpKind::Div | BinOpKind::Mod => 80,
        BinOpKind::Add | BinOpKind::Sub | BinOpKind::Concat => 70,
        BinOpKind::Shl | BinOpKind::Shr => 60,
        BinOpKind::CmpLt | BinOpKind::CmpGt | BinOpKind::CmpLe | BinOpKind::CmpGe => 50,
        BinOpKind::CmpEq
        | BinOpKind::CmpNe
        | BinOpKind::CmpEqStrict
        | BinOpKind::CmpNeStrict
        | BinOpKind::CmpSpaceship => 45,
        BinOpKind::BitAnd => 40,
        BinOpKind::BitXor => 35,
        BinOpKind::BitOr => 30,
        BinOpKind::AndAnd => 20,
        BinOpKind::OrOr => 10,
        BinOpKind::NullCoalesce => 8,
        BinOpKind::Xor => 5,
        BinOpKind::And => 4,
        BinOpKind::Or => 2,
    }
}

/// The operators that group to the right: `**` and `??`.
pub open spec fn spec_is_right_associative(op: BinOpKind) -> bool {
    op == BinOpKind::Pow || op == BinOpKind::NullCoalesce
}

/// The operators that cannot be chained: comparisons and `instanceof`.
pub open spec fn spec_is_non_associative(op: BinOpKind) -> bool {
    match op {
        BinOpKind::CmpLt
        | BinOpKind::CmpGt
        | BinOpKind::CmpLe
        | BinOpKind::CmpGe
        | BinOpKind::CmpEq
        | BinOpKind::CmpNe
        | BinOpKind::CmpEqStrict
        | BinOpKind::CmpNeStrict
        | BinOpKind::CmpSpaceship
        | BinOpKind::InstanceOf => true,
        _ => false,
    }
}

/// How an operator is written.
pub open spec fn spec_op_text(op: BinOpKind) -> Seq<char> {
    match op {
        BinOpKind::Add => "+"@,
        BinOpKind::Sub => "-"@,
        BinOpKind::Mul => "*"@,
        BinOpKind::Div => "/"@,
        BinOpKind::Mod => "%"@,
        BinOpKind::Pow => "**"@,
        BinOpKind::Concat => "."@,
        BinOpKind::BitAnd => "&"@,
        BinOpKind::BitOr => "|"@,
        BinOpKind::BitXor => "^"@,
        BinOpKind::Shl => "<<"@,
        BinOpKind::Shr => ">>"@,
        BinOpKind::AndAnd => "&&"@,
        BinOpKind::OrOr => "||"@,
        BinOpKind::And => "and"@,
        BinOpKind::Or => "or"@,
        BinOpKind::Xor => "xor"@,
        BinOpKind::CmpEq => "=="@,
        BinOpKind::CmpNe => "!="@,
        BinOpKind::CmpEqStrict => "==="@,
        BinOpKind::CmpNeStrict => "!=="@,
        BinOpKind::CmpLt => "<"@,
        BinOpKind::CmpLe => "<="@,
        BinOpKind::CmpGt => ">"@,
        BinOpKind::CmpGe => ">="@,
        BinOpKind::CmpSpaceship => "<=>"@,
        BinOpKind::NullCoalesce => "??"@,
        BinOpKind::InstanceOf => "instanceof"@,
    }
}

/// Neither a conditional nor an assignment: an expression of the operator
/// layer or below.
pub open spec fn spec_below_conditional(e: Expr) -> bool {
    !(e is Ternary) && !(e is Assign) && !(e is CoalesceAssign) && !(e is CompoundAssign)
}

/// An expression that stands as a single operand of a binary operator:
/// neither a binary operation, `??` or `instanceof`, nor a conditional or
/// an assignment.
pub open spec fn spec_is_operand(e: Expr) -> bool {
    !(e is BinaryOp) && !(e is NullCoalesce) && !(e is InstanceOf) && spec_below_conditional(e)
}

/// How tightly the top of `e` binds: the precedence of its operator for a
/// binary operation or `??`, and above every precedence for anything else
/// (an `instanceof`, whose right side cannot be extended, included).
pub open spec fn binds(e: Expr) -> int {
    match e {
        Expr::BinaryOp { op, .. } => spec_precedence(op) as int,
        Expr::NullCoalesce { .. } => spec_precedence(BinOpKind::NullCoalesce) as int,
        _ => 256,
    }
}

/// `l` may stand as the left operand of `op` without parentheses: it binds
/// tighter, or as tightly and `op` groups to the left.
pub open spec fn left_operand_ok(op: BinOpKind, l: Expr) -> bool {
    binds(l) > spec_precedence(op) as int || (binds(l) == spec_precedence(op) as int
        && !spec_is_right_associative(op))
}

/// `r` may stand as the right operand of `op` without parentheses: it
/// binds tighter, or as tightly and `op` groups to the right.
pub open spec fn right_operand_ok(op: BinOpKind, r: Expr) -> bool {
    binds(r) > spec_precedence(op) as int || (binds(r) == spec_precedence(op) as int
        && spec_is_right_associative(op))
}

/// Every operator in the spine of binary operations, `??` and
/// `instanceof` of `e` has operands that respect precedence and
/// associativity, and no operator that cannot be chained (comparisons,
/// `instanceof`) has an operand made by an operator of its own level: the
/// tree is the one that precedence climbing gives.
pub open spec fn grouped(e: Expr) -> bool
    decreases e,
{
    match e {
        Expr::BinaryOp { op, left, right, .. } => {
            &&& op != BinOpKind::NullCoalesce
            &&& op != BinOpKind::InstanceOf
            &&& left_operand_ok(op, *left)
            &&& right_operand_ok(op, *right)
            &&& spec_is_non_associative(op) ==> binds(*left) != spec_precedence(op) as int
            &&& grouped(*left)
            &&& grouped(*right)
        },
        Expr::NullCoalesce { left, right, .. } => {
            &&& left_operand_ok(BinOpKind::NullCoalesce, *left)
            &&& right_operand_ok(BinOpKind::NullCoalesce, *right)
            &&& grouped(*left)
            &&& grouped(*right)
        },
        Expr::InstanceOf { expr, .. } => {
            &&& binds(*expr) > spec_precedence(BinOpKind::InstanceOf) as int
            &&& !(*expr is InstanceOf)
            &&& grouped(*expr)
        },
        _ => true,
    }
}

/// The operators of the operator tree `e`, read left to right: the
/// operator of each binary operation, `??` and `instanceof` in the order in
/// which they stand in the source, through the operands; any other
/// expression is an operand and adds none.
pub open spec fn flat_ops(e: Expr) -> Seq<BinOpKind>
    decreases e,
{
    match e {
        Expr::BinaryOp { op, left, right, .. } => flat_ops(*left) + seq![op] + flat_ops(*right),
        Expr::NullCoalesce { left, right, .. } => flat_ops(*left) + seq![BinOpKind::NullCoalesce]
            + flat_ops(*right),
        Expr::InstanceOf { expr, .. } => flat_ops(*expr) + seq![BinOpKind::InstanceOf],
        _ => Seq::empty(),
    }
}

/// `ps` are increasing token positions in `[from, to)` whose tokens are the
/// operators `ops`, one each and in order.
pub open spec fn ops_at(toks: Seq<Token>, from: int, to: int, ps: Seq<int>, ops: Seq<BinOpKind>) -> bool {
    &&& ps.len() == ops.len()
    &&& forall|i: int| 0 <= i < ps.len() ==> from <= #[trigger] ps[i] < to
    &&& forall|i: int, j: int| 0 <= i < j < ps.len() ==> ps[i] < ps[j]
    &&& forall|i: int|
        0 <= i < ps.len() ==> spec_token_to_binop(toks[#[trigger] ps[i]].kind) == Some(ops[i])
}

/// The operators `ops`, in order, are tokens read between the positions
/// `from` and `to`.
pub open spec fn ops_read(toks: Seq<Token>, from: int, to: int, ops: Seq<BinOpKind>) -> bool {
    exists|ps: Seq<int>| ops_at(toks, from, to, ps, ops)
}

/// No operators are read anywhere.
pub proof fn lemma_ops_read_none(toks: Seq<Token>, from: int, to: int)
    ensures
        ops_read(toks, from, to, Seq::empty()),
{
    assert(ops_at(toks, from, to, Seq::empty(), Seq::empty()));
}

/// Operators read in a range are read in any range around it.
pub proof fn lemma_ops_read_widen(
    toks: Seq<Token>,
    from: int,
    to: int,
    from2: int,
    to2: int,
    ops: Seq<BinOpKind>,
)
    requires
        ops_read(toks, from, to, ops),
        from2 <= from,
        to <= to2,
    ensures
        ops_read(toks, from2, to2, ops),
{
    let ps = choose|ps: Seq<int>| ops_at(toks, from, to, ps, ops);
    assert(ops_at(toks, from2, to2, ps, ops));
}

/// Operators read before the operator token at `p`, that token, and
/// operators read after it, are read in that order.
pub proof fn lemma_ops_read_join(
    toks: Seq<Token>,
    a: int,
    b: int,
    ops1: Seq<BinOpKind>,
    p: int,
    op: BinOpKind,
    c: int,
    d: int,
    ops2: Seq<BinOpKind>,
)
    requires
        ops_read(toks, a, b, ops1),
        a <= b,
        b <= p,
        p < c,
        0 <= p < toks.len(),
        spec_token_to_binop(toks[p].kind) == Some(op),
        ops_read(toks, c, d, ops2),
        c <= d,
    ensures
        ops_read(toks, a, d, ops1 + seq![op] + ops2),
{
    let ps1 = choose|ps: Seq<int>| ops_at(toks, a, b, ps, ops1);
    let ps2 = choose|ps: Seq<int>| ops_at(toks, c, d, ps, ops2);
    let ps = ps1 + seq![p] + ps2;
    let ops = ops1 + seq![op] + ops2;
    assert forall|i: int| 0 <= i < ps.len() implies a <= #[trigger] ps[i] < d by {
        if i < ps1.len() {
            assert(ps[i] == ps1[i]);
            assert(a <= ps1[i] < b);
        } else if i == ps1.len() {
            assert(ps[i] == p);
        } else {
            let k = i - ps1.len() - 1;
            assert(ps[i] == ps2[k]);
            assert(c <= ps2[k] < d);
        }
    }
    assert forall|i: int, j: int| 0 <= i < j < ps.len() implies ps[i] < ps[j] by {
        if j < ps1.len() {
        } else if j == ps1.len() {
            assert(ps1[i] < b);
        } else if i < ps1.len() {
            assert(ps1[i] < b);
            assert(c <= ps2[j - ps1.len() - 1]);
        } else if i == ps1.len() {
            assert(c <= ps2[j - ps1.len() - 1]);
        } else {
            assert(ps[i] == ps2[i - ps1.len() - 1]);
            assert(ps[j] == ps2[j - ps1.len() - 1]);
        }
    }
    assert forall|i: int| 0 <= i < ps.len() implies spec_token_to_binop(
        toks[#[trigger] ps[i]].kind,
    ) == Some(ops[i]) by {
        if i < ps1.len() {
            assert(ps[i] == ps1[i]);
            assert(ops[i] == ops1[i]);
        } else if i == ps1.len() {
        } else {
            assert(ps[i] == ps2[i - ps1.len() - 1]);
            assert(ops[i] == ops2[i - ps1.len() - 1]);
        }
    }
    assert(ops_at(toks, a, d, ps, ops));
}

/// The operands of the operator tree `e`, left to right: what
/// `flat_ops` passes through as operands, in order.
pub open spec fn flat_leaves(e: Expr) -> Seq<Expr>
    decreases e,
{
    match e {
        Expr::BinaryOp { left, right, .. } => flat_leaves(*left) + flat_leaves(*right),
        Expr::NullCoalesce { left, right, .. } => flat_leaves(*left) + flat_leaves(*right),
        _ => seq![e],
    }
}

/// The position `i` tokens after position `q`, trivia not counted.
pub open spec fn pos_after(toks: Seq<Token>, q: nat, i: nat) -> nat
    decreases i,
{
    if i == 0 {
        q
    } else {
        let p = pos_after(toks, q, (i - 1) as nat);
        let n = next_position(toks, p);
        if n >= 0 {
            n as nat
        } else {
            p
        }
    }
}

/// Going `a` tokens and then `b` more is going `a + b` tokens.
pub proof fn lemma_pos_after_add(toks: Seq<Token>, q: nat, a: nat, b: nat)
    ensures
        pos_after(toks, pos_after(toks, q, a), b) == pos_after(toks, q, a + b),
    decreases b,
{
    if b > 0 {
        lemma_pos_after_add(toks, q, a, (b - 1) as nat);
        assert((a + b - 1) as nat == a + (b - 1) as nat);
    }
}

/// One token after position `p` is the next position.
pub proof fn lemma_pos_after_one(toks: Seq<Token>, p: nat)
    ensures
        pos_after(toks, p, 1) == next_position(toks, p),
{
    reveal_with_fuel(pos_after, 2);
    lemma_skip_trivia_bounds(toks, if p < toks.len() { (p + 1) as int } else { p as int });
}

/// One token after `k` tokens is the next position.
pub proof fn lemma_pos_after_succ(toks: Seq<Token>, q: nat, k: nat)
    ensures
        pos_after(toks, q, k + 1) == next_position(toks, pos_after(toks, q, k)),
{
    let p = pos_after(toks, q, k);
    lemma_skip_trivia_bounds(toks, if p < toks.len() { (p + 1) as int } else { p as int });
    assert((k + 1 - 1) as nat == k);
}

/// The operator of the `i`-th pair of an operator chain from `q`.
pub open spec fn chain_op(toks: Seq<Token>, q: nat, i: nat) -> Option<BinOpKind> {
    spec_token_to_binop(token_at(toks, pos_after(toks, q, 2 * i) as int).kind)
}

/// The operand of the `i`-th pair of an operator chain from `q`.
pub open spec fn chain_term(toks: Seq<Token>, bytes: Seq<u8>, q: nat, i: nat) -> Option<Expr> {
    token_term(token_at(toks, pos_after(toks, q, 2 * i + 1) as int), bytes)
}

/// From position `q` of `toks` stand `n` pairs of a binary operator (not
/// `instanceof`) and an integer or variable, and then a token that
/// continues no operator expression.
pub open spec fn simple_chain(toks: Seq<Token>, bytes: Seq<u8>, q: nat, n: nat) -> bool {
    &&& forall|i: nat|
        i < n ==> (#[trigger] chain_op(toks, q, i)) is Some && chain_op(toks, q, i)->0
            != BinOpKind::InstanceOf && chain_term(toks, bytes, q, i) is Some
    &&& chain_op(toks, q, n) is None
    &&& !spec_starts_postfix(token_at(toks, pos_after(toks, q, 2 * n) as int).kind)
}

/// An operator chain of some length starts at `q`.
pub open spec fn is_simple_chain(toks: Seq<Token>, bytes: Seq<u8>, q: nat) -> bool {
    exists|n: nat| simple_chain(toks, bytes, q, n)
}

/// The length of the operator chain at `q`.
pub open spec fn chain_len(toks: Seq<Token>, bytes: Seq<u8>, q: nat) -> nat {
    choose|n: nat| simple_chain(toks, bytes, q, n)
}

/// The operators of the chain at `q`, in order.
pub open spec fn chain_ops(toks: Seq<Token>, bytes: Seq<u8>, q: nat) -> Seq<BinOpKind> {
    Seq::new(chain_len(toks, bytes, q), |i: int| chain_op(toks, q, i as nat)->0)
}

/// The operands of the chain at `q`, in order.
pub open spec fn chain_terms(toks: Seq<Token>, bytes: Seq<u8>, q: nat) -> Seq<Expr> {
    Seq::new(chain_len(toks, bytes, q), |i: int| chain_term(toks, bytes, q, i as nat)->0)
}

/// `r` extends `left` by the first `k` pairs of the chain at `q`, which
/// end at position `p`: its operators and operands, read left to right,
/// are those of `left` followed by those pairs.
pub open spec fn chain_read(
    toks: Seq<Token>,
    bytes: Seq<u8>,
    q: nat,
    k: nat,
    left: Expr,
    r: Expr,
    p: nat,
) -> bool {
    &&& k <= chain_len(toks, bytes, q)
    &&& flat_ops(r) == flat_ops(left) + chain_ops(toks, bytes, q).take(k as int)
    &&& flat_leaves(r) == flat_leaves(left) + chain_terms(toks, bytes, q).take(k as int)
    &&& p == pos_after(toks, q, 2 * k)
}

/// A chain has one length.
pub proof fn lemma_chain_len(toks: Seq<Token>, bytes: Seq<u8>, q: nat, n: nat)
    requires
        simple_chain(toks, bytes, q, n),
    ensures
        is_simple_chain(toks, bytes, q),
        chain_len(toks, bytes, q) == n,
{
    let m = chain_len(toks, bytes, q);
    assert(simple_chain(toks, bytes, q, m));
    if m < n {
        assert(chain_op(toks, q, m) is Some);
    } else if n < m {
        assert(chain_op(toks, q, n) is Some);
    }
}

/// Positions, operators and operands `m` pairs into a chain are those of
/// the chain that starts there.
pub proof fn lemma_chain_shift(toks: Seq<Token>, bytes: Seq<u8>, q: nat, m: nat)
    ensures
        forall|i: nat| #[trigger] chain_op(toks, pos_after(toks, q, 2 * m), i) == chain_op(toks, q, m + i),
        forall|i: nat|
            #[trigger] chain_term(toks, bytes, pos_after(toks, q, 2 * m), i) == chain_term(
                toks,
                bytes,
                q,
                m + i,
            ),
        forall|i: nat|
            #[trigger] pos_after(toks, pos_after(toks, q, 2 * m), 2 * i) == pos_after(
                toks,
                q,
                2 * (m + i),
            ),
{
    let q2 = pos_after(toks, q, 2 * m);
    assert forall|i: nat| #[trigger] pos_after(toks, q2, 2 * i) == pos_after(toks, q, 2 * (m + i)) by {
        lemma_pos_after_add(toks, q, 2 * m, 2 * i);
        assert(2 * m + 2 * i == 2 * (m + i));
    }
    assert forall|i: nat| #[trigger] chain_op(toks, q2, i) == chain_op(toks, q, m + i) by {
        lemma_pos_after_add(toks, q, 2 * m, 2 * i);
        assert(2 * m + 2 * i == 2 * (m + i));
    }
    assert forall|i: nat| #[trigger] chain_term(toks, bytes, q2, i) == chain_term(toks, bytes, q, m + i) by {
        lemma_pos_after_add(toks, q, 2 * m, 2 * i + 1);
        assert(2 * m + (2 * i + 1) == 2 * (m + i) + 1);
    }
}

/// What follows the first `m` pairs of a chain is a chain: the rest.
pub proof fn lemma_chain_suffix(toks: Seq<Token>, bytes: Seq<u8>, q: nat, m: nat)
    requires
        is_simple_chain(toks, bytes, q),
        m <= chain_len(toks, bytes, q),
    ensures
        is_simple_chain(toks, bytes, pos_after(toks, q, 2 * m)),
        chain_len(toks, bytes, pos_after(toks, q, 2 * m)) == chain_len(toks, bytes, q) - m,
        chain_ops(toks, bytes, pos_after(toks, q, 2 * m)) == chain_ops(toks, bytes, q).skip(
            m as int,
        ),
        chain_terms(toks, bytes, pos_after(toks, q, 2 * m)) == chain_terms(toks, bytes, q).skip(
            m as int,
        ),
{
    let n = chain_len(toks, bytes, q);
    let q2 = pos_after(toks, q, 2 * m);
    let n2 = (n - m) as nat;
    assert(simple_chain(toks, bytes, q, n));
    lemma_chain_shift(toks, bytes, q, m);
    assert forall|i: nat| i < n2 implies (#[trigger] chain_op(toks, q2, i)) is Some && chain_op(
        toks,
        q2,
        i,
    )->0 != BinOpKind::InstanceOf && chain_term(toks, bytes, q2, i) is Some by {
        assert(chain_op(toks, q, (m + i) as nat) is Some);
    }
    assert(chain_op(toks, q2, n2) == chain_op(toks, q, n));
    assert(pos_after(toks, q2, 2 * n2) == pos_after(toks, q, 2 * n));
    assert(simple_chain(toks, bytes, q2, n2));
    lemma_chain_len(toks, bytes, q2, n2);
    assert(chain_ops(toks, bytes, q2) =~= chain_ops(toks, bytes, q).skip(m as int));
    assert(chain_terms(toks, bytes, q2) =~= chain_terms(toks, bytes, q).skip(m as int));
}

/// At the cursor of `p` stands an integer or a variable followed by an
/// operator chain: `1 + 2 * 3`, `$a ?? $b`, or the term alone.
pub open spec fn expr_chain(p: &Parser) -> bool {
    &&& single_token_term(p) is Some
    &&& is_simple_chain(p.toks(), p.src_bytes(), next_position(p.toks(), p.position()) as nat)
}

/// `r` is the first term at the cursor of `p` extended by the first `k`
/// pairs of the operator chain after it, ending at position `end`.
pub open spec fn expr_chain_read(p: &Parser, k: nat, r: Expr, end: nat) -> bool {
    chain_read(
        p.toks(),
        p.src_bytes(),
        next_position(p.toks(), p.position()) as nat,
        k,
        single_token_term(p)->0,
        r,
        end,
    )
}

/// The operator chain at the cursor of `p` is a whole expression: the
/// token after it is no `?` and no assignment operator.
pub open spec fn expr_chain_alone(p: &Parser) -> bool {
    let toks = p.toks();
    let q1 = next_position(toks, p.position()) as nat;
    let k = token_at(toks, pos_after(toks, q1, 2 * chain_len(toks, p.src_bytes(), q1)) as int).kind;
    &&& expr_chain(p)
    &&& k != TokenKind::Question
    &&& k != TokenKind::Eq
    &&& k != TokenKind::NullCoalesceAssign
    &&& spec_compound_assign_op(k) is None
}

/// The position after the operator chain at the cursor of `p`.
pub open spec fn expr_chain_end(p: &Parser) -> nat {
    let toks = p.toks();
    let q1 = next_position(toks, p.position()) as nat;
    pos_after(toks, q1, 2 * chain_len(toks, p.src_bytes(), q1))
}

/// The whole operator chain at the cursor of `p` was read into `r`,
/// ending at position `end`.
pub open spec fn expr_chain_whole(p: &Parser, r: Expr, end: nat) -> bool {
    expr_chain_read(
        p,
        chain_len(p.toks(), p.src_bytes(), next_position(p.toks(), p.position()) as nat),
        r,
        end,
    )
}

/// The operand of the `i`-th pair of the chain at `q` reads without a
/// diagnostic.
pub open spec fn chain_term_clean(toks: Seq<Token>, bytes: Seq<u8>, q: nat, i: nat) -> bool {
    token_term_clean(token_at(toks, pos_after(toks, q, 2 * i + 1) as int), bytes)
}

/// The chain at `q` is well formed: every operand reads without a
/// diagnostic and at most one of its operators cannot be chained.
pub open spec fn chain_valid(toks: Seq<Token>, bytes: Seq<u8>, q: nat) -> bool {
    &&& is_simple_chain(toks, bytes, q)
    &&& forall|i: nat|
        i < chain_len(toks, bytes, q) ==> #[trigger] chain_term_clean(toks, bytes, q, i)
    &&& forall|i: nat, j: nat|
        i < j < chain_len(toks, bytes, q) && spec_is_non_associative(
            (#[trigger] chain_op(toks, q, i))->0,
        ) ==> !spec_is_non_associative((#[trigger] chain_op(toks, q, j))->0)
}

/// A least precedence at which no operator that cannot be chained sits.
pub open spec fn min_prec_free(min_prec: int) -> bool {
    min_prec != 45 && min_prec != 50 && min_prec != 90
}

/// What follows the first `m` pairs of a well-formed chain is well formed.
pub proof fn lemma_chain_valid_suffix(toks: Seq<Token>, bytes: Seq<u8>, q: nat, m: nat)
    requires
        chain_valid(toks, bytes, q),
        m <= chain_len(toks, bytes, q),
    ensures
        chain_valid(toks, bytes, pos_after(toks, q, 2 * m)),
{
    let q2 = pos_after(toks, q, 2 * m);
    lemma_chain_suffix(toks, bytes, q, m);
    lemma_chain_shift(toks, bytes, q, m);
    let n2 = chain_len(toks, bytes, q2);
    assert forall|i: nat| i < n2 implies #[trigger] chain_term_clean(toks, bytes, q2, i) by {
        lemma_pos_after_add(toks, q, 2 * m, 2 * i + 1);
        assert(2 * m + (2 * i + 1) == 2 * (m + i) + 1);
        assert(chain_term_clean(toks, bytes, q, m + i));
    }
    assert forall|i: nat, j: nat|
        i < j < n2 && spec_is_non_associative(
            (#[trigger] chain_op(toks, q2, i))->0,
        ) implies !spec_is_non_associative((#[trigger] chain_op(toks, q2, j))->0) by {
        assert(chain_op(toks, q2, i) == chain_op(toks, q, m + i));
        assert(chain_op(toks, q2, j) == chain_op(toks, q, m + j));
        assert(chain_op(toks, q, (m + i) as nat) == chain_op(toks, q, m + i));
    }
}

/// The least precedence of a right operand is free of the operators that
/// cannot be chained.
pub proof fn lemma_right_operand_min_free(op: BinOpKind)
    ensures
        min_prec_free(
            if spec_is_right_associative(op) {
                spec_precedence(op) as int
            } else {
                spec_precedence(op) + 1
            },
        ),
{
}

/// The operator chain at the cursor of `p` is well formed: its first term
/// and every later operand read without a diagnostic, and at most one of
/// its operators cannot be chained.
pub open spec fn expr_chain_valid(p: &Parser) -> bool {
    &&& expr_chain(p)
    &&& token_term_clean(p.cur_token(), p.src_bytes())
    &&& chain_valid(p.toks(), p.src_bytes(), next_position(p.toks(), p.position()) as nat)
}

/// A term that stands alone is an operator chain without pairs, ending
/// at the next token, and a well-formed one when it reads without a
/// diagnostic.
pub proof fn lemma_term_alone_chain(p: &Parser)
    requires
        p.wf(),
        term_alone(p),
    ensures
        expr_chain_alone(p),
        expr_chain_end(p) == next_position(p.toks(), p.position()),
        token_term_clean(p.cur_token(), p.src_bytes()) ==> expr_chain_valid(p),
{
    let toks = p.toks();
    let bytes = p.src_bytes();
    lemma_skip_trivia_bounds(
        toks,
        if p.position() < toks.len() {
            (p.position() + 1) as int
        } else {
            p.position() as int
        },
    );
    let q1 = next_position(toks, p.position()) as nat;
    assert(pos_after(toks, q1, 0) == q1);
    assert(simple_chain(toks, bytes, q1, 0));
    lemma_chain_len(toks, bytes, q1, 0);
}

/// A term that no postfix operation or binary operator continues is an
/// operator chain without pairs, and a well-formed one when it reads
/// without a diagnostic.
pub proof fn lemma_term_stop_chain(p: &Parser)
    requires
        p.wf(),
        single_token_term(p) is Some,
        !spec_starts_postfix(following_token(p).kind),
        spec_token_to_binop(following_token(p).kind) is None,
    ensures
        expr_chain(p),
        token_term_clean(p.cur_token(), p.src_bytes()) ==> expr_chain_valid(p),
{
    let toks = p.toks();
    let bytes = p.src_bytes();
    lemma_skip_trivia_bounds(
        toks,
        if p.position() < toks.len() {
            (p.position() + 1) as int
        } else {
            p.position() as int
        },
    );
    let q1 = next_position(toks, p.position()) as nat;
    assert(pos_after(toks, q1, 0) == q1);
    assert(simple_chain(toks, bytes, q1, 0));
    lemma_chain_len(toks, bytes, q1, 0);
}

/// A binary operator token continues no term with a postfix operation.
pub proof fn lemma_binop_not_postfix(k: TokenKind)
    requires
        spec_token_to_binop(k) is Some,
    ensures
        !spec_starts_postfix(k),
{
}

/// Extending the first `kk` pairs of a chain by the operator of the next
/// pair and a right operand made of that pair's operand and `j` more pairs
/// gives the first `kk + 1 + j` pairs.
#[verifier::spinoff_prover]
#[verifier::rlimit(50)]
pub proof fn lemma_chain_step(
    toks: Seq<Token>,
    bytes: Seq<u8>,
    q: nat,
    kk: nat,
    j: nat,
    left0: Expr,
    left: Expr,
    op: BinOpKind,
    right: Expr,
    next: Expr,
    p_it: nat,
    p_end: nat,
)
    requires
        is_simple_chain(toks, bytes, q),
        chain_read(toks, bytes, q, kk, left0, left, p_it),
        kk < chain_len(toks, bytes, q),
        chain_op(toks, q, kk) == Some(op),
        chain_read(
            toks,
            bytes,
            pos_after(toks, q, 2 * (kk + 1)),
            j,
            chain_term(toks, bytes, q, kk)->0,
            right,
            p_end,
        ),
        flat_ops(next) == flat_ops(left) + seq![op] + flat_ops(right),
        flat_leaves(next) == flat_leaves(left) + flat_leaves(right),
    ensures
        chain_read(toks, bytes, q, kk + 1 + j, left0, next, p_end),
{
    let n = chain_len(toks, bytes, q);
    assert(simple_chain(toks, bytes, q, n));
    lemma_chain_suffix(toks, bytes, q, kk + 1);
    let ops = chain_ops(toks, bytes, q);
    let terms = chain_terms(toks, bytes, q);
    let t = chain_term(toks, bytes, q, kk)->0;
    assert(chain_term(toks, bytes, q, kk) is Some);
    assert(flat_ops(t) == Seq::<BinOpKind>::empty());
    assert(flat_leaves(t) == seq![t]);
    assert(ops[kk as int] == op);
    assert(terms[kk as int] == t);
    assert(flat_ops(next) =~= flat_ops(left0) + ops.take((kk + 1 + j) as int));
    assert(flat_leaves(next) =~= flat_leaves(left0) + terms.take((kk + 1 + j) as int));
    lemma_pos_after_add(toks, q, 2 * (kk + 1), 2 * j);
    assert(2 * (kk + 1) + 2 * j == 2 * (kk + 1 + j));
}

/// The binary operator at the cursor of `p`, if any.
pub open spec fn next_binop(p: &Parser) -> Option<BinOpKind> {
    spec_token_to_binop(nth_kind_from(p.toks(), p.position() as int, 0))
}

/// No binary operator of precedence `min` or more is at the cursor of `p`.
pub open spec fn stops_below(p: &Parser, min: int) -> bool {
    match next_binop(p) {
        Some(k) => (spec_precedence(k) as int) < min,
        None => true,
    }
}

/// Every binary operator at the cursor of `p` binds less tightly than
/// `op`, or as tightly when `op` groups to the left: a right operand of
/// `op` read up to here is complete.
pub open spec fn next_bound(p: &Parser, op: BinOpKind) -> bool {
    match next_binop(p) {
        Some(k) => if spec_is_right_associative(op) {
            spec_precedence(k) < spec_precedence(op)
        } else {
            spec_precedence(k) <= spec_precedence(op)
        },
        None => true,
    }
}

/// Operators of the same precedence group the same way: both to the
/// right or both to the left, and are chainable or not alike.
pub proof fn lemma_same_precedence_same_associativity(a: BinOpKind, b: BinOpKind)
    requires
        spec_precedence(a) == spec_precedence(b),
    ensures
        spec_is_right_associative(a) == spec_is_right_associative(b),
        spec_is_non_associative(a) == spec_is_non_associative(b),
{
}

/// An operator that cannot be chained does not group to the right either:
/// its right operand always binds tighter.
pub proof fn lemma_non_associative_not_right_associative(op: BinOpKind)
    requires
        spec_is_non_associative(op),
    ensures
        !spec_is_right_associative(op),
{
}

/// Only `instanceof` has the precedence of `instanceof`.
pub proof fn lemma_instanceof_precedence_unique(op: BinOpKind)
    requires
        spec_precedence(op) == spec_precedence(BinOpKind::InstanceOf),
    ensures
        op == BinOpKind::InstanceOf,
{
}

/// A grouped expression never binds exactly as tightly as `instanceof`.
pub proof fn lemma_grouped_binds_not_instanceof(e: Expr)
    requires
        grouped(e),
    ensures
        binds(e) != spec_precedence(BinOpKind::InstanceOf) as int,
{
    if let Expr::BinaryOp { op, .. } = e {
        if spec_precedence(op) == spec_precedence(BinOpKind::InstanceOf) {
            lemma_instanceof_precedence_unique(op);
        }
    }
}

/// A binary operator token stands for the operator that is written as
/// the token is spelled, `<>` being the other spelling of `!=`: the
/// operator in the tree is the one read.
pub proof fn lemma_binop_read_as_written(k: TokenKind)
    requires
        spec_token_to_binop(k) is Some,
    ensures
        spec_operator_spelling(k) is Some,
        k != TokenKind::NotEqAlt ==> spec_operator_spelling(k)->0 == spec_op_text(
            spec_token_to_binop(k)->0,
        ),
        k == TokenKind::NotEqAlt ==> spec_token_to_binop(k) == Some(BinOpKind::CmpNe),
{
}

/// Two operator tokens stand for the same operator only when they are the
/// same kind or the two spellings `!=` and `<>`.
pub proof fn lemma_binop_tokens_distinct(k1: TokenKind, k2: TokenKind)
    requires
        spec_token_to_binop(k1) is Some,
        spec_token_to_binop(k1) == spec_token_to_binop(k2),
    ensures
        k1 == k2 || (spec_token_to_binop(k1) == Some(BinOpKind::CmpNe)),
{
}

/// The binary operator that `kind` stands for, if any.
pub fn token_to_binop(kind: &TokenKind) -> (r: Option<BinOpKind>)
    ensures
        r == spec_token_to_binop(*kind),
        r matches Some(op) ==> spec_operator_spelling(*kind) == Some(spec_op_text(op)) || (*kind
            == TokenKind::NotEqAlt && op == BinOpKind::CmpNe),
{
    match kind {
        TokenKind::Plus => Some(BinOpKind::Add),
        TokenKind::Minus => Some(BinOpKind::Sub),
        TokenKind::Star => Some(BinOpKind::Mul),
        TokenKind::Slash => Some(BinOpKind::Div),
        TokenKind::Percent => Some(BinOpKind::Mod),
        TokenKind::Pow => Some(BinOpKind::Pow),
        TokenKind::Dot => Some(BinOpKind::Concat),
        TokenKind::AndAnd => Some(BinOpKind::AndAnd),
        TokenKind::OrOr => Some(BinOpKind::OrOr),
        TokenKind::NullCoalesce => Some(BinOpKind::NullCoalesce),
        TokenKind::KwOr => Some(BinOpKind::Or),
        TokenKind::KwXor => Some(BinOpKind::Xor),
        TokenKind::KwAnd => Some(BinOpKind::And),
        TokenKind::Amp => Some(BinOpKind::BitAnd),
        TokenKind::Pipe => Some(BinOpKind::BitOr),
        TokenKind::Caret => Some(BinOpKind::BitXor),
        TokenKind::Shl => Some(BinOpKind::Shl),
        TokenKind::Shr => Some(BinOpKind::Shr),
        TokenKind::StrictEq => Some(BinOpKind::CmpEqStrict),
        TokenKind::StrictNe => Some(BinOpKind::CmpNeStrict),
        TokenKind::EqEq => Some(BinOpKind::CmpEq),
        TokenKind::NotEq | TokenKind::NotEqAlt => Some(BinOpKind::CmpNe),
        TokenKind::Lt => Some(BinOpKind::CmpLt),
        TokenKind::Gt => Some(BinOpKind::CmpGt),
        TokenKind::Le => Some(BinOpKind::CmpLe),
        TokenKind::Ge => Some(BinOpKind::CmpGe),
        TokenKind::Spaceship => Some(BinOpKind::CmpSpaceship),
        TokenKind::KwInstanceof => Some(BinOpKind::InstanceOf),
        _ => None,
    }
}

/// How tightly `op` binds: a higher number binds tighter.
pub fn precedence_of(op: BinOpKind) -> (p: u8)
    ensures
        p == spec_precedence(op),
{
    match op {
        BinOpKind::Pow => 100,
        BinOpKind::InstanceOf => 90,
        BinOpKind::Mul | BinOpKind::Div | BinOpKind::Mod => 80,
        BinOpKind::Add | BinOpKind::Sub | BinOpKind::Concat => 70,
        BinOpKind::Shl | BinOpKind::Shr => 60,
        BinOpKind::CmpLt | BinOpKind::CmpGt | BinOpKind::CmpLe | BinOpKind::CmpGe => 50,
        BinOpKind::CmpEq
        | BinOpKind::CmpNe
        | BinOpKind::CmpEqStrict
        | BinOpKind::CmpNeStrict
        | BinOpKind::CmpSpaceship => 45,
        BinOpKind::BitAnd => 40,
        BinOpKind::BitXor => 35,
        BinOpKind::BitOr => 30,
        BinOpKind::AndAnd => 20,
        BinOpKind::OrOr => 10,
        BinOpKind::NullCoalesce => 8,
        BinOpKind::Xor => 5,
        BinOpKind::And => 4,
        BinOpKind::Or => 2,
    }
}

/// Whether `op` groups to the right.
pub fn is_right_associative(op: BinOpKind) -> (b: bool)
    ensures
        b == spec_is_right_associative(op),
{
    match op {
        BinOpKind::Pow | BinOpKind::NullCoalesce => true,
        _ => false,
    }
}

/// How `op` is written in source.
pub fn op_kind_to_str(op: BinOpKind) -> (s: &'static str)
    ensures
        s@ == spec_op_text(op),
{
    match op {
        BinOpKind::Add => "+",
        BinOpKind::Sub => "-",
        BinOpKind::Mul => "*",
        BinOpKind::Div => "/",
        BinOpKind::Mod => "%",
        BinOpKind::Pow => "**",
        BinOpKind::Concat => ".",
        BinOpKind::BitAnd => "&",
        BinOpKind::BitOr => "|",
        BinOpKind::BitXor => "^",
        BinOpKind::Shl => "<<",
        BinOpKind::Shr => ">>",
        BinOpKind::AndAnd => "&&",
        BinOpKind::OrOr => "||",
        BinOpKind::And => "and",
        BinOpKind::Or => "or",
        BinOpKind::Xor => "xor",
        BinOpKind::CmpEq => "==",
        BinOpKind::CmpNe => "!=",
        BinOpKind::CmpEqStrict => "===",
        BinOpKind::CmpNeStrict => "!==",
        BinOpKind::CmpLt => "<",
        BinOpKind::CmpLe => "<=",
        BinOpKind::CmpGt => ">",
        BinOpKind::CmpGe => ">=",
        BinOpKind::CmpSpaceship => "<=>",
        BinOpKind::NullCoalesce => "??",
        BinOpKind::InstanceOf => "instanceof",
    }
}

/// Whether `op` cannot be chained with an operator of its own precedence.
pub fn is_non_associative(op: BinOpKind) -> (b: bool)
    ensures
        b == spec_is_non_associative(op),
{
    match op {
        BinOpKind::CmpLt
        | BinOpKind::CmpGt
        | BinOpKind::CmpLe
        | BinOpKind::CmpGe
        | BinOpKind::CmpEq
        | BinOpKind::CmpNe
        | BinOpKind::CmpEqStrict
        | BinOpKind::CmpNeStrict
        | BinOpKind::CmpSpaceship
        | BinOpKind::InstanceOf => true,
        _ => false,
    }
}

/// The message reported when a non-associative operator is chained.
pub fn non_associative_message(op: BinOpKind) -> (m: String)
    ensures
        m@ == "operator '"@ + spec_op_text(op) + "' is non-associative"@,
{
    let mut m = "operator '".to_owned();
    m.append(op_kind_to_str(op));
    m.append("' is non-associative");
    m
}

/// Operands of these kinds stop recovery after a missing operand.
fn sync_after_operator() -> (v: Vec<TokenKind>)
    ensures
        v@ == seq![
            TokenKind::Semicolon,
            TokenKind::Comma,
            TokenKind::RParen,
            TokenKind::RBracket,
            TokenKind::RBrace,
        ],
{
    vec![
        TokenKind::Semicolon,
        TokenKind::Comma,
        TokenKind::RParen,
        TokenKind::RBracket,
        TokenKind::RBrace,
    ]
}

fn sync_after_instanceof() -> (v: Vec<TokenKind>)
    ensures
        v@ == seq![TokenKind::Semicolon, TokenKind::Comma, TokenKind::RParen, TokenKind::RBracket],
{
    vec![TokenKind::Semicolon, TokenKind::Comma, TokenKind::RParen, TokenKind::RBracket]
}

impl<'src> Parser<'src> {
    /// A term followed by binary operators of precedence at least
    /// `min_prec`.
    #[verifier::spinoff_prover]
    pub(super) fn parse_binop_prec_impl(&mut self, min_prec: u8) -> (r: Option<Expr>)
        requires
            old(self).wf(),
        ensures
            final(self).wf(),
            old(self).evolves_to(final(self)),
            r is Some ==> old(self).advances_to(final(self)),
            r is Some ==> spec_below_conditional(r->0),
            r is Some ==> ops_read(
                old(self).toks(),
                old(self).position() as int,
                final(self).position() as int,
                flat_ops(r->0),
            ),
            r is Some && final(self).diags().len() == old(self).diags().len() ==> grouped(r->0)
                && stops_below(final(self), min_prec as int),
            single_token_term(old(self)) is Some && !spec_starts_postfix(
                following_token(old(self)).kind,
            ) && spec_token_to_binop(following_token(old(self)).kind) is None ==> r
                == single_token_term(old(self)) && final(self).position() == next_position(
                old(self).toks(),
                old(self).position(),
            ),
            unary_alone(old(self)) ==> r == Some(unary_term(old(self))) && final(self).position()
                == prefix_term_end(old(self)),
            expr_chain(old(self)) ==> r is Some && exists|k: nat|
                #[trigger] expr_chain_read(old(self), k, r->0, final(self).position()) && (k
                    < chain_len(
                    old(self).toks(),
                    old(self).src_bytes(),
                    next_position(old(self).toks(), old(self).position()) as nat,
                ) ==> final(self).diags().len() > old(self).diags().len() || (spec_precedence(
                    chain_op(
                        old(self).toks(),
                        next_position(old(self).toks(), old(self).position()) as nat,
                        k,
                    )->0,
                ) as int) < min_prec as int),
            expr_chain_valid(old(self)) && min_prec_free(min_prec as int) ==> final(self).diags()
                == old(self).diags(),
        decreases old(self).rem(), 550nat,
    {
        proof {
            let toks = self.toks();
            let bytes = self.src_bytes();
            let q1 = next_position(toks, self.position());
            if expr_chain(&*self) {
                lemma_skip_trivia_bounds(
                    toks,
                    if self.position() < toks.len() {
                        (self.position() + 1) as int
                    } else {
                        self.position() as int
                    },
                );
                let n = chain_len(toks, bytes, q1 as nat);
                assert(simple_chain(toks, bytes, q1 as nat, n));
                assert(pos_after(toks, q1 as nat, 0) == q1);
                if n > 0 {
                    assert(chain_op(toks, q1 as nat, 0) is Some);
                    lemma_binop_not_postfix(token_at(toks, q1).kind);
                }
            }
        }
        let left = match self.parse_prefix_term() {
            Some(l) => l,
            None => return None,
        };
        let ghost mid = *self;
        proof {
            mid.lemma_cur_token_at();
            Self::lemma_same_source_bytes(old(self), &mid);
        }
        let r = self.parse_binop_prec_from_left(left, min_prec);
        proof {
            if expr_chain(old(self)) {
                let q1 = next_position(old(self).toks(), old(self).position()) as nat;
                let k = choose|k: nat| #[trigger]
                    chain_read(
                        mid.toks(),
                        mid.src_bytes(),
                        mid.position(),
                        k,
                        left,
                        r,
                        self.position(),
                    ) && (k < chain_len(mid.toks(), mid.src_bytes(), mid.position())
                        ==> self.diags().len() > mid.diags().len() || (spec_precedence(
                        chain_op(mid.toks(), mid.position(), k)->0,
                    ) as int) < min_prec as int);
                assert(expr_chain_read(old(self), k, r, self.position()));
                assert(k < chain_len(old(self).toks(), old(self).src_bytes(), q1) ==> self.diags().len()
                    > old(self).diags().len() || (spec_precedence(
                    chain_op(old(self).toks(), q1, k)->0,
                ) as int) < min_prec as int);
                assert(exists|k2: nat|
                    #[trigger] expr_chain_read(old(self), k2, r, self.position()) && (k2 < chain_len(
                        old(self).toks(),
                        old(self).src_bytes(),
                        q1,
                    ) ==> self.diags().len() > old(self).diags().len() || (spec_precedence(
                        chain_op(old(self).toks(), q1, k2)->0,
                    ) as int) < min_prec as int));
            }
            Self::lemma_evolves_trans(old(self), &mid, self);
            lemma_ops_read_widen(
                mid.toks(),
                mid.position() as int,
                self.position() as int,
                old(self).position() as int,
                self.position() as int,
                flat_ops(r),
            );
        }
        let ghost r_g = r;
        let res = Some(r);
        proof {
            assert(res->0 == r_g);
        }
        res
    }

    /// Extends `left` with binary operators of precedence at least
    /// `min_prec`, grouping by precedence and associativity.
    #[verifier::spinoff_prover]
    fn parse_binop_prec_from_left(&mut self, left: Expr, min_prec: u8) -> (r: Expr)
        requires
            old(self).wf(),
            spec_is_operand(left),
        ensures
            final(self).wf(),
            old(self).evolves_to(final(self)),
            spec_below_conditional(r),
            ops_read(
                old(self).toks(),
                old(self).position() as int,
                final(self).position() as int,
                flat_ops(r),
            ),
            final(self).diags().len() == old(self).diags().len() ==> grouped(r) && binds(r)
                >= min_prec && stops_below(final(self), min_prec as int),
            spec_token_to_binop(old(self).cur_kind()) is None ==> r == left && *final(self) == *old(
                self,
            ),
            is_simple_chain(old(self).toks(), old(self).src_bytes(), old(self).position()) ==> exists|
                k: nat,
            |
                #[trigger] chain_read(
                    old(self).toks(),
                    old(self).src_bytes(),
                    old(self).position(),
                    k,
                    left,
                    r,
                    final(self).position(),
                ) && (k < chain_len(old(self).toks(), old(self).src_bytes(), old(self).position())
                    ==> final(self).diags().len() > old(self).diags().len() || (spec_precedence(
                    chain_op(old(self).toks(), old(self).position(), k)->0,
                ) as int) < min_prec as int),
            chain_valid(old(self).toks(), old(self).src_bytes(), old(self).position())
                && min_prec_free(min_prec as int) ==> final(self).diags() == old(self).diags(),
        decreases old(self).rem(), 530nat,
    {
        let ghost left0 = left;
        let mut left = left;
        let mut last_non_assoc: Option<u8> = None;
        let ghost toks0 = self.toks();
        let ghost bytes0 = self.src_bytes();
        let ghost q0 = self.position();
        let ghost mut kk: nat = 0;
        proof {
            self.lemma_next_kind_is_cur();
            lemma_ops_read_none(self.toks(), self.position() as int, self.position() as int);
            if is_simple_chain(toks0, bytes0, q0) {
                assert(flat_ops(left0) + chain_ops(toks0, bytes0, q0).take(0) =~= flat_ops(left0));
                assert(flat_leaves(left0) + chain_terms(toks0, bytes0, q0).take(0) =~= flat_leaves(left0));
                assert(chain_read(toks0, bytes0, q0, 0, left0, left, self.position()));
            }
        }
        loop
            invariant
                self.wf(),
                old(self).evolves_to(self),
                ops_read(
                    old(self).toks(),
                    old(self).position() as int,
                    self.position() as int,
                    flat_ops(left),
                ),
                spec_token_to_binop(old(self).cur_kind()) is None ==> left == left0 && *self == *old(
                    self,
                ),
                last_non_assoc is Some ==> old(self).advances_to(self),
                toks0 == old(self).toks(),
                bytes0 == old(self).src_bytes(),
                q0 == old(self).position(),
                is_simple_chain(toks0, bytes0, q0) ==> chain_read(
                    toks0,
                    bytes0,
                    q0,
                    kk,
                    left0,
                    left,
                    self.position(),
                ),
                chain_valid(toks0, bytes0, q0) && min_prec_free(min_prec as int) ==> self.diags()
                    == old(self).diags(),
                chain_valid(toks0, bytes0, q0) && last_non_assoc is Some ==> forall|i: nat|
                    kk <= i < chain_len(toks0, bytes0, q0) ==> !spec_is_non_associative(
                        (#[trigger] chain_op(toks0, q0, i))->0,
                    ),
                spec_below_conditional(left),
                self.diags().len() == old(self).diags().len() ==> match left {
                    Expr::BinaryOp { op, .. } => spec_is_non_associative(op) ==> last_non_assoc
                        == Some(spec_precedence(op)),
                    _ => true,
                },
                self.diags().len() == old(self).diags().len() ==> (left is InstanceOf
                    ==> last_non_assoc == Some(spec_precedence(BinOpKind::InstanceOf))),
                self.diags().len() == old(self).diags().len() ==> grouped(left) && binds(left)
                    >= min_prec && match next_binop(self) {
                    Some(k) => spec_precedence(k) >= min_prec ==> left_operand_ok(k, left),
                    None => true,
                },
            ensures
                self.wf(),
                old(self).evolves_to(self),
                ops_read(
                    old(self).toks(),
                    old(self).position() as int,
                    self.position() as int,
                    flat_ops(left),
                ),
                spec_token_to_binop(old(self).cur_kind()) is None ==> left == left0 && *self == *old(
                    self,
                ),
                spec_below_conditional(left),
                self.diags().len() == old(self).diags().len() ==> grouped(left) && binds(left)
                    >= min_prec && stops_below(self, min_prec as int),
                is_simple_chain(toks0, bytes0, q0) ==> chain_read(
                    toks0,
                    bytes0,
                    q0,
                    kk,
                    left0,
                    left,
                    self.position(),
                ) && (kk < chain_len(toks0, bytes0, q0) ==> self.diags().len() > old(
                    self,
                ).diags().len() || (spec_precedence(chain_op(toks0, q0, kk)->0) as int)
                    < min_prec as int),
                chain_valid(toks0, bytes0, q0) && min_prec_free(min_prec as int) ==> self.diags()
                    == old(self).diags(),
            decreases self.rem(),
        {
            let ghost it = *self;
            proof {
                it.lemma_next_kind_is_cur();
                it.lemma_cur_token_at();
                Self::lemma_same_source_bytes(old(self), &it);
                if is_simple_chain(toks0, bytes0, q0) {
                    let n = chain_len(toks0, bytes0, q0);
                    assert(simple_chain(toks0, bytes0, q0, n));
                    assert(it.position() == pos_after(toks0, q0, 2 * kk));
                    if kk < n {
                        assert(chain_op(toks0, q0, kk) is Some);
                    }
                }
            }
            let op_kind = match self.peek_binop() {
                Some(k) => k,
                None => break,
            };
            let prec = precedence_of(op_kind);
            if prec < min_prec {
                break;
            }
            let non_assoc = is_non_associative(op_kind);
            let chained = match last_non_assoc {
                Some(p) => p == prec,
                None => false,
            };
            if non_assoc && (prec == min_prec || chained) {
                let cur_span = self.current_span();
                let msg = non_associative_message(op_kind);
                self.error(
                    Diagnostic::error(ParseDiagnosticCode::UnexpectedToken, cur_span, msg.as_str()),
                );
                proof {
                    lemma_ops_read_widen(
                        it.toks(),
                        old(self).position() as int,
                        it.position() as int,
                        old(self).position() as int,
                        self.position() as int,
                        flat_ops(left),
                    );
                }
                break;
            }
            let ghost left_before = left;
            proof {
                it.lemma_next_kind_is_cur();
                it.lemma_cur_token_at();
            }
            if op_kind == BinOpKind::InstanceOf {
                proof {
                    if self.diags().len() == old(self).diags().len() {
                        lemma_grouped_binds_not_instanceof(left);
                    }
                }
                left = self.parse_instanceof_from_left(left);
                last_non_assoc = Some(prec);
                proof {
                    Self::lemma_evolves_trans(old(self), &it, self);
                    Self::lemma_advances_moves(&it, self);
                    lemma_ops_read_none(self.toks(), self.position() as int, self.position() as int);
                    lemma_ops_read_join(
                        self.toks(),
                        old(self).position() as int,
                        it.position() as int,
                        flat_ops(left_before),
                        it.position() as int,
                        BinOpKind::InstanceOf,
                        self.position() as int,
                        self.position() as int,
                        Seq::empty(),
                    );
                    assert(flat_ops(left) =~= flat_ops(left_before) + seq![BinOpKind::InstanceOf]
                        + Seq::<BinOpKind>::empty());
                }
                continue;
            }
            proof {
                if is_simple_chain(toks0, bytes0, q0) {
                    lemma_chain_suffix(toks0, bytes0, q0, kk);
                    if chain_valid(toks0, bytes0, q0) {
                        lemma_chain_valid_suffix(toks0, bytes0, q0, kk);
                    }
                    let q1 = pos_after(toks0, q0, 2 * kk);
                    assert(chain_term(toks0, bytes0, q1, 0) == chain_term(toks0, bytes0, q0, kk)) by {
                        lemma_pos_after_add(toks0, q0, 2 * kk, 1);
                    }
                    assert(chain_op(toks0, q1, 0) == chain_op(toks0, q0, kk)) by {
                        lemma_pos_after_add(toks0, q0, 2 * kk, 0);
                    }
                    lemma_pos_after_add(toks0, q0, 2 * kk, 2);
                    assert(2 * kk + 2 == 2 * (kk + 1));
                }
            }
            let (l, r) = match self.bump_binop_and_parse_right(left, op_kind) {
                Ok(v) => v,
                Err(e) => {
                    proof {
                        Self::lemma_evolves_trans(old(self), &it, self);
                        Self::lemma_advances_moves(&it, self);
                        lemma_ops_read_none(
                            self.toks(),
                            self.position() as int,
                            self.position() as int,
                        );
                        lemma_ops_read_join(
                            self.toks(),
                            old(self).position() as int,
                            it.position() as int,
                            flat_ops(left_before),
                            it.position() as int,
                            op_kind,
                            self.position() as int,
                            self.position() as int,
                            Seq::empty(),
                        );
                        assert(flat_ops(e) =~= flat_ops(left_before) + seq![op_kind]
                            + Seq::<BinOpKind>::empty());
                    }
                    return e;
                },
            };
            proof {
                Self::lemma_evolves_trans(old(self), &it, self);
                Self::lemma_advances_moves(&it, self);
                lemma_ops_read_join(
                    self.toks(),
                    old(self).position() as int,
                    it.position() as int,
                    flat_ops(left_before),
                    it.position() as int,
                    op_kind,
                    it.position() as int + 1,
                    self.position() as int,
                    flat_ops(r),
                );
                if let Expr::BinaryOp { op: op2, .. } = left_before {
                    if spec_precedence(op2) == spec_precedence(op_kind) {
                        lemma_same_precedence_same_associativity(op2, op_kind);
                    }
                }
                match next_binop(self) {
                    Some(k) => {
                        if spec_precedence(k) == spec_precedence(op_kind) {
                            lemma_same_precedence_same_associativity(k, op_kind);
                        }
                    },
                    None => {},
                }
            }
            let span = Span { start: l.span().start, end: r.span().end };
            let ghost left_mid = left;
            let ghost kk_prev = kk;
            left = if op_kind == BinOpKind::NullCoalesce {
                Expr::NullCoalesce { left: Box::new(l), right: Box::new(r), span }
            } else {
                Expr::BinaryOp { op: op_kind, left: Box::new(l), right: Box::new(r), span }
            };
            proof {
                if is_simple_chain(toks0, bytes0, q0) {
                    let q2 = pos_after(toks0, q0, 2 * (kk + 1));
                    let t = chain_term(toks0, bytes0, q0, kk)->0;
                    let j = choose|j: nat| #[trigger]
                        chain_read(toks0, bytes0, q2, j, t, r, self.position());
                    lemma_chain_step(
                        toks0,
                        bytes0,
                        q0,
                        kk,
                        j,
                        left0,
                        left_mid,
                        op_kind,
                        r,
                        left,
                        it.position(),
                        self.position(),
                    );
                    kk = kk + 1 + j;
                }
            }
            last_non_assoc = if non_assoc {
                Some(prec)
            } else {
                None
            };
            proof {
                if chain_valid(toks0, bytes0, q0) && non_assoc {
                    assert forall|i: nat| kk <= i < chain_len(toks0, bytes0, q0) implies !spec_is_non_associative(
                        (#[trigger] chain_op(toks0, q0, i))->0,
                    ) by {
                        assert(chain_op(toks0, q0, kk_prev) == Some(op_kind));
                    }
                }
            }
        }
        left
    }

    /// `left instanceof Class`, where the class is a name, `self`,
    /// `parent`, `static`, or an expression.
    fn parse_instanceof_from_left(&mut self, left: Expr) -> (r: Expr)
        requires
            old(self).wf(),
            old(self).position() < old(self).toks().len(),
        ensures
            final(self).wf(),
            old(self).advances_to(final(self)),
            r matches Expr::InstanceOf { expr, .. } && *expr == left,
            ({
                let toks = old(self).toks();
                let c = following_token(old(self));
                let after = token_at(toks, next_position(toks, next_position(toks, old(self).position()) as nat));
                c.kind == TokenKind::Ident && after.kind != TokenKind::Backslash ==> (r matches Expr::InstanceOf {
                    class,
                    span,
                    ..
                } && class matches ClassNameRef::Qualified(qn) && !qn.absolute && qn.parts@ == seq![
                    crate::ast::Ident { span: c.span },
                ] && qn.span == c.span && span == Span { start: left.spec_span().start, end: c.span.end })
                    && final(self).diags() == old(self).diags() && final(self).position()
                    == next_position(toks, next_position(toks, old(self).position()) as nat)
            }),
        decreases old(self).rem(), 520nat,
    {
        let instanceof_token = self.bump();
        proof {
            self.lemma_cur_token_at();
        }
        let last_end = instanceof_token.span.end;
        let class_ref;
        if self.at(TokenKind::Backslash) || self.at(TokenKind::Ident) {
            match self.parse_qualified_name() {
                Some(qn) => class_ref = ClassNameRef::Qualified(qn),
                None => {
                    let sync = sync_after_instanceof();
                    self.recover_to_any(&sync);
                    let span = Span { start: left.span().start, end: last_end };
                    return Expr::InstanceOf {
                        expr: Box::new(left),
                        class: ClassNameRef::Qualified(
                            QualifiedName { absolute: false, parts: vec![], span },
                        ),
                        span,
                    };
                },
            }
        } else if (self.at(TokenKind::KwSelf) || self.at(TokenKind::KwParent) || self.at(
            TokenKind::KwStatic,
        )) && self.at_nth(1, TokenKind::ColCol) {
            class_ref = self.parse_instanceof_dynamic_class_ref();
        } else if self.at(TokenKind::KwSelf) {
            let token = self.bump();
            class_ref = ClassNameRef::Special(SpecialClassName::SelfType(token.span));
        } else if self.at(TokenKind::KwParent) {
            let token = self.bump();
            class_ref = ClassNameRef::Special(SpecialClassName::ParentType(token.span));
        } else if self.at(TokenKind::KwStatic) {
            let token = self.bump();
            class_ref = ClassNameRef::Special(SpecialClassName::StaticType(token.span));
        } else {
            match self.parse_prefix_term() {
                Some(expr) => {
                    let base = match self.parse_postfix_chain(expr) {
                        Some(b) => b,
                        None => Expr::Error { span: Span::at(last_end) },
                    };
                    class_ref = ClassNameRef::Dynamic(Box::new(base));
                },
                None => {
                    let sync = sync_after_instanceof();
                    self.error_and_recover(
                        Diagnostic::error_from_code(
                            ParseDiagnosticCode::ExpectedIdent,
                            Span::at(last_end),
                        ),
                        &sync,
                    );
                    let span = Span { start: left.span().start, end: last_end };
                    return Expr::InstanceOf {
                        expr: Box::new(left),
                        class: ClassNameRef::Qualified(
                            QualifiedName { absolute: false, parts: vec![], span },
                        ),
                        span,
                    };
                },
            }
        }
        let class_span = match &class_ref {
            ClassNameRef::Qualified(qn) => qn.span,
            ClassNameRef::Special(special) => special.span(),
            ClassNameRef::Dynamic(expr) => expr.span(),
        };
        let span = Span { start: left.span().start, end: class_span.end };
        Expr::InstanceOf { expr: Box::new(left), class: class_ref, span }
    }

    /// Consumes the operator `op_kind` and parses its right operand: `Ok`
    /// with both operands, or `Err` with the node to stop at when the right
    /// operand is missing.
    #[verifier::spinoff_prover]
    #[verifier::rlimit(40)]
    fn bump_binop_and_parse_right(&mut self, left: Expr, op_kind: BinOpKind) -> (r: Result<
        (Expr, Expr),
        Expr,
    >)
        requires
            old(self).wf(),
            old(self).position() < old(self).toks().len(),
            spec_precedence(op_kind) <= 100,
        ensures
            final(self).wf(),
            old(self).advances_to(final(self)),
            r matches Ok(v) ==> v.0 == left && spec_below_conditional(v.1),
            r matches Ok(v) ==> ops_read(
                old(self).toks(),
                old(self).position() as int + 1,
                final(self).position() as int,
                flat_ops(v.1),
            ),
            r matches Err(e) ==> spec_below_conditional(e),
            r matches Err(e) ==> flat_ops(e) == flat_ops(left) + seq![op_kind],
            chain_valid(old(self).toks(), old(self).src_bytes(), old(self).position()) && chain_len(
                old(self).toks(),
                old(self).src_bytes(),
                old(self).position(),
            ) > 0 && chain_op(old(self).toks(), old(self).position(), 0) == Some(op_kind)
                ==> final(self).diags() == old(self).diags(),
            is_simple_chain(old(self).toks(), old(self).src_bytes(), old(self).position()) && chain_len(
                old(self).toks(),
                old(self).src_bytes(),
                old(self).position(),
            ) > 0 && chain_op(old(self).toks(), old(self).position(), 0) == Some(op_kind) ==> r is Ok
                && exists|k: nat|
                #[trigger] chain_read(
                    old(self).toks(),
                    old(self).src_bytes(),
                    pos_after(old(self).toks(), old(self).position(), 2),
                    k,
                    chain_term(old(self).toks(), old(self).src_bytes(), old(self).position(), 0)->0,
                    r->Ok_0.1,
                    final(self).position(),
                ),
            final(self).diags().len() == old(self).diags().len() ==> (r matches Ok(v) && grouped(
                v.1,
            ) && right_operand_ok(op_kind, v.1) && next_bound(final(self), op_kind)),
        decreases old(self).rem(), 520nat,
    {
        let op_token = self.bump();
        proof {
            Self::lemma_advances_moves(old(self), self);
        }
        let ghost after_op = *self;
        proof {
            let toks = old(self).toks();
            let q = old(self).position();
            after_op.lemma_cur_token_at();
            Self::lemma_same_source_bytes(old(self), &after_op);
            lemma_pos_after_one(toks, q);
            lemma_pos_after_one(toks, pos_after(toks, q, 1));
            lemma_pos_after_add(toks, q, 1, 1);
            if is_simple_chain(toks, old(self).src_bytes(), q) && chain_len(toks, old(self).src_bytes(), q) > 0
                && chain_op(toks, q, 0) == Some(op_kind) {
                let n = chain_len(toks, old(self).src_bytes(), q);
                assert(simple_chain(toks, old(self).src_bytes(), q, n));
                assert(chain_term(toks, old(self).src_bytes(), q, 0) is Some);
                if n > 1 {
                    assert(chain_op(toks, q, 1) is Some);
                    lemma_binop_not_postfix(token_at(toks, pos_after(toks, q, 2) as int).kind);
                }
                lemma_chain_suffix(toks, old(self).src_bytes(), q, 1);
                if chain_valid(toks, old(self).src_bytes(), q) {
                    assert(chain_term_clean(toks, old(self).src_bytes(), q, 0));
                    lemma_chain_valid_suffix(toks, old(self).src_bytes(), q, 1);
                }
                assert(after_op.position() == pos_after(toks, q, 1));
                assert(single_token_term(&after_op) == chain_term(toks, old(self).src_bytes(), q, 0));
                assert(following_token(&after_op) == token_at(toks, pos_after(toks, q, 2) as int));
            }
        }
        let right = match self.parse_prefix_term() {
            Some(expr) => expr,
            None => {
                let err_span = Span::at(op_token.span.end);
                let sync = sync_after_operator();
                self.error_and_recover(
                    Diagnostic::error_from_code(ParseDiagnosticCode::ExpectedExpression, err_span),
                    &sync,
                );
                let span = Span { start: left.span().start, end: op_token.span.end };
                proof {
                    assert(flat_ops(Expr::Error { span: err_span }) == Seq::<BinOpKind>::empty());
                    assert(flat_ops(left) + seq![op_kind] + Seq::<BinOpKind>::empty() =~= flat_ops(
                        left,
                    ) + seq![op_kind]);
                }
                return Err(
                    Expr::BinaryOp {
                        op: op_kind,
                        left: Box::new(left),
                        right: Box::new(Expr::Error { span: err_span }),
                        span,
                    },
                );
            },
        };
        let prec = precedence_of(op_kind);
        let ghost before_rest = *self;
        proof {
            Self::lemma_same_source_bytes(old(self), &before_rest);
            lemma_right_operand_min_free(op_kind);
            let toks = old(self).toks();
            let q = old(self).position();
            if is_simple_chain(toks, old(self).src_bytes(), q) && chain_len(toks, old(self).src_bytes(), q) > 0
                && chain_op(toks, q, 0) == Some(op_kind) {
                assert(after_op.position() == pos_after(toks, q, 1));
                assert(single_token_term(&after_op) == chain_term(toks, old(self).src_bytes(), q, 0));
                assert(following_token(&after_op) == token_at(toks, pos_after(toks, q, 2) as int));
                assert(before_rest.position() == pos_after(toks, q, 2));
                assert(right == chain_term(toks, old(self).src_bytes(), q, 0)->0);
                assert(is_simple_chain(toks, before_rest.src_bytes(), before_rest.position()));
            }
        }
        let ghost right0 = right;
        let right = self.maybe_recurse_higher_prec(right, prec, is_right_associative(op_kind));
        proof {
            let toks = old(self).toks();
            let q = old(self).position();
            let bytes = old(self).src_bytes();
            if is_simple_chain(toks, bytes, q) && chain_len(toks, bytes, q) > 0 && chain_op(toks, q, 0)
                == Some(op_kind) {
                let k = choose|k: nat| #[trigger]
                    chain_read(
                        before_rest.toks(),
                        before_rest.src_bytes(),
                        before_rest.position(),
                        k,
                        right0,
                        right,
                        self.position(),
                    );
                assert(chain_read(
                    toks,
                    bytes,
                    pos_after(toks, q, 2),
                    k,
                    chain_term(toks, bytes, q, 0)->0,
                    right,
                    self.position(),
                ));
                assert(exists|k2: nat|
                    #[trigger] chain_read(
                        toks,
                        bytes,
                        pos_after(toks, q, 2),
                        k2,
                        chain_term(toks, bytes, q, 0)->0,
                        right,
                        self.position(),
                    ));
            }
            lemma_ops_read_widen(
                self.toks(),
                before_rest.position() as int,
                self.position() as int,
                old(self).position() as int + 1,
                self.position() as int,
                flat_ops(right),
            );
        }
        let ghost right_g = right;
        let res: Result<(Expr, Expr), Expr> = Ok((left, right));
        proof {
            assert(res->Ok_0.1 == right_g);
            assert(is_simple_chain(old(self).toks(), old(self).src_bytes(), old(self).position())
                && chain_len(old(self).toks(), old(self).src_bytes(), old(self).position()) > 0
                && chain_op(old(self).toks(), old(self).position(), 0) == Some(op_kind) ==> exists|k: nat|
                #[trigger] chain_read(
                    old(self).toks(),
                    old(self).src_bytes(),
                    pos_after(old(self).toks(), old(self).position(), 2),
                    k,
                    chain_term(old(self).toks(), old(self).src_bytes(), old(self).position(), 0)->0,
                    right_g,
                    self.position(),
                ));
            assert(is_simple_chain(old(self).toks(), old(self).src_bytes(), old(self).position())
                && chain_len(old(self).toks(), old(self).src_bytes(), old(self).position()) > 0
                && chain_op(old(self).toks(), old(self).position(), 0) == Some(op_kind) ==> res is Ok
                && exists|k: nat|
                #[trigger] chain_read(
                    old(self).toks(),
                    old(self).src_bytes(),
                    pos_after(old(self).toks(), old(self).position(), 2),
                    k,
                    chain_term(old(self).toks(), old(self).src_bytes(), old(self).position(), 0)->0,
                    res->Ok_0.1,
                    self.position(),
                ));
        }
        res
    }

    /// Extends the right operand `right` of an operator of precedence `prec`
    /// with the operators that bind tighter (or, for a right-associative
    /// operator, as tightly).
    fn maybe_recurse_higher_prec(&mut self, right: Expr, prec: u8, right_assoc: bool) -> (r: Expr)
        requires
            old(self).wf(),
            prec <= 100,
            spec_is_operand(right),
        ensures
            final(self).wf(),
            old(self).evolves_to(final(self)),
            spec_below_conditional(r),
            ops_read(
                old(self).toks(),
                old(self).position() as int,
                final(self).position() as int,
                flat_ops(r),
            ),
            is_simple_chain(old(self).toks(), old(self).src_bytes(), old(self).position()) ==> exists|
                k: nat,
            |
                #[trigger] chain_read(
                    old(self).toks(),
                    old(self).src_bytes(),
                    old(self).position(),
                    k,
                    right,
                    r,
                    final(self).position(),
                ),
            chain_valid(old(self).toks(), old(self).src_bytes(), old(self).position())
                && min_prec_free(
                if right_assoc {
                    prec as int
                } else {
                    prec + 1
                },
            ) ==> final(self).diags() == old(self).diags(),
            final(self).diags().len() == old(self).diags().len() ==> grouped(r) && (binds(r)
                > prec || (binds(r) == prec && right_assoc)) && match next_binop(final(self)) {
                Some(k) => if right_assoc {
                    spec_precedence(k) < prec
                } else {
                    spec_precedence(k) <= prec
                },
                None => true,
            },
        decreases old(self).rem(), 540nat,
    {
        if self.higher_prec_follows(prec, right_assoc) {
            self.parse_binop_prec_from_left(
                right,
                if right_assoc {
                    prec
                } else {
                    prec + 1
                },
            )
        } else {
            proof {
                lemma_ops_read_none(self.toks(), self.position() as int, self.position() as int);
                let toks = self.toks();
                let bytes = self.src_bytes();
                let q = self.position();
                if is_simple_chain(toks, bytes, q) {
                    assert(flat_ops(right) + chain_ops(toks, bytes, q).take(0) =~= flat_ops(right));
                    assert(flat_leaves(right) + chain_terms(toks, bytes, q).take(0) =~= flat_leaves(
                        right,
                    ));
                    assert(chain_read(toks, bytes, q, 0, right, right, q));
                }
            }
            right
        }
    }

    /// The binary operator at the cursor, if any.
    fn peek_binop(&self) -> (r: Option<BinOpKind>)
        requires
            self.wf(),
        ensures
            r == spec_token_to_binop(nth_kind_from(self.toks(), self.position() as int, 0)),
            r is Some ==> self.position() < self.toks().len(),
    {
        let k = self.nth_kind(0);
        proof {
            if spec_token_to_binop(k) is Some {
                lemma_nth_kind_in_range(self.toks(), self.position() as int, 0);
            }
        }
        token_to_binop(&k)
    }

    /// Whether the operator at the cursor binds tighter than `cur_prec` (or
    /// as tightly, when `right_assoc`).
    fn higher_prec_follows(&self, cur_prec: u8, right_assoc: bool) -> (b: bool)
        requires
            self.wf(),
        ensures
            b == match next_binop(self) {
                Some(k) => if right_assoc {
                    spec_precedence(k) >= cur_prec
                } else {
                    spec_precedence(k) > cur_prec
                },
                None => false,
            },
    {
        match self.peek_binop() {
            Some(k) => {
                let next_prec = precedence_of(k);
                if right_assoc {
                    next_prec >= cur_prec
                } else {
                    next_prec > cur_prec
                }
            },
            None => false,
        }
    }

    /// The class of `instanceof self::...` and the like: an expression.
    fn parse_instanceof_dynamic_class_ref(&mut self) -> (r: ClassNameRef)
        requires
            old(self).wf(),
        ensures
            final(self).wf(),
            old(self).evolves_to(final(self)),
            r matches ClassNameRef::Qualified(qn) ==> !qn.absolute && qn.parts@.len() == 0 && qn.span
                == Span::at_spec(old(self).cur_token().span.start) && final(self).last_error_is(
                ParseDiagnosticCode::ExpectedExpression,
                Span::at_spec(old(self).cur_token().span.start),
            ),
            single_token_term(old(self)) is Some && !spec_starts_postfix(
                following_token(old(self)).kind,
            ) ==> (r matches ClassNameRef::Dynamic(b) && *b == single_token_term(old(self))->0),
        decreases old(self).rem(), 545nat,
    {
        let start_pos = self.current_span().start;
        match self.parse_prefix_term() {
            Some(expr) => {
                proof {
                    self.lemma_cur_token_at();
                }
                let base = match self.parse_postfix_chain(expr) {
                    Some(b) => b,
                    None => Expr::Error { span: Span::at(start_pos) },
                };
                ClassNameRef::Dynamic(Box::new(base))
            },
            None => {
                self.error(
                    Diagnostic::error_from_code(
                        ParseDiagnosticCode::ExpectedExpression,
                        Span::at(start_pos),
                    ),
                );
                ClassNameRef::Qualified(
                    QualifiedName { absolute: false, parts: vec![], span: Span::at(start_pos) },
                )
            },
        }
    }
}

} // verus!
