//! The parser state and the token-level operations that every grammar rule
//! is built from.
use crate::ast::{Expr, Ident, Script, Stmt};
use crate::config::{LanguageKind, PhynixConfig, Strictness};
use crate::diagnostics::{spec_default_message, Diagnostic, ParseDiagnosticCode, Severity};
use crate::span::Span;
use crate::parser::expr::binop::{
    chain_len, chain_valid, expr_chain_alone, expr_chain_end, expr_chain_valid, expr_chain_whole,
    flat_ops, is_simple_chain, ops_read, pos_after, spec_token_to_binop,
};
use crate::parser::expr::{spec_compound_assign_op, token_term, token_term_clean};
use crate::parser::expr::{single_token_term, term_alone};
use crate::parser::stmt::{is_stmt_keyword, spec_is_visibility_kw, stmt_expr_grouped, stmt_of_keyword};
use crate::parser::stmt::echo::{echo_next, echo_ok};
use crate::token::{spec_is_trivia, Token, TokenKind};
use vstd::prelude::*;
use vstd::string::StringSliceAdditionalSpecFns;
use vstd::utf8::is_char_boundary;

pub mod expr;
mod name;
pub mod stmt;
mod util;

verus! {

/// The first position at or after `i` that does not hold a trivia token
/// (or the end of the stream).
pub open spec fn skip_trivia_from(toks: Seq<Token>, i: int) -> int
    decreases toks.len() - i,
{
    if 0 <= i < toks.len() && spec_is_trivia(toks[i].kind) {
        skip_trivia_from(toks, i + 1)
    } else {
        i
    }
}

/// The kind of the `n`-th non-trivia token at or after position `i`, or
/// `Eof` when the stream holds fewer.
pub open spec fn nth_kind_from(toks: Seq<Token>, i: int, n: nat) -> TokenKind
    decreases toks.len() - i,
{
    if i < 0 || i >= toks.len() {
        TokenKind::Eof
    } else if spec_is_trivia(toks[i].kind) {
        nth_kind_from(toks, i + 1, n)
    } else if n == 0 {
        toks[i].kind
    } else {
        nth_kind_from(toks, i + 1, (n - 1) as nat)
    }
}

/// A kind other than `Eof` is only found inside the stream.
pub proof fn lemma_nth_kind_in_range(toks: Seq<Token>, i: int, n: nat)
    requires
        0 <= i,
        nth_kind_from(toks, i, n) != TokenKind::Eof,
    ensures
        i < toks.len(),
{
}

pub proof fn lemma_skip_trivia_bounds(toks: Seq<Token>, i: int)
    requires
        0 <= i,
    ensures
        i <= skip_trivia_from(toks, i),
        i <= toks.len() ==> skip_trivia_from(toks, i) <= toks.len(),
        skip_trivia_from(toks, i) < toks.len() ==> !spec_is_trivia(
            toks[skip_trivia_from(toks, i)].kind,
        ),
        i >= toks.len() ==> skip_trivia_from(toks, i) == i,
    decreases toks.len() - i,
{
    if 0 <= i < toks.len() && spec_is_trivia(toks[i].kind) {
        lemma_skip_trivia_bounds(toks, i + 1);
    }
}

/// Where the cursor at `p` goes when the current token is consumed: past
/// it, then past any trivia.
pub open spec fn next_position(toks: Seq<Token>, p: nat) -> int {
    skip_trivia_from(
        toks,
        if p < toks.len() {
            (p + 1) as int
        } else {
            p as int
        },
    )
}

/// Where the statements of a script begin: after the opening tag that a
/// template starts with, or at once in a code file.
pub open spec fn body_start(p: &Parser) -> int {
    if p.config().language != LanguageKind::PhxCode && (p.cur_kind() == TokenKind::PhpOpen
        || p.cur_kind() == TokenKind::EchoOpen) {
        next_position(p.toks(), p.position())
    } else {
        p.position() as int
    }
}

/// What `parse_stmt` makes known of a statement `s` that it read with the
/// parser in the state `p`.
pub open spec fn stmt_read(p: Parser, s: Stmt) -> bool {
    &&& p.cur_kind() != TokenKind::RBrace
    &&& !spec_is_visibility_kw(p.cur_kind())
    &&& p.cur_kind() == TokenKind::HtmlChunk ==> s == (Stmt::HtmlChunk { span: p.cur_token().span })
    &&& p.cur_kind() == TokenKind::Semicolon ==> s == (Stmt::Noop { span: p.cur_token().span })
    &&& is_stmt_keyword(p.cur_kind()) ==> stmt_of_keyword(p.cur_kind(), s) && s.spec_span().start
        == p.cur_token().span.start
    &&& term_alone(&p) && following_token(&p).kind == TokenKind::Semicolon ==> s == (
    Stmt::ExprStmt {
        expr: single_token_term(&p)->0,
        span: Span { start: p.cur_token().span.start, end: following_token(&p).span.end },
    })
}

/// A statement surely starts at position `q` of `toks`: a statement
/// keyword, `;`, or an integer or variable followed by `;`.
pub open spec fn surely_stmt_at(toks: Seq<Token>, q: int) -> bool {
    let k0 = token_at(toks, q).kind;
    let k1 = token_at(toks, next_position(toks, q as nat)).kind;
    ||| is_stmt_keyword(k0)
    ||| k0 == TokenKind::Semicolon
    ||| (k0 == TokenKind::Int || k0 == TokenKind::VarIdent) && k1 == TokenKind::Semicolon
}

/// `s` is what `parse_stmt` makes known of a statement read from a state
/// of the parse `p` at position `q`.
pub open spec fn stmt_read_at(p: &Parser, q: int, s: Stmt) -> bool {
    exists|st: Parser|
        #[trigger] stmt_read(st, s) && st.wf() && st.toks() == p.toks() && st.source() == p.source()
            && st.position() == q
}

/// An integer or a variable, then pairs of a binary operator and an
/// integer or variable, stand at position `q` of `toks`, and the token
/// after them is no `?` and no assignment operator: `1 + 2 * 3;`.
pub open spec fn chain_stmt_at(toks: Seq<Token>, bytes: Seq<u8>, q: int) -> bool {
    let q1 = next_position(toks, q as nat) as nat;
    let k = token_at(toks, pos_after(toks, q1, 2 * chain_len(toks, bytes, q1)) as int).kind;
    &&& token_term(token_at(toks, q), bytes) is Some
    &&& is_simple_chain(toks, bytes, q1)
    &&& k != TokenKind::Question
    &&& k != TokenKind::Eq
    &&& k != TokenKind::NullCoalesceAssign
    &&& spec_compound_assign_op(k) is None
}

/// A well-formed operator-chain statement stands at position `q`: an
/// integer or variable, pairs of an operator and an integer or variable
/// with at most one comparison, every integer in range, and then `;`.
pub open spec fn chain_stmt_ok(toks: Seq<Token>, bytes: Seq<u8>, q: nat) -> bool {
    let q1 = next_position(toks, q) as nat;
    let end = pos_after(toks, q1, 2 * chain_len(toks, bytes, q1));
    &&& token_term(token_at(toks, q as int), bytes) is Some
    &&& token_term_clean(token_at(toks, q as int), bytes)
    &&& chain_valid(toks, bytes, q1)
    &&& token_at(toks, end as int).kind == TokenKind::Semicolon
}

/// The position after the `;` of the operator-chain statement at `q`.
pub open spec fn chain_stmt_next(toks: Seq<Token>, bytes: Seq<u8>, q: nat) -> int {
    let q1 = next_position(toks, q) as nat;
    next_position(toks, pos_after(toks, q1, 2 * chain_len(toks, bytes, q1)))
}

/// The position of the `:` of the conditional of terms at `q`.
pub open spec fn ternary_colon_at(toks: Seq<Token>, q: nat) -> nat {
    let q2 = next_position(toks, next_position(toks, q) as nat) as nat;
    if token_at(toks, q2 as int).kind == TokenKind::Colon {
        q2
    } else {
        next_position(toks, q2) as nat
    }
}

/// The position of the `;` after the conditional of terms at `q`.
pub open spec fn ternary_semi_at(toks: Seq<Token>, q: nat) -> int {
    next_position(toks, next_position(toks, ternary_colon_at(toks, q)) as nat)
}

/// A well-formed conditional statement of terms stands at position `q`:
/// `$a ? 1 : 2;` or `$a ?: 2;`, every integer in range.
pub open spec fn ternary_stmt_ok(toks: Seq<Token>, bytes: Seq<u8>, q: nat) -> bool {
    let q2 = next_position(toks, next_position(toks, q) as nat);
    let qe = next_position(toks, ternary_colon_at(toks, q));
    let t = token_at(toks, q as int);
    &&& token_term(t, bytes) is Some && token_term_clean(t, bytes)
    &&& token_at(toks, next_position(toks, q)).kind == TokenKind::Question
    &&& (token_at(toks, q2).kind == TokenKind::Colon || (token_term(token_at(toks, q2), bytes) is Some
        && token_term_clean(token_at(toks, q2), bytes) && token_at(
        toks,
        ternary_colon_at(toks, q) as int,
    ).kind == TokenKind::Colon))
    &&& token_term(token_at(toks, qe), bytes) is Some && token_term_clean(token_at(toks, qe), bytes)
    &&& token_at(toks, ternary_semi_at(toks, q)).kind == TokenKind::Semicolon
}

/// From position `q` to the end of the input stand only well-formed
/// operator-chain statements, conditionals of terms and `echo` statements
/// of terms, with inline HTML and open and close tags between them:
/// `1 + 2 * 3; $a ** $b; $c ? 1 : 2; echo 1, $x ?>`.
pub open spec fn chain_script(toks: Seq<Token>, bytes: Seq<u8>, q: nat) -> bool
    decreases toks.len() - q,
{
    if q >= toks.len() {
        false
    } else if token_at(toks, q as int).kind == TokenKind::Eof {
        true
    } else if token_at(toks, q as int).kind == TokenKind::PhpClose || token_at(toks, q as int).kind
        == TokenKind::PhpOpen || token_at(toks, q as int).kind == TokenKind::HtmlChunk {
        let q2 = next_position(toks, q);
        if q < q2 && q2 <= toks.len() {
            chain_script(toks, bytes, q2 as nat)
        } else {
            false
        }
    } else if chain_stmt_ok(toks, bytes, q) {
        let q2 = chain_stmt_next(toks, bytes, q);
        if q < q2 && q2 <= toks.len() {
            chain_script(toks, bytes, q2 as nat)
        } else {
            false
        }
    } else if ternary_stmt_ok(toks, bytes, q) {
        let q2 = next_position(toks, ternary_semi_at(toks, q) as nat);
        if q < q2 && q2 <= toks.len() {
            chain_script(toks, bytes, q2 as nat)
        } else {
            false
        }
    } else if echo_ok(toks, bytes, q) {
        let q2 = echo_next(toks, bytes, q);
        if q < q2 && q2 <= toks.len() {
            chain_script(toks, bytes, q2 as nat)
        } else {
            false
        }
    } else {
        false
    }
}

/// The statements `items` were read, one each and in order, by
/// `parse_stmt` from the states `states` of the parse that began as `p`,
/// all after its opening tag: the `i`-th from the tokens between the
/// position of `states[i]` and `ends[i]`, with `dends[i]` diagnostics
/// reported by its end; the operators of an expression statement are
/// tokens read there, in order, and an operator chain read without a
/// diagnostic is the whole chain.
pub open spec fn script_reads(
    p: &Parser,
    states: Seq<Parser>,
    ends: Seq<int>,
    dends: Seq<nat>,
    items: Seq<Stmt>,
) -> bool {
    &&& states.len() == items.len()
    &&& ends.len() == items.len()
    &&& dends.len() == items.len()
    &&& forall|i: int|
        0 <= i < states.len() ==> {
            &&& (#[trigger] states[i]).wf()
            &&& states[i].toks() == p.toks()
            &&& states[i].source() == p.source()
            &&& body_start(p) <= states[i].position() < ends[i]
            &&& stmt_read(states[i], items[i])
            &&& items[i] matches Stmt::ExprStmt { expr, .. } ==> ops_read(
                p.toks(),
                states[i].position() as int,
                ends[i],
                flat_ops(expr),
            )
            &&& p.diags().len() <= states[i].diags().len() <= dends[i]
            &&& expr_chain_alone(&states[i]) && dends[i] == states[i].diags().len() ==> (
            items[i] matches Stmt::ExprStmt { expr, .. } && expr_chain_whole(
                &states[i],
                expr,
                expr_chain_end(&states[i]),
            ))
        }
    &&& forall|i: int, j: int|
        0 <= i < j < states.len() ==> ends[i] <= states[j].position() && dends[i]
            <= states[j].diags().len()
}

/// The token at index `p` of `toks`; past the end, the last one.
pub open spec fn token_at(toks: Seq<Token>, p: int) -> Token {
    if 0 <= p < toks.len() {
        toks[p]
    } else {
        toks[toks.len() - 1]
    }
}

/// The token after the current one of `p`: the current token once it is
/// consumed.
pub open spec fn following_token(p: &Parser) -> Token {
    token_at(p.toks(), next_position(p.toks(), p.position()))
}

/// `name` is the name read after the keyword at the cursor of `p`, with
/// `q` the state after it: the following token when that is a name;
/// otherwise an empty name just after the keyword, which `q` reports as
/// missing in the first diagnostic after those of `p`.
pub open spec fn name_after_keyword(p: &Parser, q: &Parser, name: Ident) -> bool {
    let t = following_token(p);
    if t.kind == TokenKind::Ident || spec_is_ident_like_kw(t.kind) {
        name.span == t.span
    } else {
        &&& name.span == Span::at_spec(p.cur_token().span.end)
        &&& q.diags().len() > p.diags().len()
        &&& q.diags()[p.diags().len() as int].code == ParseDiagnosticCode::ExpectedIdent
        &&& q.diags()[p.diags().len() as int].span == Span::at_spec(p.cur_token().span.end)
    }
}

/// Like `name_after_keyword`, where a missing name is reported at the
/// token found in its place, with the message `msg`.
pub open spec fn name_after_keyword_msg(p: &Parser, q: &Parser, name: Ident, msg: Seq<char>) -> bool {
    let t = following_token(p);
    if t.kind == TokenKind::Ident || spec_is_ident_like_kw(t.kind) {
        name.span == t.span
    } else {
        &&& name.span == Span::at_spec(p.cur_token().span.end)
        &&& q.diags().len() > p.diags().len()
        &&& q.diags()[p.diags().len() as int].code == ParseDiagnosticCode::UnexpectedToken
        &&& q.diags()[p.diags().len() as int].span == t.span
        &&& q.diags()[p.diags().len() as int].message@ == msg
    }
}

/// The index of the last non-trivia token before index `i` of `toks`, if
/// any.
pub open spec fn last_non_trivia_before(toks: Seq<Token>, i: int) -> Option<int>
    decreases i,
{
    if i <= 0 {
        None
    } else if !spec_is_trivia(toks[i - 1].kind) {
        Some(i - 1)
    } else {
        last_non_trivia_before(toks, i - 1)
    }
}

/// Every token skipped from `i` on is trivia.
pub proof fn lemma_skip_trivia_skips(toks: Seq<Token>, i: int, j: int)
    requires
        0 <= i <= j < skip_trivia_from(toks, i),
    ensures
        spec_is_trivia(toks[j].kind),
    decreases toks.len() - i,
{
    if j > i {
        lemma_skip_trivia_skips(toks, i + 1, j);
    }
}

/// The tokens of `toks` from `from` up to `to` are each trivia or a token
/// other than the end of input whose kind is not in `sync`.
pub open spec fn skipped_outside(toks: Seq<Token>, from: int, to: int, sync: Seq<TokenKind>) -> bool {
    forall|i: int|
        from <= i < to ==> spec_is_trivia(#[trigger] toks[i].kind) || (toks[i].kind
            != TokenKind::Eof && !sync.contains(toks[i].kind))
}

/// The byte `b` with ASCII capitals made lowercase.
pub open spec fn ascii_lower(b: u8) -> u8 {
    if 65 <= b <= 90 {
        (b + 32) as u8
    } else {
        b
    }
}

/// The bytes `s`, each made lowercase as `ascii_lower` does.
pub open spec fn ascii_lower_seq(s: Seq<u8>) -> Seq<u8> {
    Seq::new(s.len(), |i: int| ascii_lower(s[i]))
}

fn to_ascii_lower(b: u8) -> (r: u8)
    ensures
        r == ascii_lower(b),
{
    if 65 <= b && b <= 90 {
        b + 32
    } else {
        b
    }
}

/// The bytes `start..end` of `s`.
#[verifier::external_body]
fn str_range(s: &str, start: usize, end: usize) -> (r: &str)
    requires
        is_char_boundary(s.spec_bytes(), start as int),
        is_char_boundary(s.spec_bytes(), end as int),
        start <= end <= s.spec_bytes().len(),
    ensures
        r.spec_bytes() == s.spec_bytes().subrange(start as int, end as int),
{
    &s[start..end]
}

/// Keywords that may stand where a name is expected.
pub open spec fn spec_is_ident_like_kw(k: TokenKind) -> bool {
    ||| k == TokenKind::KwAbstract
    ||| k == TokenKind::KwAnd
    ||| k == TokenKind::KwArray
    ||| k == TokenKind::KwAs
    ||| k == TokenKind::KwBreak
    ||| k == TokenKind::KwCallable
    ||| k == TokenKind::KwCase
    ||| k == TokenKind::KwCatch
    ||| k == TokenKind::KwClass
    ||| k == TokenKind::KwClone
    ||| k == TokenKind::KwConst
    ||| k == TokenKind::KwContinue
    ||| k == TokenKind::KwDeclare
    ||| k == TokenKind::KwDefault
    ||| k == TokenKind::KwDie
    ||| k == TokenKind::KwDo
    ||| k == TokenKind::KwEcho
    ||| k == TokenKind::KwElse
    ||| k == TokenKind::KwElseIf
    ||| k == TokenKind::KwEmpty
    ||| k == TokenKind::KwEndDeclare
    ||| k == TokenKind::KwEndFor
    ||| k == TokenKind::KwEndForeach
    ||| k == TokenKind::KwEndIf
    ||| k == TokenKind::KwEndSwitch
    ||| k == TokenKind::KwEndWhile
    ||| k == TokenKind::KwEnum
    ||| k == TokenKind::KwEval
    ||| k == TokenKind::KwExit
    ||| k == TokenKind::KwExtends
    ||| k == TokenKind::KwFinal
    ||| k == TokenKind::KwFinally
    ||| k == TokenKind::KwFn
    ||| k == TokenKind::KwFor
    ||| k == TokenKind::KwForeach
    ||| k == TokenKind::KwFrom
    ||| k == TokenKind::KwFunction
    ||| k == TokenKind::KwGlobal
    ||| k == TokenKind::KwGoto
    ||| k == TokenKind::KwIf
    ||| k == TokenKind::KwImplements
    ||| k == TokenKind::KwInclude
    ||| k == TokenKind::KwIncludeOnce
    ||| k == TokenKind::KwInstanceof
    ||| k == TokenKind::KwInsteadof
    ||| k == TokenKind::KwInterface
    ||| k == TokenKind::KwIsset
    ||| k == TokenKind::KwList
    ||| k == TokenKind::KwMatch
    ||| k == TokenKind::KwNamespace
    ||| k == TokenKind::KwNew
    ||| k == TokenKind::KwOr
    ||| k == TokenKind::KwParent
    ||| k == TokenKind::KwPrint
    ||| k == TokenKind::KwPrivate
    ||| k == TokenKind::KwProtected
    ||| k == TokenKind::KwPublic
    ||| k == TokenKind::KwReadonly
    ||| k == TokenKind::KwRequire
    ||| k == TokenKind::KwRequireOnce
    ||| k == TokenKind::KwReturn
    ||| k == TokenKind::KwSelf
    ||| k == TokenKind::KwStatic
    ||| k == TokenKind::KwSwitch
    ||| k == TokenKind::KwThrow
    ||| k == TokenKind::KwTrait
    ||| k == TokenKind::KwTry
    ||| k == TokenKind::KwUnset
    ||| k == TokenKind::KwUse
    ||| k == TokenKind::KwVar
    ||| k == TokenKind::KwWhile
    ||| k == TokenKind::KwXor
    ||| k == TokenKind::KwYield
}

/// Whether `k` is a keyword that may stand where a name is expected.
pub fn is_ident_like_kw_kind(k: TokenKind) -> (b: bool)
    ensures
        b == spec_is_ident_like_kw(k),
{
    match k {
        TokenKind::KwAbstract
        | TokenKind::KwAnd
        | TokenKind::KwArray
        | TokenKind::KwAs
        | TokenKind::KwBreak
        | TokenKind::KwCallable
        | TokenKind::KwCase
        | TokenKind::KwCatch
        | TokenKind::KwClass
        | TokenKind::KwClone
        | TokenKind::KwConst
        | TokenKind::KwContinue
        | TokenKind::KwDeclare
        | TokenKind::KwDefault
        | TokenKind::KwDie
        | TokenKind::KwDo
        | TokenKind::KwEcho
        | TokenKind::KwElse
        | TokenKind::KwElseIf
        | TokenKind::KwEmpty
        | TokenKind::KwEndDeclare
        | TokenKind::KwEndFor
        | TokenKind::KwEndForeach
        | TokenKind::KwEndIf
        | TokenKind::KwEndSwitch
        | TokenKind::KwEndWhile
        | TokenKind::KwEnum
        | TokenKind::KwEval
        | TokenKind::KwExit
        | TokenKind::KwExtends
        | TokenKind::KwFinal
        | TokenKind::KwFinally
        | TokenKind::KwFn
        | TokenKind::KwFor
        | TokenKind::KwForeach
        | TokenKind::KwFrom
        | TokenKind::KwFunction
        | TokenKind::KwGlobal
        | TokenKind::KwGoto
        | TokenKind::KwIf
        | TokenKind::KwImplements
        | TokenKind::KwInclude
        | TokenKind::KwIncludeOnce
        | TokenKind::KwInstanceof
        | TokenKind::KwInsteadof
        | TokenKind::KwInterface
        | TokenKind::KwIsset
        | TokenKind::KwList
        | TokenKind::KwMatch
        | TokenKind::KwNamespace
        | TokenKind::KwNew
        | TokenKind::KwOr
        | TokenKind::KwParent
        | TokenKind::KwPrint
        | TokenKind::KwPrivate
        | TokenKind::KwProtected
        | TokenKind::KwPublic
        | TokenKind::KwReadonly
        | TokenKind::KwRequire
        | TokenKind::KwRequireOnce
        | TokenKind::KwReturn
        | TokenKind::KwSelf
        | TokenKind::KwStatic
        | TokenKind::KwSwitch
        | TokenKind::KwThrow
        | TokenKind::KwTrait
        | TokenKind::KwTry
        | TokenKind::KwUnset
        | TokenKind::KwUse
        | TokenKind::KwVar
        | TokenKind::KwWhile
        | TokenKind::KwXor
        | TokenKind::KwYield => true,
        _ => false,
    }
}

/// Every token covers a range of the source: `start <= end <= len`.
pub open spec fn spans_within(toks: Seq<Token>, len: nat) -> bool {
    forall|i: int|
        0 <= i < toks.len() ==> #[trigger] toks[i].span.start <= toks[i].span.end && toks[i].span.end
            <= len
}

/// The state of a parse: a cursor into the token stream and the diagnostics
/// reported so far.
pub struct Parser<'src> {
    src: &'src str,
    /// The bytes of `src`.
    bytes: &'src [u8],
    tokens: &'src [Token],
    len: usize,
    pos: usize,
    /// Index of the current token.
    cur: usize,
    diagnostics: Vec<Diagnostic>,
    _config: PhynixConfig,
}

impl<'src> Parser<'src> {
    /// The parser's invariant: the stream ends with `Eof`, the position is
    /// within the stream and never on trivia, and the current token is a
    /// non-trivia token at or after the position.
    pub closed spec fn wf(&self) -> bool {
        &&& self.len == self.tokens@.len()
        &&& self.len > 0
        &&& self.tokens@[self.len - 1].kind == TokenKind::Eof
        &&& self.pos <= self.len
        &&& self.cur < self.len
        &&& self.pos < self.len ==> self.cur == self.pos
        &&& self.pos == self.len ==> self.cur == self.len - 1
        &&& self.pos < self.len ==> !spec_is_trivia(self.tokens@[self.pos as int].kind)
        &&& !spec_is_trivia(self.tokens@[self.cur as int].kind)
        &&& self.bytes@ == self.src.spec_bytes()
        &&& spans_within(self.tokens@, self.bytes@.len())
    }

    /// The token stream.
    pub closed spec fn toks(&self) -> Seq<Token> {
        self.tokens@
    }

    /// The source text.
    pub closed spec fn source(&self) -> Seq<char> {
        self.src@
    }

    /// The bytes of the source text.
    pub closed spec fn src_bytes(&self) -> Seq<u8> {
        self.src.spec_bytes()
    }

    /// The cursor: how many tokens lie behind it.
    pub closed spec fn position(&self) -> nat {
        self.pos as nat
    }

    /// The index of the current token.
    pub closed spec fn cur_index(&self) -> nat {
        self.cur as nat
    }

    /// The current token.
    pub closed spec fn cur_token(&self) -> Token {
        self.tokens@[self.cur as int]
    }

    /// The kind of the current token.
    pub open spec fn cur_kind(&self) -> TokenKind {
        self.cur_token().kind
    }

    /// The diagnostics reported so far.
    pub closed spec fn diags(&self) -> Seq<Diagnostic> {
        self.diagnostics@
    }

    /// The settings of the parse.
    pub closed spec fn config(&self) -> PhynixConfig {
        self._config
    }

    /// How many tokens remain ahead of the cursor.
    pub closed spec fn rem(&self) -> nat {
        (self.len - self.pos) as nat
    }

    /// `new` is a later state of the same parse: same input, the cursor has
    /// not moved back, and diagnostics were only appended.
    pub open spec fn evolves_to(&self, new: &Self) -> bool {
        &&& new.toks() == self.toks()
        &&& new.source() == self.source()
        &&& new.config() == self.config()
        &&& self.position() <= new.position()
        &&& new.rem() <= self.rem()
        &&& self.diags().len() <= new.diags().len()
        &&& forall|i: int|
            0 <= i < self.diags().len() ==> #[trigger] new.diags()[i] == self.diags()[i]
    }

    /// Like `evolves_to`, and the cursor moved forward.
    pub open spec fn advances_to(&self, new: &Self) -> bool {
        &&& self.evolves_to(new)
        &&& new.rem() < self.rem()
    }

    /// `new` differs from `self` only by the position of the cursor.
    pub open spec fn same_but_cursor(&self, new: &Self) -> bool {
        &&& new.toks() == self.toks()
        &&& new.source() == self.source()
        &&& new.config() == self.config()
        &&& new.diags() == self.diags()
    }

    pub proof fn lemma_evolves_trans(a: &Self, b: &Self, c: &Self)
        requires
            a.evolves_to(b),
            b.evolves_to(c),
        ensures
            a.evolves_to(c),
    {
        assert forall|i: int| 0 <= i < a.diags().len() implies #[trigger] c.diags()[i]
            == a.diags()[i] by {
            assert(c.diags()[i] == b.diags()[i]);
        }
    }

    /// When the current token is not `Eof`, the cursor is before the last
    /// token.
    pub proof fn lemma_not_eof_room(&self)
        requires
            self.wf(),
            self.cur_kind() != TokenKind::Eof,
        ensures
            self.position() + 1 < self.toks().len(),
            self.rem() >= 2,
            self.toks().len() <= usize::MAX,
    {
    }

    /// The kind of the first token at or after the cursor is that of the
    /// current token.
    pub proof fn lemma_next_kind_is_cur(&self)
        requires
            self.wf(),
        ensures
            nth_kind_from(self.toks(), self.position() as int, 0) == self.cur_kind(),
    {
    }

    /// The current token is the token at the cursor.
    pub proof fn lemma_cur_token_at(&self)
        requires
            self.wf(),
        ensures
            self.cur_token() == token_at(self.toks(), self.position() as int),
    {
    }

    /// Two states with the same source text have the same source bytes.
    pub proof fn lemma_same_source_bytes(a: &Self, b: &Self)
        requires
            a.source() == b.source(),
        ensures
            a.src_bytes() == b.src_bytes(),
    {
    }

    /// The current token is one of the stream's tokens.
    pub proof fn lemma_cur_token_in_toks(&self)
        requires
            self.wf(),
        ensures
            0 <= self.cur_index() < self.toks().len(),
            self.cur_token() == self.toks()[self.cur_index() as int],
    {
    }

    /// A later state whose cursor is further on has advanced.
    pub proof fn lemma_progress(a: &Self, b: &Self)
        requires
            a.wf(),
            b.wf(),
            a.evolves_to(b),
            a.position() < b.position(),
        ensures
            a.advances_to(b),
    {
    }

    /// A later state that has advanced has its cursor further on.
    pub proof fn lemma_advances_moves(a: &Self, b: &Self)
        requires
            a.wf(),
            b.wf(),
            a.advances_to(b),
        ensures
            a.position() < b.position(),
    {
    }

    /// The cursor, as `position` gives it.
    pub fn cursor(&self) -> (p: usize)
        ensures
            p == self.position(),
    {
        self.pos
    }

    /// Parses the whole token stream into a script: the top-level
    /// statements, with inline HTML and open and close tags stepped over.
    /// A token where no statement starts is reported and skipped. Returns
    /// the script and every diagnostic reported, those reported before the
    /// call first.
    #[verifier::spinoff_prover]
    #[verifier::rlimit(80)]
    pub fn parse_script(self) -> (r: (Script, Vec<Diagnostic>))
        requires
            self.wf(),
        ensures
            self.diags().len() <= r.1@.len(),
            forall|i: int| 0 <= i < self.diags().len() ==> #[trigger] r.1@[i] == self.diags()[i],
            r.1@.len() == self.diags().len() ==> forall|i: int|
                0 <= i < r.0.items@.len() ==> stmt_expr_grouped(#[trigger] r.0.items@[i]),
            chain_script(self.toks(), self.src_bytes(), body_start(&self) as nat) ==> r.1@
                == self.diags(),
            r.0.span.start == token_at(self.toks(), body_start(&self)).span.start,
            r.0.items@.len() == 0 ==> r.0.span.end == token_at(
                self.toks(),
                body_start(&self),
            ).span.end,
            r.0.items@.len() > 0 ==> r.0.span.end == r.0.items@.last().spec_span().end,
            exists|states: Seq<Parser<'src>>, ends: Seq<int>, dends: Seq<nat>|
                script_reads(&self, states, ends, dends, r.0.items@) && (surely_stmt_at(
                    self.toks(),
                    body_start(&self),
                ) ==> states.len() > 0 && states[0].position() == body_start(&self)) && (forall|i: int|
                    0 <= i < dends.len() ==> #[trigger] dends[i] <= r.1@.len()) && (chain_stmt_at(
                    self.toks(),
                    self.src_bytes(),
                    body_start(&self),
                ) && r.1@.len() == self.diags().len() ==> states.len() > 0 && states[0].position()
                    == body_start(&self)),
    {
        let mut p = self;
        if p._config.language == LanguageKind::PhxCode {
            // Code files start in code mode: no opening tag is expected.
        } else if p.at(TokenKind::PhpOpen) || p.at(TokenKind::EchoOpen) {
            p.bump();
        }
        let start_open = p.current_span();
        let ghost body = p;
        let ghost mut states: Seq<Parser<'src>> = Seq::empty();
        let ghost mut ends: Seq<int> = Seq::empty();
        let ghost mut dends: Seq<nat> = Seq::empty();
        proof {
            body.lemma_cur_token_at();
        }
        let mut items: Vec<Stmt> = Vec::new();
        while !p.eof()
            invariant
                p.wf(),
                self.evolves_to(&p),
                p.diags().len() == self.diags().len() ==> forall|i: int|
                    0 <= i < items@.len() ==> stmt_expr_grouped(#[trigger] items@[i]),
                body.wf(),
                body.toks() == self.toks(),
                body.source() == self.source(),
                body.position() == body_start(&self),
                body.evolves_to(&p),
                start_open == body.cur_token().span,
                body.cur_token() == token_at(self.toks(), body_start(&self)),
                script_reads(&self, states, ends, dends, items@),
                forall|i: int| 0 <= i < ends.len() ==> #[trigger] ends[i] <= p.position(),
                forall|i: int| 0 <= i < dends.len() ==> #[trigger] dends[i] <= p.diags().len(),
                body.diags() == self.diags(),
                chain_script(self.toks(), self.src_bytes(), body_start(&self) as nat) ==> p.diags()
                    == self.diags() && chain_script(self.toks(), self.src_bytes(), p.position()),
                chain_stmt_at(self.toks(), self.src_bytes(), body_start(&self)) ==> (states.len() > 0
                    && states[0].position() == body_start(&self)) || (p == body && states.len() == 0)
                    || p.diags().len() > self.diags().len(),
                surely_stmt_at(self.toks(), body_start(&self)) ==> (states.len() > 0 && states[0].position()
                    == body_start(&self)) || (p == body && states.len() == 0),
            ensures
                p.wf(),
                self.evolves_to(&p),
                p.diags().len() == self.diags().len() ==> forall|i: int|
                    0 <= i < items@.len() ==> stmt_expr_grouped(#[trigger] items@[i]),
                start_open == body.cur_token().span,
                body.cur_token() == token_at(self.toks(), body_start(&self)),
                script_reads(&self, states, ends, dends, items@),
                forall|i: int| 0 <= i < dends.len() ==> #[trigger] dends[i] <= p.diags().len(),
                chain_stmt_at(self.toks(), self.src_bytes(), body_start(&self)) ==> (states.len() > 0
                    && states[0].position() == body_start(&self)) || p.diags().len() > self.diags().len(),
                chain_script(self.toks(), self.src_bytes(), body_start(&self) as nat) ==> p.diags()
                    == self.diags(),
                surely_stmt_at(self.toks(), body_start(&self)) ==> states.len() > 0
                    && states[0].position() == body_start(&self),
            decreases p.rem(),
        {
            let ghost it = p;
            let p0 = p.cursor();
            while p.at(TokenKind::HtmlChunk)
                invariant
                    p.wf(),
                    it.evolves_to(&p),
                    it.cur_kind() != TokenKind::HtmlChunk ==> p == it,
                    self.evolves_to(&it),
                    chain_script(self.toks(), self.src_bytes(), body_start(&self) as nat) ==> p.diags()
                        == self.diags() && chain_script(self.toks(), self.src_bytes(), p.position()),
                decreases p.rem(),
            {
                let ghost b = p;
                proof {
                    b.lemma_cur_token_at();
                    Self::lemma_evolves_trans(&self, &it, &b);
                    Self::lemma_same_source_bytes(&self, &b);
                }
                p.bump();
                proof {
                    Self::lemma_evolves_trans(&it, &b, &p);
                    Self::lemma_advances_moves(&b, &p);
                    if chain_script(self.toks(), self.src_bytes(), body_start(&self) as nat) {
                        assert(chain_script(self.toks(), self.src_bytes(), b.position()));
                        assert(p.position() == next_position(self.toks(), b.position()));
                        assert(chain_script(self.toks(), self.src_bytes(), p.position()));
                    }
                }
            }
            if p.at(TokenKind::PhpOpen) || p.at(TokenKind::PhpClose) {
                let ghost b = p;
                proof {
                    b.lemma_cur_token_at();
                }
                p.bump();
                proof {
                    Self::lemma_advances_moves(&b, &p);
                    Self::lemma_evolves_trans(&it, &b, &p);
                    Self::lemma_evolves_trans(&self, &it, &p);
                    Self::lemma_progress(&it, &p);
                }
                continue;
            }
            if p.eof() {
                proof {
                    Self::lemma_evolves_trans(&self, &it, &p);
                }
                break;
            }
            let ghost b1 = p;
            proof {
                Self::lemma_evolves_trans(&body, &it, &b1);
                b1.lemma_cur_token_at();
                Self::lemma_same_source_bytes(&self, &b1);
            }
            match p.parse_stmt() {
                Some(stmt) => {
                    let ghost items_before = items@;
                    items.push(stmt);
                    proof {
                        Self::lemma_advances_moves(&b1, &p);
                        states = states.push(b1);
                        ends = ends.push(p.position() as int);
                        dends = dends.push(p.diags().len());
                        assert(forall|i: int| 0 <= i < items_before.len() ==> items@[i] == items_before[i]);
                        assert(script_reads(&self, states, ends, dends, items@));
                    }
                },
                None => {
                    let ghost b2 = p;
                    if p.at(TokenKind::PhpOpen) || p.at(TokenKind::PhpClose) {
                        p.bump();
                    } else {
                        let sp = p.current_span();
                        p.recover_one_token(
                            Diagnostic::error(
                                ParseDiagnosticCode::UnexpectedToken,
                                sp,
                                "unexpected token at top level",
                            ),
                        );
                    }
                    proof {
                        Self::lemma_evolves_trans(&b1, &b2, &p);
                    }
                },
            }
            proof {
                Self::lemma_evolves_trans(&it, &b1, &p);
                Self::lemma_evolves_trans(&self, &it, &p);
            }
            if p.cursor() == p0 {
                break;
            }
            proof {
                Self::lemma_progress(&it, &p);
            }
        }
        let end_span = match items.last() {
            Some(last) => last.span(),
            None => start_open,
        };
        let script = Script { items, span: Span { start: start_open.start, end: end_span.end } };
        proof {
            assert(script_reads(&self, states, ends, dends, script.items@) && (surely_stmt_at(
                self.toks(),
                body_start(&self),
            ) ==> states.len() > 0 && states[0].position() == body_start(&self)) && (forall|i: int|
                0 <= i < dends.len() ==> #[trigger] dends[i] <= p.diagnostics@.len()) && (chain_stmt_at(
                self.toks(),
                self.src_bytes(),
                body_start(&self),
            ) && p.diagnostics@.len() == self.diags().len() ==> states.len() > 0 && states[0].position()
                == body_start(&self)));
            assert forall|i: int| 0 <= i < self.diags().len() implies #[trigger] p.diagnostics@[i]
                == self.diags()[i] by {
                assert(p.diags()[i] == self.diags()[i]);
            }
        }
        let ghost items_g = script.items@;
        let ghost diags_g = p.diagnostics@;
        let res = (script, p.diagnostics);
        proof {
            assert(res.0.items@ == items_g);
            assert(res.1@ == diags_g);
            assert(exists|st: Seq<Parser<'src>>, en: Seq<int>, de: Seq<nat>|
                script_reads(&self, st, en, de, res.0.items@) && (surely_stmt_at(
                    self.toks(),
                    body_start(&self),
                ) ==> st.len() > 0 && st[0].position() == body_start(&self)) && (forall|i: int|
                    0 <= i < de.len() ==> #[trigger] de[i] <= res.1@.len()) && (chain_stmt_at(
                    self.toks(),
                    self.src_bytes(),
                    body_start(&self),
                ) && res.1@.len() == self.diags().len() ==> st.len() > 0 && st[0].position()
                    == body_start(&self))) by {
                assert(script_reads(&self, states, ends, dends, res.0.items@));
            }
        }
        res
    }

    /// Starts a parse of `tokens`, which are the tokens of `src`.
    pub fn new(
        src: &'src str,
        tokens: &'src [Token],
        language: LanguageKind,
        strictness: Strictness,
    ) -> (p: Self)
        requires
            tokens@.len() > 0,
            tokens@[tokens@.len() - 1].kind == TokenKind::Eof,
            spans_within(tokens@, src.spec_bytes().len()),
        ensures
            p.wf(),
            p.toks() == tokens@,
            p.source() == src@,
            p.config() == PhynixConfig::spec_new(language, strictness),
            p.diags() == Seq::<Diagnostic>::empty(),
            p.position() == skip_trivia_from(tokens@, 0),
    {
        let bytes = src.as_bytes();
        let config = PhynixConfig::new(language, strictness);
        let mut parser = Parser {
            src,
            bytes,
            tokens,
            len: tokens.len(),
            pos: 0,
            cur: 0,
            diagnostics: Vec::new(),
            _config: config,
        };
        proof {
            lemma_skip_trivia_bounds(tokens@, 0);
        }
        parser.skip_trivia_and_cache_from_start();
        parser
    }

    fn skip_trivia_and_cache_from_start(&mut self)
        requires
            old(self).len == old(self).tokens@.len(),
            old(self).len > 0,
            old(self).tokens@[old(self).len - 1].kind == TokenKind::Eof,
            old(self).pos == 0,
            old(self).bytes@ == old(self).src.spec_bytes(),
            spans_within(old(self).tokens@, old(self).bytes@.len()),
        ensures
            final(self).wf(),
            old(self).same_but_cursor(final(self)),
            final(self).pos == skip_trivia_from(old(self).tokens@, 0),
            final(self).len == old(self).len,
    {
        let ghost toks = self.tokens@;
        while self.pos < self.len && self.tokens[self.pos].kind.is_trivia()
            invariant
                self.len == self.tokens@.len(),
                self.tokens@ == toks,
                self.src == old(self).src,
                self.bytes == old(self).bytes,
                self.diagnostics == old(self).diagnostics,
                self._config == old(self)._config,
                self.pos <= self.len,
                skip_trivia_from(toks, self.pos as int) == skip_trivia_from(toks, 0),
            decreases self.len - self.pos,
        {
            self.pos = self.pos + 1;
        }
        let idx = if self.pos >= self.len {
            self.len - 1
        } else {
            self.pos
        };
        self.cur = idx;
    }

    /// Consumes the current token and moves to the next non-trivia one.
    fn advance(&mut self) -> (t: &'src Token)
        requires
            old(self).wf(),
        ensures
            final(self).wf(),
            *t == old(self).cur_token(),
            old(self).same_but_cursor(final(self)),
            old(self).evolves_to(final(self)),
            old(self).cur_kind() != TokenKind::Eof ==> old(self).advances_to(final(self)),
            old(self).position() < old(self).toks().len() ==> old(self).advances_to(final(self)),
            final(self).position() == skip_trivia_from(
                old(self).toks(),
                if old(self).position() < old(self).toks().len() {
                    (old(self).position() + 1) as int
                } else {
                    old(self).position() as int
                },
            ),
            final(self).cur_index() == if final(self).position() < final(self).toks().len() {
                final(self).position()
            } else {
                (final(self).toks().len() - 1) as nat
            },
    {
        let toks: &'src [Token] = self.tokens;
        let token = &toks[self.cur];
        if self.pos < self.len {
            self.pos = self.pos + 1;
        }
        let ghost start = self.pos;
        proof {
            lemma_skip_trivia_bounds(self.tokens@, start as int);
        }
        while self.pos < self.len && self.tokens[self.pos].kind.is_trivia()
            invariant
                self.len == self.tokens@.len(),
                self.tokens@ == old(self).tokens@,
                self.tokens == old(self).tokens,
                self.src == old(self).src,
                self.bytes == old(self).bytes,
                self.diagnostics == old(self).diagnostics,
                self._config == old(self)._config,
                self.cur == old(self).cur,
                start <= self.pos <= self.len,
                skip_trivia_from(self.tokens@, self.pos as int) == skip_trivia_from(
                    self.tokens@,
                    start as int,
                ),
            decreases self.len - self.pos,
        {
            self.pos = self.pos + 1;
        }
        let idx = if self.pos >= self.len {
            self.len - 1
        } else {
            self.pos
        };
        self.cur = idx;
        token
    }

    /// The kind of the current token.
    fn kind(&self) -> (k: TokenKind)
        requires
            self.wf(),
        ensures
            k == self.cur_kind(),
    {
        self.tokens[self.cur].kind
    }

    /// The span of the current token.
    fn current_span(&self) -> (s: Span)
        requires
            self.wf(),
        ensures
            s == self.cur_token().span,
    {
        self.tokens[self.cur].span
    }

    /// The kind of the `n`-th non-trivia token counted from the cursor
    /// (`Eof` past the end of the stream).
    pub fn nth_kind(&self, n: usize) -> (k: TokenKind)
        requires
            self.wf(),
        ensures
            k == nth_kind_from(self.toks(), self.position() as int, n as nat),
    {
        let ghost n0 = n;
        let mut m = n;
        let mut i = self.pos;
        while i < self.len
            invariant
                self.wf(),
                n0 == n,
                self.pos <= i <= self.len,
                nth_kind_from(self.tokens@, i as int, m as nat) == nth_kind_from(
                    self.tokens@,
                    self.pos as int,
                    n0 as nat,
                ),
            decreases self.len - i,
        {
            let k = self.tokens[i].kind;
            if !k.is_trivia() {
                if m == 0 {
                    assert(nth_kind_from(self.tokens@, i as int, 0) == k);
                    assert(k == nth_kind_from(self.tokens@, self.pos as int, n0 as nat));
                    return k;
                }
                m = m - 1;
            }
            i = i + 1;
        }
        TokenKind::Eof
    }

    /// Whether the current token is of kind `k`.
    pub fn at(&self, k: TokenKind) -> (b: bool)
        requires
            self.wf(),
        ensures
            b == (self.cur_kind() == k),
    {
        self.kind() == k
    }

    /// Whether the `n`-th non-trivia token from the cursor is of kind `k`.
    pub fn at_nth(&self, n: usize, k: TokenKind) -> (b: bool)
        requires
            self.wf(),
        ensures
            b == (nth_kind_from(self.toks(), self.position() as int, n as nat) == k),
    {
        self.nth_kind(n) == k
    }

    /// Whether the current token is of one of the kinds `ks`.
    pub fn at_any(&self, ks: &[TokenKind]) -> (b: bool)
        requires
            self.wf(),
        ensures
            b == ks@.contains(self.cur_kind()),
    {
        let k = self.kind();
        let mut i: usize = 0;
        while i < ks.len()
            invariant
                i <= ks@.len(),
                k == self.cur_kind(),
                forall|j: int| 0 <= j < i ==> ks@[j] != k,
            decreases ks.len() - i,
        {
            if ks[i] == k {
                return true;
            }
            i = i + 1;
        }
        proof {
            if ks@.contains(k) {
                let j = choose|j: int| 0 <= j < ks@.len() && ks@[j] == k;
                assert(ks@[j] != k);
            }
        }
        false
    }

    /// Consumes the current token if it is of kind `k`; says whether it did.
    pub fn eat(&mut self, k: TokenKind) -> (b: bool)
        requires
            old(self).wf(),
        ensures
            final(self).wf(),
            b == (old(self).cur_kind() == k),
            b ==> final(self).position() == next_position(old(self).toks(), old(self).position()),
            !b ==> *final(self) == *old(self),
            old(self).same_but_cursor(final(self)),
            old(self).evolves_to(final(self)),
            b && k != TokenKind::Eof ==> old(self).advances_to(final(self)),
    {
        if self.at(k) {
            let _ = self.bump();
            true
        } else {
            false
        }
    }

    /// Consumes the current token and returns it.
    pub fn bump(&mut self) -> (t: &'src Token)
        requires
            old(self).wf(),
        ensures
            final(self).wf(),
            *t == old(self).cur_token(),
            old(self).same_but_cursor(final(self)),
            old(self).evolves_to(final(self)),
            old(self).cur_kind() != TokenKind::Eof ==> old(self).advances_to(final(self)),
            old(self).position() < old(self).toks().len() ==> old(self).advances_to(final(self)),
            final(self).position() == next_position(old(self).toks(), old(self).position()),
    {
        self.advance()
    }

    /// Whether the current token is the end of the stream.
    pub fn eof(&self) -> (b: bool)
        requires
            self.wf(),
        ensures
            b == (self.cur_kind() == TokenKind::Eof),
    {
        self.at(TokenKind::Eof)
    }

    /// Consumes and returns the current token if it is of kind `kind`.
    pub fn expect(&mut self, kind: TokenKind) -> (r: Option<&'src Token>)
        requires
            old(self).wf(),
        ensures
            final(self).wf(),
            r is Some == (old(self).cur_kind() == kind),
            r is Some ==> *r->0 == old(self).cur_token() && final(self).position() == next_position(
                old(self).toks(),
                old(self).position(),
            ),
            r is None ==> *final(self) == *old(self),
            old(self).same_but_cursor(final(self)),
            old(self).evolves_to(final(self)),
            r is Some && kind != TokenKind::Eof ==> old(self).advances_to(final(self)),
    {
        if self.at(kind) {
            Some(self.bump())
        } else {
            None
        }
    }

    /// Records a diagnostic.
    pub fn error(&mut self, diagnostic: Diagnostic)
        requires
            old(self).wf(),
        ensures
            final(self).wf(),
            final(self).diags() == old(self).diags().push(diagnostic),
            final(self).toks() == old(self).toks(),
            final(self).source() == old(self).source(),
            final(self).config() == old(self).config(),
            final(self).position() == old(self).position(),
            final(self).cur_index() == old(self).cur_index(),
            final(self).rem() == old(self).rem(),
            old(self).evolves_to(final(self)),
    {
        self.diagnostics.push(diagnostic);
    }

    /// Records `diagnostic` and skips one token unless at the end.
    pub fn recover_one_token(&mut self, diagnostic: Diagnostic)
        requires
            old(self).wf(),
        ensures
            final(self).wf(),
            final(self).diags() == old(self).diags().push(diagnostic),
            old(self).evolves_to(final(self)),
            old(self).cur_kind() != TokenKind::Eof ==> old(self).advances_to(final(self))
                && final(self).position() == next_position(old(self).toks(), old(self).position()),
            old(self).cur_kind() == TokenKind::Eof ==> final(self).position() == old(self).position()
                && final(self).cur_index() == old(self).cur_index(),
    {
        self.error(diagnostic);
        if !self.eof() {
            let _ = self.advance();
        }
    }

    /// Skips tokens until the current one is of a kind in `sync` or is the
    /// end of the stream.
    pub fn recover_to_any(&mut self, sync: &[TokenKind])
        requires
            old(self).wf(),
        ensures
            final(self).wf(),
            old(self).same_but_cursor(final(self)),
            old(self).evolves_to(final(self)),
            final(self).cur_kind() == TokenKind::Eof || sync@.contains(final(self).cur_kind()),
            old(self).cur_kind() == TokenKind::Eof || sync@.contains(old(self).cur_kind())
                ==> *final(self) == *old(self),
            !(old(self).cur_kind() == TokenKind::Eof || sync@.contains(old(self).cur_kind()))
                ==> old(self).advances_to(final(self)),
            skipped_outside(
                old(self).toks(),
                old(self).position() as int,
                final(self).position() as int,
                sync@,
            ),
    {
        let ghost start = *self;
        while !self.eof() && !self.at_any(sync)
            invariant
                self.wf(),
                start.same_but_cursor(self),
                start.evolves_to(self),
                *self != start ==> !(start.cur_kind() == TokenKind::Eof || sync@.contains(
                    start.cur_kind(),
                )),
                *self == start || start.advances_to(self),
                skipped_outside(self.tokens@, start.pos as int, self.pos as int, sync@),
            decreases self.rem(),
        {
            let ghost before = *self;
            let _ = self.advance();
            proof {
                Self::lemma_evolves_trans(&start, &before, self);
                assert forall|i: int|
                    start.pos <= i < self.pos implies spec_is_trivia(
                        #[trigger] self.tokens@[i].kind,
                    ) || (self.tokens@[i].kind != TokenKind::Eof && !sync@.contains(
                        self.tokens@[i].kind,
                    )) by {
                    if i > before.pos {
                        lemma_skip_trivia_skips(self.tokens@, before.pos + 1, i);
                    }
                }
            }
        }
    }

    /// Records `diagnostic`, then skips tokens as `recover_to_any` does.
    pub fn error_and_recover(&mut self, diagnostic: Diagnostic, sync: &[TokenKind])
        requires
            old(self).wf(),
        ensures
            final(self).wf(),
            final(self).diags() == old(self).diags().push(diagnostic),
            old(self).evolves_to(final(self)),
            final(self).cur_kind() == TokenKind::Eof || sync@.contains(final(self).cur_kind()),
            !(old(self).cur_kind() == TokenKind::Eof || sync@.contains(old(self).cur_kind()))
                ==> old(self).advances_to(final(self)),
            skipped_outside(
                old(self).toks(),
                old(self).position() as int,
                final(self).position() as int,
                sync@,
            ),
    {
        self.error(diagnostic);
        let ghost mid = *self;
        self.recover_to_any(sync);
        proof {
            Self::lemma_evolves_trans(old(self), &mid, self);
        }
    }

    /// The last diagnostic reported is an error with `code` at `span`.
    pub open spec fn last_error_is(&self, code: ParseDiagnosticCode, span: Span) -> bool {
        &&& self.diags().len() > 0
        &&& self.diags().last().code == code
        &&& self.diags().last().span == span
    }

    /// `new` is `self` with one more diagnostic: an error with `code` at `span`.
    pub open spec fn pushed_error(&self, new: &Self, code: ParseDiagnosticCode, span: Span) -> bool {
        &&& new.diags().len() == self.diags().len() + 1
        &&& new.diags().last().code == code
        &&& new.diags().last().span == span
    }

    proof fn lemma_cur_span_in_bounds(&self)
        requires
            self.wf(),
        ensures
            self.cur_token().span.start <= self.cur_token().span.end <= self.bytes@.len(),
    {
        assert(self.tokens@[self.cur as int].span.start <= self.tokens@[self.cur as int].span.end);
    }

    /// Whether the cursor may be moved back to position `p`.
    pub closed spec fn can_reset_to(&self, p: nat) -> bool {
        &&& p <= self.pos
        &&& p < self.len ==> !spec_is_trivia(self.tokens@[p as int].kind)
    }

    pub proof fn lemma_can_reset(before: &Self, now: &Self)
        requires
            before.wf(),
            now.wf(),
            before.evolves_to(now),
        ensures
            now.can_reset_to(before.position()),
    {
    }

    /// Moves the cursor back to `save`, a position that this parse held
    /// earlier, and makes the token there the current one.
    fn rewind(&mut self, save: usize)
        requires
            old(self).wf(),
            old(self).can_reset_to(save as nat),
        ensures
            final(self).wf(),
            old(self).same_but_cursor(final(self)),
            final(self).position() == save,
    {
        self.pos = save;
        let idx = if save >= self.len {
            self.len - 1
        } else {
            save
        };
        self.cur = idx;
    }

    /// A state whose cursor was moved back to where it was in `b`, with
    /// the diagnostics of a later state `a`, is a later state of `b`.
    pub proof fn lemma_rewound(b: &Self, a: &Self, c: &Self)
        requires
            b.wf(),
            a.wf(),
            c.wf(),
            b.evolves_to(a),
            a.same_but_cursor(c),
            c.position() == b.position(),
        ensures
            b.evolves_to(c),
    {
    }

    /// Makes the token at the cursor the current one.
    fn skip_trivia_and_cache(&mut self)
        requires
            old(self).wf(),
        ensures
            final(self).wf(),
            old(self).same_but_cursor(final(self)),
            old(self).evolves_to(final(self)),
            final(self).position() == old(self).position(),
            final(self).cur_index() == if final(self).position() < final(self).toks().len() {
                final(self).position()
            } else {
                (final(self).toks().len() - 1) as nat
            },
            *final(self) == *old(self),
    {
        let idx = if self.pos >= self.len {
            self.len - 1
        } else {
            self.pos
        };
        self.cur = idx;
    }

    /// The token at the cursor, if the cursor is not past the end.
    pub fn peek(&mut self) -> (r: Option<&'src Token>)
        requires
            old(self).wf(),
        ensures
            *final(self) == *old(self),
            r == if old(self).position() < old(self).toks().len() {
                Some(&old(self).toks()[old(self).position() as int])
            } else {
                None
            },
    {
        if self.pos < self.len {
            let toks: &'src [Token] = self.tokens;
            Some(&toks[self.pos])
        } else {
            None
        }
    }

    /// The source text that `token` covers.
    pub fn slice(&self, token: &Token) -> (s: &'src str)
        requires
            self.wf(),
            is_char_boundary(self.src_bytes(), token.span.start as int),
            is_char_boundary(self.src_bytes(), token.span.end as int),
            token.span.start <= token.span.end <= self.src_bytes().len(),
        ensures
            s.spec_bytes() == self.src_bytes().subrange(
                token.span.start as int,
                token.span.end as int,
            ),
    {
        str_range(self.src, token.span.start as usize, token.span.end as usize)
    }

    /// Whether the source text of `span` equals `lit` up to ASCII case.
    fn text_eq_ignore_ascii_case(&self, span: Span, lit: &str) -> (b: bool)
        requires
            self.wf(),
            span.start <= span.end <= self.bytes@.len(),
        ensures
            b == (ascii_lower_seq(self.bytes@.subrange(span.start as int, span.end as int))
                == lit.spec_bytes()),
    {
        let lit_bytes = lit.as_bytes();
        let start = span.start as usize;
        let end = span.end as usize;
        let ghost text = self.bytes@.subrange(start as int, end as int);
        if end - start != lit_bytes.len() {
            proof {
                assert(ascii_lower_seq(text).len() == text.len());
                assert(text.len() == end - start);
                assert(ascii_lower_seq(text).len() != lit_bytes@.len());
                assert(lit_bytes@ == lit.spec_bytes());
                assert(text == self.bytes@.subrange(span.start as int, span.end as int));
                assert(ascii_lower_seq(text) != lit.spec_bytes());
            }
            return false;
        }
        let mut i: usize = 0;
        while i < lit_bytes.len()
            invariant
                self.wf(),
                start <= end <= self.bytes@.len(),
                end - start == lit_bytes@.len(),
                lit_bytes@ == lit.spec_bytes(),
                start == span.start,
                end == span.end,
                text == self.bytes@.subrange(start as int, end as int),
                i <= lit_bytes@.len(),
                forall|j: int| 0 <= j < i ==> ascii_lower(#[trigger] text[j]) == lit_bytes@[j],
            decreases lit_bytes.len() - i,
        {
            if to_ascii_lower(self.bytes[start + i]) != lit_bytes[i] {
                proof {
                    assert(ascii_lower_seq(text)[i as int] != lit_bytes@[i as int]);
                    assert(ascii_lower_seq(text) != lit.spec_bytes());
                }
                return false;
            }
            i = i + 1;
        }
        proof {
            assert(ascii_lower_seq(text) =~= lit_bytes@);
        }
        true
    }

    /// Whether the source text of `span` is exactly `lit`.
    fn span_text_eq(&self, span: Span, lit: &str) -> (b: bool)
        requires
            self.wf(),
        ensures
            b == (span.start <= span.end <= self.src_bytes().len() && self.src_bytes().subrange(
                span.start as int,
                span.end as int,
            ) == lit.spec_bytes()),
    {
        let lit_bytes = lit.as_bytes();
        let start = span.start as usize;
        let end = span.end as usize;
        if !(start <= end && end <= self.bytes.len()) {
            return false;
        }
        let ghost text = self.bytes@.subrange(start as int, end as int);
        if end - start != lit_bytes.len() {
            proof {
                assert(text.len() != lit_bytes@.len());
                assert(lit_bytes@ == lit.spec_bytes());
                assert(text == self.src_bytes().subrange(span.start as int, span.end as int));
            }
            return false;
        }
        let mut i: usize = 0;
        while i < lit_bytes.len()
            invariant
                self.wf(),
                start <= end <= self.bytes@.len(),
                end - start == lit_bytes@.len(),
                lit_bytes@ == lit.spec_bytes(),
                text == self.bytes@.subrange(start as int, end as int),
                start == span.start,
                end == span.end,
                i <= lit_bytes@.len(),
                forall|j: int| 0 <= j < i ==> #[trigger] text[j] == lit_bytes@[j],
            decreases lit_bytes.len() - i,
        {
            if self.bytes[start + i] != lit_bytes[i] {
                proof {
                    assert(text[i as int] == self.bytes@[start + i]);
                    assert(text[i as int] != lit.spec_bytes()[i as int]);
                    assert(text != lit.spec_bytes());
                    assert(text == self.src_bytes().subrange(span.start as int, span.end as int));
                }
                return false;
            }
            i = i + 1;
        }
        proof {
            assert(text =~= lit_bytes@);
        }
        true
    }

    /// Whether `k` is a keyword that may also serve as a name.
    fn is_ident_like_kw(&self, k: TokenKind) -> (b: bool)
        ensures
            b == spec_is_ident_like_kw(k),
    {
        is_ident_like_kw_kind(k)
    }

    /// The span of the last non-trivia token behind the cursor.
    fn prev_span(&self) -> (r: Option<Span>)
        requires
            self.wf(),
        ensures
            r == match last_non_trivia_before(self.toks(), self.position() as int) {
                Some(j) => Some(self.toks()[j].span),
                None => None,
            },
    {
        let mut i = self.pos;
        while i > 0
            invariant
                self.wf(),
                i <= self.len,
                last_non_trivia_before(self.toks(), self.position() as int)
                    == last_non_trivia_before(self.toks(), i as int),
            decreases i,
        {
            i = i - 1;
            if !self.tokens[i].kind.is_trivia() {
                return Some(self.tokens[i].span);
            }
        }
        None
    }

    /// Consumes a token of kind `kind` and sets `span_end` to its end;
    /// otherwise reports that such a token was expected at `span_end`.
    pub fn expect_or_err(&mut self, kind: TokenKind, span_end: &mut u32) -> (b: bool)
        requires
            old(self).wf(),
        ensures
            final(self).wf(),
            old(self).evolves_to(final(self)),
            b == (old(self).cur_kind() == kind),
            b ==> *final(span_end) == old(self).cur_token().span.end && old(self).same_but_cursor(
                final(self),
            ) && final(self).position() == next_position(old(self).toks(), old(self).position()),
            b && kind != TokenKind::Eof ==> old(self).advances_to(final(self)),
            !b ==> *final(span_end) == *old(span_end) && old(self).pushed_error(
                final(self),
                ParseDiagnosticCode::ExpectedToken(kind),
                Span::at_spec(*old(span_end)),
            ) && final(self).position() == old(self).position() && final(self).cur_index() == old(self).cur_index(),
            !b ==> final(self).diags().last().severity == Severity::Error && final(self).diags().last().message@
                == spec_default_message(ParseDiagnosticCode::ExpectedToken(kind)),
    {
        if let Some(token) = self.expect(kind) {
            *span_end = token.span.end;
            true
        } else {
            self.error(
                Diagnostic::error_from_code(
                    ParseDiagnosticCode::expected_token(kind),
                    Span::at(*span_end),
                ),
            );
            false
        }
    }

    /// Consumes a name: an identifier or a keyword that may serve as one.
    pub fn expect_ident(&mut self) -> (r: Option<&'src Token>)
        requires
            old(self).wf(),
        ensures
            final(self).wf(),
            old(self).same_but_cursor(final(self)),
            old(self).evolves_to(final(self)),
            r is Some == (old(self).cur_kind() == TokenKind::Ident || spec_is_ident_like_kw(
                old(self).cur_kind(),
            )),
            r is Some ==> *r->0 == old(self).cur_token() && old(self).advances_to(final(self))
                && final(self).position() == next_position(old(self).toks(), old(self).position()),
            r is None ==> *final(self) == *old(self),
    {
        let k = self.kind();
        if k == TokenKind::Ident {
            Some(self.bump())
        } else if self.is_ident_like_kw(k) {
            Some(self.bump())
        } else {
            None
        }
    }

    /// Like `expect_ident`, and on success sets `last_end` to the end of the
    /// name; otherwise reports that a name was expected at `last_end`.
    pub fn expect_ident_or_err(&mut self, last_end: &mut u32) -> (r: Option<&'src Token>)
        requires
            old(self).wf(),
        ensures
            final(self).wf(),
            old(self).evolves_to(final(self)),
            r is Some == (old(self).cur_kind() == TokenKind::Ident || spec_is_ident_like_kw(
                old(self).cur_kind(),
            )),
            r is Some ==> *r->0 == old(self).cur_token() && old(self).advances_to(final(self))
                && old(self).same_but_cursor(final(self)) && *final(last_end) == r->0.span.end
                && final(self).position() == next_position(old(self).toks(), old(self).position()),
            r is None ==> *final(last_end) == *old(last_end) && old(self).pushed_error(
                final(self),
                ParseDiagnosticCode::ExpectedIdent,
                Span::at_spec(*old(last_end)),
            ) && final(self).position() == old(self).position() && final(self).cur_index() == old(self).cur_index(),
    {
        if let Some(tok) = self.expect_ident() {
            *last_end = tok.span.end;
            Some(tok)
        } else {
            self.error(
                Diagnostic::error_from_code(
                    ParseDiagnosticCode::ExpectedIdent,
                    Span::at(*last_end),
                ),
            );
            None
        }
    }

    /// A name as an AST node: the consumed name, or an empty name at
    /// `last_end` after reporting that one was expected.
    pub fn expect_ident_ast_or_err(&mut self, last_end: &mut u32) -> (id: Ident)
        requires
            old(self).wf(),
        ensures
            final(self).wf(),
            old(self).evolves_to(final(self)),
            (old(self).cur_kind() == TokenKind::Ident || spec_is_ident_like_kw(
                old(self).cur_kind(),
            )) ==> id.span == old(self).cur_token().span && old(self).advances_to(final(self))
                && *final(last_end) == id.span.end && old(self).same_but_cursor(final(self))
                && final(self).position() == next_position(old(self).toks(), old(self).position()),
            !(old(self).cur_kind() == TokenKind::Ident || spec_is_ident_like_kw(
                old(self).cur_kind(),
            )) ==> id.span == Span::at_spec(*old(last_end)) && *final(last_end) == *old(
                last_end,
            ) && old(self).pushed_error(
                final(self),
                ParseDiagnosticCode::ExpectedIdent,
                Span::at_spec(*old(last_end)),
            ),
    {
        if let Some(tok) = self.expect_ident_or_err(last_end) {
            Ident { span: tok.span }
        } else {
            Ident { span: Span::at(*last_end) }
        }
    }

    /// Returns `res` if it holds a value; otherwise reports an error with
    /// `code` at `span` and returns `span`.
    pub fn parse_or_err<T>(&mut self, code: ParseDiagnosticCode, span: Span, res: Option<T>) -> (r:
        Result<T, Span>)
        requires
            old(self).wf(),
        ensures
            final(self).wf(),
            old(self).evolves_to(final(self)),
            res is Some ==> r == Ok::<T, Span>(res->0) && *final(self) == *old(self),
            res is None ==> r == Err::<T, Span>(span) && old(self).pushed_error(final(self), code, span)
                && final(self).position() == old(self).position(),
    {
        match res {
            Some(v) => Ok(v),
            None => {
                self.error(Diagnostic::error_from_code(code, span));
                Err(span)
            },
        }
    }

    /// Reports an error with message `msg` at the current token.
    fn error_here(&mut self, msg: &str)
        requires
            old(self).wf(),
        ensures
            final(self).wf(),
            old(self).evolves_to(final(self)),
            final(self).position() == old(self).position(),
            final(self).cur_index() == old(self).cur_index(),
            old(self).pushed_error(
                final(self),
                ParseDiagnosticCode::UnexpectedToken,
                old(self).cur_token().span,
            ),
            final(self).diags().last().message@ == msg@,
    {
        let sp = self.current_span();
        self.error(Diagnostic::error(ParseDiagnosticCode::UnexpectedToken, sp, msg));
    }

    /// Reports an error with message `msg` at the current token, then skips
    /// to a token of a kind in `sync`.
    fn error_msg_and_recover(&mut self, msg: &str, sync: &[TokenKind])
        requires
            old(self).wf(),
        ensures
            final(self).wf(),
            old(self).evolves_to(final(self)),
            final(self).cur_kind() == TokenKind::Eof || sync@.contains(final(self).cur_kind()),
            old(self).pushed_error(
                final(self),
                ParseDiagnosticCode::UnexpectedToken,
                old(self).cur_token().span,
            ),
            final(self).diags().last().message@ == msg@,
            skipped_outside(
                old(self).toks(),
                old(self).position() as int,
                final(self).position() as int,
                sync@,
            ),
    {
        let sp = self.current_span();
        self.error_and_recover(Diagnostic::error(ParseDiagnosticCode::UnexpectedToken, sp, msg), sync);
    }

    /// Consumes a token of kind `kind`, or reports `msg` at the current one.
    fn expect_msg(&mut self, kind: TokenKind, msg: &str) -> (r: Option<&'src Token>)
        requires
            old(self).wf(),
        ensures
            final(self).wf(),
            old(self).evolves_to(final(self)),
            r is Some == (old(self).cur_kind() == kind),
            r is Some ==> *r->0 == old(self).cur_token() && old(self).same_but_cursor(final(self))
                && final(self).position() == next_position(old(self).toks(), old(self).position()),
            r is Some && kind != TokenKind::Eof ==> old(self).advances_to(final(self)),
            r is None ==> final(self).position() == old(self).position() && final(self).cur_index() == old(self).cur_index(),
            r is None ==> old(self).pushed_error(
                final(self),
                ParseDiagnosticCode::UnexpectedToken,
                old(self).cur_token().span,
            ) && final(self).diags().last().message@ == msg@,
    {
        if self.at(kind) {
            Some(self.bump())
        } else {
            self.error_here(msg);
            None
        }
    }

    /// Consumes a name, or reports `msg` at the current token.
    fn expect_ident_msg(&mut self, msg: &str) -> (r: Option<&'src Token>)
        requires
            old(self).wf(),
        ensures
            final(self).wf(),
            old(self).evolves_to(final(self)),
            r is Some == (old(self).cur_kind() == TokenKind::Ident || spec_is_ident_like_kw(
                old(self).cur_kind(),
            )),
            r is Some ==> *r->0 == old(self).cur_token() && old(self).advances_to(final(self))
                && old(self).same_but_cursor(final(self)) && final(self).position() == next_position(
                old(self).toks(),
                old(self).position(),
            ),
            r is None ==> final(self).position() == old(self).position() && final(self).cur_index() == old(self).cur_index(),
            r is None ==> old(self).pushed_error(
                final(self),
                ParseDiagnosticCode::UnexpectedToken,
                old(self).cur_token().span,
            ) && final(self).diags().last().message@ == msg@,
    {
        match self.expect_ident() {
            Some(t) => Some(t),
            None => {
                self.error_here(msg);
                None
            },
        }
    }

    /// Reports an error with `code`, `span` and message `msg`.
    fn error_span(&mut self, code: ParseDiagnosticCode, span: Span, msg: &str)
        requires
            old(self).wf(),
        ensures
            final(self).wf(),
            old(self).evolves_to(final(self)),
            old(self).pushed_error(final(self), code, span),
            final(self).diags().last().message@ == msg@,
            final(self).position() == old(self).position(),
            final(self).cur_index() == old(self).cur_index(),
    {
        self.error(Diagnostic::error(code, span, msg));
    }

    /// Consumes a closing token of kind `close` and returns its end; if it is
    /// missing, reports that and skips to `close` or a token in `sync`,
    /// consuming `close` if that is where it stopped.
    fn expect_closing_or_recover(&mut self, close: TokenKind, sync: &[TokenKind]) -> (r: Option<
        u32,
    >)
        requires
            old(self).wf(),
        ensures
            final(self).wf(),
            old(self).evolves_to(final(self)),
            old(self).cur_kind() == close ==> r == Some(old(self).cur_token().span.end) && old(
                self,
            ).same_but_cursor(final(self)) && final(self).position() == next_position(
                old(self).toks(),
                old(self).position(),
            ),
            old(self).cur_kind() != close ==> final(self).diags().len() > old(self).diags().len()
                && final(self).diags()[old(self).diags().len() as int].code
                == ParseDiagnosticCode::ExpectedToken(close) && final(self).diags()[old(
                self,
            ).diags().len() as int].span == old(self).cur_token().span && final(self).diags().len()
                == old(self).diags().len() + 1,
            old(self).cur_kind() != close && close != TokenKind::Eof && !sync@.contains(close)
                ==> r is None,
            r matches Some(e) ==> exists|j: int|
                0 <= j < old(self).toks().len() && (#[trigger] old(self).toks()[j]).kind == close
                    && old(self).toks()[j].span.end == e,
    {
        proof {
            self.lemma_cur_token_in_toks();
        }
        if let Some(t) = self.expect(close) {
            return Some(t.span.end);
        }
        let sp = self.current_span();
        self.error(Diagnostic::error_from_code(ParseDiagnosticCode::expected_token(close), sp));
        let ghost mid2 = *self;
        self.recover_to_any(sync);
        proof {
            Self::lemma_evolves_trans(old(self), &mid2, self);
        }
        let ghost mid3 = *self;
        proof {
            self.lemma_cur_token_in_toks();
        }
        let r = match self.expect(close) {
            Some(t) => Some(t.span.end),
            None => None,
        };
        proof {
            Self::lemma_evolves_trans(old(self), &mid3, self);
        }
        r
    }

    /// Consumes a token of kind `kind` if present, setting `end` to its end.
    fn eat_and_update_end(&mut self, kind: TokenKind, end: &mut u32)
        requires
            old(self).wf(),
        ensures
            final(self).wf(),
            old(self).same_but_cursor(final(self)),
            old(self).evolves_to(final(self)),
            old(self).cur_kind() == kind ==> *final(end) == old(self).cur_token().span.end,
            old(self).cur_kind() != kind ==> *final(end) == *old(end) && *final(self) == *old(self),
    {
        if let Some(t) = self.expect(kind) {
            *end = t.span.end;
        }
    }
}

} // verus!
